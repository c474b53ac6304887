//! Server configuration: bind address and the two size limits.

use vstd::prelude::*;
use crate::text::{decimal_size, parse_size};

verus! {

/// The payload limit used where none is set: one mebibyte.
pub const DEFAULT_MAX_PAYLOAD_SIZE: usize = 1048576;

/// The read buffer size used where none is set.
pub const DEFAULT_READ_BUFFER_SIZE: usize = 8192;

/// The configuration of a server. Both sizes are in bytes and positive.
#[derive(Debug, Clone)]
pub struct ServerConfig {
    /// The address to bind, as text.
    pub addr: String,
    pub max_payload_size: usize,
    pub read_buffer_size: usize,
}

/// Why a configuration was refused.
#[derive(Debug, Clone, Copy, PartialEq, Eq, Structural)]
pub enum ConfigError {
    /// The payload limit is not a number.
    InvalidMaxPayloadSize,
    /// The payload limit is zero.
    ZeroMaxPayloadSize,
    /// The read buffer size is not a number.
    InvalidReadBufferSize,
    /// The read buffer size is zero.
    ZeroReadBufferSize,
}

/// What is wrong with a size setting.
#[derive(Debug, Clone, Copy, PartialEq, Eq, Structural)]
pub enum SizeError {
    NotANumber,
    Zero,
}

/// The value of a size setting: the default where it is not set, else the
/// positive number that its text denotes.
pub open spec fn size_setting(text: Option<Seq<char>>, default: usize) -> Result<usize, SizeError> {
    match text {
        None => Ok(default),
        Some(t) => match decimal_size(t) {
            None => Err(SizeError::NotANumber),
            Some(n) => if n == 0 {
                Err(SizeError::Zero)
            } else {
                Ok(n)
            },
        },
    }
}

/// The address used where none is set.
pub open spec fn default_addr() -> Seq<char> {
    "127.0.0.1:8080"@
}

/// The view of an optional text.
pub open spec fn setting_view(text: Option<&str>) -> Option<Seq<char>> {
    match text {
        Some(t) => Some(t@),
        None => None,
    }
}

/// The configuration that the three settings give. The payload limit is
/// looked at first.
pub open spec fn settings_result(
    max_payload_size: Option<Seq<char>>,
    read_buffer_size: Option<Seq<char>>,
) -> Result<(usize, usize), ConfigError> {
    match size_setting(max_payload_size, DEFAULT_MAX_PAYLOAD_SIZE) {
        Err(SizeError::NotANumber) => Err(ConfigError::InvalidMaxPayloadSize),
        Err(SizeError::Zero) => Err(ConfigError::ZeroMaxPayloadSize),
        Ok(limit) => match size_setting(read_buffer_size, DEFAULT_READ_BUFFER_SIZE) {
            Err(SizeError::NotANumber) => Err(ConfigError::InvalidReadBufferSize),
            Err(SizeError::Zero) => Err(ConfigError::ZeroReadBufferSize),
            Ok(buffer) => Ok((limit, buffer)),
        },
    }
}

/// Reads one size setting.
pub fn read_size(text: Option<&str>, default: usize) -> (r: Result<usize, SizeError>)
    ensures
        r == size_setting(setting_view(text), default),
{
    match text {
        None => Ok(default),
        Some(t) => match parse_size(t) {
            None => Err(SizeError::NotANumber),
            Some(n) => if n == 0 {
                Err(SizeError::Zero)
            } else {
                Ok(n)
            },
        },
    }
}

impl ServerConfig {
    /// Both sizes are positive.
    pub open spec fn valid(&self) -> bool {
        self.max_payload_size > 0 && self.read_buffer_size > 0
    }

    /// Builds the configuration from the text of its settings, each of
    /// which may be absent. An absent setting takes its default; a size
    /// that is no number, or zero, is refused.
    pub fn from_settings(
        addr: Option<&str>,
        max_payload_size: Option<&str>,
        read_buffer_size: Option<&str>,
    ) -> (r: Result<ServerConfig, ConfigError>)
        ensures
            match settings_result(setting_view(max_payload_size), setting_view(read_buffer_size)) {
                Ok(sizes) => r.is_ok() && r.unwrap().max_payload_size == sizes.0
                    && r.unwrap().read_buffer_size == sizes.1 && r.unwrap().valid()
                    && r.unwrap().addr@ == match addr {
                    Some(a) => a@,
                    None => default_addr(),
                },
                Err(e) => r == Err::<ServerConfig, ConfigError>(e),
            },
    {
        let limit = match read_size(max_payload_size, DEFAULT_MAX_PAYLOAD_SIZE) {
            Ok(n) => n,
            Err(SizeError::NotANumber) => {
                return Err(ConfigError::InvalidMaxPayloadSize);
            },
            Err(SizeError::Zero) => {
                return Err(ConfigError::ZeroMaxPayloadSize);
            },
        };
        let buffer = match read_size(read_buffer_size, DEFAULT_READ_BUFFER_SIZE) {
            Ok(n) => n,
            Err(SizeError::NotANumber) => {
                return Err(ConfigError::InvalidReadBufferSize);
            },
            Err(SizeError::Zero) => {
                return Err(ConfigError::ZeroReadBufferSize);
            },
        };
        let addr = match addr {
            Some(a) => a.to_owned(),
            None => "127.0.0.1:8080".to_owned(),
        };
        Ok(ServerConfig { addr, max_payload_size: limit, read_buffer_size: buffer })
    }
}

} // verus!
