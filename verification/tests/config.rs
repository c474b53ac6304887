use aegis::config::{
    read_size, ConfigError, ServerConfig, SizeError, DEFAULT_MAX_PAYLOAD_SIZE,
    DEFAULT_READ_BUFFER_SIZE,
};

#[test]
fn test_config_defaults() {
    let config = ServerConfig::from_settings(None, None, None).unwrap();

    assert_eq!(config.addr, "127.0.0.1:8080");
    assert_eq!(config.read_buffer_size, 8192);
    assert_eq!(config.max_payload_size, 1048576);
}

#[test]
fn test_config_custom_values() {
    let config =
        ServerConfig::from_settings(Some("127.0.0.1:8000"), Some("1048576"), Some("8192")).unwrap();

    assert_eq!(config.addr, "127.0.0.1:8000");
    assert_eq!(config.read_buffer_size, 8192);
    assert_eq!(config.max_payload_size, 1048576);
}

#[test]
fn defaults_have_their_documented_values() {
    assert_eq!(DEFAULT_MAX_PAYLOAD_SIZE, 1024 * 1024);
    assert_eq!(DEFAULT_READ_BUFFER_SIZE, 8192);
}

#[test]
fn a_read_buffer_size_that_is_no_number_is_refused() {
    let r = ServerConfig::from_settings(Some("127.0.0.1:8000"), Some("1048576"), Some("1 MB"));
    assert_eq!(r.err(), Some(ConfigError::InvalidReadBufferSize));
}

#[test]
fn a_payload_limit_that_is_no_number_is_refused() {
    let r = ServerConfig::from_settings(None, Some("one_gigabyte"), Some("8192"));
    assert_eq!(r.err(), Some(ConfigError::InvalidMaxPayloadSize));
}

#[test]
fn a_zero_read_buffer_size_is_refused() {
    let r = ServerConfig::from_settings(None, None, Some("0"));
    assert_eq!(r.err(), Some(ConfigError::ZeroReadBufferSize));
}

#[test]
fn a_zero_payload_limit_is_refused() {
    let r = ServerConfig::from_settings(None, Some("0"), None);
    assert_eq!(r.err(), Some(ConfigError::ZeroMaxPayloadSize));
}

#[test]
fn the_payload_limit_is_looked_at_first() {
    let r = ServerConfig::from_settings(None, Some("x"), Some("0"));
    assert_eq!(r.err(), Some(ConfigError::InvalidMaxPayloadSize));
}

#[test]
fn size_settings_are_not_trimmed() {
    assert_eq!(read_size(Some(" 5"), 1), Err(SizeError::NotANumber));
    assert_eq!(read_size(Some("5"), 1), Ok(5));
    assert_eq!(read_size(Some("+5"), 1), Ok(5));
    assert_eq!(read_size(Some("0"), 1), Err(SizeError::Zero));
    assert_eq!(read_size(Some(""), 1), Err(SizeError::NotANumber));
    assert_eq!(read_size(None, 17), Ok(17));
}

#[test]
fn custom_sizes_are_taken() {
    let config = ServerConfig::from_settings(None, Some("10"), Some("3")).unwrap();
    assert_eq!(config.max_payload_size, 10);
    assert_eq!(config.read_buffer_size, 3);
    assert_eq!(config.addr, "127.0.0.1:8080");
}
