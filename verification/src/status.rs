//! Response status codes and their reason phrases.

use vstd::prelude::*;

verus! {

/// The response statuses the server can answer with.
#[derive(Debug, Clone, Copy, PartialEq, Eq, Structural)]
pub enum HttpStatus {
    Okay,
    Created,
    Accepted,
    NoContent,
    BadRequest,
    Forbidden,
    NotFound,
    PayloadTooLarge,
    InternalServerError,
    NotImplemented,
}

/// The numeric code of a status.
pub open spec fn status_code(status: HttpStatus) -> u16 {
    match status {
        HttpStatus::Okay => 200,
        HttpStatus::Created => 201,
        HttpStatus::Accepted => 202,
        HttpStatus::NoContent => 204,
        HttpStatus::BadRequest => 400,
        HttpStatus::Forbidden => 403,
        HttpStatus::NotFound => 404,
        HttpStatus::PayloadTooLarge => 413,
        HttpStatus::InternalServerError => 500,
        HttpStatus::NotImplemented => 501,
    }
}

/// The reason phrase of a status.
pub open spec fn status_text(status: HttpStatus) -> Seq<char> {
    match status {
        HttpStatus::Okay => "OK"@,
        HttpStatus::Created => "Created"@,
        HttpStatus::Accepted => "Accepted"@,
        HttpStatus::NoContent => "No Content"@,
        HttpStatus::BadRequest => "Bad Request"@,
        HttpStatus::Forbidden => "Forbidden"@,
        HttpStatus::NotFound => "Not Found"@,
        HttpStatus::PayloadTooLarge => "Payload Too Large"@,
        HttpStatus::InternalServerError => "Internal Server Error"@,
        HttpStatus::NotImplemented => "Not Implemented"@,
    }
}

/// The three ASCII digits of a number between 100 and 999.
pub open spec fn three_digits(code: u16) -> Seq<u8> {
    seq![
        (48 + code / 100) as u8,
        (48 + (code / 10) % 10) as u8,
        (48 + code % 10) as u8,
    ]
}

impl HttpStatus {
    /// The numeric status code.
    pub fn code(&self) -> (code: u16)
        ensures
            code == status_code(*self),
            100 <= code <= 999,
    {
        match self {
            HttpStatus::Okay => 200,
            HttpStatus::Created => 201,
            HttpStatus::Accepted => 202,
            HttpStatus::NoContent => 204,
            HttpStatus::BadRequest => 400,
            HttpStatus::Forbidden => 403,
            HttpStatus::NotFound => 404,
            HttpStatus::PayloadTooLarge => 413,
            HttpStatus::InternalServerError => 500,
            HttpStatus::NotImplemented => 501,
        }
    }

    /// The status code as it stands in a status line: three ASCII digits.
    pub fn as_bytes(&self) -> (digits: &'static [u8])
        ensures
            digits@ == three_digits(status_code(*self)),
    {
        let digits: &'static [u8] = match self {
            HttpStatus::Okay => &[50u8, 48u8, 48u8],
            HttpStatus::Created => &[50u8, 48u8, 49u8],
            HttpStatus::Accepted => &[50u8, 48u8, 50u8],
            HttpStatus::NoContent => &[50u8, 48u8, 52u8],
            HttpStatus::BadRequest => &[52u8, 48u8, 48u8],
            HttpStatus::Forbidden => &[52u8, 48u8, 51u8],
            HttpStatus::NotFound => &[52u8, 48u8, 52u8],
            HttpStatus::PayloadTooLarge => &[52u8, 49u8, 51u8],
            HttpStatus::InternalServerError => &[53u8, 48u8, 48u8],
            HttpStatus::NotImplemented => &[53u8, 48u8, 49u8],
        };
        assert(digits@ =~= three_digits(status_code(*self)));
        digits
    }

    /// The reason phrase that follows the code in a status line.
    pub fn text(&self) -> (text: &'static str)
        ensures
            text@ == status_text(*self),
    {
        match self {
            HttpStatus::Okay => "OK",
            HttpStatus::Created => "Created",
            HttpStatus::Accepted => "Accepted",
            HttpStatus::NoContent => "No Content",
            HttpStatus::BadRequest => "Bad Request",
            HttpStatus::Forbidden => "Forbidden",
            HttpStatus::NotFound => "Not Found",
            HttpStatus::PayloadTooLarge => "Payload Too Large",
            HttpStatus::InternalServerError => "Internal Server Error",
            HttpStatus::NotImplemented => "Not Implemented",
        }
    }
}

} // verus!
