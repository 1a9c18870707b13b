//! The ways in which parsing a request can fail.

use crate::text::push_char;
use vstd::prelude::*;
use vstd::string::*;

verus! {

/// Why a request was rejected.
#[derive(Debug, Clone, PartialEq, Eq)]
pub enum ParseError {
    /// The method is not one of the nine known methods, or is too long.
    InvalidMethod(String),
    /// The version is neither `HTTP/1.0` nor `HTTP/1.1`.
    InvalidVersion(String),
    /// The request target is empty or too long.
    InvalidUri(String),
    /// `Content-Length` is no decimal number, or two of them differ.
    InvalidContentLength(String),
    /// A chunk size is empty or no hexadecimal number that fits.
    InvalidChunkSize(String),
    /// A byte that the grammar does not allow at its place.
    UnexpectedByte {
        /// What the grammar allows there.
        expected: &'static str,
        /// The byte that was read.
        found: u8,
    },
    /// A header name or value is longer than configured.
    HeaderTooLarge,
    /// The body is larger than configured.
    BodyTooLarge,
    /// There are more headers than configured.
    TooManyHeaders,
    /// The input ended before the request did.
    IncompleteRequest,
}

/// A [`ParseError`] with its texts as sequences of characters.
pub enum ParseErrorView {
    InvalidMethod(Seq<char>),
    InvalidVersion(Seq<char>),
    InvalidUri(Seq<char>),
    InvalidContentLength(Seq<char>),
    InvalidChunkSize(Seq<char>),
    UnexpectedByte { expected: Seq<char>, found: u8 },
    HeaderTooLarge,
    BodyTooLarge,
    TooManyHeaders,
    IncompleteRequest,
}

impl View for ParseError {
    type V = ParseErrorView;

    open spec fn view(&self) -> ParseErrorView {
        match self {
            ParseError::InvalidMethod(t) => ParseErrorView::InvalidMethod(t@),
            ParseError::InvalidVersion(t) => ParseErrorView::InvalidVersion(t@),
            ParseError::InvalidUri(t) => ParseErrorView::InvalidUri(t@),
            ParseError::InvalidContentLength(t) => ParseErrorView::InvalidContentLength(t@),
            ParseError::InvalidChunkSize(t) => ParseErrorView::InvalidChunkSize(t@),
            ParseError::UnexpectedByte { expected, found } => ParseErrorView::UnexpectedByte {
                expected: expected@,
                found: *found,
            },
            ParseError::HeaderTooLarge => ParseErrorView::HeaderTooLarge,
            ParseError::BodyTooLarge => ParseErrorView::BodyTooLarge,
            ParseError::TooManyHeaders => ParseErrorView::TooManyHeaders,
            ParseError::IncompleteRequest => ParseErrorView::IncompleteRequest,
        }
    }
}

/// The upper-case hexadecimal digit of a value below sixteen.
pub open spec fn hex_char(d: u8) -> char {
    if d < 10 {
        (0x30 + d) as u8 as char
    } else {
        (0x41 + d - 10) as u8 as char
    }
}

/// A byte as two upper-case hexadecimal digits.
pub open spec fn hex_pair(b: u8) -> Seq<char> {
    seq![hex_char(b / 16), hex_char(b % 16)]
}

/// The sentence that describes an error.
pub open spec fn message_text(e: ParseErrorView) -> Seq<char> {
    match e {
        ParseErrorView::InvalidMethod(t) => "invalid HTTP method: '"@ + t + "'"@,
        ParseErrorView::InvalidVersion(t) => "invalid HTTP version: '"@ + t + "'"@,
        ParseErrorView::InvalidUri(t) => "invalid request URI: '"@ + t + "'"@,
        ParseErrorView::InvalidContentLength(t) => "invalid Content-Length: '"@ + t + "'"@,
        ParseErrorView::InvalidChunkSize(t) => "invalid chunk size: '"@ + t + "'"@,
        ParseErrorView::UnexpectedByte { expected, found } => "unexpected byte 0x"@ + hex_pair(
            found,
        ) + " (expected "@ + expected + ")"@,
        ParseErrorView::HeaderTooLarge => "header exceeds maximum allowed size"@,
        ParseErrorView::BodyTooLarge => "body exceeds maximum allowed size"@,
        ParseErrorView::TooManyHeaders => "number of headers exceeds maximum"@,
        ParseErrorView::IncompleteRequest => "incomplete HTTP request"@,
    }
}

fn hex_digit_char(d: u8) -> (c: char)
    requires
        d < 16,
    ensures
        c == hex_char(d),
{
    if d < 10 {
        (0x30 + d) as char
    } else {
        (0x41 + d - 10) as char
    }
}

fn quoted(prefix: &str, payload: &str) -> (s: String)
    ensures
        s@ == prefix@ + payload@ + "'"@,
{
    let mut s = String::from_str(prefix);
    s.append(payload);
    s.append("'");
    s
}

impl ParseError {
    /// The error as a sentence for a person to read.
    pub fn to_string(&self) -> (s: String)
        ensures
            s@ == message_text(self@),
    {
        match self {
            ParseError::InvalidMethod(t) => quoted("invalid HTTP method: '", t.as_str()),
            ParseError::InvalidVersion(t) => quoted("invalid HTTP version: '", t.as_str()),
            ParseError::InvalidUri(t) => quoted("invalid request URI: '", t.as_str()),
            ParseError::InvalidContentLength(t) => quoted("invalid Content-Length: '", t.as_str()),
            ParseError::InvalidChunkSize(t) => quoted("invalid chunk size: '", t.as_str()),
            ParseError::UnexpectedByte { expected, found } => {
                let mut s = String::from_str("unexpected byte 0x");
                push_char(&mut s, hex_digit_char(*found / 16));
                push_char(&mut s, hex_digit_char(*found % 16));
                assert(s@ =~= "unexpected byte 0x"@ + hex_pair(*found));
                s.append(" (expected ");
                s.append(expected);
                s.append(")");
                s
            },
            ParseError::HeaderTooLarge => String::from_str("header exceeds maximum allowed size"),
            ParseError::BodyTooLarge => String::from_str("body exceeds maximum allowed size"),
            ParseError::TooManyHeaders => String::from_str("number of headers exceeds maximum"),
            ParseError::IncompleteRequest => String::from_str("incomplete HTTP request"),
        }
    }
}

} // verus!
