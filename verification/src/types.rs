//! The parsed request and the closed sets of methods and versions.

use crate::error::{ParseError, ParseErrorView};
use crate::text::{
    bytes_contain_lowered, bytes_eq, bytes_eq_ignore_case, bytes_parse_decimal, contains_lowered,
    eq_ignore_case, lossy_string, parse_decimal, trim_whitespace, trimmed, utf8_lossy, utf8_text,
};
use vstd::prelude::*;
use vstd::string::*;
use vstd::utf8::*;

verus! {

/// The request methods that the parser knows.
#[derive(Debug, Clone, Copy, PartialEq, Eq, Hash)]
pub enum HttpMethod {
    GET,
    HEAD,
    POST,
    PUT,
    DELETE,
    CONNECT,
    OPTIONS,
    TRACE,
    PATCH,
}

/// The token that names a method on the wire.
pub open spec fn method_text(m: HttpMethod) -> Seq<char> {
    match m {
        HttpMethod::GET => "GET"@,
        HttpMethod::HEAD => "HEAD"@,
        HttpMethod::POST => "POST"@,
        HttpMethod::PUT => "PUT"@,
        HttpMethod::DELETE => "DELETE"@,
        HttpMethod::CONNECT => "CONNECT"@,
        HttpMethod::OPTIONS => "OPTIONS"@,
        HttpMethod::TRACE => "TRACE"@,
        HttpMethod::PATCH => "PATCH"@,
    }
}

/// The method whose token `bytes` is, byte for byte.
pub open spec fn method_of(bytes: Seq<u8>) -> Option<HttpMethod> {
    if bytes == encode_utf8(method_text(HttpMethod::GET)) {
        Some(HttpMethod::GET)
    } else if bytes == encode_utf8(method_text(HttpMethod::HEAD)) {
        Some(HttpMethod::HEAD)
    } else if bytes == encode_utf8(method_text(HttpMethod::POST)) {
        Some(HttpMethod::POST)
    } else if bytes == encode_utf8(method_text(HttpMethod::PUT)) {
        Some(HttpMethod::PUT)
    } else if bytes == encode_utf8(method_text(HttpMethod::DELETE)) {
        Some(HttpMethod::DELETE)
    } else if bytes == encode_utf8(method_text(HttpMethod::CONNECT)) {
        Some(HttpMethod::CONNECT)
    } else if bytes == encode_utf8(method_text(HttpMethod::OPTIONS)) {
        Some(HttpMethod::OPTIONS)
    } else if bytes == encode_utf8(method_text(HttpMethod::TRACE)) {
        Some(HttpMethod::TRACE)
    } else if bytes == encode_utf8(method_text(HttpMethod::PATCH)) {
        Some(HttpMethod::PATCH)
    } else {
        None
    }
}

impl HttpMethod {
    /// Recognizes a method token: an exact match, or `InvalidMethod` with
    /// the token as text.
    pub fn from_bytes(bytes: &[u8]) -> (r: Result<HttpMethod, ParseError>)
        ensures
            match r {
                Ok(m) => method_of(bytes@) == Some(m),
                Err(e) => method_of(bytes@).is_none() && e@ == ParseErrorView::InvalidMethod(
                    utf8_lossy(bytes@),
                ),
            },
    {
        if bytes_eq(bytes, "GET".as_bytes()) {
            Ok(HttpMethod::GET)
        } else if bytes_eq(bytes, "HEAD".as_bytes()) {
            Ok(HttpMethod::HEAD)
        } else if bytes_eq(bytes, "POST".as_bytes()) {
            Ok(HttpMethod::POST)
        } else if bytes_eq(bytes, "PUT".as_bytes()) {
            Ok(HttpMethod::PUT)
        } else if bytes_eq(bytes, "DELETE".as_bytes()) {
            Ok(HttpMethod::DELETE)
        } else if bytes_eq(bytes, "CONNECT".as_bytes()) {
            Ok(HttpMethod::CONNECT)
        } else if bytes_eq(bytes, "OPTIONS".as_bytes()) {
            Ok(HttpMethod::OPTIONS)
        } else if bytes_eq(bytes, "TRACE".as_bytes()) {
            Ok(HttpMethod::TRACE)
        } else if bytes_eq(bytes, "PATCH".as_bytes()) {
            Ok(HttpMethod::PATCH)
        } else {
            Err(ParseError::InvalidMethod(lossy_string(bytes)))
        }
    }

    /// The method's token.
    pub fn as_str(&self) -> (r: &'static str)
        ensures
            r@ == method_text(*self),
    {
        match self {
            HttpMethod::GET => "GET",
            HttpMethod::HEAD => "HEAD",
            HttpMethod::POST => "POST",
            HttpMethod::PUT => "PUT",
            HttpMethod::DELETE => "DELETE",
            HttpMethod::CONNECT => "CONNECT",
            HttpMethod::OPTIONS => "OPTIONS",
            HttpMethod::TRACE => "TRACE",
            HttpMethod::PATCH => "PATCH",
        }
    }
}

/// The protocol versions that the parser accepts.
#[derive(Debug, Clone, Copy, PartialEq, Eq, Hash)]
pub enum HttpVersion {
    /// HTTP/1.0
    Http10,
    /// HTTP/1.1
    Http11,
}

/// The literal that names a version on the wire.
pub open spec fn version_text(v: HttpVersion) -> Seq<char> {
    match v {
        HttpVersion::Http10 => "HTTP/1.0"@,
        HttpVersion::Http11 => "HTTP/1.1"@,
    }
}

/// The version whose literal `bytes` is, byte for byte.
pub open spec fn version_of(bytes: Seq<u8>) -> Option<HttpVersion> {
    if bytes == encode_utf8(version_text(HttpVersion::Http10)) {
        Some(HttpVersion::Http10)
    } else if bytes == encode_utf8(version_text(HttpVersion::Http11)) {
        Some(HttpVersion::Http11)
    } else {
        None
    }
}

impl HttpVersion {
    /// Recognizes a version literal: an exact match, or `InvalidVersion`
    /// with the bytes as text.
    pub fn from_bytes(bytes: &[u8]) -> (r: Result<HttpVersion, ParseError>)
        ensures
            match r {
                Ok(v) => version_of(bytes@) == Some(v),
                Err(e) => version_of(bytes@).is_none() && e@ == ParseErrorView::InvalidVersion(
                    utf8_lossy(bytes@),
                ),
            },
    {
        if bytes_eq(bytes, "HTTP/1.0".as_bytes()) {
            Ok(HttpVersion::Http10)
        } else if bytes_eq(bytes, "HTTP/1.1".as_bytes()) {
            Ok(HttpVersion::Http11)
        } else {
            Err(ParseError::InvalidVersion(lossy_string(bytes)))
        }
    }

    /// The version's literal.
    pub fn as_str(&self) -> (r: &'static str)
        ensures
            r@ == version_text(*self),
    {
        match self {
            HttpVersion::Http10 => "HTTP/1.0",
            HttpVersion::Http11 => "HTTP/1.1",
        }
    }
}

/// One header field.
#[derive(Debug, Clone, PartialEq, Eq)]
pub struct Header {
    /// The field name, in the case in which it was received.
    pub name: String,
    /// The field value, without the optional whitespace around it.
    pub value: String,
}

/// A [`Header`] as two sequences of characters.
pub struct HeaderView {
    pub name: Seq<char>,
    pub value: Seq<char>,
}

impl View for Header {
    type V = HeaderView;

    open spec fn view(&self) -> HeaderView {
        HeaderView { name: self.name@, value: self.value@ }
    }
}

/// The views of a list of headers, in order.
pub open spec fn header_views(headers: Seq<Header>) -> Seq<HeaderView> {
    Seq::new(headers.len(), |i: int| headers[i]@)
}

/// Whether a header name is `key` up to the case of ASCII letters.
pub open spec fn name_matches(name: Seq<char>, key: Seq<char>) -> bool {
    eq_ignore_case(encode_utf8(name), encode_utf8(key))
}

/// The value of the first header named `key`.
pub open spec fn first_value(headers: Seq<HeaderView>, key: Seq<char>) -> Option<Seq<char>>
    decreases headers.len(),
{
    if headers.len() == 0 {
        None
    } else if name_matches(headers.first().name, key) {
        Some(headers.first().value)
    } else {
        first_value(headers.drop_first(), key)
    }
}

/// The values of the headers named `key`, in the order of the headers.
pub open spec fn values_named(headers: Seq<HeaderView>, key: Seq<char>) -> Seq<Seq<char>>
    decreases headers.len(),
{
    if headers.len() == 0 {
        Seq::empty()
    } else if name_matches(headers.last().name, key) {
        values_named(headers.drop_last(), key).push(headers.last().value)
    } else {
        values_named(headers.drop_last(), key)
    }
}

/// The views of a list of texts, in order.
pub open spec fn text_views(texts: Seq<&str>) -> Seq<Seq<char>> {
    Seq::new(texts.len(), |i: int| texts[i]@)
}

/// Whether a `Transfer-Encoding` value names the chunked coding.
pub open spec fn names_chunked(value: Seq<char>) -> bool {
    contains_lowered(encode_utf8(value), encode_utf8("chunked"@))
}

/// The length that a `Content-Length` value declares.
pub open spec fn declared_length(value: Seq<char>) -> Option<usize> {
    parse_decimal(encode_utf8(trim_whitespace(value)))
}

/// A parsed request.
#[derive(Debug, Clone, PartialEq, Eq)]
pub struct HttpRequest {
    /// The request method.
    pub method: HttpMethod,
    /// The request target.
    pub uri: String,
    /// The protocol version.
    pub version: HttpVersion,
    /// The header fields, in the order in which they arrived.
    pub headers: Vec<Header>,
    /// The body, where there is one.
    pub body: Option<Vec<u8>>,
}

/// An [`HttpRequest`] over sequences.
pub struct RequestView {
    pub method: HttpMethod,
    pub uri: Seq<char>,
    pub version: HttpVersion,
    pub headers: Seq<HeaderView>,
    pub body: Option<Seq<u8>>,
}

impl View for HttpRequest {
    type V = RequestView;

    open spec fn view(&self) -> RequestView {
        RequestView {
            method: self.method,
            uri: self.uri@,
            version: self.version,
            headers: header_views(self.headers@),
            body: match self.body {
                Some(b) => Some(b@),
                None => None,
            },
        }
    }
}

/// The value of the first of `headers` whose name is `name` up to the case
/// of ASCII letters.
pub fn first_header_value<'a>(headers: &'a Vec<Header>, name: &str) -> (r: Option<&'a str>)
    ensures
        r.is_some() == first_value(header_views(headers@), name@).is_some(),
        r matches Some(s) ==> Some(s@) == first_value(header_views(headers@), name@),
{
    let key = name.as_bytes();
    let ghost all = header_views(headers@);
    let mut i: usize = 0;
    assert(all.skip(0) =~= all);
    while i < headers.len()
        invariant
            i <= headers.len(),
            all == header_views(headers@),
            key@ == encode_utf8(name@),
            first_value(all, name@) == first_value(all.skip(i as int), name@),
        decreases headers.len() - i,
    {
        let h = &headers[i];
        proof {
            assert(all.skip(i as int).first() == h@);
            assert(all.skip(i as int).drop_first() =~= all.skip(i + 1));
        }
        if bytes_eq_ignore_case(h.name.as_str().as_bytes(), key) {
            return Some(h.value.as_str());
        }
        i += 1;
    }
    None
}

impl HttpRequest {
    /// The body as text, where it is well-formed UTF-8.
    pub fn body_as_str(&self) -> (r: Option<&str>)
        ensures
            r.is_some() == (self@.body.is_some() && valid_utf8(self@.body.unwrap())),
            r matches Some(s) ==> s@ == decode_utf8(self@.body.unwrap()),
    {
        match &self.body {
            Some(b) => utf8_text(b.as_slice()),
            None => None,
        }
    }

    /// The body as text, with U+FFFD in place of what is not UTF-8.
    pub fn body_as_lossy_string(&self) -> (r: Option<String>)
        ensures
            r.is_some() == self@.body.is_some(),
            r matches Some(s) ==> s@ == utf8_lossy(self@.body.unwrap()),
    {
        match &self.body {
            Some(b) => Some(lossy_string(b.as_slice())),
            None => None,
        }
    }

    /// The body's bytes.
    pub fn body_bytes(&self) -> (r: Option<&[u8]>)
        ensures
            r.is_some() == self@.body.is_some(),
            r matches Some(b) ==> b@ == self@.body.unwrap(),
    {
        match &self.body {
            Some(b) => Some(b.as_slice()),
            None => None,
        }
    }

    /// The value of the first header whose name is `name` up to the case
    /// of ASCII letters.
    pub fn header_value(&self, name: &str) -> (r: Option<&str>)
        ensures
            r.is_some() == first_value(self@.headers, name@).is_some(),
            r matches Some(s) ==> Some(s@) == first_value(self@.headers, name@),
    {
        first_header_value(&self.headers, name)
    }

    /// The values of all headers whose name is `name` up to the case of
    /// ASCII letters, in the order of the headers.
    pub fn header_values(&self, name: &str) -> (r: Vec<&str>)
        ensures
            text_views(r@) == values_named(self@.headers, name@),
    {
        let key = name.as_bytes();
        let mut found: Vec<&str> = Vec::new();
        let mut i: usize = 0;
        assert(self@.headers.take(0) =~= Seq::empty());
        assert(text_views(found@) =~= Seq::empty());
        while i < self.headers.len()
            invariant
                i <= self.headers.len(),
                key@ == encode_utf8(name@),
                text_views(found@) == values_named(self@.headers.take(i as int), name@),
            decreases self.headers.len() - i,
        {
            let h = &self.headers[i];
            proof {
                assert(self@.headers.take(i + 1).last() == h@);
                assert(self@.headers.take(i + 1).drop_last() =~= self@.headers.take(i as int));
            }
            if bytes_eq_ignore_case(h.name.as_str().as_bytes(), key) {
                let ghost before = found@;
                found.push(h.value.as_str());
                assert(text_views(found@) =~= text_views(before).push(h.value@));
            }
            i += 1;
        }
        assert(self@.headers.take(i as int) =~= self@.headers);
        found
    }

    /// The length that the first `Content-Length` header declares, where
    /// it is a decimal number.
    pub fn content_length(&self) -> (r: Option<usize>)
        ensures
            r == match first_value(self@.headers, "content-length"@) {
                Some(v) => declared_length(v),
                None => None,
            },
    {
        match self.header_value("content-length") {
            Some(v) => bytes_parse_decimal(trimmed(v).as_bytes()),
            None => None,
        }
    }

    /// Whether the first `Transfer-Encoding` header names the chunked
    /// coding.
    pub fn is_chunked(&self) -> (r: bool)
        ensures
            r == match first_value(self@.headers, "transfer-encoding"@) {
                Some(v) => names_chunked(v),
                None => false,
            },
    {
        match self.header_value("transfer-encoding") {
            Some(v) => bytes_contain_lowered(v.as_bytes(), "chunked".as_bytes()),
            None => false,
        }
    }
}

} // verus!
