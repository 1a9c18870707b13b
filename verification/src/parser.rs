//! The incremental parser.

use crate::error::{ParseError, ParseErrorView};
use crate::machine::{
    any_chunked, body_copied, chunk_copied, chunk_sized, content_length_of, expected_in, framed,
    header_stored, initial, lengths_agree, request_of, reset_of, run, run_copies_body,
    run_copies_chunk,
    run_takes_first, status_of, step, step_chunked, step_headers, step_keeps_wf,
    step_request_line, Outcome, ParserView, State,
};
use crate::text::{
    bytes_contain_lowered, bytes_eq, bytes_eq_ignore_case, bytes_parse_decimal, bytes_parse_hex,
    encoding_is_injective, is_field_content_byte, is_hex_digit, is_tchar, lossy_string,
    trim_trailing_ows, trim_whitespace, trimmed,
};
use crate::types::{
    first_header_value, header_views, name_matches, names_chunked, Header, HttpMethod,
    HttpRequest, HttpVersion,
};
use vstd::prelude::*;
use vstd::slice::slice_subrange;
use vstd::string::*;
use vstd::utf8::*;

verus! {

/// The limits of a parser, in bytes but for the number of headers.
#[derive(Debug, Clone, Copy)]
pub struct ParserConfig {
    /// The longest method token.
    pub max_method_len: usize,
    /// The longest request target.
    pub max_uri_len: usize,
    /// The longest header name.
    pub max_header_name_len: usize,
    /// The longest header value, the whitespace before it aside.
    pub max_header_value_len: usize,
    /// The largest number of headers.
    pub max_headers_count: usize,
    /// The largest body, whichever way it is framed.
    pub max_body_size: usize,
}

/// The limits of a parser that was given none.
pub open spec fn default_limits() -> ParserConfig {
    ParserConfig {
        max_method_len: 16,
        max_uri_len: 8192,
        max_header_name_len: 256,
        max_header_value_len: 8192,
        max_headers_count: 128,
        max_body_size: 10485760,
    }
}

impl Default for ParserConfig {
    fn default() -> (c: ParserConfig)
        ensures
            c == default_limits(),
    {
        ParserConfig {
            max_method_len: 16,
            max_uri_len: 8192,
            max_header_name_len: 256,
            max_header_value_len: 8192,
            max_headers_count: 128,
            max_body_size: 10485760,
        }
    }
}

/// What a parser reports after it has been fed.
#[derive(Debug, Clone, Copy, PartialEq, Eq)]
pub enum ParseStatus {
    /// A whole request has been read. The number counts the bytes
    /// consumed over all feeds: what follows them belongs to the next
    /// request.
    Complete(usize),
    /// The request needs more bytes.
    Incomplete,
}

/// An incremental parser of one HTTP/1.1 request at a time.
pub struct Parser {
    state: State,
    config: ParserConfig,
    bytes_consumed: usize,
    method_buf: Vec<u8>,
    uri_buf: Vec<u8>,
    version_buf: Vec<u8>,
    header_name_buf: Vec<u8>,
    header_value_buf: Vec<u8>,
    body_buf: Vec<u8>,
    chunk_size_buf: Vec<u8>,
    method: Option<HttpMethod>,
    uri: Option<String>,
    version: Option<HttpVersion>,
    headers: Vec<Header>,
    body_remaining: usize,
    chunk_remaining: usize,
}

impl View for Parser {
    type V = ParserView;

    closed spec fn view(&self) -> ParserView {
        ParserView {
            state: self.state,
            config: self.config,
            consumed: self.bytes_consumed as nat,
            method_buf: self.method_buf@,
            uri_buf: self.uri_buf@,
            version_buf: self.version_buf@,
            header_name_buf: self.header_name_buf@,
            header_value_buf: self.header_value_buf@,
            body_buf: self.body_buf@,
            chunk_size_buf: self.chunk_size_buf@,
            method: self.method,
            uri: match self.uri {
                Some(t) => Some(t@),
                None => None,
            },
            version: self.version,
            headers: header_views(self.headers@),
            body_remaining: self.body_remaining,
            chunk_remaining: self.chunk_remaining,
        }
    }
}

/// Whether a step of the parser came out as the machine says: on success
/// the parser is what the machine gives, on failure the error is.
pub open spec fn agrees(r: Result<(), ParseError>, after: ParserView, expected: Outcome) -> bool {
    match r {
        Ok(_) => expected == Ok::<ParserView, ParseErrorView>(after),
        Err(e) => expected == Err::<ParserView, ParseErrorView>(e@),
    }
}

fn expected_text(state: State) -> (r: &'static str)
    ensures
        r@ == expected_in(state),
{
    match state {
        State::Method => "token character or SP in request method",
        State::Uri => "visible character or SP in request URI",
        State::Version => "version character or CR",
        State::VersionLf => "LF after version CR",
        State::HeaderStart => "header name character or CR",
        State::HeaderName => "header name character or ':'",
        State::HeaderValueOws => "header value character, OWS, or CR",
        State::HeaderValue => "header value character or CR",
        State::HeaderValueLf => "LF after header value CR",
        State::EndHeadersLf => "LF after end-of-headers CR",
        State::ChunkSize => "hex digit, ';', or CR in chunk size",
        State::ChunkSizeLf => "LF after chunk size CR",
        State::ChunkDataCr => "CR after chunk data",
        State::ChunkDataLf => "LF after chunk data CR",
        State::TrailerFieldLf => "LF after trailer field CR",
        State::TrailerEndLf => "LF after trailer-section end CR",
        _ => {
            let r = "";
            proof {
                reveal_strlit("");
                assert(r@ =~= Seq::<char>::empty());
            }
            r
        },
    }
}

fn unexpected_byte(state: State, found: u8) -> (e: ParseError)
    ensures
        e@ == (ParseErrorView::UnexpectedByte { expected: expected_in(state), found }),
{
    ParseError::UnexpectedByte { expected: expected_text(state), found }
}

fn any_header_chunked(headers: &Vec<Header>) -> (r: bool)
    ensures
        r == any_chunked(header_views(headers@)),
{
    let name = "transfer-encoding".as_bytes();
    let token = "chunked".as_bytes();
    let mut i: usize = 0;
    while i < headers.len()
        invariant
            i <= headers.len(),
            name@ == encode_utf8("transfer-encoding"@),
            token@ == encode_utf8("chunked"@),
            forall|k: int|
                0 <= k < i ==> !(name_matches(
                    (#[trigger] header_views(headers@)[k]).name,
                    "transfer-encoding"@,
                ) && names_chunked(header_views(headers@)[k].value)),
        decreases headers.len() - i,
    {
        let h = &headers[i];
        assert(header_views(headers@)[i as int] == h@);
        if bytes_eq_ignore_case(h.name.as_str().as_bytes(), name) && bytes_contain_lowered(
            h.value.as_str().as_bytes(),
            token,
        ) {
            return true;
        }
        i += 1;
    }
    false
}

fn lengths_all_agree(headers: &Vec<Header>, first: &str) -> (r: bool)
    ensures
        r == lengths_agree(header_views(headers@), first@),
{
    let name = "content-length".as_bytes();
    let wanted = trimmed(first).as_bytes();
    let mut i: usize = 0;
    while i < headers.len()
        invariant
            i <= headers.len(),
            name@ == encode_utf8("content-length"@),
            wanted@ == encode_utf8(trim_whitespace(first@)),
            forall|k: int|
                0 <= k < i && name_matches(
                    (#[trigger] header_views(headers@)[k]).name,
                    "content-length"@,
                ) ==> trim_whitespace(header_views(headers@)[k].value) == trim_whitespace(first@),
        decreases headers.len() - i,
    {
        let h = &headers[i];
        assert(header_views(headers@)[i as int] == h@);
        if bytes_eq_ignore_case(h.name.as_str().as_bytes(), name) {
            proof {
                encoding_is_injective(trim_whitespace(h.value@), trim_whitespace(first@));
            }
            if !bytes_eq(trimmed(h.value.as_str()).as_bytes(), wanted) {
                return false;
            }
        }
        i += 1;
    }
    true
}

fn declared_body_length(headers: &Vec<Header>) -> (r: Result<Option<usize>, ParseError>)
    ensures
        match r {
            Ok(n) => content_length_of(header_views(headers@)) == Ok::<
                Option<usize>,
                ParseErrorView,
            >(n),
            Err(e) => content_length_of(header_views(headers@)) == Err::<
                Option<usize>,
                ParseErrorView,
            >(e@),
        },
{
    match first_header_value(headers, "content-length") {
        None => Ok(None),
        Some(first) => {
            if !lengths_all_agree(headers, first) {
                return Err(
                    ParseError::InvalidContentLength(
                        String::from_str("multiple differing Content-Length values"),
                    ),
                );
            }
            let text = trimmed(first);
            match bytes_parse_decimal(text.as_bytes()) {
                None => Err(ParseError::InvalidContentLength(String::from_str(text))),
                Some(n) => Ok(Some(n)),
            }
        },
    }
}

impl Parser {
    /// Whether the parser is as it is between any two bytes.
    pub open spec fn wf(&self) -> bool {
        self@.wf()
    }

    /// A parser with the default limits.
    pub fn new() -> (p: Parser)
        ensures
            p@ == initial(default_limits()),
            p.wf(),
    {
        Parser::with_config(ParserConfig::default())
    }

    /// A parser with the given limits.
    pub fn with_config(config: ParserConfig) -> (p: Parser)
        ensures
            p@ == initial(config),
            p.wf(),
    {
        let p = Parser {
            state: State::Method,
            config,
            bytes_consumed: 0,
            method_buf: Vec::with_capacity(8),
            uri_buf: Vec::with_capacity(256),
            version_buf: Vec::with_capacity(8),
            header_name_buf: Vec::with_capacity(32),
            header_value_buf: Vec::with_capacity(128),
            body_buf: Vec::new(),
            chunk_size_buf: Vec::with_capacity(16),
            method: None,
            uri: None,
            version: None,
            headers: Vec::new(),
            body_remaining: 0,
            chunk_remaining: 0,
        };
        assert(p@.headers =~= Seq::empty());
        p
    }

    /// Makes the parser newborn again, with the limits it has.
    pub fn reset(&mut self)
        ensures
            final(self)@ == reset_of(old(self)@),
            final(self).wf(),
    {
        self.state = State::Method;
        self.bytes_consumed = 0;
        self.method_buf.clear();
        self.uri_buf.clear();
        self.version_buf.clear();
        self.header_name_buf.clear();
        self.header_value_buf.clear();
        self.body_buf.clear();
        self.chunk_size_buf.clear();
        self.method = None;
        self.uri = None;
        self.version = None;
        self.headers.clear();
        self.body_remaining = 0;
        self.chunk_remaining = 0;
        assert(self@.headers =~= Seq::empty());
    }

    fn on_request_line(&mut self, byte: u8) -> (r: Result<(), ParseError>)
        requires
            old(self).wf(),
        ensures
            agrees(r, final(self)@, step_request_line(old(self)@, byte)),
            r is Err ==> final(self)@ == old(self)@,
    {
        match self.state {
            State::Method => {
                if byte == 0x20 {
                    match HttpMethod::from_bytes(self.method_buf.as_slice()) {
                        Ok(m) => {
                            self.method = Some(m);
                            self.state = State::Uri;
                        },
                        Err(e) => {
                            return Err(e);
                        },
                    }
                } else if is_tchar(byte) {
                    if self.method_buf.len() >= self.config.max_method_len {
                        return Err(ParseError::InvalidMethod(String::from_str("method too long")));
                    }
                    self.method_buf.push(byte);
                } else {
                    return Err(unexpected_byte(State::Method, byte));
                }
            },
            State::Uri => {
                if byte == 0x20 {
                    if self.uri_buf.len() == 0 {
                        return Err(ParseError::InvalidUri(String::from_str("empty URI")));
                    }
                    self.uri = Some(lossy_string(self.uri_buf.as_slice()));
                    self.state = State::Version;
                } else if byte > 0x20 && byte != 0x7F {
                    if self.uri_buf.len() >= self.config.max_uri_len {
                        return Err(ParseError::InvalidUri(String::from_str("URI too long")));
                    }
                    self.uri_buf.push(byte);
                } else {
                    return Err(unexpected_byte(State::Uri, byte));
                }
            },
            State::Version => {
                if byte == 0x0D {
                    match HttpVersion::from_bytes(self.version_buf.as_slice()) {
                        Ok(v) => {
                            self.version = Some(v);
                            self.state = State::VersionLf;
                        },
                        Err(e) => {
                            return Err(e);
                        },
                    }
                } else if byte >= 0x20 && byte != 0x7F {
                    if self.version_buf.len() >= 16 {
                        return Err(
                            ParseError::InvalidVersion(String::from_str("version string too long")),
                        );
                    }
                    self.version_buf.push(byte);
                } else {
                    return Err(unexpected_byte(State::Version, byte));
                }
            },
            State::VersionLf => {
                if byte == 0x0A {
                    self.state = State::HeaderStart;
                } else {
                    return Err(unexpected_byte(State::VersionLf, byte));
                }
            },
            _ => {},
        }
        Ok(())
    }

    fn store_current_header(&mut self)
        ensures
            final(self)@ == header_stored(old(self)@),
    {
        let name = lossy_string(self.header_name_buf.as_slice());
        let value = lossy_string(self.header_value_buf.as_slice());
        let header = Header { name, value };
        let ghost before = self.headers@;
        self.headers.push(header);
        self.state = State::HeaderValueLf;
        assert(header_views(self.headers@) =~= header_views(before).push(header@));
    }

    fn determine_body_handling(&mut self) -> (r: Result<(), ParseError>)
        requires
            old(self).wf(),
            old(self)@.state is EndHeadersLf,
        ensures
            agrees(r, final(self)@, framed(old(self)@)),
            r is Err ==> final(self)@ == old(self)@,
    {
        if any_header_chunked(&self.headers) {
            self.chunk_size_buf.clear();
            self.state = State::ChunkSize;
            return Ok(());
        }
        match declared_body_length(&self.headers) {
            Err(e) => Err(e),
            Ok(None) => {
                self.state = State::Complete;
                Ok(())
            },
            Ok(Some(length)) => {
                if length > self.config.max_body_size {
                    return Err(ParseError::BodyTooLarge);
                }
                if length == 0 {
                    self.state = State::Complete;
                } else {
                    self.body_remaining = length;
                    self.body_buf.reserve(if length < 65536 {
                        length
                    } else {
                        65536
                    });
                    self.state = State::Body;
                }
                Ok(())
            },
        }
    }

    fn on_header(&mut self, byte: u8) -> (r: Result<(), ParseError>)
        requires
            old(self).wf(),
        ensures
            agrees(r, final(self)@, step_headers(old(self)@, byte)),
            r is Err ==> final(self)@ == old(self)@,
    {
        match self.state {
            State::HeaderStart => {
                if byte == 0x0D {
                    self.state = State::EndHeadersLf;
                } else if is_tchar(byte) {
                    if self.headers.len() >= self.config.max_headers_count {
                        return Err(ParseError::TooManyHeaders);
                    }
                    self.header_name_buf.clear();
                    self.header_name_buf.push(byte);
                    self.state = State::HeaderName;
                    assert(self.header_name_buf@ =~= seq![byte]);
                } else {
                    return Err(unexpected_byte(State::HeaderStart, byte));
                }
            },
            State::HeaderName => {
                if byte == 0x3A {
                    self.header_value_buf.clear();
                    self.state = State::HeaderValueOws;
                } else if is_tchar(byte) {
                    if self.header_name_buf.len() >= self.config.max_header_name_len {
                        return Err(ParseError::HeaderTooLarge);
                    }
                    self.header_name_buf.push(byte);
                } else {
                    return Err(unexpected_byte(State::HeaderName, byte));
                }
            },
            State::HeaderValueOws => {
                if byte == 0x20 || byte == 0x09 {
                } else if byte == 0x0D {
                    self.store_current_header();
                } else if is_field_content_byte(byte) {
                    self.header_value_buf.push(byte);
                    self.state = State::HeaderValue;
                } else {
                    return Err(unexpected_byte(State::HeaderValueOws, byte));
                }
            },
            State::HeaderValue => {
                if byte == 0x0D {
                    trim_trailing_ows(&mut self.header_value_buf);
                    self.store_current_header();
                } else if is_field_content_byte(byte) {
                    if self.header_value_buf.len() >= self.config.max_header_value_len {
                        return Err(ParseError::HeaderTooLarge);
                    }
                    self.header_value_buf.push(byte);
                } else {
                    return Err(unexpected_byte(State::HeaderValue, byte));
                }
            },
            State::HeaderValueLf => {
                if byte == 0x0A {
                    self.state = State::HeaderStart;
                } else {
                    return Err(unexpected_byte(State::HeaderValueLf, byte));
                }
            },
            State::EndHeadersLf => {
                if byte == 0x0A {
                    return self.determine_body_handling();
                } else {
                    return Err(unexpected_byte(State::EndHeadersLf, byte));
                }
            },
            _ => {},
        }
        Ok(())
    }

    fn apply_chunk_size(&mut self) -> (r: Result<(), ParseError>)
        requires
            old(self).wf(),
        ensures
            agrees(r, final(self)@, chunk_sized(old(self)@, old(self)@.state)),
            r is Err ==> final(self)@ == old(self)@,
    {
        if self.chunk_size_buf.len() == 0 {
            return Err(ParseError::InvalidChunkSize(String::from_str("empty chunk size")));
        }
        match bytes_parse_hex(self.chunk_size_buf.as_slice()) {
            None => Err(ParseError::InvalidChunkSize(lossy_string(self.chunk_size_buf.as_slice()))),
            Some(size) => {
                if size > self.config.max_body_size - self.body_buf.len() {
                    return Err(ParseError::BodyTooLarge);
                }
                self.chunk_remaining = size;
                Ok(())
            },
        }
    }

    fn on_chunked(&mut self, byte: u8) -> (r: Result<(), ParseError>)
        requires
            old(self).wf(),
        ensures
            agrees(r, final(self)@, step_chunked(old(self)@, byte)),
            r is Err ==> final(self)@ == old(self)@,
    {
        match self.state {
            State::ChunkSize => {
                if byte == 0x0D {
                    match self.apply_chunk_size() {
                        Ok(_) => {
                            self.state = State::ChunkSizeLf;
                        },
                        Err(e) => {
                            return Err(e);
                        },
                    }
                } else if byte == 0x3B {
                    match self.apply_chunk_size() {
                        Ok(_) => {
                            self.state = State::ChunkExt;
                        },
                        Err(e) => {
                            return Err(e);
                        },
                    }
                } else if is_hex_digit(byte) {
                    self.chunk_size_buf.push(byte);
                } else {
                    return Err(unexpected_byte(State::ChunkSize, byte));
                }
            },
            State::ChunkExt => {
                if byte == 0x0D {
                    self.state = State::ChunkSizeLf;
                }
            },
            State::ChunkSizeLf => {
                if byte == 0x0A {
                    if self.chunk_remaining == 0 {
                        self.state = State::TrailerStart;
                    } else {
                        self.state = State::ChunkData;
                    }
                } else {
                    return Err(unexpected_byte(State::ChunkSizeLf, byte));
                }
            },
            State::ChunkDataCr => {
                if byte == 0x0D {
                    self.state = State::ChunkDataLf;
                } else {
                    return Err(unexpected_byte(State::ChunkDataCr, byte));
                }
            },
            State::ChunkDataLf => {
                if byte == 0x0A {
                    self.chunk_size_buf.clear();
                    self.state = State::ChunkSize;
                } else {
                    return Err(unexpected_byte(State::ChunkDataLf, byte));
                }
            },
            State::TrailerStart => {
                if byte == 0x0D {
                    self.state = State::TrailerEndLf;
                } else {
                    self.state = State::TrailerField;
                }
            },
            State::TrailerField => {
                if byte == 0x0D {
                    self.state = State::TrailerFieldLf;
                }
            },
            State::TrailerFieldLf => {
                if byte == 0x0A {
                    self.state = State::TrailerStart;
                } else {
                    return Err(unexpected_byte(State::TrailerFieldLf, byte));
                }
            },
            State::TrailerEndLf => {
                if byte == 0x0A {
                    self.state = State::Complete;
                } else {
                    return Err(unexpected_byte(State::TrailerEndLf, byte));
                }
            },
            _ => {},
        }
        Ok(())
    }

    fn take_byte(&mut self, byte: u8) -> (r: Result<(), ParseError>)
        requires
            old(self).wf(),
            !(old(self)@.state is Body),
            !(old(self)@.state is ChunkData),
            !(old(self)@.state is Complete),
            old(self)@.consumed < usize::MAX,
        ensures
            agrees(r, final(self)@, step(old(self)@, byte)),
            final(self).wf(),
    {
        proof {
            step_keeps_wf(self@, byte);
        }
        self.bytes_consumed += 1;
        match self.state {
            State::Method | State::Uri | State::Version | State::VersionLf => self.on_request_line(
                byte,
            ),
            State::HeaderStart
            | State::HeaderName
            | State::HeaderValueOws
            | State::HeaderValue
            | State::HeaderValueLf
            | State::EndHeadersLf => self.on_header(byte),
            _ => self.on_chunked(byte),
        }
    }

    fn copy_body(&mut self, data: &[u8], from: usize) -> (r: Result<usize, ParseError>)
        requires
            old(self).wf(),
            old(self)@.state is Body,
            from < data@.len(),
            old(self)@.consumed + (data@.len() - from) <= usize::MAX,
        ensures
            r matches Ok(n) && 1 <= n <= data@.len() - from && n <= old(self)@.body_remaining
                && final(self)@ == body_copied(old(self)@, data@.subrange(from as int, from + n))
                && final(self).wf(),
    {
        let available: usize = data.len() - from;
        let to_copy: usize = if available < self.body_remaining {
            available
        } else {
            self.body_remaining
        };
        if to_copy > self.config.max_body_size - self.body_buf.len() {
            return Err(ParseError::BodyTooLarge);
        }
        self.body_buf.extend_from_slice(slice_subrange(data, from, from + to_copy));
        self.body_remaining -= to_copy;
        self.bytes_consumed += to_copy;
        if self.body_remaining == 0 {
            self.state = State::Complete;
        }
        proof {
            let bytes = data@.subrange(from as int, from + to_copy);
            assert(bytes.len() == to_copy);
            let want = body_copied(old(self)@, bytes);
            assert(self@.body_buf =~= want.body_buf);
            assert(self@.body_remaining == want.body_remaining);
            assert(self@.consumed == want.consumed);
            assert(self@.state == want.state);
            assert(self@ == want);
        }
        Ok(to_copy)
    }

    fn copy_chunk(&mut self, data: &[u8], from: usize) -> (r: Result<usize, ParseError>)
        requires
            old(self).wf(),
            old(self)@.state is ChunkData,
            from < data@.len(),
            old(self)@.consumed + (data@.len() - from) <= usize::MAX,
        ensures
            r matches Ok(n) && 1 <= n <= data@.len() - from && n <= old(self)@.chunk_remaining
                && final(self)@ == chunk_copied(old(self)@, data@.subrange(from as int, from + n))
                && final(self).wf(),
    {
        let available: usize = data.len() - from;
        let to_copy: usize = if available < self.chunk_remaining {
            available
        } else {
            self.chunk_remaining
        };
        if to_copy > self.config.max_body_size - self.body_buf.len() {
            return Err(ParseError::BodyTooLarge);
        }
        self.body_buf.extend_from_slice(slice_subrange(data, from, from + to_copy));
        self.chunk_remaining -= to_copy;
        self.bytes_consumed += to_copy;
        if self.chunk_remaining == 0 {
            self.state = State::ChunkDataCr;
        }
        proof {
            let bytes = data@.subrange(from as int, from + to_copy);
            assert(bytes.len() == to_copy);
            let want = chunk_copied(old(self)@, bytes);
            assert(self@.body_buf =~= want.body_buf);
            assert(self@.chunk_remaining == want.chunk_remaining);
            assert(self@.consumed == want.consumed);
            assert(self@.state == want.state);
            assert(self@ == want);
        }
        Ok(to_copy)
    }

    /// Feeds the next bytes of the stream to the parser.
    ///
    /// The parser does to itself what a run of the machine over `data`
    /// does: it takes byte after byte until the bytes end, the request is
    /// complete, or a byte fails. It then reports `Complete` with the
    /// number of bytes consumed over all feeds, `Incomplete`, or the
    /// failure. Bytes after the end of the request are left alone. After
    /// a failure the parser is of no use but to be reset.
    pub fn feed(&mut self, data: &[u8]) -> (r: Result<ParseStatus, ParseError>)
        requires
            old(self).wf(),
            old(self)@.consumed + data@.len() <= usize::MAX,
        ensures
            match r {
                Ok(status) => run(old(self)@, data@) == Ok::<ParserView, ParseErrorView>(
                    final(self)@,
                ) && status == status_of(final(self)@),
                Err(e) => run(old(self)@, data@) == Err::<ParserView, ParseErrorView>(e@),
            },
            final(self).wf(),
    {
        let mut i: usize = 0;
        assert(data@.skip(0) =~= data@);
        while i < data.len()
            invariant
                i <= data.len(),
                self.wf(),
                self@.consumed + (data@.len() - i) <= usize::MAX,
                run(old(self)@, data@) == run(self@, data@.skip(i as int)),
            decreases data.len() - i,
        {
            let ghost before = self@;
            let ghost rest = data@.skip(i as int);
            match self.state {
                State::Complete => {
                    return Ok(ParseStatus::Complete(self.bytes_consumed));
                },
                State::Body => {
                    match self.copy_body(data, i) {
                        Ok(n) => {
                            proof {
                                run_copies_body(before, rest, n as int);
                                assert(rest.take(n as int) =~= data@.subrange(i as int, i + n));
                                assert(rest.skip(n as int) =~= data@.skip(i + n));
                            }
                            i += n;
                        },
                        Err(e) => {
                            return Err(e);
                        },
                    }
                },
                State::ChunkData => {
                    match self.copy_chunk(data, i) {
                        Ok(n) => {
                            proof {
                                run_copies_chunk(before, rest, n as int);
                                assert(rest.take(n as int) =~= data@.subrange(i as int, i + n));
                                assert(rest.skip(n as int) =~= data@.skip(i + n));
                            }
                            i += n;
                        },
                        Err(e) => {
                            return Err(e);
                        },
                    }
                },
                _ => {
                    let byte: u8 = data[i];
                    proof {
                        run_takes_first(before, rest);
                        assert(rest.first() == byte);
                        assert(rest.drop_first() =~= data@.skip(i + 1));
                    }
                    match self.take_byte(byte) {
                        Ok(_) => {
                            i += 1;
                        },
                        Err(e) => {
                            return Err(e);
                        },
                    }
                },
            }
        }
        if matches!(self.state, State::Complete) {
            Ok(ParseStatus::Complete(self.bytes_consumed))
        } else {
            Ok(ParseStatus::Incomplete)
        }
    }

    /// Yields the request of a complete parser, and `IncompleteRequest`
    /// of any other. The body is absent where no body byte was read.
    pub fn finish(self) -> (r: Result<HttpRequest, ParseError>)
        requires
            self.wf(),
        ensures
            match r {
                Ok(request) => self@.state is Complete && request@ == request_of(self@),
                Err(e) => !(self@.state is Complete) && e@ == ParseErrorView::IncompleteRequest,
            },
    {
        if !matches!(self.state, State::Complete) {
            return Err(ParseError::IncompleteRequest);
        }
        let body = if self.body_buf.len() == 0 {
            None
        } else {
            Some(self.body_buf)
        };
        match (self.method, self.uri, self.version) {
            (Some(method), Some(uri), Some(version)) => Ok(
                HttpRequest { method, uri, version, headers: self.headers, body },
            ),
            _ => Err(ParseError::IncompleteRequest),
        }
    }

    /// Whether a whole request has been read.
    pub fn is_complete(&self) -> (r: bool)
        ensures
            r == (self@.state is Complete),
    {
        matches!(self.state, State::Complete)
    }

    /// The number of bytes consumed over all feeds.
    pub fn bytes_consumed(&self) -> (r: usize)
        ensures
            r == self@.consumed,
    {
        self.bytes_consumed
    }
}


impl Default for Parser {
    fn default() -> (p: Parser)
        ensures
            p@ == initial(default_limits()),
            p.wf(),
    {
        Parser::new()
    }
}

} // verus!
