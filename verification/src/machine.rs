//! The parser as a transition system over sequences: what one byte does
//! to a parser in each state, and what a run of bytes does.

use crate::error::ParseErrorView;
use crate::parser::{ParseStatus, ParserConfig};
use crate::text::{
    field_content, hex_digit, ows, parse_hex, strip_trailing_ows, tchar, trim_whitespace,
    utf8_lossy,
};
use crate::types::{
    declared_length, first_value, method_of, name_matches, names_chunked, version_of, HeaderView,
    HttpMethod, HttpVersion, RequestView,
};
use vstd::prelude::*;

verus! {

/// Where in the grammar the parser stands.
#[derive(Debug, Clone, Copy, PartialEq, Eq)]
pub enum State {
    Method,
    Uri,
    Version,
    VersionLf,
    HeaderStart,
    HeaderName,
    HeaderValueOws,
    HeaderValue,
    HeaderValueLf,
    EndHeadersLf,
    Body,
    ChunkSize,
    ChunkExt,
    ChunkSizeLf,
    ChunkData,
    ChunkDataCr,
    ChunkDataLf,
    TrailerStart,
    TrailerField,
    TrailerFieldLf,
    TrailerEndLf,
    Complete,
}

/// A parser over sequences: its state, its limits, the bytes it has
/// consumed, its seven buffers, the fields it has committed and its two
/// counters.
pub struct ParserView {
    pub state: State,
    pub config: ParserConfig,
    pub consumed: nat,
    pub method_buf: Seq<u8>,
    pub uri_buf: Seq<u8>,
    pub version_buf: Seq<u8>,
    pub header_name_buf: Seq<u8>,
    pub header_value_buf: Seq<u8>,
    pub body_buf: Seq<u8>,
    pub chunk_size_buf: Seq<u8>,
    pub method: Option<HttpMethod>,
    pub uri: Option<Seq<char>>,
    pub version: Option<HttpVersion>,
    pub headers: Seq<HeaderView>,
    pub body_remaining: usize,
    pub chunk_remaining: usize,
}

/// The outcome of a transition or of a run.
pub type Outcome = Result<ParserView, ParseErrorView>;

/// A newborn parser: at the start of the request line, with empty buffers
/// and its counters at zero.
pub open spec fn initial(config: ParserConfig) -> ParserView {
    ParserView {
        state: State::Method,
        config,
        consumed: 0,
        method_buf: Seq::empty(),
        uri_buf: Seq::empty(),
        version_buf: Seq::empty(),
        header_name_buf: Seq::empty(),
        header_value_buf: Seq::empty(),
        body_buf: Seq::empty(),
        chunk_size_buf: Seq::empty(),
        method: None,
        uri: None,
        version: None,
        headers: Seq::empty(),
        body_remaining: 0,
        chunk_remaining: 0,
    }
}

/// The parser that a reset leaves behind: a newborn parser with the
/// limits of the old one.
pub open spec fn reset_of(v: ParserView) -> ParserView {
    initial(v.config)
}

/// The states in which no body byte has been read yet.
pub open spec fn before_body(s: State) -> bool {
    s is Method || s is Uri || s is Version || s is VersionLf || s is HeaderStart || s is HeaderName
        || s is HeaderValueOws || s is HeaderValue || s is HeaderValueLf || s is EndHeadersLf
}

/// The states in which a header is being read.
pub open spec fn inside_header(s: State) -> bool {
    s is HeaderName || s is HeaderValueOws || s is HeaderValue
}

/// A limit as the header buffers keep it: the first byte of a name or of
/// a value is taken before the limit is looked at.
pub open spec fn at_least_one(limit: usize) -> int {
    if limit == 0 {
        1
    } else {
        limit as int
    }
}

impl ParserView {
    /// What holds of a parser between any two bytes: every buffer and the
    /// header list are within their limits, the fields of the request
    /// line are there once their state is passed, what a body state still
    /// has to copy fits under the body limit, and the body follows the
    /// framing that the headers ask for.
    pub open spec fn wf(self) -> bool {
        &&& self.method_buf.len() <= self.config.max_method_len
        &&& self.uri_buf.len() <= self.config.max_uri_len
        &&& self.version_buf.len() <= 16
        &&& self.header_name_buf.len() <= at_least_one(self.config.max_header_name_len)
        &&& self.header_value_buf.len() <= at_least_one(self.config.max_header_value_len)
        &&& self.body_buf.len() <= self.config.max_body_size
        &&& self.headers.len() <= self.config.max_headers_count
        &&& (inside_header(self.state) ==> self.headers.len() < self.config.max_headers_count)
        &&& (self.state is HeaderValueOws ==> self.header_value_buf.len() == 0)
        &&& (before_body(self.state) ==> self.body_buf.len() == 0)
        &&& (!(self.state is Method) ==> self.method is Some)
        &&& (!(self.state is Method) && !(self.state is Uri) ==> self.uri is Some)
        &&& (!(self.state is Method) && !(self.state is Uri) && !(self.state is Version)
            ==> self.version is Some)
        &&& (self.state is Body ==> 1 <= self.body_remaining && !any_chunked(self.headers)
            && self.length_is_kept(self.body_remaining))
        &&& (self.state is Complete ==> any_chunked(self.headers) || self.length_is_kept(0))
        &&& (in_chunked_body(self.state) ==> any_chunked(self.headers))
        &&& (self.state is ChunkData ==> 1 <= self.chunk_remaining)
        &&& (self.state is ChunkData || self.state is ChunkExt || self.state is ChunkSizeLf
            ==> self.body_buf.len() + self.chunk_remaining <= self.config.max_body_size)
    }

    /// Whether a body framed by its length is as the headers declare it:
    /// what it holds and the `lacking` bytes add up to the declared
    /// length, which is within the limit; where none is declared, there
    /// is no body.
    pub open spec fn length_is_kept(self, lacking: usize) -> bool {
        match content_length_of(self.headers) {
            Ok(Some(n)) => self.body_buf.len() + lacking == n && n <= self.config.max_body_size,
            Ok(None) => self.body_buf.len() == 0 && lacking == 0,
            Err(_) => false,
        }
    }
}

/// The states of a chunked body and of its trailers.
pub open spec fn in_chunked_body(s: State) -> bool {
    s is ChunkSize || s is ChunkExt || s is ChunkSizeLf || s is ChunkData || s is ChunkDataCr
        || s is ChunkDataLf || s is TrailerStart || s is TrailerField || s is TrailerFieldLf
        || s is TrailerEndLf
}

/// What the grammar allows in a state, as an error reports it.
pub open spec fn expected_in(s: State) -> Seq<char> {
    match s {
        State::Method => "token character or SP in request method"@,
        State::Uri => "visible character or SP in request URI"@,
        State::Version => "version character or CR"@,
        State::VersionLf => "LF after version CR"@,
        State::HeaderStart => "header name character or CR"@,
        State::HeaderName => "header name character or ':'"@,
        State::HeaderValueOws => "header value character, OWS, or CR"@,
        State::HeaderValue => "header value character or CR"@,
        State::HeaderValueLf => "LF after header value CR"@,
        State::EndHeadersLf => "LF after end-of-headers CR"@,
        State::ChunkSize => "hex digit, ';', or CR in chunk size"@,
        State::ChunkSizeLf => "LF after chunk size CR"@,
        State::ChunkDataCr => "CR after chunk data"@,
        State::ChunkDataLf => "LF after chunk data CR"@,
        State::TrailerFieldLf => "LF after trailer field CR"@,
        State::TrailerEndLf => "LF after trailer-section end CR"@,
        _ => Seq::empty(),
    }
}

/// The failure of a byte that the state does not allow.
pub open spec fn unexpected(v: ParserView, b: u8) -> Outcome {
    Err(ParseErrorView::UnexpectedByte { expected: expected_in(v.state), found: b })
}

/// The parser in another state, all else unchanged.
pub open spec fn moved(v: ParserView, s: State) -> Outcome {
    Ok(ParserView { state: s, ..v })
}

/// One byte in the states of the request line. In any other state it
/// changes nothing.
pub open spec fn step_request_line(v: ParserView, b: u8) -> Outcome {
    match v.state {
        State::Method => {
            if b == 0x20 {
                match method_of(v.method_buf) {
                    Some(m) => Ok(ParserView { method: Some(m), state: State::Uri, ..v }),
                    None => Err(ParseErrorView::InvalidMethod(utf8_lossy(v.method_buf))),
                }
            } else if tchar(b) {
                if v.method_buf.len() >= v.config.max_method_len {
                    Err(ParseErrorView::InvalidMethod("method too long"@))
                } else {
                    Ok(ParserView { method_buf: v.method_buf.push(b), ..v })
                }
            } else {
                unexpected(v, b)
            }
        },
        State::Uri => {
            if b == 0x20 {
                if v.uri_buf.len() == 0 {
                    Err(ParseErrorView::InvalidUri("empty URI"@))
                } else {
                    Ok(ParserView { uri: Some(utf8_lossy(v.uri_buf)), state: State::Version, ..v })
                }
            } else if b > 0x20 && b != 0x7F {
                if v.uri_buf.len() >= v.config.max_uri_len {
                    Err(ParseErrorView::InvalidUri("URI too long"@))
                } else {
                    Ok(ParserView { uri_buf: v.uri_buf.push(b), ..v })
                }
            } else {
                unexpected(v, b)
            }
        },
        State::Version => {
            if b == 0x0D {
                match version_of(v.version_buf) {
                    Some(ver) => Ok(
                        ParserView { version: Some(ver), state: State::VersionLf, ..v },
                    ),
                    None => Err(ParseErrorView::InvalidVersion(utf8_lossy(v.version_buf))),
                }
            } else if b >= 0x20 && b != 0x7F {
                if v.version_buf.len() >= 16 {
                    Err(ParseErrorView::InvalidVersion("version string too long"@))
                } else {
                    Ok(ParserView { version_buf: v.version_buf.push(b), ..v })
                }
            } else {
                unexpected(v, b)
            }
        },
        State::VersionLf => {
            if b == 0x0A {
                moved(v, State::HeaderStart)
            } else {
                unexpected(v, b)
            }
        },
        _ => Ok(v),
    }
}

/// The parser after the header in its two header buffers has joined the
/// list, each buffer as text.
pub open spec fn header_stored(v: ParserView) -> ParserView {
    ParserView {
        headers: v.headers.push(
            HeaderView {
                name: utf8_lossy(v.header_name_buf),
                value: utf8_lossy(v.header_value_buf),
            },
        ),
        state: State::HeaderValueLf,
        ..v
    }
}

/// Whether some `Transfer-Encoding` header names the chunked coding.
pub open spec fn any_chunked(headers: Seq<HeaderView>) -> bool {
    exists|i: int|
        0 <= i < headers.len() && name_matches(
            (#[trigger] headers[i]).name,
            "transfer-encoding"@,
        ) && names_chunked(headers[i].value)
}

/// Whether every `Content-Length` header has the value `first`, leading
/// and trailing whitespace aside.
pub open spec fn lengths_agree(headers: Seq<HeaderView>, first: Seq<char>) -> bool {
    forall|i: int|
        0 <= i < headers.len() && name_matches((#[trigger] headers[i]).name, "content-length"@)
            ==> trim_whitespace(headers[i].value) == trim_whitespace(first)
}

/// The length that the `Content-Length` headers declare: none where
/// there is no such header, a failure where two of them differ or the
/// value is no decimal number.
pub open spec fn content_length_of(headers: Seq<HeaderView>) -> Result<
    Option<usize>,
    ParseErrorView,
> {
    match first_value(headers, "content-length"@) {
        None => Ok(None),
        Some(first) => {
            if !lengths_agree(headers, first) {
                Err(
                    ParseErrorView::InvalidContentLength(
                        "multiple differing Content-Length values"@,
                    ),
                )
            } else {
                match declared_length(first) {
                    None => Err(ParseErrorView::InvalidContentLength(trim_whitespace(first))),
                    Some(n) => Ok(Some(n)),
                }
            }
        },
    }
}

/// How the body is framed, decided at the end of the header block:
/// chunked where a `Transfer-Encoding` says so, else by `Content-Length`,
/// else there is no body.
pub open spec fn framed(v: ParserView) -> Outcome {
    if any_chunked(v.headers) {
        Ok(ParserView { chunk_size_buf: Seq::empty(), state: State::ChunkSize, ..v })
    } else {
        match content_length_of(v.headers) {
            Err(e) => Err(e),
            Ok(None) => moved(v, State::Complete),
            Ok(Some(n)) => {
                if n > v.config.max_body_size {
                    Err(ParseErrorView::BodyTooLarge)
                } else if n == 0 {
                    moved(v, State::Complete)
                } else {
                    Ok(ParserView { body_remaining: n, state: State::Body, ..v })
                }
            },
        }
    }
}

/// One byte in the states of the header block. In any other state it
/// changes nothing.
pub open spec fn step_headers(v: ParserView, b: u8) -> Outcome {
    match v.state {
        State::HeaderStart => {
            if b == 0x0D {
                moved(v, State::EndHeadersLf)
            } else if tchar(b) {
                if v.headers.len() >= v.config.max_headers_count {
                    Err(ParseErrorView::TooManyHeaders)
                } else {
                    Ok(ParserView { header_name_buf: seq![b], state: State::HeaderName, ..v })
                }
            } else {
                unexpected(v, b)
            }
        },
        State::HeaderName => {
            if b == 0x3A {
                Ok(
                    ParserView {
                        header_value_buf: Seq::empty(),
                        state: State::HeaderValueOws,
                        ..v
                    },
                )
            } else if tchar(b) {
                if v.header_name_buf.len() >= v.config.max_header_name_len {
                    Err(ParseErrorView::HeaderTooLarge)
                } else {
                    Ok(ParserView { header_name_buf: v.header_name_buf.push(b), ..v })
                }
            } else {
                unexpected(v, b)
            }
        },
        State::HeaderValueOws => {
            if ows(b) {
                Ok(v)
            } else if b == 0x0D {
                Ok(header_stored(v))
            } else if field_content(b) {
                Ok(
                    ParserView {
                        header_value_buf: v.header_value_buf.push(b),
                        state: State::HeaderValue,
                        ..v
                    },
                )
            } else {
                unexpected(v, b)
            }
        },
        State::HeaderValue => {
            if b == 0x0D {
                Ok(
                    header_stored(
                        ParserView {
                            header_value_buf: strip_trailing_ows(v.header_value_buf),
                            ..v
                        },
                    ),
                )
            } else if field_content(b) {
                if v.header_value_buf.len() >= v.config.max_header_value_len {
                    Err(ParseErrorView::HeaderTooLarge)
                } else {
                    Ok(ParserView { header_value_buf: v.header_value_buf.push(b), ..v })
                }
            } else {
                unexpected(v, b)
            }
        },
        State::HeaderValueLf => {
            if b == 0x0A {
                moved(v, State::HeaderStart)
            } else {
                unexpected(v, b)
            }
        },
        State::EndHeadersLf => {
            if b == 0x0A {
                framed(v)
            } else {
                unexpected(v, b)
            }
        },
        _ => Ok(v),
    }
}

/// The parser after the hexadecimal size in its chunk-size buffer has
/// become the count of the chunk, on its way to state `next`.
pub open spec fn chunk_sized(v: ParserView, next: State) -> Outcome {
    if v.chunk_size_buf.len() == 0 {
        Err(ParseErrorView::InvalidChunkSize("empty chunk size"@))
    } else {
        match parse_hex(v.chunk_size_buf) {
            None => Err(ParseErrorView::InvalidChunkSize(utf8_lossy(v.chunk_size_buf))),
            Some(size) => {
                if v.body_buf.len() + size > v.config.max_body_size {
                    Err(ParseErrorView::BodyTooLarge)
                } else {
                    Ok(ParserView { chunk_remaining: size, state: next, ..v })
                }
            },
        }
    }
}

/// One byte in the states of a chunked body and its trailers, the chunk
/// data aside. In any other state it changes nothing.
pub open spec fn step_chunked(v: ParserView, b: u8) -> Outcome {
    match v.state {
        State::ChunkSize => {
            if b == 0x0D {
                chunk_sized(v, State::ChunkSizeLf)
            } else if b == 0x3B {
                chunk_sized(v, State::ChunkExt)
            } else if hex_digit(b) {
                Ok(ParserView { chunk_size_buf: v.chunk_size_buf.push(b), ..v })
            } else {
                unexpected(v, b)
            }
        },
        State::ChunkExt => {
            if b == 0x0D {
                moved(v, State::ChunkSizeLf)
            } else {
                Ok(v)
            }
        },
        State::ChunkSizeLf => {
            if b == 0x0A {
                if v.chunk_remaining == 0 {
                    moved(v, State::TrailerStart)
                } else {
                    moved(v, State::ChunkData)
                }
            } else {
                unexpected(v, b)
            }
        },
        State::ChunkDataCr => {
            if b == 0x0D {
                moved(v, State::ChunkDataLf)
            } else {
                unexpected(v, b)
            }
        },
        State::ChunkDataLf => {
            if b == 0x0A {
                Ok(ParserView { chunk_size_buf: Seq::empty(), state: State::ChunkSize, ..v })
            } else {
                unexpected(v, b)
            }
        },
        State::TrailerStart => {
            if b == 0x0D {
                moved(v, State::TrailerEndLf)
            } else {
                moved(v, State::TrailerField)
            }
        },
        State::TrailerField => {
            if b == 0x0D {
                moved(v, State::TrailerFieldLf)
            } else {
                Ok(v)
            }
        },
        State::TrailerFieldLf => {
            if b == 0x0A {
                moved(v, State::TrailerStart)
            } else {
                unexpected(v, b)
            }
        },
        State::TrailerEndLf => {
            if b == 0x0A {
                moved(v, State::Complete)
            } else {
                unexpected(v, b)
            }
        },
        _ => Ok(v),
    }
}

/// The parser after `bytes` have been copied into a body of fixed
/// length.
pub open spec fn body_copied(v: ParserView, bytes: Seq<u8>) -> ParserView {
    ParserView {
        body_buf: v.body_buf + bytes,
        body_remaining: (v.body_remaining - bytes.len()) as usize,
        consumed: v.consumed + bytes.len(),
        state: if v.body_remaining == bytes.len() {
            State::Complete
        } else {
            State::Body
        },
        ..v
    }
}

/// The parser after `bytes` have been copied into the body from the
/// current chunk.
pub open spec fn chunk_copied(v: ParserView, bytes: Seq<u8>) -> ParserView {
    ParserView {
        body_buf: v.body_buf + bytes,
        chunk_remaining: (v.chunk_remaining - bytes.len()) as usize,
        consumed: v.consumed + bytes.len(),
        state: if v.chunk_remaining == bytes.len() {
            State::ChunkDataCr
        } else {
            State::ChunkData
        },
        ..v
    }
}

/// What one byte does to a parser: the byte is counted, and the state
/// decides the rest. A complete parser takes no byte.
pub open spec fn step(v: ParserView, b: u8) -> Outcome {
    let counted = ParserView { consumed: v.consumed + 1, ..v };
    match v.state {
        State::Complete => Ok(v),
        State::Body => Ok(body_copied(v, seq![b])),
        State::ChunkData => Ok(chunk_copied(v, seq![b])),
        State::Method | State::Uri | State::Version | State::VersionLf => step_request_line(
            counted,
            b,
        ),
        State::HeaderStart
        | State::HeaderName
        | State::HeaderValueOws
        | State::HeaderValue
        | State::HeaderValueLf
        | State::EndHeadersLf => step_headers(counted, b),
        _ => step_chunked(counted, b),
    }
}

/// What a run of bytes does to a parser: byte after byte until the bytes
/// end, the request is complete, or a byte fails.
pub open spec fn run(v: ParserView, data: Seq<u8>) -> Outcome
    decreases data.len(),
{
    if data.len() == 0 || v.state is Complete {
        Ok(v)
    } else {
        match step(v, data.first()) {
            Ok(next) => run(next, data.drop_first()),
            Err(e) => Err(e),
        }
    }
}

/// What a parser reports after a run that did not fail.
pub open spec fn status_of(v: ParserView) -> ParseStatus {
    if v.state is Complete {
        ParseStatus::Complete(v.consumed as usize)
    } else {
        ParseStatus::Incomplete
    }
}

/// The request that a complete parser holds. The body is absent where no
/// body byte was read.
pub open spec fn request_of(v: ParserView) -> RequestView {
    RequestView {
        method: v.method.unwrap(),
        uri: v.uri.unwrap(),
        version: v.version.unwrap(),
        headers: v.headers,
        body: if v.body_buf.len() == 0 {
            None
        } else {
            Some(v.body_buf)
        },
    }
}

/// Stripping trailing whitespace never lengthens a text.
pub proof fn strip_shortens(text: Seq<u8>)
    ensures
        strip_trailing_ows(text).len() <= text.len(),
    decreases text.len(),
{
    if text.len() > 0 && ows(text.last()) {
        strip_shortens(text.drop_last());
    }
}

proof fn request_line_keeps_wf(v: ParserView, b: u8)
    requires
        v.wf(),
        v.state is Method || v.state is Uri || v.state is Version || v.state is VersionLf,
    ensures
        step_request_line(v, b) matches Ok(next) ==> next.wf() && next.config == v.config,
{
}

proof fn headers_keep_wf(v: ParserView, b: u8)
    requires
        v.wf(),
        v.state is HeaderStart || v.state is HeaderName || v.state is HeaderValueOws
            || v.state is HeaderValue || v.state is HeaderValueLf || v.state is EndHeadersLf,
    ensures
        step_headers(v, b) matches Ok(next) ==> next.wf() && next.config == v.config,
{
    strip_shortens(v.header_value_buf);
}

proof fn chunked_keeps_wf(v: ParserView, b: u8)
    requires
        v.wf(),
        !before_body(v.state),
        !(v.state is Body),
        !(v.state is ChunkData),
        !(v.state is Complete),
    ensures
        step_chunked(v, b) matches Ok(next) ==> next.wf() && next.config == v.config,
{
}

/// A transition keeps a well-formed parser well-formed, and its limits
/// as they are.
pub proof fn step_keeps_wf(v: ParserView, b: u8)
    requires
        v.wf(),
    ensures
        step(v, b) matches Ok(next) ==> next.wf() && next.config == v.config,
{
    let counted = ParserView { consumed: v.consumed + 1, ..v };
    match v.state {
        State::Complete => {},
        State::Body => {},
        State::ChunkData => {},
        State::Method | State::Uri | State::Version | State::VersionLf => {
            request_line_keeps_wf(counted, b);
        },
        State::HeaderStart
        | State::HeaderName
        | State::HeaderValueOws
        | State::HeaderValue
        | State::HeaderValueLf
        | State::EndHeadersLf => {
            headers_keep_wf(counted, b);
        },
        _ => {
            chunked_keeps_wf(counted, b);
        },
    }
}

/// A transition out of an incomplete parser counts exactly one byte.
pub proof fn step_counts_one(v: ParserView, b: u8)
    requires
        !(v.state is Complete),
    ensures
        step(v, b) matches Ok(next) ==> next.consumed == v.consumed + 1,
{
}


/// A run over bytes that an incomplete parser is given starts with a
/// transition on the first of them.
pub proof fn run_takes_first(v: ParserView, data: Seq<u8>)
    requires
        data.len() > 0,
        !(v.state is Complete),
    ensures
        run(v, data) == match step(v, data.first()) {
            Ok(next) => run(next, data.drop_first()),
            Err(e) => Err(e),
        },
{
}

/// In a body of fixed length, a run copies as many bytes as the body
/// still lacks, all at once.
pub proof fn run_copies_body(v: ParserView, data: Seq<u8>, k: int)
    requires
        v.state is Body,
        1 <= k <= data.len(),
        k <= v.body_remaining,
    ensures
        run(v, data) == run(body_copied(v, data.take(k)), data.skip(k)),
    decreases k,
{
    let next = body_copied(v, seq![data[0]]);
    if k == 1 {
        assert(data.take(1) =~= seq![data[0]]);
        assert(data.skip(1) =~= data.drop_first());
    } else {
        let rest = data.drop_first();
        run_copies_body(next, rest, k - 1);
        assert(seq![data[0]] + rest.take(k - 1) =~= data.take(k));
        assert(rest.skip(k - 1) =~= data.skip(k));
        assert(body_copied(next, rest.take(k - 1)).body_buf =~= body_copied(
            v,
            data.take(k),
        ).body_buf);
        assert(body_copied(next, rest.take(k - 1)) == body_copied(v, data.take(k)));
    }
}

/// In the data of a chunk, a run copies as many bytes as the chunk still
/// lacks, all at once.
pub proof fn run_copies_chunk(v: ParserView, data: Seq<u8>, k: int)
    requires
        v.state is ChunkData,
        1 <= k <= data.len(),
        k <= v.chunk_remaining,
    ensures
        run(v, data) == run(chunk_copied(v, data.take(k)), data.skip(k)),
    decreases k,
{
    let next = chunk_copied(v, seq![data[0]]);
    if k == 1 {
        assert(data.take(1) =~= seq![data[0]]);
        assert(data.skip(1) =~= data.drop_first());
    } else {
        let rest = data.drop_first();
        run_copies_chunk(next, rest, k - 1);
        assert(seq![data[0]] + rest.take(k - 1) =~= data.take(k));
        assert(rest.skip(k - 1) =~= data.skip(k));
        assert(chunk_copied(next, rest.take(k - 1)).body_buf =~= chunk_copied(
            v,
            data.take(k),
        ).body_buf);
        assert(chunk_copied(next, rest.take(k - 1)) == chunk_copied(v, data.take(k)));
    }
}

} // verus!
