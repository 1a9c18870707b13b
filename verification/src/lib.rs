//! A strict, incremental HTTP/1.1 request parser: a byte-driven state
//! machine for the request line, the header block and the message body.
//!
//! [`Parser`] takes the bytes of a request in fragments of any size;
//! [`parse_request`] takes them in one piece. What the parser does is
//! stated over the transition system of [`machine`].

pub mod error;
pub mod escape;
pub mod grammar;
pub mod laws;
pub mod machine;
pub mod output;
pub mod parser;
pub mod text;
pub mod types;

pub use error::ParseError;
pub use output::{format_debug, format_headers_only};
pub use parser::{ParseStatus, Parser, ParserConfig};
pub use types::{Header, HttpMethod, HttpRequest, HttpVersion};

use error::ParseErrorView;
use machine::{initial, request_of, run};
use parser::default_limits;
use vstd::prelude::*;

verus! {

/// What parsing `data` in one piece with the limits `config` gives: the
/// request where a run from a newborn parser ends complete,
/// `IncompleteRequest` where it ends early, and the failure of the run
/// where it fails.
pub open spec fn parsed(data: Seq<u8>, config: ParserConfig) -> Result<
    types::RequestView,
    ParseErrorView,
> {
    match run(initial(config), data) {
        Ok(v) => if v.state is Complete {
            Ok(request_of(v))
        } else {
            Err(ParseErrorView::IncompleteRequest)
        },
        Err(e) => Err(e),
    }
}

/// Whether `r` is the outcome `expected`, view for view.
pub open spec fn is_outcome(
    r: Result<HttpRequest, ParseError>,
    expected: Result<types::RequestView, ParseErrorView>,
) -> bool {
    match r {
        Ok(request) => expected == Ok::<types::RequestView, ParseErrorView>(request@),
        Err(e) => expected == Err::<types::RequestView, ParseErrorView>(e@),
    }
}

/// Parses a whole request from `data` with the default limits.
pub fn parse_request(data: &[u8]) -> (r: Result<HttpRequest, ParseError>)
    ensures
        is_outcome(r, parsed(data@, default_limits())),
{
    parse_request_with_config(data, ParserConfig::default())
}

/// Parses a whole request from `data` with the limits `config`.
pub fn parse_request_with_config(data: &[u8], config: ParserConfig) -> (r: Result<
    HttpRequest,
    ParseError,
>)
    ensures
        is_outcome(r, parsed(data@, config)),
{
    let mut parser = Parser::with_config(config);
    let length: usize = data.len();
    assert(parser@.consumed + data@.len() == length);
    match parser.feed(data) {
        Ok(ParseStatus::Complete(_)) => parser.finish(),
        Ok(ParseStatus::Incomplete) => Err(ParseError::IncompleteRequest),
        Err(e) => Err(e),
    }
}

} // verus!
