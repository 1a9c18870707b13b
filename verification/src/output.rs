//! A request as text for a person to read.

use crate::text::{push_char, utf8_text};
use crate::types::{
    header_views, method_text, version_text, Header, HeaderView, HttpRequest, RequestView,
};
use vstd::prelude::*;
use vstd::string::*;
use vstd::utf8::*;

verus! {

/// The ASCII digit of a value below ten.
pub open spec fn digit_char(d: nat) -> char {
    (0x30 + d) as u8 as char
}

/// A number in decimal, without leading zeros.
pub open spec fn decimal_text(n: nat) -> Seq<char>
    decreases n,
{
    if n < 10 {
        seq![digit_char(n)]
    } else {
        decimal_text(n / 10).push(digit_char(n % 10))
    }
}

/// One line per header: `indent`, the name, a colon and a space, the
/// value.
pub open spec fn header_lines(headers: Seq<HeaderView>, indent: Seq<char>) -> Seq<char>
    decreases headers.len(),
{
    if headers.len() == 0 {
        Seq::empty()
    } else {
        header_lines(headers.drop_last(), indent) + indent + headers.last().name + ": "@
            + headers.last().value + "\n"@
    }
}

/// The section that shows the body: its size and its text, or its size
/// alone where it is no text, or that there is none.
pub open spec fn body_section(body: Option<Seq<u8>>) -> Seq<char> {
    match body {
        Some(b) => "\n--- Body ("@ + decimal_text(b.len()) + " bytes) ---\n"@ + (if valid_utf8(b) {
            decode_utf8(b)
        } else {
            "<binary data: "@ + decimal_text(b.len()) + " bytes>"@
        }) + "\n"@,
        None => "\n--- No Body ---\n"@,
    }
}

/// A request in full, section by section.
pub open spec fn debug_text(r: RequestView) -> Seq<char> {
    "=== HTTP Request ===\n"@ + "Method:  "@ + method_text(r.method) + "\n"@ + "URI:     "@ + r.uri
        + "\n"@ + "Version: "@ + version_text(r.version) + "\n"@ + "\n--- Headers ("@
        + decimal_text(r.headers.len()) + ") ---\n"@ + header_lines(r.headers, "  "@)
        + body_section(r.body) + "====================\n"@
}

/// The request line and the headers, a line each.
pub open spec fn headers_only_text(r: RequestView) -> Seq<char> {
    method_text(r.method) + " "@ + r.uri + " "@ + version_text(r.version) + "\n"@ + header_lines(
        r.headers,
        ""@,
    )
}

fn decimal_string(n: usize) -> (s: String)
    ensures
        s@ == decimal_text(n as nat),
    decreases n,
{
    let d: u8 = (n % 10) as u8;
    if n < 10 {
        let mut s = String::new();
        push_char(&mut s, (0x30 + d) as char);
        assert(s@ =~= seq![digit_char(n as nat)]);
        s
    } else {
        let mut s = decimal_string(n / 10);
        push_char(&mut s, (0x30 + d) as char);
        s
    }
}

fn append_header_lines(out: &mut String, headers: &Vec<Header>, indent: &str)
    ensures
        final(out)@ == old(out)@ + header_lines(header_views(headers@), indent@),
{
    let ghost all = header_views(headers@);
    let mut i: usize = 0;
    assert(all.take(0) =~= Seq::empty());
    assert(out@ =~= old(out)@ + header_lines(all.take(0), indent@));
    while i < headers.len()
        invariant
            i <= headers.len(),
            all == header_views(headers@),
            out@ == old(out)@ + header_lines(all.take(i as int), indent@),
        decreases headers.len() - i,
    {
        let h = &headers[i];
        let ghost so_far = header_lines(all.take(i as int), indent@);
        proof {
            assert(all.take(i + 1).last() == h@);
            assert(all.take(i + 1).drop_last() =~= all.take(i as int));
        }
        out.append(indent);
        out.append(h.name.as_str());
        out.append(": ");
        out.append(h.value.as_str());
        out.append("\n");
        assert(out@ =~= old(out)@ + (so_far + indent@ + h@.name + ": "@ + h@.value + "\n"@));
        i += 1;
    }
    assert(all.take(i as int) =~= all);
}

fn append_body_section(out: &mut String, body: &Option<Vec<u8>>)
    ensures
        final(out)@ == old(out)@ + body_section(
            match body {
                Some(b) => Some(b@),
                None => None,
            },
        ),
{
    match body {
        Some(b) => {
            let size = decimal_string(b.len());
            let mut section = String::from_str("\n--- Body (");
            section.append(size.as_str());
            section.append(" bytes) ---\n");
            match utf8_text(b.as_slice()) {
                Some(text) => {
                    section.append(text);
                },
                None => {
                    let mut note = String::from_str("<binary data: ");
                    note.append(size.as_str());
                    note.append(" bytes>");
                    section.append(note.as_str());
                },
            }
            section.append("\n");
            out.append(section.as_str());
        },
        None => {
            out.append("\n--- No Body ---\n");
        },
    }
}

/// Renders a request in full: the request line field by field, the
/// headers with their number, and the body with its size.
pub fn format_debug(request: &HttpRequest) -> (s: String)
    ensures
        s@ == debug_text(request@),
{
    let mut out = String::from_str("=== HTTP Request ===\n");
    out.append("Method:  ");
    out.append(request.method.as_str());
    out.append("\n");
    out.append("URI:     ");
    out.append(request.uri.as_str());
    out.append("\n");
    out.append("Version: ");
    out.append(request.version.as_str());
    out.append("\n");
    out.append("\n--- Headers (");
    out.append(decimal_string(request.headers.len()).as_str());
    out.append(") ---\n");
    append_header_lines(&mut out, &request.headers, "  ");
    append_body_section(&mut out, &request.body);
    out.append("====================\n");
    out
}

/// Renders the request line and the headers, without the body.
pub fn format_headers_only(request: &HttpRequest) -> (s: String)
    ensures
        s@ == headers_only_text(request@),
{
    let mut out = String::from_str(request.method.as_str());
    out.append(" ");
    out.append(request.uri.as_str());
    out.append(" ");
    out.append(request.version.as_str());
    out.append("\n");
    append_header_lines(&mut out, &request.headers, "");
    out
}

} // verus!
