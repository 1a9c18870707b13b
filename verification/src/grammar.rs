//! The grammar of a request, part by part: what a run over a request
//! line, a header line, a body of fixed length or a chunk leaves behind.

use crate::error::ParseErrorView;
use crate::laws::run_splits;
use crate::machine::{
    any_chunked, body_copied, chunk_copied, content_length_of, framed, initial, request_of,
    run, run_copies_body, run_copies_chunk, run_takes_first, step, ParserView, State,
};
use crate::parsed;
use crate::parser::ParserConfig;
use crate::text::{
    field_content, hex_digit, ows, parse_hex, strip_trailing_ows, tchar, utf8_lossy,
};
use crate::types::{
    first_value, method_of, method_text, version_of, version_text, HeaderView, HttpMethod,
    HttpVersion, RequestView,
};
use vstd::prelude::*;
use vstd::utf8::*;

verus! {

/// A run over one byte is one transition.
pub proof fn run_of_one(v: ParserView, b: u8)
    requires
        !(v.state is Complete),
    ensures
        run(v, seq![b]) == step(v, b),
{
    run_takes_first(v, seq![b]);
    assert(seq![b].drop_first() =~= Seq::<u8>::empty());
}

/// In a header name, a run over token characters within the limit adds
/// them to the name and does nothing else.
pub proof fn run_reads_name(v: ParserView, name: Seq<u8>)
    requires
        v.state is HeaderName,
        forall|i: int| 0 <= i < name.len() ==> tchar(#[trigger] name[i]),
        name.len() == 0 || v.header_name_buf.len() + name.len() <= v.config.max_header_name_len,
    ensures
        run(v, name) == Ok::<ParserView, ParseErrorView>(
            ParserView {
                header_name_buf: v.header_name_buf + name,
                consumed: v.consumed + name.len(),
                ..v
            },
        ),
    decreases name.len(),
{
    if name.len() == 0 {
        assert(v.header_name_buf + name =~= v.header_name_buf);
    } else {
        let next = ParserView {
            header_name_buf: v.header_name_buf.push(name.first()),
            consumed: v.consumed + 1,
            ..v
        };
        assert(tchar(name[0]));
        assert(step(v, name.first()) == Ok::<ParserView, ParseErrorView>(next));
        let rest = name.drop_first();
        assert forall|i: int| 0 <= i < rest.len() implies tchar(#[trigger] rest[i]) by {
            assert(rest[i] == name[i + 1]);
        }
        run_reads_name(next, rest);
        assert(next.header_name_buf + rest =~= v.header_name_buf + name);
    }
}

/// Before a header value, a run over optional whitespace skips it.
pub proof fn run_skips_ows(v: ParserView, lead: Seq<u8>)
    requires
        v.state is HeaderValueOws,
        forall|i: int| 0 <= i < lead.len() ==> ows(#[trigger] lead[i]),
    ensures
        run(v, lead) == Ok::<ParserView, ParseErrorView>(
            ParserView { consumed: v.consumed + lead.len(), ..v },
        ),
    decreases lead.len(),
{
    if lead.len() > 0 {
        let next = ParserView { consumed: v.consumed + 1, ..v };
        assert(ows(lead[0]));
        assert(step(v, lead.first()) == Ok::<ParserView, ParseErrorView>(next));
        let rest = lead.drop_first();
        assert forall|i: int| 0 <= i < rest.len() implies ows(#[trigger] rest[i]) by {
            assert(rest[i] == lead[i + 1]);
        }
        run_skips_ows(next, rest);
    }
}

/// In a header value, a run over field content within the limit adds it
/// to the value and does nothing else.
pub proof fn run_reads_value(v: ParserView, value: Seq<u8>)
    requires
        v.state is HeaderValue,
        forall|i: int| 0 <= i < value.len() ==> field_content(#[trigger] value[i]),
        value.len() == 0 || v.header_value_buf.len() + value.len()
            <= v.config.max_header_value_len,
    ensures
        run(v, value) == Ok::<ParserView, ParseErrorView>(
            ParserView {
                header_value_buf: v.header_value_buf + value,
                consumed: v.consumed + value.len(),
                ..v
            },
        ),
    decreases value.len(),
{
    if value.len() == 0 {
        assert(v.header_value_buf + value =~= v.header_value_buf);
    } else {
        let next = ParserView {
            header_value_buf: v.header_value_buf.push(value.first()),
            consumed: v.consumed + 1,
            ..v
        };
        assert(field_content(value[0]));
        assert(step(v, value.first()) == Ok::<ParserView, ParseErrorView>(next));
        let rest = value.drop_first();
        assert forall|i: int| 0 <= i < rest.len() implies field_content(#[trigger] rest[i]) by {
            assert(rest[i] == value[i + 1]);
        }
        run_reads_value(next, rest);
        assert(next.header_value_buf + rest =~= v.header_value_buf + value);
    }
}

/// The bytes of a header line: the name, a colon, optional whitespace,
/// the value with whatever optional whitespace follows it, CR and LF.
pub open spec fn header_line(name: Seq<u8>, lead: Seq<u8>, value: Seq<u8>) -> Seq<u8> {
    name + seq![0x3Au8] + lead + value + seq![0x0Du8, 0x0Au8]
}

/// Whether `name`, `lead` and `value` are the parts of a header line
/// that the limits `config` admit: a name of token characters, optional
/// whitespace, and a value of field content that does not start with
/// optional whitespace. Each limit leaves the first byte free.
pub open spec fn header_line_fits(
    config: ParserConfig,
    name: Seq<u8>,
    lead: Seq<u8>,
    value: Seq<u8>,
) -> bool {
    &&& name.len() >= 1
    &&& forall|i: int| 0 <= i < name.len() ==> tchar(#[trigger] name[i])
    &&& (name.len() == 1 || name.len() <= config.max_header_name_len)
    &&& forall|i: int| 0 <= i < lead.len() ==> ows(#[trigger] lead[i])
    &&& forall|i: int| 0 <= i < value.len() ==> field_content(#[trigger] value[i])
    &&& (value.len() > 0 ==> !ows(value[0]))
    &&& (value.len() <= 1 || value.len() <= config.max_header_value_len)
}

/// The parser in a header line after the name has been read.
pub open spec fn name_read(v: ParserView, name: Seq<u8>) -> ParserView {
    ParserView {
        header_name_buf: name,
        state: State::HeaderName,
        consumed: v.consumed + name.len(),
        ..v
    }
}

/// The parser in a header line after the colon, the whitespace behind it
/// and the value have been read.
pub open spec fn value_read(v: ParserView, lead: Seq<u8>, value: Seq<u8>) -> ParserView {
    ParserView {
        header_value_buf: value,
        state: if value.len() == 0 {
            State::HeaderValueOws
        } else {
            State::HeaderValue
        },
        consumed: v.consumed + 1 + lead.len() + value.len(),
        ..v
    }
}

/// The parser after the line in its two header buffers has ended.
pub open spec fn line_ended(v: ParserView) -> ParserView {
    ParserView {
        headers: v.headers.push(
            HeaderView {
                name: utf8_lossy(v.header_name_buf),
                value: utf8_lossy(strip_trailing_ows(v.header_value_buf)),
            },
        ),
        header_value_buf: strip_trailing_ows(v.header_value_buf),
        state: State::HeaderStart,
        consumed: v.consumed + 2,
        ..v
    }
}

proof fn run_starts_name(v: ParserView, name: Seq<u8>)
    requires
        v.state is HeaderStart,
        v.headers.len() < v.config.max_headers_count,
        name.len() >= 1,
        tchar(name[0]),
    ensures
        run(v, seq![name[0]]) == Ok::<ParserView, ParseErrorView>(name_read(v, seq![name[0]])),
{
    run_of_one(v, name[0]);
}

proof fn run_reads_whole_name(v: ParserView, name: Seq<u8>)
    requires
        v.state is HeaderStart,
        v.headers.len() < v.config.max_headers_count,
        name.len() >= 1,
        forall|i: int| 0 <= i < name.len() ==> tchar(#[trigger] name[i]),
        name.len() == 1 || name.len() <= v.config.max_header_name_len,
    ensures
        run(v, name) == Ok::<ParserView, ParseErrorView>(name_read(v, name)),
{
    let first = seq![name[0]];
    let tail = name.drop_first();
    assert(name =~= first + tail);
    assert(tchar(name[0]));
    run_starts_name(v, name);
    run_splits(v, first, tail);
    let s1 = name_read(v, first);
    assert forall|i: int| 0 <= i < tail.len() implies tchar(#[trigger] tail[i]) by {
        assert(tail[i] == name[i + 1]);
    }
    run_reads_name(s1, tail);
    assert(first + tail =~= name);
}

proof fn run_passes_colon(v: ParserView, lead: Seq<u8>)
    requires
        v.state is HeaderName,
        forall|i: int| 0 <= i < lead.len() ==> ows(#[trigger] lead[i]),
    ensures
        run(v, seq![0x3Au8] + lead) == Ok::<ParserView, ParseErrorView>(
            value_read(v, lead, Seq::empty()),
        ),
{
    let colon = seq![0x3Au8];
    run_of_one(v, 0x3Au8);
    run_splits(v, colon, lead);
    let s = ParserView {
        header_value_buf: Seq::empty(),
        state: State::HeaderValueOws,
        consumed: v.consumed + 1,
        ..v
    };
    assert(step(v, 0x3Au8) == Ok::<ParserView, ParseErrorView>(s));
    run_skips_ows(s, lead);
}

proof fn run_starts_value(v: ParserView, b: u8)
    requires
        v.state is HeaderValueOws,
        v.header_value_buf.len() == 0,
        field_content(b),
        !ows(b),
    ensures
        run(v, seq![b]) == Ok::<ParserView, ParseErrorView>(
            ParserView {
                header_value_buf: seq![b],
                state: State::HeaderValue,
                consumed: v.consumed + 1,
                ..v
            },
        ),
{
    run_of_one(v, b);
    assert(v.header_value_buf.push(b) =~= seq![b]);
}

proof fn run_reads_whole_value(v: ParserView, lead: Seq<u8>, value: Seq<u8>)
    requires
        v.state is HeaderName,
        forall|i: int| 0 <= i < lead.len() ==> ows(#[trigger] lead[i]),
        forall|i: int| 0 <= i < value.len() ==> field_content(#[trigger] value[i]),
        value.len() > 0 ==> !ows(value[0]),
        value.len() <= 1 || value.len() <= v.config.max_header_value_len,
    ensures
        run(v, seq![0x3Au8] + lead + value) == Ok::<ParserView, ParseErrorView>(
            value_read(v, lead, value),
        ),
{
    let front = seq![0x3Au8] + lead;
    run_passes_colon(v, lead);
    run_splits(v, front, value);
    let s = value_read(v, lead, Seq::empty());
    if value.len() == 0 {
        assert(value =~= Seq::<u8>::empty());
    } else {
        let head = seq![value[0]];
        let rest = value.drop_first();
        assert(value =~= head + rest);
        assert(field_content(value[0]));
        run_starts_value(s, value[0]);
        run_splits(s, head, rest);
        let s5 = ParserView {
            header_value_buf: head,
            state: State::HeaderValue,
            consumed: s.consumed + 1,
            ..s
        };
        assert forall|i: int| 0 <= i < rest.len() implies field_content(#[trigger] rest[i]) by {
            assert(rest[i] == value[i + 1]);
        }
        run_reads_value(s5, rest);
        assert(head + rest =~= value);
    }
}

proof fn run_ends_line(v: ParserView)
    requires
        v.state is HeaderValue || (v.state is HeaderValueOws && v.header_value_buf.len() == 0),
    ensures
        run(v, seq![0x0Du8, 0x0Au8]) == Ok::<ParserView, ParseErrorView>(line_ended(v)),
{
    let cr = seq![0x0Du8];
    let lf = seq![0x0Au8];
    assert(seq![0x0Du8, 0x0Au8] =~= cr + lf);
    run_of_one(v, 0x0Du8);
    run_splits(v, cr, lf);
    let kept = strip_trailing_ows(v.header_value_buf);
    let s = ParserView {
        headers: v.headers.push(
            HeaderView { name: utf8_lossy(v.header_name_buf), value: utf8_lossy(kept) },
        ),
        header_value_buf: kept,
        state: State::HeaderValueLf,
        consumed: v.consumed + 1,
        ..v
    };
    assert(step(v, 0x0Du8) == Ok::<ParserView, ParseErrorView>(s));
    run_of_one(s, 0x0Au8);
}

/// A header line adds one header to the list: its name as it was
/// written, and its value without the optional whitespace before it and
/// after it, with the whitespace inside it as it was written. The parser
/// then stands at the start of the next line.
pub proof fn header_line_is_stored(v: ParserView, name: Seq<u8>, lead: Seq<u8>, value: Seq<u8>)
    requires
        v.state is HeaderStart,
        v.headers.len() < v.config.max_headers_count,
        header_line_fits(v.config, name, lead, value),
    ensures
        run(v, header_line(name, lead, value)) == Ok::<ParserView, ParseErrorView>(
            ParserView {
                headers: v.headers.push(
                    HeaderView {
                        name: utf8_lossy(name),
                        value: utf8_lossy(strip_trailing_ows(value)),
                    },
                ),
                header_name_buf: name,
                header_value_buf: strip_trailing_ows(value),
                consumed: v.consumed + header_line(name, lead, value).len(),
                ..v
            },
        ),
{
    let middle = seq![0x3Au8] + lead + value;
    let end = seq![0x0Du8, 0x0Au8];
    assert(header_line(name, lead, value) =~= name + (middle + end));
    run_reads_whole_name(v, name);
    run_splits(v, name, middle + end);
    let s1 = name_read(v, name);
    run_reads_whole_value(s1, lead, value);
    run_splits(s1, middle, end);
    let s2 = value_read(s1, lead, value);
    run_ends_line(s2);
}


/// The bytes of an ASCII text are its characters, one byte each.
proof fn ascii_bytes(text: Seq<char>)
    requires
        is_ascii_chars(text),
    ensures
        encode_utf8(text).len() == text.len(),
        forall|i: int| 0 <= i < text.len() ==> #[trigger] encode_utf8(text)[i] == text[i] as u8,
{
    is_ascii_chars_encode_utf8(text);
}

/// Every method is recognized by its own token, which is made of token
/// characters and is at most seven bytes long.
pub proof fn method_token_is_recognized(m: HttpMethod)
    ensures
        method_of(encode_utf8(method_text(m))) == Some(m),
        encode_utf8(method_text(m)).len() <= 7,
        forall|i: int|
            0 <= i < encode_utf8(method_text(m)).len() ==> tchar(
                #[trigger] encode_utf8(method_text(m))[i],
            ),
{
    reveal_strlit("GET");
    reveal_strlit("HEAD");
    reveal_strlit("POST");
    reveal_strlit("PUT");
    reveal_strlit("DELETE");
    reveal_strlit("CONNECT");
    reveal_strlit("OPTIONS");
    reveal_strlit("TRACE");
    reveal_strlit("PATCH");
    ascii_bytes("GET"@);
    ascii_bytes("HEAD"@);
    ascii_bytes("POST"@);
    ascii_bytes("PUT"@);
    ascii_bytes("DELETE"@);
    ascii_bytes("CONNECT"@);
    ascii_bytes("OPTIONS"@);
    ascii_bytes("TRACE"@);
    ascii_bytes("PATCH"@);
    assert(encode_utf8("GET"@)[0] == 0x47);
    assert(encode_utf8("HEAD"@)[0] == 0x48);
    assert(encode_utf8("POST"@)[0] == 0x50);
    assert(encode_utf8("PUT"@)[0] == 0x50);
    assert(encode_utf8("DELETE"@)[0] == 0x44);
    assert(encode_utf8("CONNECT"@)[0] == 0x43);
    assert(encode_utf8("OPTIONS"@)[0] == 0x4F);
    assert(encode_utf8("TRACE"@)[0] == 0x54);
    assert(encode_utf8("PATCH"@)[0] == 0x50);
}

/// Every version is recognized by its own literal, which is eight bytes
/// that a version may hold.
pub proof fn version_literal_is_recognized(ver: HttpVersion)
    ensures
        version_of(encode_utf8(version_text(ver))) == Some(ver),
        encode_utf8(version_text(ver)).len() == 8,
        forall|i: int|
            0 <= i < 8 ==> version_byte(#[trigger] encode_utf8(version_text(ver))[i]),
{
    reveal_strlit("HTTP/1.0");
    reveal_strlit("HTTP/1.1");
    ascii_bytes("HTTP/1.0"@);
    ascii_bytes("HTTP/1.1"@);
    assert(encode_utf8("HTTP/1.0"@)[7] == 0x30);
    assert(encode_utf8("HTTP/1.1"@)[7] == 0x31);
}

/// A byte that a request target may hold: above SP and not DEL.
pub open spec fn target_byte(b: u8) -> bool {
    b > 0x20 && b != 0x7F
}

/// A byte that the version may hold: SP or above and not DEL.
pub open spec fn version_byte(b: u8) -> bool {
    b >= 0x20 && b != 0x7F
}

/// In the method, a run over token characters within the limit adds them
/// to the method and does nothing else.
pub proof fn run_reads_method(v: ParserView, token: Seq<u8>)
    requires
        v.state is Method,
        forall|i: int| 0 <= i < token.len() ==> tchar(#[trigger] token[i]),
        v.method_buf.len() + token.len() <= v.config.max_method_len,
    ensures
        run(v, token) == Ok::<ParserView, ParseErrorView>(
            ParserView {
                method_buf: v.method_buf + token,
                consumed: v.consumed + token.len(),
                ..v
            },
        ),
    decreases token.len(),
{
    if token.len() == 0 {
        assert(v.method_buf + token =~= v.method_buf);
    } else {
        let next = ParserView {
            method_buf: v.method_buf.push(token.first()),
            consumed: v.consumed + 1,
            ..v
        };
        assert(tchar(token[0]));
        assert(step(v, token.first()) == Ok::<ParserView, ParseErrorView>(next));
        let rest = token.drop_first();
        assert forall|i: int| 0 <= i < rest.len() implies tchar(#[trigger] rest[i]) by {
            assert(rest[i] == token[i + 1]);
        }
        run_reads_method(next, rest);
        assert(next.method_buf + rest =~= v.method_buf + token);
    }
}

/// In the request target, a run over target bytes within the limit adds
/// them to the target and does nothing else.
pub proof fn run_reads_target(v: ParserView, target: Seq<u8>)
    requires
        v.state is Uri,
        forall|i: int| 0 <= i < target.len() ==> target_byte(#[trigger] target[i]),
        v.uri_buf.len() + target.len() <= v.config.max_uri_len,
    ensures
        run(v, target) == Ok::<ParserView, ParseErrorView>(
            ParserView { uri_buf: v.uri_buf + target, consumed: v.consumed + target.len(), ..v },
        ),
    decreases target.len(),
{
    if target.len() == 0 {
        assert(v.uri_buf + target =~= v.uri_buf);
    } else {
        let next = ParserView {
            uri_buf: v.uri_buf.push(target.first()),
            consumed: v.consumed + 1,
            ..v
        };
        assert(target_byte(target[0]));
        assert(step(v, target.first()) == Ok::<ParserView, ParseErrorView>(next));
        let rest = target.drop_first();
        assert forall|i: int| 0 <= i < rest.len() implies target_byte(#[trigger] rest[i]) by {
            assert(rest[i] == target[i + 1]);
        }
        run_reads_target(next, rest);
        assert(next.uri_buf + rest =~= v.uri_buf + target);
    }
}

/// In the version, a run over version bytes within the cap adds them to
/// the version and does nothing else.
pub proof fn run_reads_version(v: ParserView, literal: Seq<u8>)
    requires
        v.state is Version,
        forall|i: int| 0 <= i < literal.len() ==> version_byte(#[trigger] literal[i]),
        v.version_buf.len() + literal.len() <= 16,
    ensures
        run(v, literal) == Ok::<ParserView, ParseErrorView>(
            ParserView {
                version_buf: v.version_buf + literal,
                consumed: v.consumed + literal.len(),
                ..v
            },
        ),
    decreases literal.len(),
{
    if literal.len() == 0 {
        assert(v.version_buf + literal =~= v.version_buf);
    } else {
        let next = ParserView {
            version_buf: v.version_buf.push(literal.first()),
            consumed: v.consumed + 1,
            ..v
        };
        assert(version_byte(literal[0]));
        assert(step(v, literal.first()) == Ok::<ParserView, ParseErrorView>(next));
        let rest = literal.drop_first();
        assert forall|i: int| 0 <= i < rest.len() implies version_byte(#[trigger] rest[i]) by {
            assert(rest[i] == literal[i + 1]);
        }
        run_reads_version(next, rest);
        assert(next.version_buf + rest =~= v.version_buf + literal);
    }
}

proof fn run_commits_method(v: ParserView, m: HttpMethod)
    requires
        v.state is Method,
        method_of(v.method_buf) == Some(m),
    ensures
        run(v, seq![0x20u8]) == Ok::<ParserView, ParseErrorView>(
            ParserView { method: Some(m), state: State::Uri, consumed: v.consumed + 1, ..v },
        ),
{
    run_of_one(v, 0x20u8);
}

proof fn run_commits_target(v: ParserView)
    requires
        v.state is Uri,
        v.uri_buf.len() > 0,
    ensures
        run(v, seq![0x20u8]) == Ok::<ParserView, ParseErrorView>(
            ParserView {
                uri: Some(utf8_lossy(v.uri_buf)),
                state: State::Version,
                consumed: v.consumed + 1,
                ..v
            },
        ),
{
    run_of_one(v, 0x20u8);
}

proof fn run_commits_version(v: ParserView, ver: HttpVersion)
    requires
        v.state is Version,
        version_of(v.version_buf) == Some(ver),
    ensures
        run(v, seq![0x0Du8, 0x0Au8]) == Ok::<ParserView, ParseErrorView>(
            ParserView {
                version: Some(ver),
                state: State::HeaderStart,
                consumed: v.consumed + 2,
                ..v
            },
        ),
{
    let cr = seq![0x0Du8];
    let lf = seq![0x0Au8];
    assert(seq![0x0Du8, 0x0Au8] =~= cr + lf);
    run_of_one(v, 0x0Du8);
    run_splits(v, cr, lf);
    let s = ParserView {
        version: Some(ver),
        state: State::VersionLf,
        consumed: v.consumed + 1,
        ..v
    };
    assert(step(v, 0x0Du8) == Ok::<ParserView, ParseErrorView>(s));
    run_of_one(s, 0x0Au8);
}

/// The bytes of a request line: the method token, SP, the request
/// target, SP, the version literal, CR and LF.
pub open spec fn request_line(m: HttpMethod, target: Seq<u8>, ver: HttpVersion) -> Seq<u8> {
    encode_utf8(method_text(m)) + seq![0x20u8] + target + seq![0x20u8] + encode_utf8(
        version_text(ver),
    ) + seq![0x0Du8, 0x0Au8]
}

/// A newborn parser reads a request line as its three fields: the
/// method, the target as text, and the version. It then stands at the
/// start of the header block.
pub proof fn request_line_is_read(
    config: ParserConfig,
    m: HttpMethod,
    target: Seq<u8>,
    ver: HttpVersion,
)
    requires
        encode_utf8(method_text(m)).len() <= config.max_method_len,
        1 <= target.len() <= config.max_uri_len,
        forall|i: int| 0 <= i < target.len() ==> target_byte(#[trigger] target[i]),
    ensures
        run(initial(config), request_line(m, target, ver)) == Ok::<ParserView, ParseErrorView>(
            ParserView {
                state: State::HeaderStart,
                method: Some(m),
                uri: Some(utf8_lossy(target)),
                version: Some(ver),
                method_buf: encode_utf8(method_text(m)),
                uri_buf: target,
                version_buf: encode_utf8(version_text(ver)),
                consumed: request_line(m, target, ver).len(),
                ..initial(config)
            },
        ),
{
    let token = encode_utf8(method_text(m));
    let literal = encode_utf8(version_text(ver));
    let sp = seq![0x20u8];
    let end = seq![0x0Du8, 0x0Au8];
    method_token_is_recognized(m);
    version_literal_is_recognized(ver);
    let v = initial(config);
    let after_token = sp + (target + (sp + (literal + end)));
    assert(request_line(m, target, ver) =~= token + after_token);
    run_reads_method(v, token);
    let s1 = ParserView {
        method_buf: v.method_buf + token,
        consumed: v.consumed + token.len(),
        ..v
    };
    assert(v.method_buf + token =~= token);
    run_splits(v, token, after_token);
    run_commits_method(s1, m);
    let s2 = ParserView { method: Some(m), state: State::Uri, consumed: s1.consumed + 1, ..s1 };
    run_splits(s1, sp, target + (sp + (literal + end)));
    run_reads_target(s2, target);
    let s3 = ParserView {
        uri_buf: s2.uri_buf + target,
        consumed: s2.consumed + target.len(),
        ..s2
    };
    assert(s2.uri_buf + target =~= target);
    run_splits(s2, target, sp + (literal + end));
    run_commits_target(s3);
    let s4 = ParserView {
        uri: Some(utf8_lossy(s3.uri_buf)),
        state: State::Version,
        consumed: s3.consumed + 1,
        ..s3
    };
    run_splits(s3, sp, literal + end);
    run_reads_version(s4, literal);
    let s5 = ParserView {
        version_buf: s4.version_buf + literal,
        consumed: s4.consumed + literal.len(),
        ..s4
    };
    assert(s4.version_buf + literal =~= literal);
    run_splits(s4, literal, end);
    run_commits_version(s5, ver);
}

/// The parts of one header line.
pub struct HeaderLine {
    pub name: Seq<u8>,
    pub lead: Seq<u8>,
    pub value: Seq<u8>,
}

/// The header that a header line stands for.
pub open spec fn header_of(line: HeaderLine) -> HeaderView {
    HeaderView { name: utf8_lossy(line.name), value: utf8_lossy(strip_trailing_ows(line.value)) }
}

/// The headers that header lines stand for, in order.
pub open spec fn headers_of(lines: Seq<HeaderLine>) -> Seq<HeaderView> {
    Seq::new(lines.len(), |i: int| header_of(lines[i]))
}

/// The bytes of a header block without the empty line at its end.
pub open spec fn header_block(lines: Seq<HeaderLine>) -> Seq<u8>
    decreases lines.len(),
{
    if lines.len() == 0 {
        Seq::empty()
    } else {
        header_block(lines.drop_last()) + header_line(
            lines.last().name,
            lines.last().lead,
            lines.last().value,
        )
    }
}

/// Whether every line is one that the limits admit.
pub open spec fn header_lines_fit(config: ParserConfig, lines: Seq<HeaderLine>) -> bool {
    forall|i: int|
        0 <= i < lines.len() ==> header_line_fits(
            config,
            (#[trigger] lines[i]).name,
            lines[i].lead,
            lines[i].value,
        )
}

/// Header lines add their headers to the list, in order, and change
/// nothing of the request line or the body.
pub proof fn header_block_is_stored(v: ParserView, lines: Seq<HeaderLine>)
    requires
        v.state is HeaderStart,
        v.headers.len() + lines.len() <= v.config.max_headers_count,
        header_lines_fit(v.config, lines),
    ensures
        run(v, header_block(lines)) matches Ok(end) && end.state is HeaderStart && end.headers
            == v.headers + headers_of(lines) && end.consumed == v.consumed + header_block(
            lines,
        ).len() && end.config == v.config && end.method == v.method && end.uri == v.uri
            && end.version == v.version && end.body_buf == v.body_buf && end.chunk_size_buf
            == v.chunk_size_buf,
    decreases lines.len(),
{
    if lines.len() == 0 {
        assert(v.headers + headers_of(lines) =~= v.headers);
    } else {
        let front = lines.drop_last();
        let last = lines.last();
        assert(header_lines_fit(v.config, front)) by {
            assert forall|i: int| 0 <= i < front.len() implies header_line_fits(
                v.config,
                (#[trigger] front[i]).name,
                front[i].lead,
                front[i].value,
            ) by {
                assert(front[i] == lines[i]);
            }
        }
        header_block_is_stored(v, front);
        let mid = run(v, header_block(front))->Ok_0;
        run_splits(v, header_block(front), header_line(last.name, last.lead, last.value));
        assert(header_line_fits(v.config, last.name, last.lead, last.value));
        header_line_is_stored(mid, last.name, last.lead, last.value);
        assert((v.headers + headers_of(front)).push(header_of(last)) =~= v.headers + headers_of(
            lines,
        ));
    }
}

/// At the start of a header line, CR and LF end the header block, and
/// the headers decide how the body is framed.
pub proof fn block_end_frames_body(v: ParserView)
    requires
        v.state is HeaderStart,
    ensures
        run(v, seq![0x0Du8, 0x0Au8]) == framed(
            ParserView { state: State::EndHeadersLf, consumed: v.consumed + 2, ..v },
        ),
{
    let cr = seq![0x0Du8];
    let lf = seq![0x0Au8];
    assert(seq![0x0Du8, 0x0Au8] =~= cr + lf);
    run_of_one(v, 0x0Du8);
    run_splits(v, cr, lf);
    let s = ParserView { state: State::EndHeadersLf, consumed: v.consumed + 1, ..v };
    assert(step(v, 0x0Du8) == Ok::<ParserView, ParseErrorView>(s));
    run_of_one(s, 0x0Au8);
}

/// A body of fixed length is complete once as many bytes as it lacks
/// have been fed, and holds them in order.
pub proof fn declared_body_completes(v: ParserView, body: Seq<u8>)
    requires
        v.state is Body,
        1 <= body.len() == v.body_remaining,
    ensures
        run(v, body) == Ok::<ParserView, ParseErrorView>(body_copied(v, body)),
        body_copied(v, body).state is Complete,
        body_copied(v, body).body_buf == v.body_buf + body,
{
    run_copies_body(v, body, body.len() as int);
    assert(body.take(body.len() as int) =~= body);
    assert(body.skip(body.len() as int) =~= Seq::<u8>::empty());
}

/// Whether a request line and header lines are within the limits.
pub open spec fn head_fits(
    config: ParserConfig,
    m: HttpMethod,
    target: Seq<u8>,
    lines: Seq<HeaderLine>,
) -> bool {
    &&& encode_utf8(method_text(m)).len() <= config.max_method_len
    &&& 1 <= target.len() <= config.max_uri_len
    &&& forall|i: int| 0 <= i < target.len() ==> target_byte(#[trigger] target[i])
    &&& lines.len() <= config.max_headers_count
    &&& header_lines_fit(config, lines)
}

/// A newborn parser reads a request line and header lines as the fields
/// of the request line and the headers, in order, and has then read no
/// byte of a body.
pub proof fn head_is_read(
    config: ParserConfig,
    m: HttpMethod,
    target: Seq<u8>,
    ver: HttpVersion,
    lines: Seq<HeaderLine>,
)
    requires
        head_fits(config, m, target, lines),
    ensures
        run(initial(config), request_line(m, target, ver) + header_block(lines)) matches Ok(end)
            && end.state is HeaderStart && end.method == Some(m) && end.uri == Some(
            utf8_lossy(target),
        ) && end.version == Some(ver) && end.headers == headers_of(lines) && end.body_buf.len()
            == 0 && end.chunk_size_buf.len() == 0 && end.config == config && end.consumed == (
        request_line(m, target, ver) + header_block(lines)).len(),
{
    let line = request_line(m, target, ver);
    let block = header_block(lines);
    request_line_is_read(config, m, target, ver);
    run_splits(initial(config), line, block);
    let s1 = run(initial(config), line)->Ok_0;
    header_block_is_stored(s1, lines);
    assert(s1.headers + headers_of(lines) =~= headers_of(lines));
}

/// The bytes of a request whose body, if it has one, is framed by its
/// length: the request line, the header lines, an empty line and the
/// body.
pub open spec fn request_bytes(
    m: HttpMethod,
    target: Seq<u8>,
    ver: HttpVersion,
    lines: Seq<HeaderLine>,
    body: Seq<u8>,
) -> Seq<u8> {
    request_line(m, target, ver) + header_block(lines) + seq![0x0Du8, 0x0Au8] + body
}

/// Whether the headers frame `body` by its length: no header names the
/// chunked coding, and the declared length is that of the body and
/// within the limit; where none is declared, the body is empty.
pub open spec fn frames_by_length(
    config: ParserConfig,
    headers: Seq<HeaderView>,
    body: Seq<u8>,
) -> bool {
    !any_chunked(headers) && match content_length_of(headers) {
        Ok(Some(n)) => n == body.len() && n <= config.max_body_size,
        Ok(None) => body.len() == 0,
        Err(_) => false,
    }
}

/// A request within the limits whose body is framed by its length is
/// parsed into its method, its target as text, its version, its headers
/// in order and its body, which is absent where it is empty; and every
/// one of its bytes is consumed.
pub proof fn request_is_parsed(
    config: ParserConfig,
    m: HttpMethod,
    target: Seq<u8>,
    ver: HttpVersion,
    lines: Seq<HeaderLine>,
    body: Seq<u8>,
)
    requires
        head_fits(config, m, target, lines),
        frames_by_length(config, headers_of(lines), body),
    ensures
        run(initial(config), request_bytes(m, target, ver, lines, body)) matches Ok(end)
            && end.state is Complete && end.consumed == request_bytes(
            m,
            target,
            ver,
            lines,
            body,
        ).len() && request_of(end) == (RequestView {
            method: m,
            uri: utf8_lossy(target),
            version: ver,
            headers: headers_of(lines),
            body: if body.len() == 0 {
                None
            } else {
                Some(body)
            },
        }),
        parsed(request_bytes(m, target, ver, lines, body), config) matches Ok(request)
            && request.method == m && request.uri == utf8_lossy(target) && request.version == ver
            && request.headers == headers_of(lines) && request.body == (if body.len() == 0 {
            None
        } else {
            Some(body)
        }),
{
    let head = request_line(m, target, ver) + header_block(lines);
    let end = seq![0x0Du8, 0x0Au8];
    assert(request_bytes(m, target, ver, lines, body) =~= head + (end + body));
    head_is_read(config, m, target, ver, lines);
    run_splits(initial(config), head, end + body);
    let s2 = run(initial(config), head)->Ok_0;
    block_end_frames_body(s2);
    run_splits(s2, end, body);
    let s3 = run(s2, end)->Ok_0;
    if body.len() > 0 {
        declared_body_completes(s3, body);
        assert(s3.body_buf + body =~= body);
    }
}

/// In a chunk size, a run over hex digits adds them to the size and does
/// nothing else.
pub proof fn run_reads_size(v: ParserView, digits: Seq<u8>)
    requires
        v.state is ChunkSize,
        forall|i: int| 0 <= i < digits.len() ==> hex_digit(#[trigger] digits[i]),
    ensures
        run(v, digits) == Ok::<ParserView, ParseErrorView>(
            ParserView {
                chunk_size_buf: v.chunk_size_buf + digits,
                consumed: v.consumed + digits.len(),
                ..v
            },
        ),
    decreases digits.len(),
{
    if digits.len() == 0 {
        assert(v.chunk_size_buf + digits =~= v.chunk_size_buf);
    } else {
        let next = ParserView {
            chunk_size_buf: v.chunk_size_buf.push(digits.first()),
            consumed: v.consumed + 1,
            ..v
        };
        assert(hex_digit(digits[0]));
        assert(step(v, digits.first()) == Ok::<ParserView, ParseErrorView>(next));
        let rest = digits.drop_first();
        assert forall|i: int| 0 <= i < rest.len() implies hex_digit(#[trigger] rest[i]) by {
            assert(rest[i] == digits[i + 1]);
        }
        run_reads_size(next, rest);
        assert(next.chunk_size_buf + rest =~= v.chunk_size_buf + digits);
    }
}

proof fn run_commits_size(v: ParserView, size: usize)
    requires
        v.state is ChunkSize,
        parse_hex(v.chunk_size_buf) == Some(size),
        v.body_buf.len() + size <= v.config.max_body_size,
    ensures
        run(v, seq![0x0Du8, 0x0Au8]) == Ok::<ParserView, ParseErrorView>(
            ParserView {
                chunk_remaining: size,
                state: if size == 0 {
                    State::TrailerStart
                } else {
                    State::ChunkData
                },
                consumed: v.consumed + 2,
                ..v
            },
        ),
{
    let cr = seq![0x0Du8];
    let lf = seq![0x0Au8];
    assert(seq![0x0Du8, 0x0Au8] =~= cr + lf);
    run_of_one(v, 0x0Du8);
    run_splits(v, cr, lf);
    let s = ParserView {
        chunk_remaining: size,
        state: State::ChunkSizeLf,
        consumed: v.consumed + 1,
        ..v
    };
    assert(step(v, 0x0Du8) == Ok::<ParserView, ParseErrorView>(s));
    run_of_one(s, 0x0Au8);
}

proof fn run_ends_chunk(v: ParserView)
    requires
        v.state is ChunkDataCr,
    ensures
        run(v, seq![0x0Du8, 0x0Au8]) == Ok::<ParserView, ParseErrorView>(
            ParserView {
                chunk_size_buf: Seq::empty(),
                state: State::ChunkSize,
                consumed: v.consumed + 2,
                ..v
            },
        ),
{
    let cr = seq![0x0Du8];
    let lf = seq![0x0Au8];
    assert(seq![0x0Du8, 0x0Au8] =~= cr + lf);
    run_of_one(v, 0x0Du8);
    run_splits(v, cr, lf);
    let s = ParserView { state: State::ChunkDataLf, consumed: v.consumed + 1, ..v };
    assert(step(v, 0x0Du8) == Ok::<ParserView, ParseErrorView>(s));
    run_of_one(s, 0x0Au8);
}

/// The bytes of one chunk: its size in hex digits, CR and LF, its data,
/// CR and LF.
pub open spec fn chunk(digits: Seq<u8>, data: Seq<u8>) -> Seq<u8> {
    digits + seq![0x0Du8, 0x0Au8] + data + seq![0x0Du8, 0x0Au8]
}

/// A chunk whose size is the length of its data, and which the body
/// limit admits, adds its data to the body. The parser then stands at
/// the size of the next chunk.
pub proof fn chunk_is_appended(v: ParserView, digits: Seq<u8>, data: Seq<u8>)
    requires
        v.state is ChunkSize,
        v.chunk_size_buf.len() == 0,
        1 <= data.len() <= usize::MAX,
        parse_hex(digits) == Some(data.len() as usize),
        v.body_buf.len() + data.len() <= v.config.max_body_size,
    ensures
        run(v, chunk(digits, data)) == Ok::<ParserView, ParseErrorView>(
            ParserView {
                body_buf: v.body_buf + data,
                chunk_size_buf: Seq::empty(),
                chunk_remaining: 0,
                consumed: v.consumed + chunk(digits, data).len(),
                ..v
            },
        ),
{
    let crlf = seq![0x0Du8, 0x0Au8];
    let size = data.len() as usize;
    assert(chunk(digits, data) =~= digits + (crlf + (data + crlf)));
    run_reads_size(v, digits);
    let s1 = ParserView {
        chunk_size_buf: v.chunk_size_buf + digits,
        consumed: v.consumed + digits.len(),
        ..v
    };
    assert(v.chunk_size_buf + digits =~= digits);
    run_splits(v, digits, crlf + (data + crlf));
    run_commits_size(s1, size);
    let s2 = ParserView {
        chunk_remaining: size,
        state: State::ChunkData,
        consumed: s1.consumed + 2,
        ..s1
    };
    run_splits(s1, crlf, data + crlf);
    run_copies_chunk(s2, data, data.len() as int);
    assert(data.take(data.len() as int) =~= data);
    assert(data.skip(data.len() as int) =~= Seq::<u8>::empty());
    let s3 = chunk_copied(s2, data);
    run_splits(s2, data, crlf);
    run_ends_chunk(s3);
}

/// The bytes that end a chunked body without trailers: a size of zero
/// in hex digits, CR and LF, and an empty line.
pub open spec fn last_chunk(digits: Seq<u8>) -> Seq<u8> {
    digits + seq![0x0Du8, 0x0Au8] + seq![0x0Du8, 0x0Au8]
}

/// A chunk of size zero with no trailers behind it completes the
/// request, and leaves the body as it is.
pub proof fn last_chunk_completes(v: ParserView, digits: Seq<u8>)
    requires
        v.state is ChunkSize,
        v.chunk_size_buf.len() == 0,
        parse_hex(digits) == Some(0usize),
        v.body_buf.len() <= v.config.max_body_size,
    ensures
        run(v, last_chunk(digits)) == Ok::<ParserView, ParseErrorView>(
            ParserView {
                chunk_size_buf: digits,
                chunk_remaining: 0,
                state: State::Complete,
                consumed: v.consumed + last_chunk(digits).len(),
                ..v
            },
        ),
{
    let crlf = seq![0x0Du8, 0x0Au8];
    assert(last_chunk(digits) =~= digits + (crlf + crlf));
    run_reads_size(v, digits);
    let s1 = ParserView {
        chunk_size_buf: v.chunk_size_buf + digits,
        consumed: v.consumed + digits.len(),
        ..v
    };
    assert(v.chunk_size_buf + digits =~= digits);
    run_splits(v, digits, crlf + crlf);
    run_commits_size(s1, 0);
    let s2 = ParserView {
        chunk_remaining: 0,
        state: State::TrailerStart,
        consumed: s1.consumed + 2,
        ..s1
    };
    run_splits(s1, crlf, crlf);
    let cr = seq![0x0Du8];
    let lf = seq![0x0Au8];
    assert(crlf =~= cr + lf);
    run_of_one(s2, 0x0Du8);
    run_splits(s2, cr, lf);
    let s3 = ParserView { state: State::TrailerEndLf, consumed: s2.consumed + 1, ..s2 };
    assert(step(s2, 0x0Du8) == Ok::<ParserView, ParseErrorView>(s3));
    run_of_one(s3, 0x0Au8);
}

/// One chunk of a chunked body: its size as it is written, and its data.
pub struct Chunk {
    pub digits: Seq<u8>,
    pub data: Seq<u8>,
}

/// Whether every chunk has data, and is sized by the length of its data.
pub open spec fn chunks_are_sized(chunks: Seq<Chunk>) -> bool {
    forall|i: int|
        0 <= i < chunks.len() ==> 1 <= (#[trigger] chunks[i]).data.len() <= usize::MAX
            && parse_hex(chunks[i].digits) == Some(chunks[i].data.len() as usize)
}

/// The bytes of the chunks, one after the other.
pub open spec fn chunks_bytes(chunks: Seq<Chunk>) -> Seq<u8>
    decreases chunks.len(),
{
    if chunks.len() == 0 {
        Seq::empty()
    } else {
        chunks_bytes(chunks.drop_last()) + chunk(chunks.last().digits, chunks.last().data)
    }
}

/// The data of the chunks, one after the other.
pub open spec fn chunks_data(chunks: Seq<Chunk>) -> Seq<u8>
    decreases chunks.len(),
{
    if chunks.len() == 0 {
        Seq::empty()
    } else {
        chunks_data(chunks.drop_last()) + chunks.last().data
    }
}

/// Chunks that the body limit admits add their data to the body, in
/// order, and change nothing of the request line or the headers.
pub proof fn chunks_are_appended(v: ParserView, chunks: Seq<Chunk>)
    requires
        v.state is ChunkSize,
        v.chunk_size_buf.len() == 0,
        chunks_are_sized(chunks),
        v.body_buf.len() + chunks_data(chunks).len() <= v.config.max_body_size,
    ensures
        run(v, chunks_bytes(chunks)) matches Ok(end) && end.state is ChunkSize
            && end.chunk_size_buf.len() == 0 && end.body_buf == v.body_buf + chunks_data(chunks)
            && end.consumed == v.consumed + chunks_bytes(chunks).len() && end.config == v.config
            && end.method == v.method && end.uri == v.uri && end.version == v.version
            && end.headers == v.headers,
    decreases chunks.len(),
{
    if chunks.len() == 0 {
        assert(v.body_buf + chunks_data(chunks) =~= v.body_buf);
    } else {
        let front = chunks.drop_last();
        let last = chunks.last();
        assert(chunks_are_sized(front)) by {
            assert forall|i: int| 0 <= i < front.len() implies 1 <= (#[trigger] front[i]).data.len()
                <= usize::MAX && parse_hex(front[i].digits) == Some(
                front[i].data.len() as usize,
            ) by {
                assert(front[i] == chunks[i]);
            }
        }
        chunks_are_appended(v, front);
        let mid = run(v, chunks_bytes(front))->Ok_0;
        run_splits(v, chunks_bytes(front), chunk(last.digits, last.data));
        assert(mid.chunk_size_buf =~= Seq::<u8>::empty());
        chunk_is_appended(mid, last.digits, last.data);
        assert((v.body_buf + chunks_data(front)) + last.data =~= v.body_buf + chunks_data(chunks));
    }
}

/// The bytes of a request with a chunked body and no trailers: the
/// request line, the header lines, an empty line, the chunks, and a last
/// chunk of size zero.
pub open spec fn chunked_request_bytes(
    m: HttpMethod,
    target: Seq<u8>,
    ver: HttpVersion,
    lines: Seq<HeaderLine>,
    chunks: Seq<Chunk>,
    zero: Seq<u8>,
) -> Seq<u8> {
    request_line(m, target, ver) + header_block(lines) + seq![0x0Du8, 0x0Au8] + chunks_bytes(
        chunks,
    ) + last_chunk(zero)
}

/// A request within the limits one of whose headers names the chunked
/// coding is parsed into its method, its target as text, its version,
/// its headers in order and, as its body, the data of its chunks in
/// order; whatever length its headers declare is not looked at.
pub proof fn chunked_request_is_parsed(
    config: ParserConfig,
    m: HttpMethod,
    target: Seq<u8>,
    ver: HttpVersion,
    lines: Seq<HeaderLine>,
    chunks: Seq<Chunk>,
    zero: Seq<u8>,
)
    requires
        head_fits(config, m, target, lines),
        any_chunked(headers_of(lines)),
        chunks_are_sized(chunks),
        chunks_data(chunks).len() <= config.max_body_size,
        parse_hex(zero) == Some(0usize),
    ensures
        parsed(chunked_request_bytes(m, target, ver, lines, chunks, zero), config) matches Ok(
            request,
        ) && request.method == m && request.uri == utf8_lossy(target) && request.version == ver
            && request.headers == headers_of(lines) && request.body == (if chunks_data(
            chunks,
        ).len() == 0 {
            None
        } else {
            Some(chunks_data(chunks))
        }),
{
    let head = request_line(m, target, ver) + header_block(lines);
    let end = seq![0x0Du8, 0x0Au8];
    let body = chunks_bytes(chunks);
    let tail = last_chunk(zero);
    assert(chunked_request_bytes(m, target, ver, lines, chunks, zero) =~= head + (end + (body
        + tail)));
    head_is_read(config, m, target, ver, lines);
    run_splits(initial(config), head, end + (body + tail));
    let s2 = run(initial(config), head)->Ok_0;
    block_end_frames_body(s2);
    run_splits(s2, end, body + tail);
    let s3 = run(s2, end)->Ok_0;
    assert(s3.chunk_size_buf =~= Seq::<u8>::empty());
    chunks_are_appended(s3, chunks);
    run_splits(s3, body, tail);
    let s4 = run(s3, body)->Ok_0;
    assert(s4.chunk_size_buf =~= Seq::<u8>::empty());
    assert(s3.body_buf + chunks_data(chunks) =~= chunks_data(chunks));
    last_chunk_completes(s4, zero);
}

} // verus!
