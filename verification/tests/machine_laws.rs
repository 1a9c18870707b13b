use wireframe::escape::unescape;
use wireframe::text::{
    bytes_contain_lowered, bytes_eq, bytes_eq_ignore_case, bytes_parse_decimal, bytes_parse_hex,
    is_hex_digit, is_tchar, to_lower, trim_trailing_ows,
};
use wireframe::{
    format_debug, format_headers_only, parse_request, parse_request_with_config, Header,
    HttpMethod, HttpRequest, HttpVersion, ParseError, ParseStatus, Parser, ParserConfig,
};

const CHUNKED: &[u8] = b"POST /upload HTTP/1.1\r\nHost: h\r\nTransfer-Encoding: chunked\r\n\r\n5\r\nHello\r\n6\r\n World\r\n0\r\n\r\n";
const FIXED: &[u8] = b"POST /submit HTTP/1.1\r\nHost: h\r\nContent-Length: 16\r\n\r\nname=John&age=30";

fn unexpected(expected: &'static str, found: u8) -> ParseError {
    ParseError::UnexpectedByte { expected, found }
}

fn request_with(headers: Vec<(&str, &str)>, body: Option<Vec<u8>>) -> HttpRequest {
    HttpRequest {
        method: HttpMethod::GET,
        uri: "/".to_string(),
        version: HttpVersion::Http11,
        headers: headers
            .into_iter()
            .map(|(n, v)| Header { name: n.to_string(), value: v.to_string() })
            .collect(),
        body,
    }
}

// ---- streaming -----------------------------------------------------------

#[test]
fn every_two_way_split_parses_like_the_whole() {
    for raw in [CHUNKED, FIXED] {
        let whole = parse_request(raw).unwrap();
        for cut in 0..=raw.len() {
            let mut parser = Parser::new();
            let first = parser.feed(&raw[..cut]).unwrap();
            if cut < raw.len() {
                assert_eq!(first, ParseStatus::Incomplete);
            }
            let second = parser.feed(&raw[cut..]).unwrap();
            assert_eq!(second, ParseStatus::Complete(raw.len()));
            assert_eq!(parser.finish().unwrap(), whole);
        }
    }
}

#[test]
fn three_byte_fragments_parse_like_the_whole() {
    let whole = parse_request(CHUNKED).unwrap();
    let mut parser = Parser::new();
    let mut last = ParseStatus::Incomplete;
    for fragment in CHUNKED.chunks(3) {
        last = parser.feed(fragment).unwrap();
    }
    assert_eq!(last, ParseStatus::Complete(CHUNKED.len()));
    assert_eq!(parser.bytes_consumed(), CHUNKED.len());
    assert!(parser.is_complete());
    assert_eq!(parser.finish().unwrap(), whole);
}

#[test]
fn empty_feed_changes_nothing() {
    let mut parser = Parser::new();
    assert_eq!(parser.feed(b"").unwrap(), ParseStatus::Incomplete);
    assert_eq!(parser.bytes_consumed(), 0);
    assert_eq!(parser.feed(b"GET").unwrap(), ParseStatus::Incomplete);
    assert_eq!(parser.feed(b"").unwrap(), ParseStatus::Incomplete);
    assert_eq!(parser.bytes_consumed(), 3);
}

// ---- pipelining ----------------------------------------------------------

#[test]
fn consumed_is_the_length_of_the_request() {
    for raw in [CHUNKED, FIXED] {
        for rest in [&b""[..], b"G", b"GE", b"GET /next HTTP/1.1\r\n"] {
            let mut stream = raw.to_vec();
            stream.extend_from_slice(rest);
            let mut parser = Parser::new();
            assert_eq!(parser.feed(&stream).unwrap(), ParseStatus::Complete(raw.len()));
            assert_eq!(&stream[raw.len()..], rest);
            assert_eq!(parser.finish().unwrap(), parse_request(raw).unwrap());
        }
    }
}

#[test]
fn complete_parser_ignores_further_bytes() {
    let raw = b"GET / HTTP/1.1\r\nHost: h\r\n\r\n";
    let mut parser = Parser::new();
    assert_eq!(parser.feed(raw).unwrap(), ParseStatus::Complete(raw.len()));
    assert_eq!(parser.feed(b"\x00garbage").unwrap(), ParseStatus::Complete(raw.len()));
    assert_eq!(parser.feed(b"").unwrap(), ParseStatus::Complete(raw.len()));
    assert_eq!(parser.bytes_consumed(), raw.len());
    assert!(parser.finish().unwrap().body.is_none());
}

#[test]
fn next_request_starts_at_consumed() {
    let raw = b"GET / HTTP/1.1\r\nHost: h\r\n\r\nGET /next HTTP/1.1\r\n";
    let mut parser = Parser::new();
    match parser.feed(raw).unwrap() {
        ParseStatus::Complete(consumed) => {
            assert_eq!(consumed, 27);
            assert_eq!(&raw[consumed..consumed + 3], b"GET");
        }
        ParseStatus::Incomplete => panic!("expected Complete"),
    }
}

// ---- reset ---------------------------------------------------------------

#[test]
fn reset_parser_behaves_like_a_new_one() {
    let config = ParserConfig { max_headers_count: 2, ..ParserConfig::default() };
    let mut used = Parser::with_config(config);
    assert_eq!(used.feed(&CHUNKED[..70]).unwrap(), ParseStatus::Incomplete);
    used.reset();
    assert_eq!(used.bytes_consumed(), 0);
    assert!(!used.is_complete());
    let mut fresh = Parser::with_config(config);
    assert_eq!(used.feed(FIXED).unwrap(), fresh.feed(FIXED).unwrap());
    assert_eq!(used.finish().unwrap(), fresh.finish().unwrap());

    let mut limited = Parser::with_config(config);
    assert_eq!(limited.feed(b"GET / HTTP/1.1\r\nA: 1\r\n").unwrap(), ParseStatus::Incomplete);
    limited.reset();
    assert_eq!(
        limited.feed(b"GET / HTTP/1.1\r\nA: 1\r\nB: 2\r\nC: 3\r\n\r\n"),
        Err(ParseError::TooManyHeaders)
    );
}

#[test]
fn default_parser_is_a_new_parser() {
    let mut parser = Parser::default();
    assert_eq!(parser.bytes_consumed(), 0);
    assert!(!parser.is_complete());
    assert_eq!(parser.feed(FIXED).unwrap(), ParseStatus::Complete(FIXED.len()));
}

#[test]
fn finish_before_the_end_is_incomplete() {
    assert_eq!(Parser::new().finish(), Err(ParseError::IncompleteRequest));
    let mut parser = Parser::new();
    parser.feed(b"GET / HTTP/1.1\r\nHost: h\r\n\r").unwrap();
    assert_eq!(parser.finish(), Err(ParseError::IncompleteRequest));
}

// ---- header lookup -------------------------------------------------------

#[test]
fn lookup_ignores_case_and_keeps_order() {
    let raw = b"GET / HTTP/1.1\r\nX-Tag: one\r\nHost: h\r\nx-tag: two\r\nX-TAG: three\r\n\r\n";
    let req = parse_request(raw).unwrap();
    for name in ["X-Tag", "x-tag", "X-TAG", "x-TaG"] {
        assert_eq!(req.header_value(name), Some("one"));
        assert_eq!(req.header_values(name), vec!["one", "two", "three"]);
    }
    assert_eq!(req.header_value("X-Tags"), None);
    assert_eq!(req.header_values("X-Ta"), Vec::<&str>::new());
    assert_eq!(req.headers[0].name, "X-Tag");
    assert_eq!(req.headers[2].name, "x-tag");
    assert_eq!(req.headers[3].name, "X-TAG");
}

#[test]
fn lookup_folds_letters_only() {
    // '@' is 0x40 and '`' is 0x60: 32 apart, yet no letters.
    let req = request_with(vec![("a@b", "1"), ("A`B", "2")], None);
    assert_eq!(req.header_values("A@B"), vec!["1"]);
    assert_eq!(req.header_values("a`b"), vec!["2"]);
}

#[test]
fn optional_whitespace_is_trimmed_at_both_ends_only() {
    let raw = b"GET / HTTP/1.1\r\nA: \t x \t y\t \t\r\nB:\t\r\nC:  \t \r\nD:z\r\n\r\n";
    let req = parse_request(raw).unwrap();
    assert_eq!(req.header_value("A"), Some("x \t y"));
    assert_eq!(req.header_value("B"), Some(""));
    assert_eq!(req.header_value("C"), Some(""));
    assert_eq!(req.header_value("D"), Some("z"));
}

#[test]
fn trailing_ows_is_cut_from_a_buffer() {
    let mut text = b" a b \t \t".to_vec();
    trim_trailing_ows(&mut text);
    assert_eq!(text, b" a b");
    let mut blank = b" \t ".to_vec();
    trim_trailing_ows(&mut blank);
    assert!(blank.is_empty());
    let mut kept = b"x\n".to_vec();
    trim_trailing_ows(&mut kept);
    assert_eq!(kept, b"x\n");
}

// ---- whole requests ------------------------------------------------------

#[test]
fn get_request_in_full() {
    let req = parse_request(b"GET / HTTP/1.1\r\nHost: example.com\r\n\r\n").unwrap();
    assert_eq!(
        req,
        HttpRequest {
            method: HttpMethod::GET,
            uri: "/".to_string(),
            version: HttpVersion::Http11,
            headers: vec![Header { name: "Host".to_string(), value: "example.com".to_string() }],
            body: None,
        }
    );
}

#[test]
fn fixed_length_body_and_declared_length() {
    let req = parse_request(FIXED).unwrap();
    assert_eq!(req.body_bytes(), Some(&b"name=John&age=30"[..]));
    assert_eq!(req.content_length(), Some(16));
    assert!(!req.is_chunked());
}

#[test]
fn chunked_body_is_joined() {
    let req = parse_request(CHUNKED).unwrap();
    assert_eq!(req.body_bytes(), Some(&b"Hello World"[..]));
    assert!(req.is_chunked());
    assert_eq!(req.content_length(), None);
}

#[test]
fn chunked_framing_wins_over_declared_length() {
    let raw = b"POST / HTTP/1.1\r\nHost: h\r\nContent-Length: 999\r\nTransfer-Encoding: chunked\r\n\r\n3\r\nabc\r\n0\r\n\r\n";
    let req = parse_request(raw).unwrap();
    assert_eq!(req.body, Some(b"abc".to_vec()));
}

#[test]
fn differing_content_lengths_are_named() {
    let raw = b"POST / HTTP/1.1\r\nHost: h\r\nContent-Length: 3\r\nContent-Length: 5\r\n\r\nabc";
    assert_eq!(
        parse_request(raw),
        Err(ParseError::InvalidContentLength(
            "multiple differing Content-Length values".to_string()
        ))
    );
}

#[test]
fn http2_is_rejected_with_its_literal() {
    assert_eq!(
        parse_request(b"GET / HTTP/2.0\r\nHost: h\r\n\r\n"),
        Err(ParseError::InvalidVersion("HTTP/2.0".to_string()))
    );
}

#[test]
fn bare_lf_is_rejected_where_cr_is_due() {
    assert_eq!(
        parse_request(b"GET / HTTP/1.1\nHost: h\n\n"),
        Err(unexpected("version character or CR", b'\n'))
    );
}

// ---- framing -------------------------------------------------------------

#[test]
fn chunked_is_found_in_any_transfer_encoding_header() {
    let raw = b"POST / HTTP/1.1\r\nTransfer-Encoding: gzip\r\ntransfer-ENCODING: gzip, CHUNKED\r\n\r\n2\r\nhi\r\n0\r\n\r\n";
    let req = parse_request(raw).unwrap();
    assert_eq!(req.body, Some(b"hi".to_vec()));
    // The accessor looks at the first such header only.
    assert!(!req.is_chunked());
}

#[test]
fn chunked_is_a_substring_match() {
    let req = request_with(vec![("Transfer-Encoding", "xChUnKeDx")], None);
    assert!(req.is_chunked());
    let req = request_with(vec![("Transfer-Encoding", "chunke")], None);
    assert!(!req.is_chunked());
    let req = request_with(vec![("Transfer-Encoding", "")], None);
    assert!(!req.is_chunked());
}

#[test]
fn content_length_is_trimmed_then_read_as_decimal() {
    assert_eq!(request_with(vec![("Content-Length", "42")], None).content_length(), Some(42));
    assert_eq!(
        request_with(vec![("content-length", " \u{a0}007\u{2003}\n")], None).content_length(),
        Some(7)
    );
    assert_eq!(request_with(vec![("Content-Length", "4 2")], None).content_length(), None);
    assert_eq!(request_with(vec![("Content-Length", "")], None).content_length(), None);
    assert_eq!(request_with(vec![("Content-Length", "-1")], None).content_length(), None);
    assert_eq!(request_with(vec![("Content-Length", "0x10")], None).content_length(), None);
    assert_eq!(
        request_with(vec![("Content-Length", "x"), ("Content-Length", "5")], None)
            .content_length(),
        None
    );
    assert_eq!(request_with(vec![("Host", "5")], None).content_length(), None);
}

#[test]
fn content_length_errors_carry_the_trimmed_value() {
    let raw = b"POST / HTTP/1.1\r\nContent-Length: abc\r\n\r\n";
    assert_eq!(parse_request(raw), Err(ParseError::InvalidContentLength("abc".to_string())));
    let raw = b"POST / HTTP/1.1\r\nContent-Length: -1\r\n\r\n";
    assert_eq!(parse_request(raw), Err(ParseError::InvalidContentLength("-1".to_string())));
    let raw = b"POST / HTTP/1.1\r\nContent-Length:\r\n\r\n";
    assert_eq!(parse_request(raw), Err(ParseError::InvalidContentLength("".to_string())));
    let raw = b"POST / HTTP/1.1\r\nContent-Length: 99999999999999999999999999\r\n\r\n";
    assert_eq!(
        parse_request(raw),
        Err(ParseError::InvalidContentLength("99999999999999999999999999".to_string()))
    );
}

#[test]
fn chunk_size_errors() {
    let head = "POST / HTTP/1.1\r\nTransfer-Encoding: chunked\r\n\r\n";
    let run = |tail: &str| parse_request(format!("{head}{tail}").as_bytes());
    assert_eq!(run("\r\n"), Err(ParseError::InvalidChunkSize("empty chunk size".to_string())));
    assert_eq!(run(";x\r\n"), Err(ParseError::InvalidChunkSize("empty chunk size".to_string())));
    let huge = "F".repeat(40);
    assert_eq!(run(&format!("{huge}\r\n")), Err(ParseError::InvalidChunkSize(huge)));
    assert_eq!(run("A00001\r\n"), Err(ParseError::BodyTooLarge));
    assert_eq!(run("g\r\n"), Err(unexpected("hex digit, ';', or CR in chunk size", b'g')));
    assert_eq!(run("1\r\nab"), Err(unexpected("CR after chunk data", b'b')));
    assert_eq!(run("1\r\na\rb"), Err(unexpected("LF after chunk data CR", b'b')));
    assert_eq!(run("1\rx"), Err(unexpected("LF after chunk size CR", b'x')));
    assert_eq!(run("0\r\nT: v\rx"), Err(unexpected("LF after trailer field CR", b'x')));
    assert_eq!(run("0\r\n\rx"), Err(unexpected("LF after trailer-section end CR", b'x')));
    assert_eq!(run("0\r\n"), Err(ParseError::IncompleteRequest));
}

#[test]
fn chunk_sizes_are_hexadecimal() {
    let head = "POST / HTTP/1.1\r\nTransfer-Encoding: chunked\r\n\r\n";
    let body = "x".repeat(0x1b);
    let raw = format!("{head}001B;a=b;c\r\n{body}\r\n0;last\r\nT1: v\r\nT2: w\r\n\r\n");
    let req = parse_request(raw.as_bytes()).unwrap();
    assert_eq!(req.body, Some(body.into_bytes()));
    assert_eq!(req.headers.len(), 1);
}

// ---- errors of the request line and the headers --------------------------

#[test]
fn request_line_errors() {
    assert_eq!(
        parse_request(b"FOOBAR / HTTP/1.1\r\n\r\n"),
        Err(ParseError::InvalidMethod("FOOBAR".to_string()))
    );
    assert_eq!(
        parse_request(b"get / HTTP/1.1\r\n\r\n"),
        Err(ParseError::InvalidMethod("get".to_string()))
    );
    assert_eq!(parse_request(b" / HTTP/1.1\r\n\r\n"), Err(ParseError::InvalidMethod("".to_string())));
    assert_eq!(
        parse_request(b"G@T / HTTP/1.1\r\n\r\n"),
        Err(unexpected("token character or SP in request method", b'@'))
    );
    assert_eq!(
        parse_request(b"GET  HTTP/1.1\r\n\r\n"),
        Err(ParseError::InvalidUri("empty URI".to_string()))
    );
    assert_eq!(
        parse_request(b"GET /a\x7fb HTTP/1.1\r\n\r\n"),
        Err(unexpected("visible character or SP in request URI", 0x7f))
    );
    assert_eq!(
        parse_request(b"GET / http/1.1\r\n\r\n"),
        Err(ParseError::InvalidVersion("http/1.1".to_string()))
    );
    assert_eq!(
        parse_request(b"GET / HTTP/1.1 \r\n\r\n"),
        Err(ParseError::InvalidVersion("HTTP/1.1 ".to_string()))
    );
    assert_eq!(
        parse_request(b"GET / HTTP/1.1\rX"),
        Err(unexpected("LF after version CR", b'X'))
    );
    assert_eq!(parse_request(b"GET / HTTP/1.1"), Err(ParseError::IncompleteRequest));
    assert_eq!(parse_request(b""), Err(ParseError::IncompleteRequest));
}

#[test]
fn header_errors() {
    let run = |tail: &str| parse_request(format!("GET / HTTP/1.1\r\n{tail}").as_bytes());
    assert_eq!(run(" A: b\r\n\r\n"), Err(unexpected("header name character or CR", b' ')));
    assert_eq!(run("A b: c\r\n\r\n"), Err(unexpected("header name character or ':'", b' ')));
    assert_eq!(run("A:\x01\r\n\r\n"), Err(unexpected("header value character, OWS, or CR", 1)));
    assert_eq!(run("A: b\x7f\r\n\r\n"), Err(unexpected("header value character or CR", 0x7f)));
    assert_eq!(run("A: b\rX"), Err(unexpected("LF after header value CR", b'X')));
    assert_eq!(run("A: b\r\n\rX"), Err(unexpected("LF after end-of-headers CR", b'X')));
}

#[test]
fn uri_bytes_outside_ascii_become_replacement_characters() {
    let req = parse_request(b"GET /caf\xc3\xa9/\xff HTTP/1.1\r\n\r\n").unwrap();
    assert_eq!(req.uri, "/caf\u{e9}/\u{fffd}");
}

// ---- limits --------------------------------------------------------------

#[test]
fn default_limits() {
    let c = ParserConfig::default();
    assert_eq!(c.max_method_len, 16);
    assert_eq!(c.max_uri_len, 8192);
    assert_eq!(c.max_header_name_len, 256);
    assert_eq!(c.max_header_value_len, 8192);
    assert_eq!(c.max_headers_count, 128);
    assert_eq!(c.max_body_size, 10_485_760);
}

#[test]
fn method_limit_boundary() {
    let at = ParserConfig { max_method_len: 3, ..ParserConfig::default() };
    assert!(parse_request_with_config(b"GET / HTTP/1.1\r\n\r\n", at).is_ok());
    let below = ParserConfig { max_method_len: 2, ..ParserConfig::default() };
    assert_eq!(
        parse_request_with_config(b"GET / HTTP/1.1\r\n\r\n", below),
        Err(ParseError::InvalidMethod("method too long".to_string()))
    );
}

#[test]
fn uri_limit_boundary() {
    let at = ParserConfig { max_uri_len: 4, ..ParserConfig::default() };
    assert_eq!(parse_request_with_config(b"GET /abc HTTP/1.1\r\n\r\n", at).unwrap().uri, "/abc");
    assert_eq!(
        parse_request_with_config(b"GET /abcd HTTP/1.1\r\n\r\n", at),
        Err(ParseError::InvalidUri("URI too long".to_string()))
    );
}

#[test]
fn version_cap_is_sixteen_bytes() {
    assert_eq!(
        parse_request(b"GET / 0123456789abcdef\r\n\r\n"),
        Err(ParseError::InvalidVersion("0123456789abcdef".to_string()))
    );
    assert_eq!(
        parse_request(b"GET / 0123456789abcdefg\r\n\r\n"),
        Err(ParseError::InvalidVersion("version string too long".to_string()))
    );
}

#[test]
fn header_name_limit_boundary() {
    let c = ParserConfig { max_header_name_len: 4, ..ParserConfig::default() };
    assert!(parse_request_with_config(b"GET / HTTP/1.1\r\nHost: h\r\n\r\n", c).is_ok());
    assert_eq!(
        parse_request_with_config(b"GET / HTTP/1.1\r\nHosts: h\r\n\r\n", c),
        Err(ParseError::HeaderTooLarge)
    );
}

#[test]
fn header_value_limit_boundary() {
    let c = ParserConfig { max_header_value_len: 3, ..ParserConfig::default() };
    assert!(parse_request_with_config(b"GET / HTTP/1.1\r\nA:   abc\r\n\r\n", c).is_ok());
    assert_eq!(
        parse_request_with_config(b"GET / HTTP/1.1\r\nA: abcd\r\n\r\n", c),
        Err(ParseError::HeaderTooLarge)
    );
    // Whitespace after the value counts until it is trimmed.
    assert_eq!(
        parse_request_with_config(b"GET / HTTP/1.1\r\nA: abc \r\n\r\n", c),
        Err(ParseError::HeaderTooLarge)
    );
}

#[test]
fn header_count_limit_boundary() {
    let c = ParserConfig { max_headers_count: 2, ..ParserConfig::default() };
    let req = parse_request_with_config(b"GET / HTTP/1.1\r\nA: 1\r\nB: 2\r\n\r\n", c).unwrap();
    assert_eq!(req.headers.len(), 2);
    assert_eq!(
        parse_request_with_config(b"GET / HTTP/1.1\r\nA: 1\r\nB: 2\r\nC", c),
        Err(ParseError::TooManyHeaders)
    );
}

#[test]
fn body_limit_boundary_fixed() {
    let c = ParserConfig { max_body_size: 5, ..ParserConfig::default() };
    let ok = parse_request_with_config(b"POST / HTTP/1.1\r\nContent-Length: 5\r\n\r\n01234", c);
    assert_eq!(ok.unwrap().body, Some(b"01234".to_vec()));
    assert_eq!(
        parse_request_with_config(b"POST / HTTP/1.1\r\nContent-Length: 6\r\n\r\n", c),
        Err(ParseError::BodyTooLarge)
    );
}

#[test]
fn body_limit_boundary_chunked() {
    let c = ParserConfig { max_body_size: 5, ..ParserConfig::default() };
    let head = "POST / HTTP/1.1\r\nTransfer-Encoding: chunked\r\n\r\n";
    let ok = parse_request_with_config(format!("{head}3\r\nabc\r\n2\r\nde\r\n0\r\n\r\n").as_bytes(), c);
    assert_eq!(ok.unwrap().body, Some(b"abcde".to_vec()));
    assert_eq!(
        parse_request_with_config(format!("{head}3\r\nabc\r\n3\r").as_bytes(), c),
        Err(ParseError::BodyTooLarge)
    );
    assert_eq!(
        parse_request_with_config(format!("{head}6;").as_bytes(), c),
        Err(ParseError::BodyTooLarge)
    );
}

#[test]
fn zero_limits_still_take_the_first_byte_of_a_header() {
    let c = ParserConfig {
        max_header_name_len: 0,
        max_header_value_len: 0,
        ..ParserConfig::default()
    };
    let req = parse_request_with_config(b"GET / HTTP/1.1\r\nA: b\r\n\r\n", c).unwrap();
    assert_eq!(req.header_value("a"), Some("b"));
    assert_eq!(
        parse_request_with_config(b"GET / HTTP/1.1\r\nAB", c),
        Err(ParseError::HeaderTooLarge)
    );
}

// ---- methods, versions ---------------------------------------------------

#[test]
fn methods_and_versions_round_trip() {
    let methods = [
        HttpMethod::GET,
        HttpMethod::HEAD,
        HttpMethod::POST,
        HttpMethod::PUT,
        HttpMethod::DELETE,
        HttpMethod::CONNECT,
        HttpMethod::OPTIONS,
        HttpMethod::TRACE,
        HttpMethod::PATCH,
    ];
    let names = ["GET", "HEAD", "POST", "PUT", "DELETE", "CONNECT", "OPTIONS", "TRACE", "PATCH"];
    for (m, name) in methods.iter().zip(names) {
        assert_eq!(m.as_str(), name);
        assert_eq!(HttpMethod::from_bytes(name.as_bytes()), Ok(*m));
    }
    assert_eq!(
        HttpMethod::from_bytes(b"GETS"),
        Err(ParseError::InvalidMethod("GETS".to_string()))
    );
    assert_eq!(
        HttpMethod::from_bytes(b"P\xffT"),
        Err(ParseError::InvalidMethod("P\u{fffd}T".to_string()))
    );
    assert_eq!(HttpVersion::Http10.as_str(), "HTTP/1.0");
    assert_eq!(HttpVersion::Http11.as_str(), "HTTP/1.1");
    assert_eq!(HttpVersion::from_bytes(b"HTTP/1.0"), Ok(HttpVersion::Http10));
    assert_eq!(HttpVersion::from_bytes(b"HTTP/1.1"), Ok(HttpVersion::Http11));
    assert_eq!(
        HttpVersion::from_bytes(b"HTTP/1.2"),
        Err(ParseError::InvalidVersion("HTTP/1.2".to_string()))
    );
}

// ---- bodies --------------------------------------------------------------

#[test]
fn body_accessors() {
    let text = request_with(vec![], Some("h\u{e9}".as_bytes().to_vec()));
    assert_eq!(text.body_as_str(), Some("h\u{e9}"));
    assert_eq!(text.body_as_lossy_string(), Some("h\u{e9}".to_string()));
    assert_eq!(text.body_bytes(), Some(&b"h\xc3\xa9"[..]));
    let binary = request_with(vec![], Some(vec![b'a', 0xff, b'b']));
    assert_eq!(binary.body_as_str(), None);
    assert_eq!(binary.body_as_lossy_string(), Some("a\u{fffd}b".to_string()));
    assert_eq!(binary.body_bytes(), Some(&[b'a', 0xff, b'b'][..]));
    let none = request_with(vec![], None);
    assert_eq!(none.body_as_str(), None);
    assert_eq!(none.body_as_lossy_string(), None);
    assert_eq!(none.body_bytes(), None);
}

// ---- text ----------------------------------------------------------------

#[test]
fn error_messages() {
    let s = |t: &str| t.to_string();
    assert_eq!(ParseError::InvalidMethod(s("FOO")).to_string(), "invalid HTTP method: 'FOO'");
    assert_eq!(ParseError::InvalidVersion(s("H")).to_string(), "invalid HTTP version: 'H'");
    assert_eq!(ParseError::InvalidUri(s("empty URI")).to_string(), "invalid request URI: 'empty URI'");
    assert_eq!(
        ParseError::InvalidContentLength(s("abc")).to_string(),
        "invalid Content-Length: 'abc'"
    );
    assert_eq!(ParseError::InvalidChunkSize(s("")).to_string(), "invalid chunk size: ''");
    assert_eq!(
        unexpected("CR after chunk data", 0x0a).to_string(),
        "unexpected byte 0x0A (expected CR after chunk data)"
    );
    assert_eq!(unexpected("x", 0xff).to_string(), "unexpected byte 0xFF (expected x)");
    assert_eq!(unexpected("", 0x90).to_string(), "unexpected byte 0x90 (expected )");
    assert_eq!(ParseError::HeaderTooLarge.to_string(), "header exceeds maximum allowed size");
    assert_eq!(ParseError::BodyTooLarge.to_string(), "body exceeds maximum allowed size");
    assert_eq!(ParseError::TooManyHeaders.to_string(), "number of headers exceeds maximum");
    assert_eq!(ParseError::IncompleteRequest.to_string(), "incomplete HTTP request");
}

#[test]
fn debug_output_in_full() {
    let req = parse_request(FIXED).unwrap();
    assert_eq!(
        format_debug(&req),
        "=== HTTP Request ===\nMethod:  POST\nURI:     /submit\nVersion: HTTP/1.1\n\n--- Headers (2) ---\n  Host: h\n  Content-Length: 16\n\n--- Body (16 bytes) ---\nname=John&age=30\n====================\n"
    );
    let bare = request_with(vec![], None);
    assert_eq!(
        format_debug(&bare),
        "=== HTTP Request ===\nMethod:  GET\nURI:     /\nVersion: HTTP/1.1\n\n--- Headers (0) ---\n\n--- No Body ---\n====================\n"
    );
    let binary = request_with(vec![], Some(vec![0xff; 1203]));
    assert!(format_debug(&binary)
        .ends_with("\n--- Body (1203 bytes) ---\n<binary data: 1203 bytes>\n====================\n"));
}

#[test]
fn headers_only_output_in_full() {
    let req = parse_request(FIXED).unwrap();
    assert_eq!(format_headers_only(&req), "POST /submit HTTP/1.1\nHost: h\nContent-Length: 16\n");
    assert_eq!(format_headers_only(&request_with(vec![], None)), "GET / HTTP/1.1\n");
}

#[test]
fn escapes_are_expanded() {
    assert_eq!(unescape("GET / HTTP/1.1\\r\\n\\r\\n"), "GET / HTTP/1.1\r\n\r\n");
    assert_eq!(unescape("a\\tb\\\\c"), "a\tb\\c");
    assert_eq!(unescape("\\x41\\"), "\\x41\\");
    assert_eq!(unescape("\\\\n"), "\\n");
    assert_eq!(unescape("caf\u{e9}\\\u{e9}"), "caf\u{e9}\\\u{e9}");
    assert_eq!(unescape(""), "");
}

#[test]
fn byte_routines() {
    assert!(is_hex_digit(b'0') && is_hex_digit(b'9') && is_hex_digit(b'a') && is_hex_digit(b'F'));
    assert!(!is_hex_digit(b'g') && !is_hex_digit(b'G') && !is_hex_digit(b'/') && !is_hex_digit(b':'));
    assert!(!is_tchar(b':') && !is_tchar(b'"') && !is_tchar(0x7f) && !is_tchar(0x80));
    assert_eq!(to_lower(b'A'), b'a');
    assert_eq!(to_lower(b'Z'), b'z');
    assert_eq!(to_lower(b'@'), b'@');
    assert_eq!(to_lower(b'['), b'[');
    assert_eq!(to_lower(b'q'), b'q');
    assert!(bytes_eq(b"abc", b"abc") && !bytes_eq(b"abc", b"abd") && !bytes_eq(b"abc", b"ab"));
    assert!(bytes_eq_ignore_case(b"Host", b"hOST") && !bytes_eq_ignore_case(b"Host", b"Hos"));
    assert!(bytes_contain_lowered(b"gzip, Chunked", b"chunked"));
    assert!(bytes_contain_lowered(b"abc", b""));
    assert!(!bytes_contain_lowered(b"chunked", b"CHUNKED"));
    assert!(!bytes_contain_lowered(b"chunke", b"chunked"));
    assert_eq!(bytes_parse_decimal(b"0"), Some(0));
    assert_eq!(bytes_parse_decimal(b"00123"), Some(123));
    assert_eq!(bytes_parse_decimal(b""), None);
    assert_eq!(bytes_parse_decimal(b"+1"), None);
    assert_eq!(bytes_parse_decimal(b"1a"), None);
    assert_eq!(bytes_parse_decimal(usize::MAX.to_string().as_bytes()), Some(usize::MAX));
    assert_eq!(bytes_parse_decimal(format!("{}0", usize::MAX).as_bytes()), None);
    assert_eq!(bytes_parse_hex(b"ff"), Some(255));
    assert_eq!(bytes_parse_hex(b"0A1b"), Some(0x0a1b));
    assert_eq!(bytes_parse_hex(b""), None);
    assert_eq!(bytes_parse_hex(b"0x1"), None);
    assert_eq!(bytes_parse_hex(format!("{:x}", usize::MAX).as_bytes()), Some(usize::MAX));
    assert_eq!(bytes_parse_hex(format!("1{:x}", usize::MAX).as_bytes()), None);
}
