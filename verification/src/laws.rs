//! What holds of the parser whatever bytes it is given: feeding in
//! fragments, the boundary between two requests, reset, header lookup and
//! the trimming of header values.

use crate::error::ParseErrorView;
use crate::machine::{
    any_chunked, content_length_of, initial, request_of, reset_of, run, run_takes_first,
    status_of, step,
    step_counts_one, step_keeps_wf, Outcome, ParserView,
};
use crate::parser::{ParseStatus, ParserConfig};
use crate::text::{eq_ignore_case, lower, ows, strip_trailing_ows};
use crate::types::{first_value, name_matches, values_named, HeaderView};
use vstd::prelude::*;
use vstd::utf8::*;

verus! {

/// Feeding `a` and then `b` does what feeding `a + b` does: the point at
/// which a stream is cut does not matter.
pub proof fn run_splits(v: ParserView, a: Seq<u8>, b: Seq<u8>)
    ensures
        run(v, a + b) == match run(v, a) {
            Ok(mid) => run(mid, b),
            Err(e) => Err(e),
        },
    decreases a.len(),
{
    if a.len() == 0 {
        assert(a + b =~= b);
    } else if v.state is Complete {
    } else {
        assert((a + b).first() == a.first());
        assert((a + b).drop_first() =~= a.drop_first() + b);
        match step(v, a.first()) {
            Ok(next) => {
                run_splits(next, a.drop_first(), b);
            },
            Err(_) => {},
        }
    }
}

/// What feeding the fragments one after the other does to a parser.
pub open spec fn run_fragments(v: ParserView, fragments: Seq<Seq<u8>>) -> Outcome
    decreases fragments.len(),
{
    if fragments.len() == 0 {
        Ok(v)
    } else {
        match run(v, fragments.first()) {
            Ok(mid) => run_fragments(mid, fragments.drop_first()),
            Err(e) => Err(e),
        }
    }
}

/// The fragments joined into one stream.
pub open spec fn joined(fragments: Seq<Seq<u8>>) -> Seq<u8>
    decreases fragments.len(),
{
    if fragments.len() == 0 {
        Seq::empty()
    } else {
        fragments.first() + joined(fragments.drop_first())
    }
}

/// Streaming equivalence: however a stream is cut into fragments, feeding
/// the fragments in order ends where feeding the whole stream ends, with
/// the same parser or the same failure.
pub proof fn fragments_run_as_one(v: ParserView, fragments: Seq<Seq<u8>>)
    ensures
        run_fragments(v, fragments) == run(v, joined(fragments)),
    decreases fragments.len(),
{
    if fragments.len() > 0 {
        run_splits(v, fragments.first(), joined(fragments.drop_first()));
        match run(v, fragments.first()) {
            Ok(mid) => {
                fragments_run_as_one(mid, fragments.drop_first());
            },
            Err(_) => {},
        }
    }
}

/// A complete parser stays as it is whatever it is fed.
pub proof fn complete_is_terminal(v: ParserView, data: Seq<u8>)
    requires
        v.state is Complete,
    ensures
        run(v, data) == Ok::<ParserView, ParseErrorView>(v),
{
}

/// A run keeps a well-formed parser well-formed, and its limits as they
/// are.
pub proof fn run_keeps_wf(v: ParserView, data: Seq<u8>)
    requires
        v.wf(),
    ensures
        run(v, data) matches Ok(end) ==> end.wf() && end.config == v.config,
    decreases data.len(),
{
    if data.len() > 0 && !(v.state is Complete) {
        step_keeps_wf(v, data.first());
        match step(v, data.first()) {
            Ok(next) => {
                run_keeps_wf(next, data.drop_first());
            },
            Err(_) => {},
        }
    }
}

/// A newborn parser is well-formed whatever its limits are.
pub proof fn newborn_is_wf(config: ParserConfig)
    ensures
        initial(config).wf(),
{
}

/// The body of a complete request that is framed by its length has the
/// length that the headers declare, and is absent where that is zero or
/// where none is declared.
pub proof fn body_has_declared_length(v: ParserView)
    requires
        v.wf(),
        v.state is Complete,
        !any_chunked(v.headers),
    ensures
        match content_length_of(v.headers) {
            Ok(Some(n)) => v.body_buf.len() == n && (request_of(v).body is None <==> n == 0),
            Ok(None) => request_of(v).body is None,
            Err(_) => false,
        },
{
}

/// The counter of a parser counts the bytes it has consumed: a run never
/// counts more bytes than it was given, and one that does not end
/// complete counts them all.
pub proof fn run_counts(v: ParserView, data: Seq<u8>)
    ensures
        run(v, data) matches Ok(end) ==> v.consumed <= end.consumed <= v.consumed + data.len() && (
        !(end.state is Complete) ==> end.consumed == v.consumed + data.len()),
    decreases data.len(),
{
    if data.len() > 0 && !(v.state is Complete) {
        match step(v, data.first()) {
            Ok(next) => {
                run_counts(next, data.drop_first());
            },
            Err(_) => {},
        }
    }
}

/// Whether `request` is one whole request and nothing more to a newborn
/// parser: the run over it ends complete, and not before its last byte.
pub open spec fn one_request(config: ParserConfig, request: Seq<u8>) -> bool {
    &&& request.len() > 0
    &&& run(initial(config), request) matches Ok(end) && end.state is Complete
    &&& run(initial(config), request.drop_last()) matches Ok(early) && !(early.state is Complete)
}

/// The pipelining boundary: where a request is followed by more bytes,
/// the parser ends as it does on the request alone, reports as consumed
/// the length of the request, and so leaves exactly the bytes that
/// follow it.
pub proof fn rest_belongs_to_next_request(config: ParserConfig, request: Seq<u8>, rest: Seq<u8>)
    requires
        one_request(config, request),
    ensures
        run(initial(config), request + rest) == run(initial(config), request),
        run(initial(config), request + rest) matches Ok(end) && end.state is Complete
            && end.consumed == request.len() && (request + rest).skip(end.consumed as int)
            == rest,
{
    let start = initial(config);
    run_splits(start, request, rest);
    let end = run(start, request)->Ok_0;
    let front = request.drop_last();
    let last = seq![request.last()];
    assert(front + last =~= request);
    run_splits(start, front, last);
    run_counts(start, front);
    let early = run(start, front)->Ok_0;
    assert(last.drop_first() =~= Seq::<u8>::empty());
    run_takes_first(early, last);
    step_counts_one(early, request.last());
    assert(run(early, last) == Ok::<ParserView, ParseErrorView>(end));
    assert(end.consumed == early.consumed + 1);
    assert((request + rest).skip(request.len() as int) =~= rest);
}

/// What a parser reports at the end of a request that is followed by
/// more bytes: `Complete` with the length of the request.
pub proof fn reports_length_of_request(config: ParserConfig, request: Seq<u8>, rest: Seq<u8>)
    requires
        one_request(config, request),
        request.len() <= usize::MAX,
    ensures
        run(initial(config), request + rest) matches Ok(end) && status_of(end)
            == ParseStatus::Complete(request.len() as usize),
{
    rest_belongs_to_next_request(config, request, rest);
}

/// A parser that was reset runs as a newborn parser with the same limits
/// does, whatever it had been fed before.
pub proof fn reset_runs_as_new(used: ParserView, data: Seq<u8>)
    ensures
        run(reset_of(used), data) == run(initial(used.config), data),
        reset_of(used).wf(),
{
}

/// Equality up to case is transitive and symmetric.
pub proof fn eq_ignore_case_is_equivalence(a: Seq<u8>, b: Seq<u8>, c: Seq<u8>)
    ensures
        eq_ignore_case(a, a),
        eq_ignore_case(a, b) == eq_ignore_case(b, a),
        eq_ignore_case(a, b) && eq_ignore_case(b, c) ==> eq_ignore_case(a, c),
{
    if eq_ignore_case(a, b) {
        assert forall|i: int| 0 <= i < b.len() implies lower(#[trigger] b[i])
            == lower(a[i]) by {
            assert(lower(a[i]) == lower(b[i]));
        }
    }
    if eq_ignore_case(b, a) {
        assert forall|i: int| 0 <= i < a.len() implies lower(#[trigger] a[i])
            == lower(b[i]) by {
            assert(lower(b[i]) == lower(a[i]));
        }
    }
    if eq_ignore_case(a, b) && eq_ignore_case(b, c) {
        assert forall|i: int| 0 <= i < a.len() implies lower(#[trigger] a[i])
            == lower(c[i]) by {
            assert(lower(a[i]) == lower(b[i]));
            assert(lower(b[i]) == lower(c[i]));
        }
    }
}

/// Header lookup does not see the case of the name asked for: two names
/// that differ in case alone find the same first value and the same
/// values.
pub proof fn lookup_ignores_case(headers: Seq<HeaderView>, key: Seq<char>, other: Seq<char>)
    requires
        name_matches(key, other),
    ensures
        first_value(headers, key) == first_value(headers, other),
        values_named(headers, key) == values_named(headers, other),
    decreases headers.len(),
{
    if headers.len() > 0 {
        let a = encode_utf8(key);
        let b = encode_utf8(other);
        eq_ignore_case_is_equivalence(a, b, a);
        eq_ignore_case_is_equivalence(encode_utf8(headers.first().name), a, b);
        eq_ignore_case_is_equivalence(encode_utf8(headers.first().name), b, a);
        eq_ignore_case_is_equivalence(encode_utf8(headers.last().name), a, b);
        eq_ignore_case_is_equivalence(encode_utf8(headers.last().name), b, a);
        lookup_ignores_case(headers.drop_first(), key, other);
        lookup_ignores_case(headers.drop_last(), key, other);
    }
}

/// Header lookup keeps the order of the headers: the values found in a
/// list of headers are those found in its front, then those found in
/// its back.
pub proof fn values_keep_order(front: Seq<HeaderView>, back: Seq<HeaderView>, key: Seq<char>)
    ensures
        values_named(front + back, key) == values_named(front, key) + values_named(back, key),
    decreases back.len(),
{
    if back.len() == 0 {
        assert(front + back =~= front);
        assert(values_named(front, key) + values_named(back, key) =~= values_named(front, key));
    } else {
        values_keep_order(front, back.drop_last(), key);
        assert((front + back).drop_last() =~= front + back.drop_last());
        assert((front + back).last() == back.last());
        if name_matches(back.last().name, key) {
            assert((values_named(front, key) + values_named(back.drop_last(), key)).push(
                back.last().value,
            ) =~= values_named(front, key) + values_named(back.drop_last(), key).push(
                back.last().value,
            ));
        }
    }
}

/// The first value of a name is the first of its values.
pub proof fn first_value_leads(headers: Seq<HeaderView>, key: Seq<char>)
    ensures
        match first_value(headers, key) {
            Some(v) => values_named(headers, key).len() > 0 && values_named(headers, key).first()
                == v,
            None => values_named(headers, key).len() == 0,
        },
    decreases headers.len(),
{
    if headers.len() > 0 {
        let head = seq![headers.first()];
        let tail = headers.drop_first();
        assert(head + tail =~= headers);
        values_keep_order(head, tail, key);
        first_value_leads(tail, key);
        assert(head.drop_last() =~= Seq::<HeaderView>::empty());
        assert(values_named(head.drop_last(), key) =~= Seq::<Seq<char>>::empty());
    }
}

/// A header value loses the optional whitespace at its end and nothing
/// else: what is left is the front of the value, does not end in SP or
/// HTAB, and what was cut is SP and HTAB alone.
pub proof fn strip_cuts_only_trailing_ows(text: Seq<u8>)
    ensures
        strip_trailing_ows(text).len() <= text.len(),
        strip_trailing_ows(text) == text.take(strip_trailing_ows(text).len() as int),
        strip_trailing_ows(text).len() > 0 ==> !ows(strip_trailing_ows(text).last()),
        forall|i: int| strip_trailing_ows(text).len() <= i < text.len() ==> ows(#[trigger] text[i]),
    decreases text.len(),
{
    if text.len() > 0 && ows(text.last()) {
        let shorter = text.drop_last();
        strip_cuts_only_trailing_ows(shorter);
        let kept = strip_trailing_ows(shorter);
        assert(kept =~= text.take(kept.len() as int));
        assert forall|i: int| kept.len() <= i < text.len() implies ows(#[trigger] text[i]) by {
            if i < shorter.len() {
                assert(shorter[i] == text[i]);
            }
        }
    } else {
        assert(text =~= text.take(text.len() as int));
    }
}

} // verus!
