//! Escape sequences in a request that is written as one line of text.

use crate::text::push_char;
use vstd::prelude::*;
use vstd::std_specs::iter::IteratorSpec;
use vstd::string::*;

verus! {

/// What a backslash and the character `c` after it stand for: CR, LF,
/// HTAB or a backslash for `r`, `n`, `t` or a backslash, and the two
/// characters themselves for any other.
pub open spec fn escape_of(c: char) -> Seq<char> {
    if c == 'r' {
        seq!['\r']
    } else if c == 'n' {
        seq!['\n']
    } else if c == 't' {
        seq!['\t']
    } else if c == '\\' {
        seq!['\\']
    } else {
        seq!['\\', c]
    }
}

/// `text` with each escape sequence replaced by what it stands for. A
/// backslash at the very end stays.
pub open spec fn unescaped(text: Seq<char>) -> Seq<char>
    decreases text.len(),
{
    if text.len() == 0 {
        Seq::empty()
    } else if text[0] != '\\' {
        seq![text[0]] + unescaped(text.skip(1))
    } else if text.len() == 1 {
        seq!['\\']
    } else {
        escape_of(text[1]) + unescaped(text.skip(2))
    }
}

/// Expands the escape sequences `\r`, `\n`, `\t` and `\\` in `text`, and
/// keeps every other character as it is.
pub fn unescape(text: &str) -> (out: String)
    ensures
        out@ == unescaped(text@),
{
    broadcast use group_string_axioms;

    let mut out = String::new();
    let mut chars = text.chars();
    assert(unescaped(text@) =~= out@ + unescaped(chars.remaining()));
    loop
        invariant
            unescaped(text@) == out@ + unescaped(chars.remaining()),
            chars.decrease() is Some,
        decreases chars.decrease()->0,
    {
        let ghost left = chars.remaining();
        let ghost done = out@;
        match chars.next() {
            None => {
                assert(done + unescaped(left) =~= done);
                return out;
            },
            Some(ch) => {
                if ch == '\\' {
                    match chars.next() {
                        Some(c) => {
                            if c == 'r' {
                                push_char(&mut out, '\r');
                            } else if c == 'n' {
                                push_char(&mut out, '\n');
                            } else if c == 't' {
                                push_char(&mut out, '\t');
                            } else if c == '\\' {
                                push_char(&mut out, '\\');
                            } else {
                                push_char(&mut out, '\\');
                                push_char(&mut out, c);
                            }
                            assert(left.skip(2) =~= left.drop_first().drop_first());
                            assert(out@ =~= done + escape_of(c));
                            assert(out@ + unescaped(left.skip(2)) =~= done + (escape_of(c)
                                + unescaped(left.skip(2))));
                        },
                        None => {
                            push_char(&mut out, '\\');
                            assert(left.len() == 1);
                            return out;
                        },
                    }
                } else {
                    push_char(&mut out, ch);
                    assert(left.skip(1) =~= left.drop_first());
                    assert(out@ + unescaped(left.skip(1)) =~= done + (seq![ch] + unescaped(
                        left.skip(1),
                    )));
                }
            },
        }
    }
}

} // verus!
