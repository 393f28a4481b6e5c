//! String building blocks shared by the prompt, path and catalog code:
//! token substitution, decimal numbers and the blank-text test.

use vstd::prelude::*;

verus! {

/// Whether `c` is white space in the sense of `char::is_whitespace`
/// (the Unicode `White_Space` property).
pub uninterp spec fn char_is_whitespace(c: char) -> bool;

/// `char::is_whitespace` decides the Unicode `White_Space` property of one
/// character; the property itself is not spelled out here.
pub assume_specification[ char::is_whitespace ](c: char) -> (r: bool)
    ensures
        r == char_is_whitespace(c),
;

/// `String::push` appends one character to the end of the string.
pub assume_specification[ String::push ](s: &mut String, ch: char)
    ensures
        final(s)@ == old(s)@.push(ch),
;

/// A text is blank when it holds nothing but white space; the empty text is
/// blank.
pub open spec fn is_blank(s: Seq<char>) -> bool {
    forall|i: int| 0 <= i < s.len() ==> char_is_whitespace(#[trigger] s[i])
}

/// `text` with every occurrence of `token` replaced by `value`, scanning from
/// the left and never looking again at what was already replaced. An empty
/// token occurs nowhere.
pub open spec fn replace_all(text: Seq<char>, token: Seq<char>, value: Seq<char>) -> Seq<char>
    decreases text.len(),
{
    if text.len() == 0 {
        text
    } else if token.len() > 0 && token.is_prefix_of(text) {
        value + replace_all(text.skip(token.len() as int), token, value)
    } else {
        seq![text[0]] + replace_all(text.skip(1), token, value)
    }
}

/// The character that writes the digit `d`.
pub open spec fn digit_char(d: nat) -> char {
    if d == 0 {
        '0'
    } else if d == 1 {
        '1'
    } else if d == 2 {
        '2'
    } else if d == 3 {
        '3'
    } else if d == 4 {
        '4'
    } else if d == 5 {
        '5'
    } else if d == 6 {
        '6'
    } else if d == 7 {
        '7'
    } else if d == 8 {
        '8'
    } else {
        '9'
    }
}

/// `n` written in base ten, without sign or leading zeros.
pub open spec fn decimal(n: nat) -> Seq<char>
    decreases n,
{
    if n < 10 {
        seq![digit_char(n)]
    } else {
        decimal(n / 10).push(digit_char(n % 10))
    }
}

/// The characters of `s`, in order.
pub fn chars_of(s: &str) -> (out: Vec<char>)
    ensures
        out@ == s@,
{
    let mut out: Vec<char> = Vec::new();
    for c in it: s.chars()
        invariant
            it.seq() == s@,
            out@ == s@.take(it.index() as int),
    {
        out.push(c);
    }
    out
}

/// Whether `s` holds nothing but white space.
pub fn blank(s: &str) -> (r: bool)
    ensures
        r == is_blank(s@),
{
    let mut all: bool = true;
    for c in it: s.chars()
        invariant
            it.seq() == s@,
            all == is_blank(s@.take(it.index() as int)),
    {
        let ghost before = s@.take(it.index() as int);
        let ghost after = s@.take(it.index() + 1);
        let w = c.is_whitespace();
        proof {
            assert(after == before.push(c));
            if all && w {
                assert forall|i: int| 0 <= i < after.len() implies char_is_whitespace(
                    #[trigger] after[i],
                ) by {
                    if i < before.len() {
                        assert(after[i] == before[i]);
                    }
                }
            } else if !w {
                assert(after[after.len() - 1] == c);
            } else {
                let k = choose|k: int| 0 <= k < before.len() && !char_is_whitespace(before[k]);
                assert(after[k] == before[k]);
            }
        }
        all = all && w;
    }
    proof {
        assert(s@.take(s@.len() as int) == s@);
    }
    all
}

/// Whether `token` stands in `text` at position `at`.
fn occurs_at(text: &Vec<char>, at: usize, token: &Vec<char>) -> (r: bool)
    requires
        at <= text.len(),
    ensures
        r == token@.is_prefix_of(text@.skip(at as int)),
{
    if token.len() > text.len() - at {
        return false;
    }
    let mut j: usize = 0;
    while j < token.len()
        invariant
            j <= token.len(),
            at + token.len() <= text.len(),
            forall|k: int| 0 <= k < j ==> token@[k] == text@[at + k],
        decreases token.len() - j,
    {
        if token[j] != text[at + j] {
            proof {
                let rest = text@.skip(at as int);
                assert(rest.subrange(0, token@.len() as int)[j as int] == text@[at + j]);
            }
            return false;
        }
        j += 1;
    }
    proof {
        let rest = text@.skip(at as int);
        assert(token@ =~= rest.subrange(0, token@.len() as int));
    }
    true
}

/// Replaces every occurrence of `token` in `text` by `value`.
pub fn substitute(text: &str, token: &str, value: &str) -> (out: String)
    ensures
        out@ == replace_all(text@, token@, value@),
{
    let src = chars_of(text);
    let tok = chars_of(token);
    let mut out = String::new();
    let mut i: usize = 0;
    proof {
        assert(src@.skip(0) == src@);
        assert(out@ + replace_all(src@, tok@, value@) == replace_all(src@, tok@, value@));
    }
    while i < src.len()
        invariant
            i <= src.len(),
            replace_all(src@, tok@, value@) == out@ + replace_all(
                src@.skip(i as int),
                tok@,
                value@,
            ),
        decreases src.len() - i,
    {
        let ghost rest = src@.skip(i as int);
        if tok.len() > 0 && occurs_at(&src, i, &tok) {
            out.append(value);
            proof {
                assert(rest.skip(tok@.len() as int) == src@.skip(i + tok@.len()));
            }
            i += tok.len();
        } else {
            out.push(src[i]);
            proof {
                assert(rest.skip(1) == src@.skip(i + 1));
                assert(rest[0] == src@[i as int]);
            }
            i += 1;
        }
    }
    proof {
        assert(src@.skip(i as int).len() == 0);
    }
    out
}

/// The character for one decimal digit.
fn digit(d: usize) -> (c: char)
    requires
        d < 10,
    ensures
        c == digit_char(d as nat),
{
    if d == 0 {
        '0'
    } else if d == 1 {
        '1'
    } else if d == 2 {
        '2'
    } else if d == 3 {
        '3'
    } else if d == 4 {
        '4'
    } else if d == 5 {
        '5'
    } else if d == 6 {
        '6'
    } else if d == 7 {
        '7'
    } else if d == 8 {
        '8'
    } else {
        '9'
    }
}

/// Appends `n` in base ten to `out`.
pub fn push_decimal(out: &mut String, n: usize)
    ensures
        final(out)@ == old(out)@ + decimal(n as nat),
    decreases n,
{
    if n >= 10 {
        push_decimal(out, n / 10);
    }
    out.push(digit(n % 10));
}

} // verus!
