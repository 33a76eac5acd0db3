//! Strings as sequences of characters.

use vstd::prelude::*;

verus! {

/// The characters of `text`, in order.
pub fn chars_of(text: &str) -> (r: Vec<char>)
    ensures
        r@ == text@,
{
    let mut out: Vec<char> = Vec::new();
    for c in it: text.chars()
        invariant
            it.seq() == text@,
            out@ == it.seq().subrange(0, it.index() as int),
    {
        out.push(c);
    }
    out
}

/// Appends the character `c` to `text`.
///
/// Trusted: `String::push` appends the given character to the end of the string.
#[verifier::external_body]
fn push_char(text: &mut String, c: char)
    ensures
        final(text)@ == old(text)@.push(c),
{
    text.push(c);
}

/// The string made of `chars`, in order.
pub fn string_of(chars: &Vec<char>) -> (r: String)
    ensures
        r@ == chars@,
{
    let mut out = String::new();
    let mut i: usize = 0;
    while i < chars.len()
        invariant
            i <= chars.len(),
            out@ == chars@.subrange(0, i as int),
        decreases chars.len() - i,
    {
        push_char(&mut out, chars[i]);
        i += 1;
    }
    out
}

/// Whether `c` is white space: the characters with the Unicode property `White_Space`.
pub open spec fn is_space(c: char) -> bool {
    ||| c == ' '
    ||| '\u{9}' <= c <= '\u{d}'
    ||| c == '\u{85}'
    ||| c == '\u{a0}'
    ||| c == '\u{1680}'
    ||| '\u{2000}' <= c <= '\u{200a}'
    ||| c == '\u{2028}'
    ||| c == '\u{2029}'
    ||| c == '\u{202f}'
    ||| c == '\u{205f}'
    ||| c == '\u{3000}'
}

/// Tests whether `c` is white space.
pub fn char_is_space(c: char) -> (r: bool)
    ensures
        r == is_space(c),
{
    c == ' ' || ('\u{9}' <= c && c <= '\u{d}') || c == '\u{85}' || c == '\u{a0}' || c == '\u{1680}'
        || ('\u{2000}' <= c && c <= '\u{200a}') || c == '\u{2028}' || c == '\u{2029}' || c
        == '\u{202f}' || c == '\u{205f}' || c == '\u{3000}'
}

/// The number of white-space characters at the start of `s`.
pub open spec fn leading_spaces(s: Seq<char>) -> nat
    decreases s.len(),
{
    if s.len() > 0 && is_space(s[0]) {
        1 + leading_spaces(s.subrange(1, s.len() as int))
    } else {
        0
    }
}

/// `s` without the white space at its start.
pub open spec fn skip_spaces(s: Seq<char>) -> Seq<char> {
    s.subrange(leading_spaces(s) as int, s.len() as int)
}

pub proof fn lemma_leading_spaces_bound(s: Seq<char>)
    ensures
        leading_spaces(s) <= s.len(),
    decreases s.len(),
{
    if s.len() > 0 && is_space(s[0]) {
        lemma_leading_spaces_bound(s.subrange(1, s.len() as int));
    }
}

/// A suffix of a suffix is a suffix: leading white space can be counted from any position.
pub proof fn lemma_leading_spaces_step(s: Seq<char>)
    requires
        s.len() > 0,
        is_space(s[0]),
    ensures
        skip_spaces(s) == skip_spaces(s.subrange(1, s.len() as int)),
{
    let t = s.subrange(1, s.len() as int);
    lemma_leading_spaces_bound(t);
}

/// The characters of `chars` from position `from` up to position `to`.
pub fn sub_chars(chars: &Vec<char>, from: usize, to: usize) -> (r: Vec<char>)
    requires
        from <= to <= chars.len(),
    ensures
        r@ == chars@.subrange(from as int, to as int),
{
    let mut out: Vec<char> = Vec::new();
    let mut i = from;
    while i < to
        invariant
            from <= i <= to <= chars.len(),
            out@ == chars@.subrange(from as int, i as int),
        decreases to - i,
    {
        out.push(chars[i]);
        i += 1;
    }
    out
}

/// The first position at or after `from` that holds no white space.
pub fn skip_spaces_from(chars: &Vec<char>, from: usize) -> (r: usize)
    requires
        from <= chars.len(),
    ensures
        from <= r <= chars.len(),
        chars@.subrange(r as int, chars.len() as int) == skip_spaces(
            chars@.subrange(from as int, chars.len() as int),
        ),
{
    let mut i = from;
    while i < chars.len() && char_is_space(chars[i])
        invariant
            from <= i <= chars.len(),
            skip_spaces(chars@.subrange(i as int, chars.len() as int)) == skip_spaces(
                chars@.subrange(from as int, chars.len() as int),
            ),
        decreases chars.len() - i,
    {
        proof {
            let t = chars@.subrange(i as int, chars.len() as int);
            lemma_leading_spaces_step(t);
            assert(t.subrange(1, t.len() as int) =~= chars@.subrange(i + 1, chars.len() as int));
        }
        i += 1;
    }
    i
}

/// `s` without the white space at its end.
pub open spec fn strip_end(s: Seq<char>) -> Seq<char>
    decreases s.len(),
{
    if s.len() > 0 && is_space(s.last()) {
        strip_end(s.drop_last())
    } else {
        s
    }
}

/// `s` without the white space at its start and at its end.
pub open spec fn trimmed(s: Seq<char>) -> Seq<char> {
    skip_spaces(strip_end(s))
}

/// The position behind the last character of `chars` that is no white space.
pub fn trim_end(chars: &Vec<char>) -> (r: usize)
    ensures
        r <= chars.len(),
        chars@.subrange(0, r as int) == strip_end(chars@),
{
    let mut end = chars.len();
    proof {
        assert(chars@.subrange(0, end as int) =~= chars@);
    }
    while end > 0 && char_is_space(chars[end - 1])
        invariant
            end <= chars.len(),
            strip_end(chars@.subrange(0, end as int)) == strip_end(chars@),
        decreases end,
    {
        proof {
            let t = chars@.subrange(0, end as int);
            assert(t.drop_last() =~= chars@.subrange(0, end - 1));
        }
        end -= 1;
    }
    end
}

} // verus!
