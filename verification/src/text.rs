//! Text helpers.

use vstd::prelude::*;
use vstd::std_specs::iter::IteratorSpec;

verus! {

broadcast use vstd::string::group_string_axioms;

/// `c` with an ASCII capital letter turned into its small letter.
pub open spec fn ascii_lower(c: char) -> char {
    if 'A' <= c <= 'Z' {
        ((c as u32) + 32) as char
    } else {
        c
    }
}

/// The two texts are equal when the case of ASCII letters is ignored.
pub open spec fn equal_ignoring_ascii_case(a: Seq<char>, b: Seq<char>) -> bool {
    &&& a.len() == b.len()
    &&& forall|i: int| 0 <= i < a.len() ==> ascii_lower(#[trigger] a[i]) == ascii_lower(b[i])
}

/// `c` with an ASCII capital letter turned into its small letter.
pub fn to_ascii_lower(c: char) -> (r: char)
    ensures
        r == ascii_lower(c),
{
    if 'A' <= c && c <= 'Z' {
        let code: u32 = c as u32 + 32;
        code as u8 as char
    } else {
        c
    }
}

/// Whether `a` and `b` are equal when the case of ASCII letters is ignored.
pub fn eq_ignore_ascii_case(a: &str, b: &str) -> (r: bool)
    ensures
        r == equal_ignoring_ascii_case(a@, b@),
{
    let mut left = a.chars();
    let mut right = b.chars();
    let ghost mut done: int = 0;
    loop
        invariant
            0 <= done <= a@.len(),
            done <= b@.len(),
            left.remaining() == a@.skip(done),
            right.remaining() == b@.skip(done),
            forall|i: int| 0 <= i < done ==> ascii_lower(#[trigger] a@[i]) == ascii_lower(b@[i]),
        decreases a@.len() - done,
    {
        let x = left.next();
        let y = right.next();
        match (x, y) {
            (None, None) => {
                return true;
            },
            (Some(p), Some(q)) => {
                if to_ascii_lower(p) != to_ascii_lower(q) {
                    return false;
                }
                proof {
                    done = done + 1;
                }
            },
            _ => {
                return false;
            },
        }
    }
}

/// Whether `a` and `b` are the same text.
pub fn str_eq(a: &str, b: &str) -> (r: bool)
    ensures
        r == (a@ == b@),
{
    let mut left = a.chars();
    let mut right = b.chars();
    let ghost mut done: int = 0;
    loop
        invariant
            0 <= done <= a@.len(),
            done <= b@.len(),
            left.remaining() == a@.skip(done),
            right.remaining() == b@.skip(done),
            a@.take(done) == b@.take(done),
        decreases a@.len() - done,
    {
        let x = left.next();
        let y = right.next();
        match (x, y) {
            (None, None) => {
                assert(a@.take(done) =~= a@ && b@.take(done) =~= b@);
                return true;
            },
            (Some(p), Some(q)) => {
                if p != q {
                    assert(a@[done] != b@[done]);
                    return false;
                }
                proof {
                    assert(a@.take(done + 1) =~= a@.take(done).push(p));
                    assert(b@.take(done + 1) =~= b@.take(done).push(q));
                    done = done + 1;
                }
            },
            _ => {
                assert(a@.len() != b@.len());
                return false;
            },
        }
    }
}

/// The characters of `s`, in order.
pub fn chars_of(s: &str) -> (chars: Vec<char>)
    ensures
        chars@ == s@,
{
    let mut rest = s.chars();
    let mut chars: Vec<char> = Vec::new();
    loop
        invariant
            chars@ + rest.remaining() == s@,
        decreases s@.len() - chars@.len(),
    {
        let ghost before = rest.remaining();
        match rest.next() {
            Some(c) => {
                assert(chars@.push(c) + before.drop_first() =~= chars@ + before);
                chars.push(c);
            },
            None => {
                assert(chars@ + before =~= chars@);
                return chars;
            },
        }
    }
}

/// The white space of Unicode.
pub open spec fn is_whitespace(c: char) -> bool {
    let code = c as u32;
    ||| 0x09 <= code <= 0x0D
    ||| code == 0x20
    ||| code == 0x85
    ||| code == 0xA0
    ||| code == 0x1680
    ||| 0x2000 <= code <= 0x200A
    ||| code == 0x2028
    ||| code == 0x2029
    ||| code == 0x202F
    ||| code == 0x205F
    ||| code == 0x3000
}

/// `s` without the white space at its start.
pub open spec fn trim_start(s: Seq<char>) -> Seq<char>
    decreases s.len(),
{
    if s.len() > 0 && is_whitespace(s[0]) {
        trim_start(s.drop_first())
    } else {
        s
    }
}

/// `s` without the white space at its end.
pub open spec fn trim_end(s: Seq<char>) -> Seq<char>
    decreases s.len(),
{
    if s.len() > 0 && is_whitespace(s.last()) {
        trim_end(s.drop_last())
    } else {
        s
    }
}

/// `s` without the white space at its start and at its end.
pub open spec fn trimmed(s: Seq<char>) -> Seq<char> {
    trim_end(trim_start(s))
}

/// Trimming at the start leaves what follows the leading white space.
proof fn lemma_trim_start(s: Seq<char>, from: int)
    requires
        0 <= from <= s.len(),
        forall|i: int| 0 <= i < from ==> is_whitespace(#[trigger] s[i]),
        from == s.len() || !is_whitespace(s[from]),
    ensures
        trim_start(s) == s.skip(from),
    decreases from,
{
    if from == 0 {
        assert(s.skip(0) =~= s);
    } else {
        assert(is_whitespace(s[0]));
        let rest = s.drop_first();
        assert forall|i: int| 0 <= i < from - 1 implies is_whitespace(#[trigger] rest[i]) by {
            assert(rest[i] == s[i + 1]);
        }
        lemma_trim_start(rest, from - 1);
        assert(rest.skip(from - 1) =~= s.skip(from));
    }
}

/// Trimming at the end leaves what precedes the trailing white space.
proof fn lemma_trim_end(s: Seq<char>, to: int)
    requires
        0 <= to <= s.len(),
        forall|i: int| to <= i < s.len() ==> is_whitespace(#[trigger] s[i]),
        to == 0 || !is_whitespace(s[to - 1]),
    ensures
        trim_end(s) == s.take(to),
    decreases s.len() - to,
{
    if to == s.len() {
        assert(s.take(to) =~= s);
    } else {
        assert(is_whitespace(s[s.len() - 1]));
        let rest = s.drop_last();
        lemma_trim_end(rest, to);
        assert(rest.take(to) =~= s.take(to));
    }
}

/// Whether `c` is white space.
pub fn char_is_whitespace(c: char) -> (r: bool)
    ensures
        r == is_whitespace(c),
{
    let code: u32 = c as u32;
    (0x09 <= code && code <= 0x0D) || code == 0x20 || code == 0x85 || code == 0xA0 || code
        == 0x1680 || (0x2000 <= code && code <= 0x200A) || code == 0x2028 || code == 0x2029 || code
        == 0x202F || code == 0x205F || code == 0x3000
}

/// Finds where the text without its surrounding white space begins and
/// ends.
pub(crate) fn trim_bounds(chars: &Vec<char>) -> (bounds: (usize, usize))
    ensures
        bounds.0 <= bounds.1 <= chars@.len(),
        trimmed(chars@) == chars@.subrange(bounds.0 as int, bounds.1 as int),
{
    let mut start: usize = 0;
    while start < chars.len() && char_is_whitespace(chars[start])
        invariant
            start <= chars@.len(),
            forall|i: int| 0 <= i < start ==> is_whitespace(#[trigger] chars@[i]),
        decreases chars@.len() - start,
    {
        start += 1;
    }
    let mut end: usize = chars.len();
    while end > start && char_is_whitespace(chars[end - 1])
        invariant
            start <= end <= chars@.len(),
            forall|i: int| end <= i < chars@.len() ==> is_whitespace(#[trigger] chars@[i]),
        decreases end,
    {
        end -= 1;
    }
    proof {
        lemma_trim_start(chars@, start as int);
        let tail = chars@.skip(start as int);
        assert forall|i: int| end - start <= i < tail.len() implies is_whitespace(
            #[trigger] tail[i],
        ) by {
            assert(tail[i] == chars@[i + start]);
        }
        if end > start {
            assert(tail[end - start - 1] == chars@[end - 1]);
        }
        lemma_trim_end(tail, end - start);
        assert(tail.take(end - start) =~= chars@.subrange(start as int, end as int));
    }
    (start, end)
}

/// `input` without the white space at its start and at its end.
pub fn trim(input: &str) -> (text: String)
    ensures
        text@ == trimmed(input@),
{
    let chars = chars_of(input);
    let (start, end) = trim_bounds(&chars);
    let mut text = String::new();
    let mut at: usize = start;
    while at < end
        invariant
            start <= at <= end <= chars@.len(),
            text@ == chars@.subrange(start as int, at as int),
        decreases end - at,
    {
        assert(chars@.subrange(start as int, at + 1) =~= chars@.subrange(
            start as int,
            at as int,
        ).push(chars@[at as int]));
        push_char(&mut text, chars[at]);
        at += 1;
    }
    text
}

/// Appends one character to `out`.
///
/// Trusted: `String::push` of the standard library, of which this states that
/// it adds the character at the end and changes nothing else.
#[verifier::external_body]
pub(crate) fn push_char(out: &mut String, c: char)
    ensures
        final(out)@ == old(out)@.push(c),
{
    out.push(c);
}

} // verus!
