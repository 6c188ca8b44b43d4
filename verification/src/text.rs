//! Text as sequences of characters: decoding, trimming and cutting at a character.
use vstd::prelude::*;
use vstd::utf8::{decode_utf8, valid_utf8};

verus! {

/// Decodes `bytes` with `std::str::from_utf8`: it succeeds exactly on well-formed UTF-8, and gives
/// the characters that the bytes encode.
#[verifier::external_body]
pub(crate) fn decode_text(bytes: &[u8]) -> (text: Option<&str>)
    ensures
        text is Some <==> valid_utf8(bytes@),
        text is Some ==> text->0@ == decode_utf8(bytes@),
{
    std::str::from_utf8(bytes).ok()
}

/// Whether `c` has the Unicode property `White_Space`.
pub open spec fn white_space(c: char) -> bool {
    ||| '\u{9}' <= c <= '\u{d}'
    ||| c == ' '
    ||| c == '\u{85}'
    ||| c == '\u{a0}'
    ||| c == '\u{1680}'
    ||| '\u{2000}' <= c <= '\u{200a}'
    ||| c == '\u{2028}'
    ||| c == '\u{2029}'
    ||| c == '\u{202f}'
    ||| c == '\u{205f}'
    ||| c == '\u{3000}'
}

/// `s` without leading white space.
pub open spec fn trimmed_start(s: Seq<char>) -> Seq<char>
    decreases s.len(),
{
    if s.len() > 0 && white_space(s[0]) {
        trimmed_start(s.skip(1))
    } else {
        s
    }
}

/// `s` without trailing white space.
pub open spec fn trimmed_end(s: Seq<char>) -> Seq<char>
    decreases s.len(),
{
    if s.len() > 0 && white_space(s.last()) {
        trimmed_end(s.drop_last())
    } else {
        s
    }
}

/// `s` without leading and trailing white space.
pub open spec fn trimmed(s: Seq<char>) -> Seq<char> {
    trimmed_end(trimmed_start(s))
}

/// The part of `s` after the last `c`; all of `s` where it holds no `c`.
pub open spec fn after_last(s: Seq<char>, c: char) -> Seq<char>
    decreases s.len(),
{
    if s.len() == 0 || s.last() == c {
        Seq::empty()
    } else {
        after_last(s.drop_last(), c).push(s.last())
    }
}

/// The part of `s` before the first `c`; all of `s` where it holds no `c`.
pub open spec fn before_first(s: Seq<char>, c: char) -> Seq<char>
    decreases s.len(),
{
    if s.len() == 0 || s[0] == c {
        Seq::empty()
    } else {
        seq![s[0]] + before_first(s.skip(1), c)
    }
}

/// What follows the last `c` holds no `c`, and ends `s`.
pub proof fn lemma_after_last(s: Seq<char>, c: char)
    ensures
        !after_last(s, c).contains(c),
        after_last(s, c).len() <= s.len(),
        after_last(s, c) == s.skip(s.len() - after_last(s, c).len()),
        after_last(s, c).len() < s.len() ==> s[s.len() - after_last(s, c).len() - 1] == c,
        !s.contains(c) ==> after_last(s, c) == s,
    decreases s.len(),
{
    if s.len() > 0 && s.last() != c {
        let t = s.drop_last();
        lemma_after_last(t, c);
        if !s.contains(c) {
            assert(!t.contains(c)) by {
                if t.contains(c) {
                    let i = choose|i: int| 0 <= i < t.len() && t[i] == c;
                    assert(s[i] == c);
                }
            }
        }
        assert(after_last(s, c) == s.skip(s.len() - after_last(s, c).len()));
        assert forall|i: int| 0 <= i < after_last(s, c).len() implies after_last(s, c)[i] != c by {
            if i < after_last(t, c).len() {
                assert(after_last(s, c)[i] == after_last(t, c)[i]);
                assert(after_last(t, c).contains(after_last(t, c)[i]));
            }
        }
    } else if s.len() > 0 {
        assert(s[s.len() - 1] == c);
    }
}

/// Where `s` is `a`, then `c`, then `b` without `c`, what follows the last `c` is `b`.
pub proof fn lemma_after_last_split(a: Seq<char>, c: char, b: Seq<char>)
    requires
        !b.contains(c),
    ensures
        after_last(a + seq![c] + b, c) == b,
    decreases b.len(),
{
    let s = a + seq![c] + b;
    if b.len() > 0 {
        assert(b.contains(b.last()));
        assert(s.last() == b.last());
        assert(s.drop_last() == a + seq![c] + b.drop_last());
        assert(!b.drop_last().contains(c)) by {
            if b.drop_last().contains(c) {
                let i = choose|i: int| 0 <= i < b.drop_last().len() && b.drop_last()[i] == c;
                assert(b[i] == c);
            }
        }
        lemma_after_last_split(a, c, b.drop_last());
        assert(b == b.drop_last().push(b.last()));
    } else {
        assert(s.last() == c);
    }
}

/// Where `s` is `a` without `c`, then `c`, then `b`, what precedes the first `c` is `a`.
pub proof fn lemma_before_first_split(a: Seq<char>, c: char, b: Seq<char>)
    requires
        !a.contains(c),
    ensures
        before_first(a + seq![c] + b, c) == a,
    decreases a.len(),
{
    let s = a + seq![c] + b;
    if a.len() > 0 {
        assert(a.contains(a[0]));
        assert(s.skip(1) == a.skip(1) + seq![c] + b);
        assert(!a.skip(1).contains(c)) by {
            if a.skip(1).contains(c) {
                let i = choose|i: int| 0 <= i < a.skip(1).len() && a.skip(1)[i] == c;
                assert(a[i + 1] == c);
            }
        }
        lemma_before_first_split(a.skip(1), c, b);
        assert(a == seq![a[0]] + a.skip(1));
    } else {
        assert(s[0] == c);
        assert(a == Seq::<char>::empty());
    }
}

proof fn lemma_before_first_prefix(s: Seq<char>, c: char, n: int)
    requires
        0 <= n <= s.len(),
        forall|i: int| 0 <= i < n ==> s[i] != c,
        n == s.len() || s[n] == c,
    ensures
        before_first(s, c) == s.take(n),
    decreases s.len(),
{
    if n == 0 {
        assert(s.take(0) == Seq::<char>::empty());
    } else {
        assert(s[0] != c);
        lemma_before_first_prefix(s.skip(1), c, n - 1);
        assert(s.take(n) == seq![s[0]] + s.skip(1).take(n - 1));
    }
}

proof fn lemma_after_last_suffix(s: Seq<char>, c: char, n: int)
    requires
        0 <= n <= s.len(),
        forall|i: int| n <= i < s.len() ==> s[i] != c,
        n == 0 || s[n - 1] == c,
    ensures
        after_last(s, c) == s.skip(n),
    decreases s.len(),
{
    if n < s.len() {
        lemma_after_last_suffix(s.drop_last(), c, n);
        assert(s.skip(n) == s.drop_last().skip(n).push(s.last()));
    } else {
        assert(s.skip(n) == Seq::<char>::empty());
    }
}

/// The characters of `text`.
pub fn chars_of(text: &str) -> (chars: Vec<char>)
    ensures
        chars@ == text@,
{
    let mut chars: Vec<char> = Vec::new();
    for c in it: text.chars()
        invariant
            chars@ == it.seq().take(it.index()),
    {
        chars.push(c);
        assert(it.seq().take(it.index() + 1) == it.seq().take(it.index()).push(c));
    }
    assert(chars@ == text@);
    chars
}

/// Whether `c` has the Unicode property `White_Space`.
pub fn is_white_space(c: char) -> (b: bool)
    ensures
        b == white_space(c),
{
    (c >= '\u{9}' && c <= '\u{d}') || c == ' ' || c == '\u{85}' || c == '\u{a0}' || c == '\u{1680}'
        || (c >= '\u{2000}' && c <= '\u{200a}') || c == '\u{2028}' || c == '\u{2029}' || c
        == '\u{202f}' || c == '\u{205f}' || c == '\u{3000}'
}

/// The range of `text` that is left without leading and trailing white space.
pub fn trim_range(text: &Vec<char>) -> (range: (usize, usize))
    ensures
        range.0 <= range.1 <= text@.len(),
        text@.subrange(range.0 as int, range.1 as int) == trimmed(text@),
{
    let mut start: usize = 0;
    assert(text@.skip(0) == text@);
    while start < text.len() && is_white_space(text[start])
        invariant
            start <= text@.len(),
            trimmed_start(text@.skip(start as int)) == trimmed_start(text@),
        decreases text@.len() - start,
    {
        assert(text@.skip(start as int).skip(1) == text@.skip(start + 1));
        start = start + 1;
    }
    assert(trimmed_start(text@) == text@.skip(start as int));
    let mut end: usize = text.len();
    assert(text@.subrange(start as int, end as int) == text@.skip(start as int));
    while start < end && is_white_space(text[end - 1])
        invariant
            start <= end <= text@.len(),
            trimmed_end(text@.subrange(start as int, end as int)) == trimmed(text@),
        decreases end - start,
    {
        assert(text@.subrange(start as int, end as int).drop_last() == text@.subrange(
            start as int,
            end - 1,
        ));
        end = end - 1;
    }
    (start, end)
}

/// The place in `text`, from `start` on, behind the last `c`; `start` where there is none.
pub fn behind_last(text: &Vec<char>, start: usize, c: char) -> (place: usize)
    requires
        start <= text@.len(),
    ensures
        start <= place <= text@.len(),
        text@.skip(place as int) == after_last(text@.skip(start as int), c),
{
    let mut place: usize = text.len();
    while place > start && text[place - 1] != c
        invariant
            start <= place <= text@.len(),
            forall|i: int| place <= i < text@.len() ==> text@[i] != c,
        decreases place,
    {
        place = place - 1;
    }
    proof {
        lemma_after_last_suffix(text@.skip(start as int), c, place - start);
        assert(text@.skip(start as int).skip(place - start) == text@.skip(place as int));
    }
    place
}

/// The place in `text`, from `start` on, of the first `c`; the end of `text` where there is none.
pub fn place_of_first(text: &Vec<char>, start: usize, c: char) -> (place: usize)
    requires
        start <= text@.len(),
    ensures
        start <= place <= text@.len(),
        text@.subrange(start as int, place as int) == before_first(text@.skip(start as int), c),
        place < text@.len() <==> text@.skip(start as int).contains(c),
        place < text@.len() ==> text@[place as int] == c,
{
    let ghost rest = text@.skip(start as int);
    let mut place: usize = start;
    while place < text.len() && text[place] != c
        invariant
            start <= place <= text@.len(),
            forall|i: int| start <= i < place ==> text@[i] != c,
        decreases text@.len() - place,
    {
        place = place + 1;
    }
    proof {
        assert forall|i: int| 0 <= i < place - start implies rest[i] != c by {
            assert(rest[i] == text@[start + i]);
        }
        lemma_before_first_prefix(rest, c, place - start);
        assert(rest.take(place - start) == text@.subrange(start as int, place as int));
        if place < text@.len() {
            assert(rest[place - start] == c);
        }
    }
    place
}

/// Whether `text` from `start` on is `other`.
pub fn ends_with_exactly(text: &Vec<char>, start: usize, other: &Vec<char>) -> (same: bool)
    requires
        start <= text@.len(),
    ensures
        same == (text@.skip(start as int) == other@),
{
    let ghost rest = text@.skip(start as int);
    let len: usize = text.len();
    if len - start != other.len() {
        return false;
    }
    let mut i: usize = 0;
    while i < other.len()
        invariant
            start <= len == text@.len(),
            rest == text@.skip(start as int),
            rest.len() == other@.len(),
            i <= other@.len(),
            forall|j: int| 0 <= j < i ==> rest[j] == other@[j],
        decreases other@.len() - i,
    {
        if text[start + i] != other[i] {
            assert(rest[i as int] != other@[i as int]);
            return false;
        }
        i = i + 1;
    }
    assert(rest == other@);
    true
}

} // verus!
