//! Paths of objects in the store, kept as their raw text.
use crate::text::{after_last, lemma_after_last_split};
use vstd::prelude::*;
use vstd::utf8::encode_scalar;

verus! {

/// Whether `c` stands in a path segment as it is: a printable ASCII character other than those
/// that stores advise against in object names.
pub open spec fn plain_char(c: char) -> bool {
    &&& ' ' <= c <= '~'
    &&& c != '/' && c != '\\' && c != '{' && c != '^' && c != '}' && c != '%' && c != '`'
    &&& c != ']' && c != '"' && c != '>' && c != '[' && c != '~' && c != '<' && c != '#'
    &&& c != '|' && c != '*' && c != '?'
}

/// Whether every character of `s` stands in a path segment as it is.
pub open spec fn plain(s: Seq<char>) -> bool {
    forall|i: int| 0 <= i < s.len() ==> plain_char(#[trigger] s[i])
}

/// The upper-case hexadecimal digit `d`.
pub open spec fn hex_digit(d: int) -> char
    recommends
        0 <= d < 16,
{
    if d < 10 {
        (48 + d) as char
    } else {
        (55 + d) as char
    }
}

/// Each of `bytes` as a percent sign and two hexadecimal digits.
pub open spec fn escaped(bytes: Seq<u8>) -> Seq<char>
    decreases bytes.len(),
{
    if bytes.len() == 0 {
        Seq::empty()
    } else {
        escaped(bytes.drop_last()) + seq![
            '%',
            hex_digit(bytes.last() as int / 16),
            hex_digit(bytes.last() as int % 16),
        ]
    }
}

/// `s` with each character that is not plain replaced by its escaped UTF-8 bytes.
pub open spec fn percent_encoded(s: Seq<char>) -> Seq<char>
    decreases s.len(),
{
    if s.len() == 0 {
        Seq::empty()
    } else {
        percent_encoded(s.drop_last()) + if plain_char(s.last()) {
            seq![s.last()]
        } else {
            escaped(encode_scalar(s.last() as u32))
        }
    }
}

/// The path segment that stands for the text `s`: the relative segments `.` and `..` are escaped
/// whole, any other text is percent-encoded.
pub open spec fn path_part(s: Seq<char>) -> Seq<char> {
    if s == seq!['.'] {
        seq!['%', '2', 'E']
    } else if s == seq!['.', '.'] {
        seq!['%', '2', 'E', '%', '2', 'E']
    } else {
        percent_encoded(s)
    }
}

/// The path of the segment `part` below `base`.
pub open spec fn below(base: Seq<char>, part: Seq<char>) -> Seq<char> {
    if base.len() == 0 {
        part
    } else {
        base + seq!['/'] + part
    }
}

/// The last segment of `path`; none of the root.
pub open spec fn filename(path: Seq<char>) -> Option<Seq<char>> {
    if path.len() == 0 {
        None
    } else {
        Some(after_last(path, '/'))
    }
}

/// What follows the last dot of the last segment of `path`, where there is a dot and it is not
/// the end.
pub open spec fn extension(path: Seq<char>) -> Option<Seq<char>> {
    match filename(path) {
        Some(name) => {
            let ext = after_last(name, '.');
            if name.contains('.') && ext.len() > 0 {
                Some(ext)
            } else {
                None
            }
        },
        None => None,
    }
}

/// Makes a path segment of `segment` with `object_store::path::PathPart::from`, which
/// percent-encodes the bytes of the text that stores advise against, and the relative segments.
#[verifier::external_body]
pub(crate) fn encode_part(segment: &str) -> (part: String)
    ensures
        part@ == path_part(segment@),
{
    object_store::path::PathPart::from(segment).as_ref().to_string()
}

/// The path of the child `child` of `base`, whatever characters `child` holds.
pub fn join(base: &str, child: &str) -> (path: String)
    ensures
        path@ == below(base@, path_part(child@)),
{
    let part: String = encode_part(child);
    if base.is_empty() {
        part
    } else {
        let mut path: String = String::from_str(base);
        path.push('/');
        path.append(part.as_str());
        assert(path@ == base@ + seq!['/'] + part@);
        path
    }
}

proof fn lemma_escaped_has_no_slash(bytes: Seq<u8>)
    ensures
        !escaped(bytes).contains('/'),
    decreases bytes.len(),
{
    if bytes.len() > 0 {
        let front = escaped(bytes.drop_last());
        lemma_escaped_has_no_slash(bytes.drop_last());
        let whole = escaped(bytes);
        if whole.contains('/') {
            let i = choose|i: int| 0 <= i < whole.len() && whole[i] == '/';
            if i < front.len() {
                assert(front[i] == '/');
            } else {
                assert(0 <= bytes.last() as int / 16 < 16);
                assert(0 <= bytes.last() as int % 16 < 16);
            }
        }
    }
}

/// A path segment holds no delimiter.
pub proof fn lemma_part_has_no_slash(s: Seq<char>)
    ensures
        !percent_encoded(s).contains('/'),
        !path_part(s).contains('/'),
    decreases s.len(),
{
    if s.len() > 0 {
        let front = percent_encoded(s.drop_last());
        lemma_part_has_no_slash(s.drop_last());
        lemma_escaped_has_no_slash(encode_scalar(s.last() as u32));
        let tail = if plain_char(s.last()) {
            seq![s.last()]
        } else {
            escaped(encode_scalar(s.last() as u32))
        };
        let whole = percent_encoded(s);
        assert(whole == front + tail);
        if whole.contains('/') {
            let i = choose|i: int| 0 <= i < whole.len() && whole[i] == '/';
            if i < front.len() {
                assert(front[i] == '/');
            } else {
                assert(tail[i - front.len()] == '/');
                assert(tail.contains('/'));
            }
        }
    }
}

/// Encoding goes through a text piece by piece.
pub proof fn lemma_encoding_adds(a: Seq<char>, b: Seq<char>)
    ensures
        percent_encoded(a + b) == percent_encoded(a) + percent_encoded(b),
    decreases b.len(),
{
    if b.len() > 0 {
        lemma_encoding_adds(a, b.drop_last());
        assert((a + b).drop_last() == a + b.drop_last());
        assert((a + b).last() == b.last());
        assert(percent_encoded(a + b) == percent_encoded(a) + percent_encoded(b));
    } else {
        assert(a + b == a);
        assert(percent_encoded(a) + percent_encoded(b) == percent_encoded(a));
    }
}

/// Encoding keeps a plain text.
pub proof fn lemma_plain_is_kept(s: Seq<char>)
    requires
        plain(s),
    ensures
        percent_encoded(s) == s,
    decreases s.len(),
{
    if s.len() > 0 {
        assert(plain(s.drop_last()));
        lemma_plain_is_kept(s.drop_last());
        assert(plain_char(s[s.len() - 1]));
        assert(s == s.drop_last() + seq![s.last()]);
    }
}

/// The last segment of a path is the segment it was joined with.
pub proof fn lemma_filename_below(base: Seq<char>, part: Seq<char>)
    requires
        !part.contains('/'),
        part.len() > 0,
    ensures
        filename(below(base, part)) == Some(part),
{
    if base.len() == 0 {
        crate::text::lemma_after_last(part, '/');
    } else {
        lemma_after_last_split(base, '/', part);
    }
}

} // verus!
