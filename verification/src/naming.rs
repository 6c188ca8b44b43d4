//! How the versions of an object are named in the store: each is a file of its own, whose name is
//! its id in twenty decimal digits, a dot and the suffix of the object's kind.
use crate::decimal::{
    lemma_u64_has_twenty_digits, lemma_zero_padded_in_order, lemma_zero_padded_parses,
    lemma_zero_padded_value, parse_u64, parsed_u64, push_zero_padded, zero_padded,
};
use crate::id::MonotonicId;
use crate::path::{
    below, extension, filename, join, lemma_encoding_adds, lemma_filename_below,
    lemma_part_has_no_slash, lemma_plain_is_kept, path_part, percent_encoded, plain, plain_char,
};
use crate::text::{
    after_last, before_first, behind_last, chars_of, ends_with_exactly, lemma_after_last_split,
    lemma_before_first_split, place_of_first,
};
use vstd::prelude::*;

verus! {

/// The digits that an id is written with.
pub const ID_DIGITS: usize = 20;

/// The name of version `id` of an object with the suffix `suffix`.
pub open spec fn version_name(id: u64, suffix: Seq<char>) -> Seq<char> {
    zero_padded(id as nat, ID_DIGITS as nat) + seq!['.'] + suffix
}

/// The path of version `id` in the directory `dir`.
pub open spec fn version_path(dir: Seq<char>, suffix: Seq<char>, id: u64) -> Seq<char> {
    below(dir, path_part(version_name(id, suffix)))
}

/// The id that the object at `path` has by its name: its extension is `suffix`, and what precedes
/// the first dot of its name is a number.
pub open spec fn parsed_id(path: Seq<char>, suffix: Seq<char>) -> Option<u64> {
    if extension(path) == Some(suffix) {
        parsed_u64(before_first(filename(path)->0, '.'))
    } else {
        None
    }
}

/// Whether a name that ends in the suffix `suffix` has it as its extension: it is not empty, holds
/// no dot, and stands in a path as it is.
pub open spec fn readable_suffix(suffix: Seq<char>) -> bool {
    suffix.len() > 0 && !suffix.contains('.') && plain(suffix)
}

proof fn lemma_digits_are_plain(s: Seq<char>)
    requires
        crate::decimal::all_digits(s),
    ensures
        plain(s),
        !s.contains('.'),
{
    assert forall|i: int| 0 <= i < s.len() implies plain_char(#[trigger] s[i]) && s[i] != '.' by {
        assert(crate::decimal::is_digit(s[i]));
    }
}

/// The digits of an id stand at the start of the path segment of its version.
pub proof fn lemma_version_part(id: u64, suffix: Seq<char>)
    ensures
        path_part(version_name(id, suffix)) == zero_padded(id as nat, 20) + percent_encoded(
            seq!['.'] + suffix,
        ),
{
    let digits = zero_padded(id as nat, 20);
    lemma_zero_padded_value(id as nat, 20);
    lemma_digits_are_plain(digits);
    lemma_plain_is_kept(digits);
    lemma_encoding_adds(digits, seq!['.'] + suffix);
    assert(version_name(id, suffix) == digits + (seq!['.'] + suffix));
    assert(version_name(id, suffix).len() >= 21);
}

/// The id of a version can be read from the path that the version is written to.
pub proof fn lemma_path_gives_id(dir: Seq<char>, suffix: Seq<char>, id: u64)
    requires
        readable_suffix(suffix),
    ensures
        parsed_id(version_path(dir, suffix, id), suffix) == Some(id),
{
    let digits = zero_padded(id as nat, 20);
    let name = version_name(id, suffix);
    lemma_zero_padded_value(id as nat, 20);
    lemma_zero_padded_parses(id);
    lemma_digits_are_plain(digits);
    assert(plain(seq!['.'] + suffix));
    lemma_plain_is_kept(seq!['.'] + suffix);
    lemma_version_part(id, suffix);
    assert(path_part(name) == name);
    lemma_part_has_no_slash(name);
    lemma_filename_below(dir, name);
    lemma_after_last_split(digits, '.', suffix);
    lemma_before_first_split(digits, '.', suffix);
    assert(name[20] == '.');
    assert(name.contains('.'));
}

/// Two versions of an object never share a path.
pub proof fn lemma_paths_differ(dir: Seq<char>, suffix: Seq<char>, a: u64, b: u64)
    requires
        version_path(dir, suffix, a) == version_path(dir, suffix, b),
    ensures
        a == b,
{
    let x = path_part(version_name(a, suffix));
    let y = path_part(version_name(b, suffix));
    let start: int = if dir.len() == 0 {
        0
    } else {
        dir.len() as int + 1
    };
    assert(version_path(dir, suffix, a).skip(start) == x);
    assert(version_path(dir, suffix, b).skip(start) == y);
    lemma_version_part(a, suffix);
    lemma_version_part(b, suffix);
    lemma_zero_padded_value(a as nat, 20);
    lemma_zero_padded_value(b as nat, 20);
    assert(x.take(20) == zero_padded(a as nat, 20));
    assert(y.take(20) == zero_padded(b as nat, 20));
    lemma_zero_padded_parses(a);
    lemma_zero_padded_parses(b);
}

/// Whether `x` comes before `y` in the order of their characters: at the first place where they
/// differ, `x` has the lesser one.
pub open spec fn comes_before(x: Seq<char>, y: Seq<char>) -> bool {
    exists|place: int|
        {
            &&& 0 <= place < x.len()
            &&& place < y.len()
            &&& #[trigger] x.take(place) == y.take(place)
            &&& x[place] < y[place]
        }
}

/// The paths of versions are in the order of their ids.
pub proof fn lemma_paths_in_order(dir: Seq<char>, suffix: Seq<char>, a: u64, b: u64)
    requires
        a < b,
    ensures
        comes_before(version_path(dir, suffix, a), version_path(dir, suffix, b)),
{
    let x = version_path(dir, suffix, a);
    let y = version_path(dir, suffix, b);
    let lead = if dir.len() == 0 {
        Seq::empty()
    } else {
        dir + seq!['/']
    };
    let p = zero_padded(a as nat, 20);
    let q = zero_padded(b as nat, 20);
    lemma_zero_padded_value(a as nat, 20);
    lemma_zero_padded_value(b as nat, 20);
    lemma_version_part(a, suffix);
    lemma_version_part(b, suffix);
    let tail = percent_encoded(seq!['.'] + suffix);
    assert(x == lead + p + tail);
    assert(y == lead + q + tail);
    lemma_u64_has_twenty_digits();
    let place = lemma_zero_padded_in_order(a as nat, b as nat, 20);
    let at = lead.len() + place;
    assert(x.take(at) == lead + p.take(place));
    assert(y.take(at) == lead + q.take(place));
    assert(x[at] == p[place] && y[at] == q[place]);
    assert(x.take(at) == y.take(at));
}

/// The path of version `id` in the directory `dir`.
pub fn path_of_version(dir: &str, suffix: &str, id: MonotonicId) -> (path: String)
    ensures
        path@ == version_path(dir@, suffix@, id.id),
{
    let mut name: String = String::new();
    push_zero_padded(&mut name, id.id, ID_DIGITS);
    name.push('.');
    name.append(suffix);
    assert(name@ == version_name(id.id, suffix@));
    join(dir, name.as_str())
}

/// The id that the object at `path` has by its name.
pub fn id_of_path(path: &str, suffix: &str) -> (id: Option<MonotonicId>)
    ensures
        match id {
            Some(id) => parsed_id(path@, suffix@) == Some(id.id),
            None => parsed_id(path@, suffix@) is None,
        },
{
    let text: Vec<char> = chars_of(path);
    let wanted: Vec<char> = chars_of(suffix);
    if text.len() == 0 {
        return None;
    }
    let start: usize = behind_last(&text, 0, '/');
    assert(text@.skip(0) == text@);
    let ghost name = filename(path@)->0;
    assert(text@.skip(start as int) == name);
    let dot: usize = place_of_first(&text, start, '.');
    let ext: usize = behind_last(&text, start, '.');
    assert(after_last(name, '.') == text@.skip(ext as int));
    if dot == text.len() || ext == text.len() || !ends_with_exactly(&text, ext, &wanted) {
        return None;
    }
    match parse_u64(&text, start, dot) {
        Some(id) => Some(MonotonicId { id }),
        None => None,
    }
}

} // verus!
