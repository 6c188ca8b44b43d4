//! What numbers, names and paths look like as text, character by character.
use crate::boundary::{boundary_bytes, boundary_path, parsed_boundary};
use crate::decimal::{
    decimal, lemma_decimal_value, lemma_zero_padded_value, parsed_u64, zero_padded,
};
use crate::id::{in_range, IdBound, MonotonicId};
use crate::naming::{lemma_version_part, parsed_id, readable_suffix, version_path};
use crate::path::{below, filename, lemma_part_has_no_slash, lemma_plain_is_kept, path_part, plain};
use crate::text::{
    after_last, before_first, lemma_after_last, lemma_after_last_split, lemma_before_first_split,
    trimmed, trimmed_end, trimmed_start, white_space,
};
use vstd::prelude::*;
use vstd::utf8::{encode_utf8, valid_utf8};

verus! {

/// A number below ten is written as its one digit, and a digit behind the digits of a number is the
/// last one of ten times that number plus the digit.
pub proof fn lemma_decimal_grows_by_a_digit(n: nat, d: nat)
    requires
        d < 10,
    ensures
        decimal(d) == seq![(48 + d) as char],
        n > 0 ==> decimal(10 * n + d) == decimal(n).push((48 + d) as char),
{
    assert((10 * n + d) / 10 == n && (10 * n + d) % 10 == d);
}

/// Padding to no width gives nothing, and a digit behind the padded digits of a number is the last
/// one of ten times that number plus the digit, padded to one more.
pub proof fn lemma_padding_grows_by_a_digit(n: nat, d: nat, width: nat)
    requires
        d < 10,
    ensures
        zero_padded(n, 0).len() == 0,
        zero_padded(n, width).len() == width,
        zero_padded(10 * n + d, width + 1) == zero_padded(n, width).push((48 + d) as char),
{
    lemma_zero_padded_value(n, width);
    assert((10 * n + d) / 10 == n && (10 * n + d) % 10 == d);
}

/// One digit is read as its value, and a digit behind digits that are read as a number makes it ten
/// times that number plus the digit, as long as this fits.
pub proof fn lemma_reading_grows_by_a_digit(s: Seq<char>, c: char)
    requires
        '0' <= c <= '9',
    ensures
        parsed_u64(seq![c]) == Some((c as int - 48) as u64),
        s.len() > 0 && (forall|i: int| 0 <= i < s.len() ==> '0' <= #[trigger] s[i] <= '9') ==> (
        match parsed_u64(s) {
            Some(v) => if 10 * v + (c as int - 48) <= u64::MAX {
                parsed_u64(s.push(c)) == Some((10 * v + (c as int - 48)) as u64)
            } else {
                parsed_u64(s.push(c)) is None
            },
            None => parsed_u64(s.push(c)) is None,
        }),
{
    reveal_with_fuel(crate::decimal::digits_value, 2);
    assert(seq![c].drop_last() == Seq::<char>::empty());
    if s.len() > 0 && (forall|i: int| 0 <= i < s.len() ==> '0' <= #[trigger] s[i] <= '9') {
        let t = s.push(c);
        assert(t.drop_last() == s);
        assert('0' <= s[0] <= '9');
        assert(t[0] == s[0]);
        assert(crate::decimal::all_digits(s));
        assert(crate::decimal::all_digits(t)) by {
            assert forall|i: int| 0 <= i < t.len() implies crate::decimal::is_digit(
                #[trigger] t[i],
            ) by {
                if i < s.len() {
                    assert(t[i] == s[i]);
                }
            }
        }
    }
}

/// A plus sign before a number changes nothing, and nothing else but digits is read as a number.
pub proof fn lemma_only_digits_are_read(s: Seq<char>)
    ensures
        s.len() == 0 ==> parsed_u64(s) is None,
        s.len() == 0 || s[0] != '+' ==> parsed_u64(seq!['+'] + s) == parsed_u64(s),
        s.len() > 0 && s[0] == '+' ==> parsed_u64(seq!['+'] + s) is None,
        forall|i: int|
            0 <= i < s.len() && !('0' <= #[trigger] s[i] <= '9') && !(i == 0 && s[0] == '+')
                ==> parsed_u64(s) is None,
{
    assert((seq!['+'] + s).skip(1) == s);
    if s.len() > 0 && s[0] == '+' {
        assert(!crate::decimal::is_digit(s[0]));
    }
    assert forall|i: int|
        0 <= i < s.len() && !('0' <= #[trigger] s[i] <= '9') && !(i == 0 && s[0]
            == '+') implies parsed_u64(s) is None by {
        if s[0] == '+' {
            assert(s.skip(1)[i - 1] == s[i]);
            assert(!crate::decimal::is_digit(s.skip(1)[i - 1]));
        } else {
            assert(!crate::decimal::is_digit(s[i]));
        }
    }
}

/// What precedes the first `c` is all of a text that holds no `c`, and what stands before `c` where
/// there is one.
pub proof fn lemma_before_first(a: Seq<char>, c: char, b: Seq<char>)
    requires
        !a.contains(c),
    ensures
        before_first(a, c) == a,
        before_first(a + seq![c] + b, c) == a,
    decreases a.len(),
{
    lemma_before_first_split(a, c, b);
    if a.len() > 0 {
        let rest = a.skip(1);
        assert(a.contains(a[0]));
        assert forall|i: int| 0 <= i < rest.len() implies rest[i] != c by {
            assert(a.contains(a[i + 1]));
        }
        lemma_before_first(rest, c, b);
        assert(a == seq![a[0]] + rest);
    } else {
        assert(before_first(a, c) == a);
    }
}

/// Which characters are white space.
pub proof fn lemma_white_space(c: char)
    ensures
        white_space(c) <==> {
            let n = c as int;
            ||| 9 <= n <= 13
            ||| n == 32
            ||| n == 133
            ||| n == 160
            ||| n == 5760
            ||| 8192 <= n <= 8202
            ||| n == 8232
            ||| n == 8233
            ||| n == 8239
            ||| n == 8287
            ||| n == 12288
        },
{
}

proof fn lemma_trimmed_start_of(lead: Seq<char>, core: Seq<char>)
    requires
        forall|i: int| 0 <= i < lead.len() ==> white_space(#[trigger] lead[i]),
        core.len() > 0 ==> !white_space(core[0]),
    ensures
        trimmed_start(lead + core) == core,
    decreases lead.len(),
{
    let s = lead + core;
    if lead.len() > 0 {
        assert(white_space(lead[0]));
        let rest = lead.skip(1);
        assert(s.skip(1) == rest + core);
        assert forall|i: int| 0 <= i < rest.len() implies white_space(#[trigger] rest[i]) by {
            assert(rest[i] == lead[i + 1]);
        }
        lemma_trimmed_start_of(rest, core);
    } else {
        assert(s == core);
    }
}

proof fn lemma_trimmed_end_of(core: Seq<char>, tail: Seq<char>)
    requires
        forall|i: int| 0 <= i < tail.len() ==> white_space(#[trigger] tail[i]),
        core.len() > 0 ==> !white_space(core.last()),
    ensures
        trimmed_end(core + tail) == core,
    decreases tail.len(),
{
    let s = core + tail;
    if tail.len() > 0 {
        assert(white_space(tail[tail.len() - 1]));
        let rest = tail.drop_last();
        assert(s.drop_last() == core + rest);
        assert forall|i: int| 0 <= i < rest.len() implies white_space(#[trigger] rest[i]) by {
            assert(rest[i] == tail[i]);
        }
        lemma_trimmed_end_of(core, rest);
    } else {
        assert(s == core);
    }
}

/// Trimming takes away just the white space at both ends.
pub proof fn lemma_trimming(lead: Seq<char>, core: Seq<char>, tail: Seq<char>)
    requires
        forall|i: int| 0 <= i < lead.len() ==> white_space(#[trigger] lead[i]),
        forall|i: int| 0 <= i < tail.len() ==> white_space(#[trigger] tail[i]),
        core.len() > 0 ==> !white_space(core[0]) && !white_space(core.last()),
    ensures
        trimmed(lead + core + tail) == core,
{
    if core.len() > 0 {
        assert((core + tail)[0] == core[0]);
        assert(lead + core + tail == lead + (core + tail));
        lemma_trimmed_start_of(lead, core + tail);
        lemma_trimmed_end_of(core, tail);
    } else {
        let all = lead + tail;
        assert(lead + core + tail == all);
        assert(all == all + Seq::<char>::empty());
        assert forall|i: int| 0 <= i < all.len() implies white_space(#[trigger] all[i]) by {
            if i < lead.len() {
                assert(all[i] == lead[i]);
            } else {
                assert(all[i] == tail[i - lead.len()]);
            }
        }
        lemma_trimmed_start_of(all, Seq::<char>::empty());
        assert(core == Seq::<char>::empty());
    }
}

/// Letters, digits and the marks that names are made of stand in a path as they are, and make a
/// suffix that can be read off a path where there is one of them and none is a dot.
pub proof fn lemma_names_are_plain(s: Seq<char>)
    requires
        forall|i: int|
            0 <= i < s.len() ==> {
                let c = #[trigger] s[i];
                'a' <= c <= 'z' || 'A' <= c <= 'Z' || '0' <= c <= '9' || c == '-' || c == '_' || c
                    == '.'
            },
    ensures
        plain(s),
        s.len() > 0 && !s.contains('.') ==> readable_suffix(s),
        s != seq!['.'] && s != seq!['.', '.'] ==> path_part(s) == s,
{
    assert(plain(s));
    lemma_plain_is_kept(s);
}

/// A path below another one is that one, a slash, and the segment; below the root it is just the
/// segment.
pub proof fn lemma_below(base: Seq<char>, part: Seq<char>)
    ensures
        base.len() > 0 ==> below(base, part) == base + seq!['/'] + part,
        base.len() == 0 ==> below(base, part) == part,
{
}

/// Each version lies right in its object's directory. Its name is its id in twenty digits, and what
/// follows them is the same for all versions: a dot and the suffix, escaped as paths need it.
pub proof fn lemma_version_lies_in_its_directory(dir: Seq<char>, suffix: Seq<char>, id: u64)
    ensures
        ({
            let path = version_path(dir, suffix, id);
            let name = if dir.len() == 0 {
                path
            } else {
                path.skip(dir.len() as int + 1)
            };
            &&& dir.len() > 0 ==> path.len() > dir.len() && path.take(dir.len() as int) == dir
                && path[dir.len() as int] == '/'
            &&& !name.contains('/')
            &&& name.len() > 20
            &&& name.take(20) == zero_padded(id as nat, 20)
            &&& name.skip(20) == crate::path::percent_encoded(seq!['.'] + suffix)
            &&& plain(suffix) ==> name.skip(20) == seq!['.'] + suffix
            &&& forall|other: u64|
                path.len() == (#[trigger] version_path(dir, suffix, other)).len() && path.skip(
                    path.len() - name.len() + 20,
                ) == version_path(dir, suffix, other).skip(path.len() - name.len() + 20)
        }),
{
    lemma_version_in_directory(dir, suffix, id);
    let path = version_path(dir, suffix, id);
    let start: int = if dir.len() == 0 {
        0
    } else {
        dir.len() as int + 1
    };
    assert forall|other: u64|
        path.len() == (#[trigger] version_path(dir, suffix, other)).len() && path.skip(start + 20)
            == version_path(dir, suffix, other).skip(start + 20) by {
        lemma_version_in_directory(dir, suffix, other);
    }
}

proof fn lemma_version_in_directory(dir: Seq<char>, suffix: Seq<char>, id: u64)
    ensures
        ({
            let path = version_path(dir, suffix, id);
            let start: int = if dir.len() == 0 {
                0
            } else {
                dir.len() as int + 1
            };
            let tail = crate::path::percent_encoded(seq!['.'] + suffix);
            let name = path.skip(start);
            &&& dir.len() > 0 ==> path.take(dir.len() as int) == dir && path[dir.len() as int]
                == '/'
            &&& name == zero_padded(id as nat, 20) + tail
            &&& path.len() == start + 20 + tail.len()
            &&& path.skip(start + 20) == tail
            &&& !name.contains('/')
            &&& tail.len() > 0
            &&& plain(suffix) ==> tail == seq!['.'] + suffix
            &&& dir.len() == 0 ==> name == path
            &&& name.take(20) == zero_padded(id as nat, 20)
            &&& name.skip(20) == tail
        }),
{
    let path = version_path(dir, suffix, id);
    let tail = crate::path::percent_encoded(seq!['.'] + suffix);
    let name = path_part(crate::naming::version_name(id, suffix));
    let start: int = if dir.len() == 0 {
        0
    } else {
        dir.len() as int + 1
    };
    lemma_version_part(id, suffix);
    lemma_zero_padded_value(id as nat, 20);
    lemma_part_has_no_slash(crate::naming::version_name(id, suffix));
    assert(path.skip(start) == name);
    assert(path.skip(start + 20) == tail);
    crate::path::lemma_encoding_adds(seq!['.'], suffix);
    assert(plain(seq!['.']));
    lemma_plain_is_kept(seq!['.']);
    if plain(suffix) {
        lemma_plain_is_kept(suffix);
    }
    if dir.len() > 0 {
        assert(path.take(dir.len() as int) == dir);
    } else {
        assert(path.skip(0) == path);
    }
    assert(name.take(20) == zero_padded(id as nat, 20));
    assert(name.skip(20) == tail);
}

/// Versions of objects in different directories never share a path.
pub proof fn lemma_directories_do_not_share_paths(
    dir: Seq<char>,
    suffix: Seq<char>,
    id: u64,
    other_dir: Seq<char>,
    other_suffix: Seq<char>,
    other_id: u64,
)
    requires
        dir != other_dir,
    ensures
        version_path(dir, suffix, id) != version_path(other_dir, other_suffix, other_id),
{
    let p = version_path(dir, suffix, id);
    let q = version_path(other_dir, other_suffix, other_id);
    lemma_version_in_directory(dir, suffix, id);
    lemma_version_in_directory(other_dir, other_suffix, other_id);
    if p == q {
        let m = dir.len() as int;
        let n = other_dir.len() as int;
        if m > 0 && n > 0 {
            if m < n {
                assert(p[n] == '/');
                assert(p.skip(m + 1)[n - m - 1] == '/');
            } else if n < m {
                assert(q[m] == '/');
                assert(q.skip(n + 1)[m - n - 1] == '/');
            }
        } else if m > 0 {
            assert(q[m] == '/');
        } else if n > 0 {
            assert(p[n] == '/');
        } else {
            assert(dir == other_dir);
        }
    }
}

/// Of two ids the versions of one object have two paths, whatever the suffix.
pub proof fn lemma_ids_do_not_share_paths(dir: Seq<char>, suffix: Seq<char>, a: u64, b: u64)
    requires
        a != b,
    ensures
        version_path(dir, suffix, a) != version_path(dir, suffix, b),
{
    if version_path(dir, suffix, a) == version_path(dir, suffix, b) {
        crate::naming::lemma_paths_differ(dir, suffix, a, b);
    }
}

proof fn lemma_name_behind(lead: Seq<char>, name: Seq<char>)
    requires
        lead.len() == 0 || lead.last() == '/',
        !name.contains('/'),
        name.len() > 0,
    ensures
        filename(lead + name) == Some(name),
{
    if lead.len() == 0 {
        assert(lead + name == name);
        lemma_after_last(name, '/');
    } else {
        assert(lead + name == lead.drop_last() + seq!['/'] + name);
        lemma_after_last_split(lead.drop_last(), '/', name);
    }
}

/// The id of a file is what stands before the first dot of its name, where the name ends in a dot
/// and the suffix, whatever directory it lies in and whatever stands in between.
pub proof fn lemma_id_stands_before_the_first_dot(
    lead: Seq<char>,
    stem: Seq<char>,
    between: Seq<char>,
    suffix: Seq<char>,
)
    requires
        lead.len() == 0 || lead.last() == '/',
        !stem.contains('/'),
        !stem.contains('.'),
        !between.contains('/'),
        suffix.len() > 0,
        !suffix.contains('/'),
        !suffix.contains('.'),
    ensures
        parsed_id(lead + stem + seq!['.'] + suffix, suffix) == parsed_u64(stem),
        parsed_id(lead + stem + seq!['.'] + between + seq!['.'] + suffix, suffix) == parsed_u64(
            stem,
        ),
{
    let short = stem + seq!['.'] + suffix;
    let long = stem + seq!['.'] + between + seq!['.'] + suffix;
    assert(lead + stem + seq!['.'] + suffix == lead + short);
    assert(lead + stem + seq!['.'] + between + seq!['.'] + suffix == lead + long);
    assert forall|i: int| 0 <= i < short.len() implies short[i] != '/' by {
        if i < stem.len() {
            assert(stem.contains(stem[i]));
        } else if i > stem.len() {
            assert(suffix.contains(suffix[i - stem.len() - 1]));
        }
    }
    assert forall|i: int| 0 <= i < long.len() implies long[i] != '/' by {
        if i < stem.len() {
            assert(stem.contains(stem[i]));
        } else if stem.len() < i < stem.len() + 1 + between.len() {
            assert(between.contains(between[i - stem.len() - 1]));
        } else if i > stem.len() + 1 + between.len() {
            assert(suffix.contains(suffix[i - stem.len() - between.len() - 2]));
        }
    }
    lemma_name_behind(lead, short);
    lemma_name_behind(lead, long);
    lemma_after_last_split(stem, '.', suffix);
    lemma_before_first_split(stem, '.', suffix);
    lemma_after_last_split(stem + seq!['.'] + between, '.', suffix);
    assert(long == stem + seq!['.'] + (between + seq!['.'] + suffix));
    lemma_before_first_split(stem, '.', between + seq!['.'] + suffix);
    assert(short[stem.len() as int] == '.');
    assert(long[stem.len() as int] == '.');
}

/// A file whose path does not end in a dot and the suffix has no id; nor has any file where the
/// suffix is empty or holds a dot.
pub proof fn lemma_id_needs_the_suffix(path: Seq<char>, suffix: Seq<char>)
    requires
        parsed_id(path, suffix) is Some,
    ensures
        suffix.len() > 0,
        !suffix.contains('.'),
        !suffix.contains('/'),
        path.len() > suffix.len(),
        path.skip(path.len() - suffix.len()) == suffix,
        path[path.len() - suffix.len() - 1] == '.',
{
    let name = filename(path)->0;
    lemma_after_last(path, '/');
    lemma_after_last(name, '.');
    let k = choose|k: int| 0 <= k < name.len() && name[k] == '.';
    assert(suffix == after_last(name, '.'));
    assert(suffix.len() < name.len()) by {
        if suffix.len() == name.len() {
            assert(name.skip(0) == name);
            assert(suffix.contains(name[k]));
        }
    }
    let at = path.len() - name.len();
    assert(path.skip(path.len() - suffix.len()) == name.skip(name.len() - suffix.len()));
    assert(path[path.len() - suffix.len() - 1] == name[name.len() - suffix.len() - 1]);
    if suffix.contains('/') {
        let i = choose|i: int| 0 <= i < suffix.len() && suffix[i] == '/';
        assert(name[name.len() - suffix.len() + i] == '/');
        assert(name.contains('/'));
    }
}

/// A boundary lies in the directory `gc` of its root. Its file has its name and ends in
/// `.boundary`, escaped as paths need it.
pub proof fn lemma_boundary_lies_in_gc(root: Seq<char>, name: Seq<char>)
    ensures
        root.len() > 0 ==> boundary_path(root, name) == root + seq!['/', 'g', 'c', '/'] + path_part(
            name + ".boundary"@,
        ),
        root.len() == 0 ==> boundary_path(root, name) == seq!['g', 'c', '/'] + path_part(
            name + ".boundary"@,
        ),
        plain(name) ==> path_part(name + ".boundary"@) == name + seq![
            '.',
            'b',
            'o',
            'u',
            'n',
            'd',
            'a',
            'r',
            'y',
        ],
{
    reveal_strlit("gc");
    reveal_strlit(".boundary");
    let gc = "gc"@;
    assert(gc == seq!['g', 'c']);
    assert(plain(gc));
    lemma_plain_is_kept(gc);
    assert(path_part(gc) == gc);
    if root.len() > 0 {
        assert(boundary_path(root, name) == root + seq!['/', 'g', 'c', '/'] + path_part(
            name + ".boundary"@,
        ));
    } else {
        assert(below(root, gc) == gc);
        assert(boundary_path(root, name) == seq!['g', 'c', '/'] + path_part(name + ".boundary"@));
    }
    let suffix = ".boundary"@;
    assert(suffix == seq!['.', 'b', 'o', 'u', 'n', 'd', 'a', 'r', 'y']);
    if plain(name) {
        let file = name + suffix;
        assert forall|i: int| 0 <= i < file.len() implies crate::path::plain_char(
            #[trigger] file[i],
        ) by {
            if i < name.len() {
                assert(file[i] == name[i]);
            } else {
                assert(file[i] == suffix[i - name.len()]);
            }
        }
        lemma_plain_is_kept(file);
    }
}

/// A boundary file holds the decimal digits of the boundary, one byte for each.
pub proof fn lemma_boundary_bytes_are_digits(boundary: u64)
    ensures
        boundary_bytes(boundary).len() == decimal(boundary as nat).len(),
        forall|i: int|
            0 <= i < decimal(boundary as nat).len() ==> #[trigger] boundary_bytes(boundary)[i]
                == decimal(boundary as nat)[i] as int,
{
    let s = decimal(boundary as nat);
    lemma_decimal_value(boundary as nat);
    assert forall|i: int| 0 <= i < s.len() implies '\0' <= #[trigger] s[i] <= '\u{7f}' by {
        assert(crate::decimal::is_digit(s[i]));
    }
    vstd::utf8::is_ascii_chars_encode_utf8(s);
}

/// A boundary file is read as the number that its text writes, white space round it aside, and is
/// not read at all where it is not text.
pub proof fn lemma_boundary_is_read_from_text(
    lead: Seq<char>,
    core: Seq<char>,
    tail: Seq<char>,
    bytes: Seq<u8>,
)
    requires
        forall|i: int| 0 <= i < lead.len() ==> white_space(#[trigger] lead[i]),
        forall|i: int| 0 <= i < tail.len() ==> white_space(#[trigger] tail[i]),
        core.len() > 0 ==> !white_space(core[0]) && !white_space(core.last()),
    ensures
        parsed_boundary(encode_utf8(lead + core + tail)) == parsed_u64(core),
        !valid_utf8(bytes) ==> parsed_boundary(bytes) is None,
{
    let s = lead + core + tail;
    lemma_trimming(lead, core, tail);
    vstd::utf8::encode_utf8_valid_utf8(s);
    vstd::utf8::encode_utf8_decode_utf8(s);
}

/// An id is in a range where it is on the right side of both ends; a bound that is included is in
/// the range itself, one that is excluded is not, and no bound rules nothing out.
pub proof fn lemma_range_ends(from: IdBound, to: IdBound, bound: u64, id: u64)
    ensures
        in_range(from, to, id) <==> in_range(from, IdBound::Unbounded, id) && in_range(
            IdBound::Unbounded,
            to,
            id,
        ),
        in_range(IdBound::Unbounded, IdBound::Unbounded, id),
        in_range(IdBound::Included(MonotonicId { id: bound }), IdBound::Unbounded, id) <==> id
            >= bound,
        in_range(IdBound::Excluded(MonotonicId { id: bound }), IdBound::Unbounded, id) <==> id
            > bound,
        in_range(IdBound::Unbounded, IdBound::Included(MonotonicId { id: bound }), id) <==> id
            <= bound,
        in_range(IdBound::Unbounded, IdBound::Excluded(MonotonicId { id: bound }), id) <==> id
            < bound,
{
}

} // verus!
