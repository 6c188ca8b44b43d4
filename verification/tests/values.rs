//! The plain values that the library computes with, held against the standard library and the
//! crates that it lives with.
use object_store::path::Path;
use slatedb_objects::decimal::{parse_u64, push_decimal, push_zero_padded};
use slatedb_objects::id::{range_contains, IdBound, MonotonicId};
use slatedb_objects::listing::identify;
use slatedb_objects::naming::{id_of_path, path_of_version};
use slatedb_objects::path::join;
use slatedb_objects::store::ObjectMetadata;
use slatedb_objects::text::{chars_of, is_white_space, trim_range};
use slatedb_objects::time::{
    signed_duration_since, time_delta_from_std, Duration, TimeDelta, Timestamp, MAX_SECS, MIN_SECS,
};
use std::ops::{Bound, RangeBounds};

#[test]
fn join_encodes_what_stores_advise_against() {
    assert_eq!("root/a%2Fb", join("root", "a/b"));
    assert_eq!("root/%2E%2E", join("root", ".."));
    assert_eq!("root/%2E", join("root", "."));
    assert_eq!("%25%23%7E", join("", "%#~"));
    assert_eq!("root/caf%C3%A9", join("root", "caf\u{e9}"));
    assert_eq!("root/plain name-1_2.x", join("root", "plain name-1_2.x"));
    assert_eq!("root/", join("root", ""));
}

#[test]
fn join_does_what_the_store_does() {
    let mut children: Vec<String> = (0u32..0x250)
        .filter_map(char::from_u32)
        .map(|c| format!("x{}y", c))
        .collect();
    for child in ["", ".", "..", "...", "a/b/c", "\u{20ac}", "\u{1f980}", "a.b.c"] {
        children.push(child.to_string());
    }
    for child in &children {
        for base in ["", "root", "root/dir"] {
            let expected = Path::parse(base).unwrap().join(child.as_str());
            assert_eq!(expected.as_ref(), join(base, child));
        }
    }
}

#[test]
fn id_of_path_does_what_the_store_does() {
    for path in [
        "root/1.val",
        "root/x/00000000000000000007.val",
        "9.val",
        "root/1.2.val",
        "root/1.val.x",
        "root/1",
        "root/.val",
        "root/+4.val",
        "root/-4.val",
        "root/1.",
        "root/00000000000000000018446744073709551615.val",
        "root/18446744073709551616.val",
        "root.val/3",
    ] {
        let parsed = Path::parse(path).unwrap();
        let expected: Option<u64> = match parsed.extension() {
            Some("val") => parsed.filename().unwrap().split('.').next().unwrap().parse().ok(),
            _ => None,
        };
        assert_eq!(expected, id_of_path(path, "val").map(|id| id.id()));
    }
    assert!(id_of_path("", "val").is_none());
    assert!(id_of_path("root/1.val", "").is_none());
}

#[test]
fn path_of_version_is_zero_padded() {
    assert_eq!(
        "root/00000000000000000042.manifest",
        path_of_version("root", "manifest", MonotonicId::new(42))
    );
    for id in [0u64, 9, 10, 99, 12_345_678_901_234_567_890, u64::MAX] {
        let expected = Path::from("root").join(format!("{:020}.{}", id, "a.b/c"));
        assert_eq!(expected.as_ref(), path_of_version("root", "a.b/c", MonotonicId::new(id)));
    }
}

#[test]
fn decimal_is_what_to_string_gives() {
    for n in [0u64, 1, 9, 10, 11, 99, 100, 1_000_000_007, u64::MAX - 1, u64::MAX] {
        let mut text = String::from("x");
        push_decimal(&mut text, n);
        assert_eq!(format!("x{}", n), text);
        let mut padded = String::new();
        push_zero_padded(&mut padded, n, 20);
        assert_eq!(format!("{:020}", n), padded);
    }
}

#[test]
fn parse_u64_is_what_parse_gives() {
    for text in [
        "", "+", "-", "0", "+0", "00", "7", "+7", "-7", "++7", "7+", " 7", "7 ", "0x7", "1_0",
        "18446744073709551615", "18446744073709551616", "99999999999999999999",
        "000000000000000000000000000001", "\u{663}",
    ] {
        let chars = chars_of(text);
        assert_eq!(text.parse::<u64>().ok(), parse_u64(&chars, 0, chars.len()));
    }
    assert_eq!(Some(23), parse_u64(&chars_of("12345"), 1, 3));
}

#[test]
fn white_space_is_what_char_says() {
    for c in (0..=0x10ffff).filter_map(char::from_u32) {
        assert_eq!(c.is_whitespace(), is_white_space(c));
    }
}

#[test]
fn trim_is_what_trim_gives() {
    for text in ["", " ", " a ", "a b", "\u{2003}\t7\r\n", "\u{200b}7", "7", "  \u{3000}"] {
        let chars = chars_of(text);
        let (start, end) = trim_range(&chars);
        assert_eq!(text.trim().chars().collect::<Vec<char>>(), chars[start..end]);
    }
}

#[test]
fn ranges_are_those_of_std() {
    let ends = |n: u64| {
        [
            (IdBound::Included(MonotonicId::new(n)), Bound::Included(n)),
            (IdBound::Excluded(MonotonicId::new(n)), Bound::Excluded(n)),
            (IdBound::Unbounded, Bound::Unbounded),
        ]
    };
    for (from, std_from) in ends(2) {
        for (to, std_to) in ends(4) {
            for id in 0..7u64 {
                assert_eq!(
                    (std_from, std_to).contains(&id),
                    range_contains(from, to, MonotonicId::new(id))
                );
            }
        }
    }
}

fn at(secs: i64, nanos: u32) -> Timestamp {
    Timestamp::new(secs, nanos).unwrap()
}

#[test]
fn timestamps_are_those_of_chrono() {
    let day = 86_400;
    for secs in [
        i64::MIN, MIN_SECS - 1, MIN_SECS, MIN_SECS + 59, -61, -60, -1, 0, 58, 59, 60, day - 1, day,
        1_483_228_799, MAX_SECS - 1, MAX_SECS, MAX_SECS + 1, i64::MAX,
    ] {
        for nanos in [0, 1, 999_999_999, 1_000_000_000, 1_999_999_999, 2_000_000_000, u32::MAX] {
            assert_eq!(
                chrono::DateTime::from_timestamp(secs, nanos).is_some(),
                Timestamp::new(secs, nanos).is_some()
            );
        }
    }
    assert_eq!((-61, 5), (at(-61, 5).secs(), at(-61, 5).nanos()));
}

#[test]
fn elapsed_time_is_that_of_chrono() {
    let points = [
        (MIN_SECS, 0), (-86_401, 999_999_999), (-1, 1_500_000_000), (0, 0), (59, 0),
        (59, 1_000_000_000), (59, 1_999_999_999), (60, 0), (3599, 1_250_000_000),
        (86_399, 1_000_000_001), (86_400, 0), (1_483_228_799, 1_500_000_000),
        (1_483_228_800, 0), (MAX_SECS, 1_999_999_999),
    ];
    for (a, x) in points {
        for (b, y) in points {
            let elapsed = signed_duration_since(at(a, x), at(b, y));
            let now = chrono::DateTime::from_timestamp(a, x).unwrap();
            let earlier = chrono::DateTime::from_timestamp(b, y).unwrap();
            let expected = now.signed_duration_since(earlier);
            let nanos = |secs: i64, nanos: i32| secs as i128 * 1_000_000_000 + nanos as i128;
            assert_eq!(
                nanos(expected.num_seconds(), expected.subsec_nanos()),
                nanos(elapsed.secs, elapsed.nanos)
            );
            // What is stated of the elapsed time, in numbers.
            let leap = if a.rem_euclid(86_400) > b.rem_euclid(86_400) && y >= 1_000_000_000 {
                1
            } else if a.rem_euclid(86_400) < b.rem_euclid(86_400) && x >= 1_000_000_000 {
                -1
            } else {
                0
            };
            let stated = (a as i128 - b as i128 + leap) * 1_000_000_000 + x as i128 - y as i128;
            assert_eq!(stated, nanos(elapsed.secs, elapsed.nanos));
        }
    }
    let elapsed = signed_duration_since(at(100, 250_000_000), at(98, 500_000_000));
    assert_eq!(TimeDelta { secs: 1, nanos: 750_000_000 }, elapsed);
}

#[test]
fn lengths_of_time_have_their_limit() {
    let longest = i64::MAX as u64;
    let (secs, millis) = (longest / 1000, (longest % 1000) as u32);
    let fits = Duration::new(secs, millis * 1_000_000).unwrap();
    assert_eq!(
        Some(TimeDelta { secs: secs as i64, nanos: (millis * 1_000_000) as i32 }),
        time_delta_from_std(fits)
    );
    assert!(time_delta_from_std(Duration::new(secs, millis * 1_000_000 + 1).unwrap()).is_none());
    assert!(time_delta_from_std(Duration::from_secs(u64::MAX)).is_none());
    assert_eq!(Some(TimeDelta { secs: 7, nanos: 0 }), time_delta_from_std(Duration::from_secs(7)));
    assert!(Duration::new(1, 1_000_000_000).is_none());
}

#[test]
fn lengths_of_time_double_and_compare() {
    let length = Duration::new(1, 700_000_000).unwrap();
    assert_eq!(Duration::new(3, 400_000_000).unwrap(), length.doubled());
    assert_eq!((1, 700_000_000), (length.as_secs(), length.subsec_nanos()));
    let longer = Duration::new(1, 700_000_001).unwrap();
    assert_eq!(longer, length.max(longer));
    assert_eq!(longer, longer.max(length));
    let (less, more) = (TimeDelta { secs: -1, nanos: 0 }, TimeDelta { secs: 0, nanos: -1 });
    assert!(more.exceeds(&less));
    assert!(!less.exceeds(&more));
    assert!(!less.exceeds(&less));
}

#[test]
fn files_of_one_id_keep_their_order() {
    let names = ["3.val", "1.val", "+3.val", "x.val", "2.val", "03.val"];
    let listing = names
        .iter()
        .enumerate()
        .map(|(i, name)| ObjectMetadata {
            location: name.to_string(),
            last_modified: at(i as i64, 0),
            size: i as u64,
        })
        .collect();
    let files = identify(listing, "val", IdBound::Unbounded, IdBound::Unbounded);
    let sorted: Vec<(u64, &str, u64)> = files
        .iter()
        .map(|file| (file.id.id(), file.metadata.location.as_str(), file.metadata.size))
        .collect();
    assert_eq!(
        vec![(1, "1.val", 1), (2, "2.val", 4), (3, "3.val", 0), (3, "+3.val", 2), (3, "03.val", 5)],
        sorted
    );
}
