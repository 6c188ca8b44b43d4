//! The versions of an object that a listing of its directory shows.
use crate::id::{in_range, range_contains, IdBound, MonotonicId};
use crate::naming::{id_of_path, parsed_id};
use crate::store::{IdentifiedObjectMetadata, ObjectMetadata};
use vstd::prelude::*;

verus! {

/// The objects of `listing` whose names give an id between `from` and `to`, in the order of the
/// listing.
pub open spec fn identified(
    listing: Seq<ObjectMetadata>,
    suffix: Seq<char>,
    from: IdBound,
    to: IdBound,
) -> Seq<IdentifiedObjectMetadata<MonotonicId>>
    decreases listing.len(),
{
    if listing.len() == 0 {
        Seq::empty()
    } else {
        let rest = identified(listing.drop_last(), suffix, from, to);
        match parsed_id(listing.last().location@, suffix) {
            Some(id) => if in_range(from, to, id) {
                rest.push(
                    IdentifiedObjectMetadata {
                        id: MonotonicId { id },
                        metadata: listing.last(),
                    },
                )
            } else {
                rest
            },
            None => rest,
        }
    }
}

/// Whether `listing` shows an object whose name gives the id `id`.
pub open spec fn shows(listing: Seq<ObjectMetadata>, suffix: Seq<char>, id: u64) -> bool {
    exists|i: int|
        0 <= i < listing.len() && parsed_id((#[trigger] listing[i]).location@, suffix) == Some(id)
}

/// Whether one of `files` has the id `id`.
pub open spec fn has_file(
    files: Seq<IdentifiedObjectMetadata<MonotonicId>>,
    id: u64,
) -> bool {
    exists|i: int| 0 <= i < files.len() && (#[trigger] files[i]).id.id == id
}

/// The files that a listing gives are those that it shows, as far as their ids are in the range.
pub proof fn lemma_identified(
    listing: Seq<ObjectMetadata>,
    suffix: Seq<char>,
    from: IdBound,
    to: IdBound,
    id: u64,
)
    ensures
        has_file(identified(listing, suffix, from, to), id) <==> shows(listing, suffix, id)
            && in_range(from, to, id),
    decreases listing.len(),
{
    if listing.len() > 0 {
        let front = listing.drop_last();
        let rest = identified(front, suffix, from, to);
        let files = identified(listing, suffix, from, to);
        lemma_identified(front, suffix, from, to, id);
        if has_file(files, id) {
            let i = choose|i: int| 0 <= i < files.len() && (#[trigger] files[i]).id.id == id;
            if i < rest.len() {
                assert(rest[i] == files[i]);
                assert(has_file(rest, id));
                let j = choose|j: int|
                    0 <= j < front.len() && parsed_id((#[trigger] front[j]).location@, suffix)
                        == Some(id);
                assert(listing[j] == front[j]);
            } else {
                assert(listing[listing.len() - 1] == listing.last());
            }
        }
        if shows(listing, suffix, id) && in_range(from, to, id) {
            let j = choose|j: int|
                0 <= j < listing.len() && parsed_id((#[trigger] listing[j]).location@, suffix)
                    == Some(id);
            if j < front.len() {
                assert(front[j] == listing[j]);
                assert(shows(front, suffix, id));
                let i = choose|i: int| 0 <= i < rest.len() && (#[trigger] rest[i]).id.id == id;
                assert(files[i] == rest[i]);
            } else {
                assert(files[files.len() - 1].id.id == id);
            }
        }
    }
}

/// Whether the ids of `files` never decrease.
pub open spec fn sorted_by_id(files: Seq<IdentifiedObjectMetadata<MonotonicId>>) -> bool {
    forall|i: int, j: int| 0 <= i <= j < files.len() ==> files[i].id.id <= files[j].id.id
}

/// Which files have the id `id`.
pub open spec fn has_id(id: u64) -> spec_fn(IdentifiedObjectMetadata<MonotonicId>) -> bool {
    |file: IdentifiedObjectMetadata<MonotonicId>| file.id.id == id
}

/// Whether `sorted` is `files` in the order of their ids, files of one id in the order they had.
pub open spec fn is_stable_sort(
    sorted: Seq<IdentifiedObjectMetadata<MonotonicId>>,
    files: Seq<IdentifiedObjectMetadata<MonotonicId>>,
) -> bool {
    &&& sorted_by_id(sorted)
    &&& sorted.to_multiset() == files.to_multiset()
    &&& forall|id: u64| #[trigger] sorted.filter(has_id(id)) == files.filter(has_id(id))
}

/// The greatest id of `files`; none where there are no files.
pub open spec fn newest_id(files: Seq<IdentifiedObjectMetadata<MonotonicId>>) -> Option<u64>
    decreases files.len(),
{
    if files.len() == 0 {
        None
    } else {
        match newest_id(files.drop_last()) {
            Some(id) if id > files.last().id.id => Some(id),
            _ => Some(files.last().id.id),
        }
    }
}

/// The greatest id is the id of a file, and no file has a greater one.
pub proof fn lemma_newest_id(files: Seq<IdentifiedObjectMetadata<MonotonicId>>)
    ensures
        newest_id(files) is None <==> files.len() == 0,
        newest_id(files) is Some ==> {
            &&& exists|i: int| 0 <= i < files.len() && files[i].id.id == newest_id(files)->0
            &&& forall|i: int| 0 <= i < files.len() ==> files[i].id.id <= newest_id(files)->0
        },
    decreases files.len(),
{
    if files.len() > 0 {
        let front = files.drop_last();
        lemma_newest_id(front);
        assert(files[files.len() - 1] == files.last());
        if newest_id(front) is Some {
            let i = choose|i: int| 0 <= i < front.len() && front[i].id.id == newest_id(front)->0;
            assert(files[i] == front[i]);
        }
        assert forall|i: int| 0 <= i < files.len() implies files[i].id.id <= newest_id(
            files,
        )->0 by {
            if i < front.len() {
                assert(files[i] == front[i]);
            }
        }
    }
}

/// Sorting the files that a listing gives loses none and adds none: they are those that the listing
/// shows, as far as their ids are in the range.
pub proof fn lemma_sorted_files(
    sorted: Seq<IdentifiedObjectMetadata<MonotonicId>>,
    listing: Seq<ObjectMetadata>,
    suffix: Seq<char>,
    from: IdBound,
    to: IdBound,
    id: u64,
)
    requires
        is_stable_sort(sorted, identified(listing, suffix, from, to)),
    ensures
        has_file(sorted, id) <==> shows(listing, suffix, id) && in_range(from, to, id),
{
    broadcast use vstd::seq_lib::group_to_multiset_ensures;

    let files = identified(listing, suffix, from, to);
    lemma_identified(listing, suffix, from, to, id);
    if has_file(sorted, id) {
        let i = choose|i: int| 0 <= i < sorted.len() && (#[trigger] sorted[i]).id.id == id;
        assert(sorted.contains(sorted[i]));
        assert(files.to_multiset().count(sorted[i]) > 0);
        assert(files.contains(sorted[i]));
    }
    if has_file(files, id) {
        let i = choose|i: int| 0 <= i < files.len() && (#[trigger] files[i]).id.id == id;
        assert(files.contains(files[i]));
        assert(sorted.to_multiset().count(files[i]) > 0);
        assert(sorted.contains(files[i]));
    }
}

/// The last of the sorted files has the greatest id of them all.
pub proof fn lemma_last_is_newest(
    sorted: Seq<IdentifiedObjectMetadata<MonotonicId>>,
    files: Seq<IdentifiedObjectMetadata<MonotonicId>>,
)
    requires
        is_stable_sort(sorted, files),
    ensures
        sorted.len() == files.len(),
        newest_id(files) == if sorted.len() == 0 {
            None
        } else {
            Some(sorted.last().id.id)
        },
{
    broadcast use vstd::seq_lib::group_to_multiset_ensures;

    assert(sorted.to_multiset().len() == sorted.len());
    assert(files.to_multiset().len() == files.len());
    lemma_newest_id(files);
    if files.len() > 0 {
        let newest = newest_id(files)->0;
        let i = choose|i: int| 0 <= i < files.len() && files[i].id.id == newest;
        assert(files.contains(files[i]));
        assert(files.to_multiset().count(files[i]) > 0);
        assert(sorted.contains(files[i]));
        let j = choose|j: int| 0 <= j < sorted.len() && sorted[j] == files[i];
        assert(sorted[j].id.id <= sorted[sorted.len() - 1].id.id);
        assert(sorted.contains(sorted[sorted.len() - 1]));
        assert(sorted.to_multiset().count(sorted[sorted.len() - 1]) > 0);
        assert(files.contains(sorted[sorted.len() - 1]));
    }
}

/// Putting a file behind all files of lesser or equal id, and before the others, keeps a stable
/// sort.
proof fn lemma_insert_keeps_stable_sort(
    sorted: Seq<IdentifiedObjectMetadata<MonotonicId>>,
    files: Seq<IdentifiedObjectMetadata<MonotonicId>>,
    place: int,
    file: IdentifiedObjectMetadata<MonotonicId>,
)
    requires
        is_stable_sort(sorted, files),
        0 <= place <= sorted.len(),
        forall|i: int| 0 <= i < place ==> sorted[i].id.id <= file.id.id,
        forall|i: int| place <= i < sorted.len() ==> sorted[i].id.id > file.id.id,
    ensures
        is_stable_sort(sorted.insert(place, file), files.push(file)),
{
    broadcast use vstd::seq_lib::group_to_multiset_ensures;

    let grown = sorted.insert(place, file);
    assert(grown.to_multiset() =~= sorted.to_multiset().insert(file));
    assert(files.push(file).to_multiset() =~= files.to_multiset().insert(file));
    let front = sorted.take(place);
    let back = sorted.skip(place);
    assert(grown == front + seq![file] + back);
    assert(sorted == front + back);
    assert forall|id: u64| #[trigger] grown.filter(has_id(id)) == files.push(file).filter(
        has_id(id),
    ) by {
        let pred = has_id(id);
        assert(sorted.filter(pred) == files.filter(pred));
        files.lemma_filter_push(file, pred);
        Seq::filter_distributes_over_add(front, back, pred);
        Seq::filter_distributes_over_add(front + seq![file], back, pred);
        assert(front + seq![file] == front.push(file));
        front.lemma_filter_push(file, pred);
        if pred(file) {
            assert forall|i: int| 0 <= i < back.len() implies !pred(back[i]) by {
                assert(back[i] == sorted[place + i]);
            }
            back.lemma_all_neg_filter_empty(pred);
            assert(back.filter(pred) == Seq::<IdentifiedObjectMetadata<MonotonicId>>::empty());
            assert(sorted.filter(pred) == front.filter(pred));
            assert(grown.filter(pred) == front.filter(pred).push(file));
        }
    }
}

/// The objects of `listing` whose names give an id between `from` and `to`, in the order of their
/// ids.
pub fn identify(listing: Vec<ObjectMetadata>, suffix: &str, from: IdBound, to: IdBound) -> (files:
    Vec<IdentifiedObjectMetadata<MonotonicId>>)
    ensures
        is_stable_sort(files@, identified(listing@, suffix@, from, to)),
{
    let mut files: Vec<IdentifiedObjectMetadata<MonotonicId>> = Vec::new();
    let mut n: usize = 0;
    assert(listing@.take(0) == Seq::<ObjectMetadata>::empty());
    while n < listing.len()
        invariant
            n <= listing@.len(),
            is_stable_sort(files@, identified(listing@.take(n as int), suffix@, from, to)),
        decreases listing@.len() - n,
    {
        let object: &ObjectMetadata = &listing[n];
        let ghost before = identified(listing@.take(n as int), suffix@, from, to);
        assert(listing@.take(n + 1).drop_last() == listing@.take(n as int));
        match id_of_path(object.location.as_str(), suffix) {
            Some(id) => {
                if range_contains(from, to, id) {
                    let mut place: usize = files.len();
                    while place > 0 && files[place - 1].id.id > id.id
                        invariant
                            place <= files@.len(),
                            forall|i: int|
                                place <= i < files@.len() ==> files@[i].id.id > id.id,
                        decreases place,
                    {
                        place = place - 1;
                    }
                    let file = IdentifiedObjectMetadata { id, metadata: object.duplicate() };
                    proof {
                        lemma_insert_keeps_stable_sort(files@, before, place as int, file);
                    }
                    files.insert(place, file);
                }
            },
            None => {},
        }
        n = n + 1;
    }
    assert(listing@.take(n as int) == listing@);
    files
}

} // verus!
