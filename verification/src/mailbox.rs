//! The well-known mailboxes of an account, and lists of mailbox ids.

use vstd::prelude::*;

verus! {

pub const INBOX_ID: u32 = 0;

pub const TRASH_ID: u32 = 1;

pub const JUNK_ID: u32 = 2;

pub const DRAFTS_ID: u32 = 3;

pub const SENT_ID: u32 = 4;

pub const ARCHIVE_ID: u32 = 5;

/// Whether no id stands twice in `ids`.
pub open spec fn distinct(ids: Seq<u32>) -> bool {
    forall|i: int, j: int| 0 <= i < j < ids.len() ==> ids[i] != ids[j]
}

/// `ids` with `id` at the end, unless it is there already.
pub open spec fn with_id(ids: Seq<u32>, id: u32) -> Seq<u32> {
    if ids.contains(id) {
        ids
    } else {
        ids.push(id)
    }
}

/// `ids` with each of `more` that it lacks, in the order of `more`.
pub open spec fn with_ids(ids: Seq<u32>, more: Seq<u32>) -> Seq<u32>
    decreases more.len(),
{
    if more.len() == 0 {
        ids
    } else {
        with_id(with_ids(ids, more.drop_last()), more.last())
    }
}

/// `ids` without any `id`, the others in their order.
pub open spec fn without_id(ids: Seq<u32>, id: u32) -> Seq<u32>
    decreases ids.len(),
{
    if ids.len() == 0 {
        ids
    } else if ids.last() == id {
        without_id(ids.drop_last(), id)
    } else {
        without_id(ids.drop_last(), id).push(ids.last())
    }
}

/// What `without_id` holds: each id of `ids` but `id`.
pub proof fn lemma_without_id(ids: Seq<u32>, id: u32)
    ensures
        !without_id(ids, id).contains(id),
        forall|x: u32| x != id ==> (without_id(ids, id).contains(x) <==> ids.contains(x)),
        without_id(ids, id).len() <= ids.len(),
        distinct(ids) ==> distinct(without_id(ids, id)),
        !ids.contains(id) ==> without_id(ids, id) == ids,
    decreases ids.len(),
{
    if ids.len() > 0 {
        let front = ids.drop_last();
        lemma_without_id(front, id);
        let rest = without_id(front, id);
        assert(ids == front.push(ids.last()));
        assert forall|x: u32| x != id implies (without_id(ids, id).contains(x) <==> ids.contains(
            x,
        )) by {
            if ids.contains(x) {
                let k = choose|k: int| 0 <= k < ids.len() && ids[k] == x;
                if k < front.len() {
                    assert(front[k] == x);
                    assert(front.contains(x));
                    assert(rest.contains(x));
                    let m = choose|m: int| 0 <= m < rest.len() && rest[m] == x;
                    assert(without_id(ids, id)[m] == x);
                } else {
                    assert(ids.last() == x);
                    assert(without_id(ids, id).last() == x);
                }
            }
            if without_id(ids, id).contains(x) {
                let m = choose|m: int| 0 <= m < without_id(ids, id).len() && without_id(ids, id)[m]
                    == x;
                if m < rest.len() {
                    assert(rest[m] == x);
                    assert(front.contains(x));
                    let k = choose|k: int| 0 <= k < front.len() && front[k] == x;
                    assert(ids[k] == x);
                } else {
                    assert(ids[ids.len() - 1] == x);
                }
            }
        }
        if without_id(ids, id).contains(id) {
            let m = choose|m: int| 0 <= m < without_id(ids, id).len() && without_id(ids, id)[m]
                == id;
            if m < rest.len() {
                assert(rest[m] == id);
            }
        }
        if distinct(ids) {
            assert forall|i: int, j: int| 0 <= i < j < front.len() implies front[i] != front[j] by {
                assert(front[i] == ids[i] && front[j] == ids[j]);
            }
            if ids.last() != id {
                assert forall|i: int, j: int|
                    0 <= i < j < without_id(ids, id).len() implies without_id(ids, id)[i]
                    != without_id(ids, id)[j] by {
                    if j == rest.len() {
                        assert(rest[i] == without_id(ids, id)[i]);
                        assert(rest.contains(rest[i]));
                        assert(front.contains(rest[i]));
                        let k = choose|k: int| 0 <= k < front.len() && front[k] == rest[i];
                        assert(ids[k] != ids[ids.len() - 1]);
                    } else {
                        assert(rest[i] != rest[j]);
                    }
                }
            }
        }
        if !ids.contains(id) {
            assert(ids[ids.len() - 1] != id);
            assert forall|k: int| 0 <= k < front.len() implies front[k] != id by {
                assert(ids[k] == front[k]);
            }
            assert(!front.contains(id));
        }
    }
}

/// Adding an id keeps a list free of repeats.
pub proof fn lemma_with_id(ids: Seq<u32>, id: u32)
    ensures
        with_id(ids, id).contains(id),
        forall|x: u32| with_id(ids, id).contains(x) <==> ids.contains(x) || x == id,
        distinct(ids) ==> distinct(with_id(ids, id)),
{
    let out = with_id(ids, id);
    if !ids.contains(id) {
        assert(out[ids.len() as int] == id);
        assert forall|x: u32| out.contains(x) <==> ids.contains(x) || x == id by {
            if ids.contains(x) {
                let k = choose|k: int| 0 <= k < ids.len() && ids[k] == x;
                assert(out[k] == x);
            }
            if out.contains(x) {
                let k = choose|k: int| 0 <= k < out.len() && out[k] == x;
                if k < ids.len() {
                    assert(ids[k] == x);
                }
            }
        }
        if distinct(ids) {
            assert forall|i: int, j: int| 0 <= i < j < out.len() implies out[i] != out[j] by {
                if j == ids.len() {
                    assert(ids.contains(ids[i]));
                }
            }
        }
    }
}

/// Whether `id` stands in `ids`.
pub fn has_id(ids: &Vec<u32>, id: u32) -> (r: bool)
    ensures
        r == ids@.contains(id),
{
    let mut i: usize = 0;
    while i < ids.len()
        invariant
            i <= ids@.len(),
            forall|k: int| 0 <= k < i ==> ids@[k] != id,
        decreases ids@.len() - i,
    {
        if ids[i] == id {
            return true;
        }
        i += 1;
    }
    false
}

/// Adds `id` to `ids` unless it is there.
pub fn add_id(ids: &mut Vec<u32>, id: u32)
    ensures
        final(ids)@ == with_id(old(ids)@, id),
{
    if !has_id(ids, id) {
        ids.push(id);
    }
}

/// Adds each of `more` that `ids` lacks.
pub fn add_ids(ids: &mut Vec<u32>, more: &Vec<u32>)
    ensures
        final(ids)@ == with_ids(old(ids)@, more@),
{
    let mut i: usize = 0;
    assert(more@.take(0) == Seq::<u32>::empty());
    while i < more.len()
        invariant
            i <= more@.len(),
            ids@ == with_ids(old(ids)@, more@.take(i as int)),
        decreases more@.len() - i,
    {
        assert(more@.take(i + 1).drop_last() == more@.take(i as int));
        add_id(ids, more[i]);
        i += 1;
    }
    assert(more@.take(more@.len() as int) == more@);
}

/// Takes every `id` out of `ids`.
pub fn remove_id(ids: &mut Vec<u32>, id: u32)
    ensures
        final(ids)@ == without_id(old(ids)@, id),
{
    let mut kept: Vec<u32> = Vec::new();
    let mut i: usize = 0;
    assert(ids@.take(0) == Seq::<u32>::empty());
    while i < ids.len()
        invariant
            i <= ids@.len(),
            ids@ == old(ids)@,
            kept@ == without_id(ids@.take(i as int), id),
        decreases ids@.len() - i,
    {
        assert(ids@.take(i + 1).drop_last() == ids@.take(i as int));
        if ids[i] != id {
            kept.push(ids[i]);
        }
        i += 1;
    }
    assert(ids@.take(ids@.len() as int) == ids@);
    *ids = kept;
}

} // verus!
