//! Which collections are removed to make room for new ones.

use vstd::prelude::*;

use crate::ids::Uuid;

verus! {

/// A collection, and the number of errors that came up while it was made. A collection without
/// errors is complete.
#[derive(Debug, Clone, Copy, PartialEq, Eq, Structural)]
pub struct Candidate {
    pub id: Uuid,
    pub errors: i64,
}

/// The first is complete, and none of the others is.
pub open spec fn only_first_complete(candidates: Seq<Candidate>) -> bool {
    &&& candidates.len() > 0
    &&& candidates[0].errors == 0
    &&& forall|i: int| 0 < i < candidates.len() ==> (#[trigger] candidates[i]).errors != 0
}

/// The place of the collection to be removed, if one is to be: the oldest, or the next one where
/// the oldest is the only complete one.
pub open spec fn prune_position(candidates: Seq<Candidate>, nkeep: nat) -> Option<int> {
    if candidates.len() <= nkeep {
        None
    } else if !only_first_complete(candidates) {
        Some(0)
    } else if candidates.len() > 1 {
        Some(1)
    } else {
        None
    }
}

/// How many of the oldest collections have to be listed to find one to be removed: one more than are
/// kept, and two at least, so that there is another one where the oldest has to stay.
pub open spec fn listed_candidates(nkeep: nat) -> nat {
    if nkeep == 0 {
        2
    } else {
        nkeep + 1
    }
}

/// How many of the oldest collections have to be listed to find one to be removed.
pub fn candidates_limit(nkeep: u32) -> (limit: i64)
    ensures
        limit == listed_candidates(nkeep as nat),
{
    if nkeep == 0 {
        2
    } else {
        nkeep as i64 + 1
    }
}

/// Finds the collection to be removed next, where the candidates are as many of the oldest
/// collections as have to be listed, oldest first.
pub fn find_pruneable(candidates: &Vec<Candidate>, nkeep: u32) -> (id: Option<Uuid>)
    requires
        candidates@.len() <= u32::MAX,
    ensures
        match id {
            Some(id) => prune_position(candidates@, nkeep as nat) matches Some(k) && 0 <= k
                < candidates@.len() && candidates@[k].id == id,
            None => prune_position(candidates@, nkeep as nat) is None,
        },
{
    if candidates.len() as u32 <= nkeep {
        return None;
    }
    let mut i: usize = candidates.len();
    let mut last_complete: Option<usize> = None;
    while i > 0 && last_complete.is_none()
        invariant
            i <= candidates@.len(),
            match last_complete {
                Some(k) => k == i && k < candidates@.len() && candidates@[k as int].errors == 0
                    && forall|j: int|
                    k < j < candidates@.len() ==> (#[trigger] candidates@[j]).errors != 0,
                None => forall|j: int|
                    i <= j < candidates@.len() ==> (#[trigger] candidates@[j]).errors != 0,
            },
        decreases i,
    {
        i = i - 1;
        if candidates[i].errors == 0 {
            last_complete = Some(i);
        }
    }
    match last_complete {
        Some(0) => if candidates.len() > 1 {
            Some(candidates[1].id)
        } else {
            None
        },
        _ => Some(candidates[0].id),
    }
}

/// The candidates among all collections, oldest first.
pub open spec fn candidates_of(all: Seq<Candidate>, nkeep: nat) -> Seq<Candidate> {
    if all.len() <= listed_candidates(nkeep) {
        all
    } else {
        all.take(listed_candidates(nkeep) as int)
    }
}

/// The collections that are left when one after the other was removed.
pub open spec fn pruned(all: Seq<Candidate>, nkeep: nat) -> Seq<Candidate>
    decreases all.len(),
{
    match prune_position(candidates_of(all, nkeep), nkeep) {
        Some(k) => if 0 <= k < all.len() {
            pruned(all.remove(k), nkeep)
        } else {
            all
        },
        None => all,
    }
}

/// Some collection is complete.
pub open spec fn any_complete(all: Seq<Candidate>) -> bool {
    exists|i: int| 0 <= i < all.len() && (#[trigger] all[i]).errors == 0
}

/// Removing one collection leaves at least `nkeep`, and leaves a complete one where there was one.
proof fn removing_one(all: Seq<Candidate>, nkeep: nat)
    ensures
        prune_position(candidates_of(all, nkeep), nkeep) matches Some(k) ==> {
            &&& 0 <= k < all.len()
            &&& k <= 1
            &&& all.len() > nkeep
            &&& all.remove(k).len() >= nkeep
            &&& any_complete(all) ==> any_complete(all.remove(k))
            &&& k == 1 ==> all[0].errors == 0 && all[1].errors != 0
        },
{
    let few = candidates_of(all, nkeep);
    match prune_position(few, nkeep) {
        Some(k) => {
            let left = all.remove(k);
            if k == 1 {
                assert(few[0] == all[0] && few[1] == all[1]);
            }
            if any_complete(all) {
                if k == 1 {
                    assert(few[0] == all[0]);
                    assert(left[0] == all[0]);
                    assert(left[0].errors == 0);
                } else if few[0].errors == 0 {
                    let j = choose|j: int| 0 < j < few.len() && (#[trigger] few[j]).errors == 0;
                    assert(few[j] == all[j]);
                    assert(left[j - 1] == all[j]);
                } else {
                    let j = choose|j: int| 0 <= j < all.len() && (#[trigger] all[j]).errors == 0;
                    assert(few[0] == all[0]);
                    assert(left[j - 1] == all[j]);
                }
            }
        },
        None => {},
    }
}

/// Pruning keeps at least `nkeep` collections, and all of them where there are no more.
pub proof fn pruning_keeps_enough(all: Seq<Candidate>, nkeep: nat)
    ensures
        pruned(all, nkeep).len() >= (if all.len() < nkeep {
            all.len()
        } else {
            nkeep
        }),
        all.len() <= nkeep ==> pruned(all, nkeep) == all,
    decreases all.len(),
{
    removing_one(all, nkeep);
    match prune_position(candidates_of(all, nkeep), nkeep) {
        Some(k) => pruning_keeps_enough(all.remove(k), nkeep),
        None => {},
    }
}

/// Pruning never removes the last complete collection.
pub proof fn pruning_keeps_a_complete_collection(all: Seq<Candidate>, nkeep: nat)
    requires
        any_complete(all),
    ensures
        any_complete(pruned(all, nkeep)),
    decreases all.len(),
{
    removing_one(all, nkeep);
    match prune_position(candidates_of(all, nkeep), nkeep) {
        Some(k) => pruning_keeps_a_complete_collection(all.remove(k), nkeep),
        None => {},
    }
}

/// When pruning is done, at most `nkeep` collections are left. Where none was to be kept, one is left
/// that is complete, if there was one.
pub proof fn pruning_removes_the_rest(all: Seq<Candidate>, nkeep: nat)
    ensures
        nkeep >= 1 ==> pruned(all, nkeep).len() <= nkeep,
        nkeep == 0 && any_complete(all) ==> pruned(all, nkeep).len() == 1 && pruned(
            all,
            nkeep,
        )[0].errors == 0,
        nkeep == 0 && !any_complete(all) ==> pruned(all, nkeep).len() == 0,
{
    if all.len() <= nkeep {
        pruning_keeps_enough(all, nkeep);
    } else {
        pruning_keeps_the_newest(all, nkeep);
        if any_complete(all) {
            newest_is_complete(all);
        }
    }
}

/// The place of the newest complete collection.
pub open spec fn newest_complete(all: Seq<Candidate>) -> int
    recommends
        any_complete(all),
    decreases all.len(),
{
    if all.len() == 0 || all.last().errors == 0 {
        all.len() - 1
    } else {
        newest_complete(all.drop_last())
    }
}

/// The newest complete collection is complete, and no newer one is.
pub proof fn newest_is_complete(all: Seq<Candidate>)
    requires
        any_complete(all),
    ensures
        0 <= newest_complete(all) < all.len(),
        all[newest_complete(all)].errors == 0,
        forall|i: int|
            newest_complete(all) < i < all.len() ==> (#[trigger] all[i]).errors != 0,
    decreases all.len(),
{
    let i = choose|i: int| 0 <= i < all.len() && (#[trigger] all[i]).errors == 0;
    if all.last().errors != 0 {
        let rest = all.drop_last();
        assert(rest[i] == all[i]);
        newest_is_complete(rest);
        assert forall|k: int| newest_complete(all) < k < all.len() implies (
        #[trigger] all[k]).errors != 0 by {
            if k < rest.len() {
                assert(rest[k] == all[k]);
            }
        }
    }
}

/// The newest `n` collections.
pub open spec fn newest(all: Seq<Candidate>, n: nat) -> Seq<Candidate>
    recommends
        n <= all.len(),
{
    all.skip(all.len() - n)
}

/// What pruning leaves of more than `nkeep` collections: the newest `nkeep`, where one of these is
/// complete, or where none is at all. Else the newest complete one stays, in place of the oldest of
/// them.
pub open spec fn window(all: Seq<Candidate>, nkeep: nat) -> Seq<Candidate> {
    if any_complete(newest(all, nkeep)) || !any_complete(all) {
        newest(all, nkeep)
    } else {
        seq![all[newest_complete(all)]] + newest(
            all,
            if nkeep == 0 {
                0
            } else {
                (nkeep - 1) as nat
            },
        )
    }
}

/// Pruning starts from the oldest: the newest `nkeep` collections are kept, unless none of them is
/// complete and an older one is. Then the newest complete one is kept in place of the oldest of them.
pub proof fn pruning_keeps_the_newest(all: Seq<Candidate>, nkeep: nat)
    requires
        nkeep < all.len(),
    ensures
        pruned(all, nkeep) == window(all, nkeep),
    decreases all.len(),
{
    removing_one(all, nkeep);
    let few = candidates_of(all, nkeep);
    match prune_position(few, nkeep) {
        None => {
            // Nothing is to be kept, and the only collection is complete.
            assert(all.len() == 1 && nkeep == 0);
            assert(all[0].errors == 0);
            assert(newest(all, 0) =~= Seq::empty());
            newest_is_complete(all);
            assert(window(all, nkeep) =~= all);
        },
        Some(k) => {
            let left = all.remove(k);
            removal_keeps_the_newest(all, nkeep, k);
            if left.len() > nkeep {
                pruning_keeps_the_newest(left, nkeep);
            } else {
                pruning_keeps_enough(left, nkeep);
            }
        },
    }
}

/// Removing one collection leaves the window as it is, and leaves the window itself where there is
/// nothing else.
proof fn removal_keeps_the_newest(all: Seq<Candidate>, nkeep: nat, k: int)
    requires
        nkeep < all.len(),
        prune_position(candidates_of(all, nkeep), nkeep) == Some(k),
    ensures
        all.len() > nkeep + 1 ==> window(all.remove(k), nkeep) == window(all, nkeep),
        all.len() == nkeep + 1 ==> all.remove(k) == window(all, nkeep),
{
    removing_one(all, nkeep);
    let few = candidates_of(all, nkeep);
    let left = all.remove(k);
    let last = newest(all, nkeep);
    assert forall|i: int| 0 <= i < few.len() implies few[i] == all[i] by {}
    assert forall|i: int| 0 <= i < last.len() implies last[i] == all[all.len() - nkeep + i] by {}
    if any_complete(all) {
        newest_is_complete(all);
    }
    let c = newest_complete(all);
    if any_complete(last) {
        let i = choose|i: int| 0 <= i < last.len() && (#[trigger] last[i]).errors == 0;
        assert(all[all.len() - nkeep + i].errors == 0);
        assert(any_complete(all));
    }
    if all.len() > nkeep + 1 {
        assert(newest(left, nkeep) =~= last);
        if any_complete(left) {
            newest_is_complete(left);
            let j = newest_complete(left);
            assert(left[j] == all[if j < k {
                j
            } else {
                j + 1
            }]);
            assert(any_complete(all));
        }
        if any_complete(all) && !any_complete(last) {
            assert(c < all.len() - nkeep) by {
                if c >= all.len() - nkeep {
                    assert(last[c - (all.len() - nkeep)].errors == 0);
                }
            }
            assert(c != k) by {
                if c == k {
                    assert(k == 0);
                    assert forall|i: int| 0 < i < few.len() implies (
                    #[trigger] few[i]).errors != 0 by {
                        assert(few[i] == all[i]);
                    }
                    assert(only_first_complete(few));
                }
            }
            let d = if c < k {
                c
            } else {
                c - 1
            };
            assert(left[d] == all[c]);
            assert forall|i: int| d < i < left.len() implies (#[trigger] left[i]).errors != 0 by {
                assert(left[i] == all[if i < k {
                    i
                } else {
                    i + 1
                }]);
            }
            assert(newest_complete(left) == d);
            if nkeep >= 1 {
                assert(newest(left, (nkeep - 1) as nat) =~= newest(all, (nkeep - 1) as nat));
            } else {
                assert(newest(left, 0) =~= newest(all, 0));
            }
        }
        assert(window(left, nkeep) =~= window(all, nkeep));
    } else {
        assert(few =~= all);
        if k == 0 {
            assert(left =~= last);
            if any_complete(all) && !any_complete(last) {
                assert(c == 0) by {
                    if c > 0 {
                        assert(last[c - 1].errors == 0);
                    }
                }
                assert(only_first_complete(few));
            }
        } else {
            assert(any_complete(all)) by {
                assert(all[0].errors == 0);
            }
            assert forall|i: int| 0 < i < all.len() implies (#[trigger] all[i]).errors != 0 by {
                assert(few[i] == all[i]);
            }
            assert(c == 0);
            assert(!any_complete(last));
            assert(window(all, nkeep) =~= left);
        }
    }
}

/// As many of the oldest collections are listed as are kept, and one more, and two at least. The
/// collection that is removed is the oldest of these, unless that is the only complete one among
/// them: then it is the one after it, if there is one. None is removed where no more are listed
/// than are kept.
pub proof fn the_oldest_is_removed_first(candidates: Seq<Candidate>, nkeep: nat)
    ensures
        listed_candidates(nkeep) >= nkeep + 1,
        listed_candidates(nkeep) >= 2,
        listed_candidates(nkeep) == nkeep + 1 || listed_candidates(nkeep) == 2,
        candidates.len() <= nkeep ==> prune_position(candidates, nkeep) is None,
        candidates.len() > nkeep && candidates[0].errors != 0 ==> prune_position(candidates, nkeep)
            == Some(0int),
        forall|i: int|
            0 < i < candidates.len() && candidates.len() > nkeep && (
            #[trigger] candidates[i]).errors == 0 ==> prune_position(candidates, nkeep) == Some(
                0int,
            ),
        candidates.len() > nkeep && candidates[0].errors == 0 && (forall|i: int|
            0 < i < candidates.len() ==> (#[trigger] candidates[i]).errors != 0) ==> prune_position(
            candidates,
            nkeep,
        ) == (if candidates.len() > 1 {
            Some(1int)
        } else {
            None
        }),
{
}

} // verus!
