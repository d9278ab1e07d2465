//! A collection that is stored stays as it is, whatever is inserted and deleted beside it.

use vstd::prelude::*;

use crate::ids::Uuid;
use crate::inventory::database::{
    answers, answers_by_id, deletion_leaves_others, new_cabooses, new_hardware, new_rot_pages,
    Database,
};
use crate::inventory::read::{assembled, hardware_ids, limit_reached, CollectionReplies};
use crate::inventory::roundtrip::{
    consistent, finite, fresh_ids, inserted_and_read, inserted_collection_reads_back,
    inserted_references_are_stored, insertion_keeps_the_database_well_formed,
    insertion_leaves_other_rows, same_collection,
};
use crate::inventory::rows::{
    rows_of, CollectionRows, InvCaboose, InvCollection, InvCollectionError, InvOmicronZone,
    InvOmicronZoneNic, InvRootOfTrust, InvRotPage, InvServiceProcessor, InvSledAgent,
    InvSledOmicronZones, MAX_ERRORS,
};
use crate::inventory::types::CollectionView;

verus! {

/// Two tables with the same matching rows give the same answers.
proof fn answers_alike<R>(
    reply: Seq<R>,
    a: Set<R>,
    b: Set<R>,
    matching: spec_fn(R) -> bool,
    limit: nat,
)
    requires
        forall|r: R| matching(r) ==> (#[trigger] a.contains(r) <==> b.contains(r)),
    ensures
        answers(reply, a, matching, limit) <==> answers(reply, b, matching, limit),
{
    assert forall|r: R| matching(r) implies (a.contains(r) <==> #[trigger] b.contains(r)) by {
        let there = a.contains(r);
    }
}

/// A table that has grown gives the same answers on the ids that were there before.
proof fn answers_by_id_alike<T>(
    reply: Seq<(Uuid, T)>,
    a: Map<Uuid, T>,
    b: Map<Uuid, T>,
    ids: Set<Uuid>,
    limit: nat,
)
    requires
        a.submap_of(b),
        forall|id: Uuid| #[trigger] ids.contains(id) ==> a.contains_key(id),
    ensures
        answers_by_id(reply, a, ids, limit) <==> answers_by_id(reply, b, ids, limit),
{
    assert forall|id: Uuid| #[trigger] ids.contains(id) implies a.contains_key(id)
        && b.contains_key(id) && a[id] == b[id] by {
        assert(a.dom().contains(id));
    }
}

/// Two databases with the same rows of a collection give the same answers to the queries for it,
/// where the one holds what those rows refer to, and the other holds at least as much.
proof fn same_rows_give_the_same(
    a: Database,
    b: Database,
    id: Uuid,
    limit: u32,
    replies: CollectionReplies,
)
    requires
        a.same_rows(b, id),
        a.keeps_contents(b),
        a.references_stored(id),
    ensures
        b.references_stored(id),
        b.gives(id, limit, replies) <==> a.gives(id, limit, replies),
{
    let n = limit as nat;
    references_are_kept(a, b, id);
    answers_alike(
        replies.collections@,
        a.collections,
        b.collections,
        |r: InvCollection| r.id == id,
        2,
    );
    answers_alike(
        replies.errors@,
        a.errors,
        b.errors,
        |r: InvCollectionError| r.inv_collection_id == id,
        n,
    );
    answers_alike(
        replies.sps@,
        a.sps,
        b.sps,
        |r: InvServiceProcessor| r.inv_collection_id == id,
        n,
    );
    answers_alike(
        replies.rots@,
        a.rots,
        b.rots,
        |r: InvRootOfTrust| r.inv_collection_id == id,
        n,
    );
    answers_alike(
        replies.cabooses_found@,
        a.cabooses,
        b.cabooses,
        |r: InvCaboose| r.inv_collection_id == id,
        n,
    );
    answers_alike(
        replies.rot_pages_found@,
        a.rot_pages,
        b.rot_pages,
        |r: InvRotPage| r.inv_collection_id == id,
        n,
    );
    answers_alike(
        replies.sled_agents@,
        a.sled_agents,
        b.sled_agents,
        |r: InvSledAgent| r.inv_collection_id == id,
        n,
    );
    answers_alike(
        replies.sled_omicron_zones@,
        a.sled_zones,
        b.sled_zones,
        |r: InvSledOmicronZones| r.inv_collection_id == id,
        n,
    );
    answers_alike(
        replies.omicron_zones@,
        a.zones,
        b.zones,
        |r: InvOmicronZone| r.inv_collection_id == id,
        n,
    );
    answers_alike(
        replies.omicron_zone_nics@,
        a.nics,
        b.nics,
        |r: InvOmicronZoneNic| r.inv_collection_id == id,
        n,
    );
    let sps = replies.sps@;
    let rots = replies.rots@;
    let agents = replies.sled_agents@;
    if answers(sps, a.sps, |r: InvServiceProcessor| r.inv_collection_id == id, n) && answers(
        rots,
        a.rots,
        |r: InvRootOfTrust| r.inv_collection_id == id,
        n,
    ) && answers(agents, a.sled_agents, |r: InvSledAgent| r.inv_collection_id == id, n) {
        let ids = hardware_ids(sps, rots, agents);
        assert forall|h: Uuid| #[trigger] ids.contains(h) implies a.hw_baseboards.contains_key(h) by {
        }
        answers_by_id_alike(
            new_hardware(replies.baseboards@),
            a.hw_baseboards,
            b.hw_baseboards,
            ids,
            n,
        );
    }
    let cabooses = replies.cabooses_found@;
    if answers(cabooses, a.cabooses, |r: InvCaboose| r.inv_collection_id == id, n) {
        let used = cabooses.map_values(|r: InvCaboose| r.sw_caboose_id);
        assert forall|x: Uuid| #[trigger] used.to_set().contains(x) implies
            a.sw_cabooses.contains_key(x) by {
            let i = used.index_of(x);
            assert(a.cabooses.contains(cabooses[i]));
        }
        answers_by_id_alike(
            new_cabooses(replies.cabooses@),
            a.sw_cabooses,
            b.sw_cabooses,
            used.to_set(),
            n,
        );
    }
    let pages = replies.rot_pages_found@;
    if answers(pages, a.rot_pages, |r: InvRotPage| r.inv_collection_id == id, n) {
        let used = pages.map_values(|r: InvRotPage| r.sw_root_of_trust_page_id);
        assert forall|x: Uuid| #[trigger] used.to_set().contains(x) implies
            a.sw_rot_pages.contains_key(x) by {
            let i = used.index_of(x);
            assert(a.rot_pages.contains(pages[i]));
        }
        answers_by_id_alike(
            new_rot_pages(replies.rot_pages@),
            a.sw_rot_pages,
            b.sw_rot_pages,
            used.to_set(),
            n,
        );
    }
}

/// What the rows of a collection refer to stays stored where the rows stay and no hardware, image or
/// page goes.
proof fn references_are_kept(a: Database, b: Database, id: Uuid)
    requires
        a.same_rows(b, id),
        a.keeps_contents(b),
        a.references_stored(id),
    ensures
        b.references_stored(id),
{
    assert(forall|h: Uuid| a.hw_baseboards.dom().contains(h) ==> b.hw_baseboards.dom().contains(h));
    assert(forall|h: Uuid| a.sw_cabooses.dom().contains(h) ==> b.sw_cabooses.dom().contains(h));
    assert(forall|h: Uuid| a.sw_rot_pages.dom().contains(h) ==> b.sw_rot_pages.dom().contains(h));
    assert forall|r: InvServiceProcessor| #[trigger]
        b.sps.contains(r) && r.inv_collection_id == id implies b.hw_baseboards.contains_key(
        r.hw_baseboard_id,
    ) by {
        assert(a.sps.contains(r));
    }
    assert forall|r: InvRootOfTrust| #[trigger]
        b.rots.contains(r) && r.inv_collection_id == id implies b.hw_baseboards.contains_key(
        r.hw_baseboard_id,
    ) by {
        assert(a.rots.contains(r));
    }
    assert forall|r: InvSledAgent| #[trigger]
        b.sled_agents.contains(r) && r.inv_collection_id == id implies (
    r.hw_baseboard_id matches Some(h) ==> b.hw_baseboards.contains_key(h)) by {
        assert(a.sled_agents.contains(r));
    }
    assert forall|r: InvCaboose| #[trigger]
        b.cabooses.contains(r) && r.inv_collection_id == id implies b.hw_baseboards.contains_key(
        r.hw_baseboard_id,
    ) && b.sw_cabooses.contains_key(r.sw_caboose_id) by {
        assert(a.cabooses.contains(r));
    }
    assert forall|r: InvRotPage| #[trigger]
        b.rot_pages.contains(r) && r.inv_collection_id == id implies b.hw_baseboards.contains_key(
        r.hw_baseboard_id,
    ) && b.sw_rot_pages.contains_key(r.sw_root_of_trust_page_id) by {
        assert(a.rot_pages.contains(r));
    }
}

/// Inserting a collection leaves every other one as it was: the same queries get the same answers.
pub proof fn storing_another_leaves_it(
    db: Database,
    rows: CollectionRows,
    c: CollectionView,
    other: Uuid,
    limit: u32,
    replies: CollectionReplies,
)
    requires
        rows_of(rows, c),
        other != c.id,
        db.references_stored(other),
    ensures
        db.with_rows(rows).references_stored(other),
        db.with_rows(rows).gives(other, limit, replies) <==> db.gives(other, limit, replies),
{
    insertion_leaves_other_rows(db, rows, c, other);
    same_rows_give_the_same(db, db.with_rows(rows), other, limit, replies);
}

/// Deleting a collection keeps the database well formed.
pub proof fn deletion_keeps_the_database_well_formed(db: Database, id: Uuid)
    requires
        db.well_formed(),
    ensures
        db.without(id).well_formed(),
        !db.without(id).has_collection(id),
{
    let db2 = db.without(id);
    assert forall|x: Uuid| !db2.has_collection(x) implies #[trigger] db2.nothing_of(x) by {
        if x != id {
            assert(!db.has_collection(x)) by {
                if db.has_collection(x) {
                    let r = choose|r: InvCollection|
                        #[trigger] db.collections.contains(r) && r.id == x;
                    assert(db2.collections.contains(r));
                }
            }
            assert(db.nothing_of(x));
        }
    }
}

/// Deleting a collection keeps what the rows of every other one refer to.
pub proof fn deleting_another_keeps_references(db: Database, id: Uuid, other: Uuid)
    requires
        db.references_stored(other),
    ensures
        db.without(id).references_stored(other),
{
}

/// The one database comes from the other by inserting a collection that is not the given one.
pub open spec fn inserts_another(before: Database, after: Database, id: Uuid) -> bool {
    exists|rows: CollectionRows, c: CollectionView|
        {
            &&& #[trigger] rows_of(rows, c)
            &&& c.id != id
            &&& finite(c)
            &&& fresh_ids(before, rows)
            &&& before.insert(rows) == Some(after)
        }
}

/// The one database comes from the other by deleting a collection that is not the given one.
pub open spec fn deletes_another(before: Database, after: Database, id: Uuid) -> bool {
    exists|x: Uuid| x != id && after == #[trigger] before.without(x)
}

/// The state after this one comes from it by inserting or deleting a collection that is not the
/// given one.
pub open spec fn is_beside(states: Seq<Database>, i: int, id: Uuid) -> bool {
    ||| inserts_another(states[i], states[i + 1], id)
    ||| deletes_another(states[i], states[i + 1], id)
}

/// The states that a database goes through while other collections than the given one are inserted
/// and deleted.
pub open spec fn history_beside(states: Seq<Database>, id: Uuid) -> bool {
    &&& states.len() > 0
    &&& forall|i: int| 0 <= i < states.len() - 1 ==> #[trigger] is_beside(states, i, id)
}

/// A collection that is stored stays as it is, whatever is inserted and deleted beside it: the
/// queries for it get the answers that they got before.
pub proof fn stored_collection_stays(
    states: Seq<Database>,
    id: Uuid,
    limit: u32,
    replies: CollectionReplies,
)
    requires
        history_beside(states, id),
        states[0].well_formed(),
        states[0].references_stored(id),
    ensures
        states.last().well_formed(),
        states.last().references_stored(id),
        states.last().gives(id, limit, replies) <==> states[0].gives(id, limit, replies),
    decreases states.len(),
{
    if states.len() > 1 {
        let earlier = states.drop_last();
        assert forall|i: int| 0 <= i < earlier.len() - 1 implies #[trigger] is_beside(
            earlier,
            i,
            id,
        ) by {
            assert(is_beside(states, i, id));
        }
        stored_collection_stays(earlier, id, limit, replies);
        let i = states.len() - 2;
        let before = states[i];
        let after = states.last();
        assert(is_beside(states, i, id));
        assert(before == earlier.last());
        if inserts_another(before, after, id) {
            let (rows, c) = choose|rows: CollectionRows, c: CollectionView|
                {
                    &&& #[trigger] rows_of(rows, c)
                    &&& c.id != id
                    &&& finite(c)
                    &&& fresh_ids(before, rows)
                    &&& before.insert(rows) == Some(after)
                };
            insertion_keeps_the_database_well_formed(before, rows, c);
            storing_another_leaves_it(before, rows, c, id, limit, replies);
        } else {
            let x = choose|x: Uuid| x != id && after == #[trigger] before.without(x);
            deletion_keeps_the_database_well_formed(before, x);
            deleting_another_keeps_references(before, x, id);
            deletion_leaves_others(before, x, id, limit, replies);
        }
    }
}

/// What is inserted can be read back as long as it is stored: after whatever insertions and deletions
/// of other collections, reading the collection, with a limit that is not reached, gives the
/// collection that was inserted.
pub proof fn stored_collection_reads_back(
    db: Database,
    rows: CollectionRows,
    c: CollectionView,
    states: Seq<Database>,
    limit: u32,
    replies: CollectionReplies,
)
    requires
        db.well_formed(),
        rows_of(rows, c),
        c.errors.len() <= MAX_ERRORS,
        fresh_ids(db, rows),
        consistent(c),
        finite(c),
        history_beside(states, c.id),
        db.insert(rows) == Some(states[0]),
        states.last().gives(c.id, limit, replies),
        !limit_reached(replies, limit),
    ensures
        assembled(c.id, replies) matches Ok(back) && same_collection(c, back),
{
    insertion_keeps_the_database_well_formed(db, rows, c);
    inserted_references_are_stored(db, rows, c);
    stored_collection_stays(states, c.id, limit, replies);
    assert(inserted_and_read(db, rows, c, limit, replies));
    inserted_collection_reads_back(db, rows, c, limit, replies);
}

} // verus!
