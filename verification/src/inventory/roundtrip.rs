//! Reading a collection gives back what was inserted.

use vstd::prelude::*;

use crate::ids::Uuid;
use crate::inventory::database::{
    answers, answers_by_id, distinct_contents, insert_new, new_cabooses, new_hardware,
    new_rot_pages, with_hardware, Database,
};
use crate::inventory::read::{
    agent_known, agent_of, agents_of, all_known, assembled, baseboards_by_id, by_baseboard,
    caboose_entry, cabooses_by_id, found_cabooses, found_rot_pages, hardware_ids, hardware_known,
    limit_reached, nics_by_id, placed_zones, rot_page_entry, rot_pages_by_id, rots_by_id,
    sled_without_zones, sleds_by_id, sps_by_id, zone_of, zones_found, CollectionReplies, ReadErrorView, ZonesState,
};
use crate::inventory::rows::{
    agent_entries, all_zones, caboose_entries, collection_row, error_row, known_hardware,
    nics_in_order, rot_entries, rot_page_entries, rows_of, sled_agent_row, sled_zones_row,
    sp_entries, unknown_hardware, zone_row, zones_in_order, CollectionRows, HwBaseboardId,
    InvCaboose, InvCollection, InvCollectionError, InvOmicronZone, InvOmicronZoneNic,
    InvRootOfTrust, InvRotPage, InvServiceProcessor, InvSledAgent, InvSledOmicronZones, SwCaboose,
    SwRotPage, MAX_ERRORS,
};
use crate::inventory::types::{
    BaseboardId, BaseboardIdView, Caboose, CabooseFoundView, CaboosePlace, CabooseView,
    CollectionView, OmicronZoneConfig, OmicronZonesFoundView, PlaceView, RotPage, RotPageFoundView,
    RotPagePlace, RotState, ServiceProcessor, SledAgentView, ZoneNic,
};
use crate::ordmap::{
    entries, entries_of_map, in_order, lists_keys, order_exists, order_is_unique, to_map,
    to_map_of_distinct, values, values_of_map, Key,
};

verus! {

/// The hardware on which something was found.
pub open spec fn referenced(c: CollectionView) -> Set<BaseboardIdView> {
    Set::new(
        |b: BaseboardIdView|
            {
                ||| c.sps.contains_key(b)
                ||| c.rots.contains_key(b)
                ||| exists|k: Uuid|
                    #[trigger] c.sled_agents.contains_key(k) && c.sled_agents[k].baseboard_id
                        == Some(b)
            },
    )
}

/// The collection lists exactly the hardware, the images and the pages of what was found, and each
/// sled under its own id. The address of a sled agent is an address and a port only.
pub open spec fn consistent(c: CollectionView) -> bool {
    &&& c.baseboards == referenced(c)
    &&& forall|p: PlaceView| #[trigger]
        c.cabooses_found.contains_key(p) ==> c.baseboards.contains(p.baseboard)
            && c.cabooses.contains(c.cabooses_found[p].caboose)
    &&& forall|x: CabooseView| #[trigger]
        c.cabooses.contains(x) ==> exists|p: PlaceView| #[trigger]
            c.cabooses_found.contains_key(p) && c.cabooses_found[p].caboose == x
    &&& forall|p: PlaceView| #[trigger]
        c.rot_pages_found.contains_key(p) ==> c.baseboards.contains(p.baseboard)
            && c.rot_pages.contains(c.rot_pages_found[p].page)
    &&& forall|x: Seq<char>| #[trigger]
        c.rot_pages.contains(x) ==> exists|p: PlaceView| #[trigger]
            c.rot_pages_found.contains_key(p) && c.rot_pages_found[p].page == x
    &&& forall|k: Uuid| #[trigger]
        c.sled_agents.contains_key(k) ==> c.sled_agents[k].sled_id == k
            && c.sled_agents[k].sled_agent_address.flowinfo == 0
            && c.sled_agents[k].sled_agent_address.scope_id == 0
    &&& forall|k: Uuid| #[trigger]
        c.omicron_zones.contains_key(k) ==> c.omicron_zones[k].sled_id == k
}

/// The maps and the sets of the collection are finite, as those of every collection are that is in
/// a machine's memory.
pub open spec fn finite(c: CollectionView) -> bool {
    &&& c.baseboards.finite()
    &&& c.cabooses.finite()
    &&& c.rot_pages.finite()
    &&& c.sps.dom().finite()
    &&& c.rots.dom().finite()
    &&& c.cabooses_found.dom().finite()
    &&& c.rot_pages_found.dom().finite()
    &&& c.sled_agents.dom().finite()
    &&& c.omicron_zones.dom().finite()
}

/// The ids of new rows are new, and distinct.
pub open spec fn fresh<T>(table: Map<Uuid, T>, rows: Seq<(Uuid, T)>) -> bool {
    &&& forall|i: int| 0 <= i < rows.len() ==> !table.contains_key((#[trigger] rows[i]).0)
    &&& forall|i: int, j: int|
        0 <= i < j < rows.len() ==> (#[trigger] rows[i]).0 != (#[trigger] rows[j]).0
}

/// The ids that the rows of hardware, images and pages got are new.
pub open spec fn fresh_ids(db: Database, rows: CollectionRows) -> bool {
    &&& fresh(db.hw_baseboards, new_hardware(rows.baseboards@))
    &&& fresh(db.sw_cabooses, new_cabooses(rows.cabooses@))
    &&& fresh(db.sw_rot_pages, new_rot_pages(rows.rot_pages@))
}

/// The same zones, in whatever order, and everything else alike.
pub open spec fn same_zones(a: OmicronZonesFoundView, b: OmicronZonesFoundView) -> bool {
    &&& a.time_collected == b.time_collected
    &&& a.source == b.source
    &&& a.sled_id == b.sled_id
    &&& a.generation == b.generation
    &&& a.zones.no_duplicates()
    &&& b.zones.no_duplicates()
    &&& forall|z: OmicronZoneConfig| a.zones.contains(z) <==> b.zones.contains(z)
}

/// The same collection, where the zones of a sled may be in another order.
pub open spec fn same_collection(a: CollectionView, b: CollectionView) -> bool {
    &&& a.id == b.id
    &&& a.errors == b.errors
    &&& a.time_started == b.time_started
    &&& a.time_done == b.time_done
    &&& a.collector == b.collector
    &&& a.baseboards == b.baseboards
    &&& a.cabooses == b.cabooses
    &&& a.rot_pages == b.rot_pages
    &&& a.sps == b.sps
    &&& a.rots == b.rots
    &&& a.cabooses_found == b.cabooses_found
    &&& a.rot_pages_found == b.rot_pages_found
    &&& a.sled_agents == b.sled_agents
    &&& a.omicron_zones.dom() == b.omicron_zones.dom()
    &&& forall|k: Uuid| #[trigger]
        a.omicron_zones.contains_key(k) ==> same_zones(a.omicron_zones[k], b.omicron_zones[k])
}

/// What inserting rows with new ids, unless their contents are there, makes of a table: no contents
/// are there twice, and all the contents are there.
proof fn inserted_contents<T>(table: Map<Uuid, T>, rows: Seq<(Uuid, T)>)
    requires
        distinct_contents(table),
        fresh(table, rows),
    ensures
        distinct_contents(insert_new(table, rows)),
        forall|i: int|
            0 <= i < rows.len() ==> insert_new(table, rows).contains_value((#[trigger] rows[i]).1),
        forall|id: Uuid|
            insert_new(table, rows).contains_key(id) ==> table.contains_key(id) || exists|i: int|
                0 <= i < rows.len() && (#[trigger] rows[i]).0 == id,
    decreases rows.len(),
{
    if rows.len() > 0 {
        let rest = rows.drop_last();
        assert forall|i: int| 0 <= i < rest.len() implies !table.contains_key(
            (#[trigger] rest[i]).0,
        ) by {
            assert(rest[i] == rows[i]);
        }
        assert forall|i: int, j: int| 0 <= i < j < rest.len() implies (#[trigger] rest[i]).0 != (
        #[trigger] rest[j]).0 by {
            assert(rest[i] == rows[i] && rest[j] == rows[j]);
        }
        inserted_contents(table, rest);
        let before = insert_new(table, rest);
        let after = insert_new(table, rows);
        let (id, contents) = rows.last();
        assert(rows[rows.len() - 1] == (id, contents));
        if before.contains_key(id) {
            let i = choose|i: int| 0 <= i < rest.len() && (#[trigger] rest[i]).0 == id;
            assert(rows[i].0 == rows[rows.len() - 1].0);
        }
        if !before.contains_value(contents) {
            assert(after == before.insert(id, contents));
            assert(after.dom().contains(id));
            assert forall|a: Uuid, b: Uuid|
                #![trigger after[a], after[b]]
                after.contains_key(a) && after.contains_key(b) && after[a] == after[b] implies a
                == b by {
                if a == id && b != id {
                    assert(before.dom().contains(b) && before[b] == contents);
                }
                if b == id && a != id {
                    assert(before.dom().contains(a) && before[a] == contents);
                }
                if a != id && b != id {
                    assert(before[a] == before[b]);
                }
            }
        }
        assert forall|i: int| 0 <= i < rows.len() implies after.contains_value(
            (#[trigger] rows[i]).1,
        ) by {
            if i < rest.len() {
                assert(rest[i] == rows[i]);
                assert(before.contains_value(rest[i].1));
                let k = choose|k: Uuid|
                    #[trigger] before.dom().contains(k) && before[k] == rest[i].1;
                assert(after.dom().contains(k) && after[k] == rest[i].1);
            }
        }
        assert forall|k: Uuid| after.contains_key(k) implies table.contains_key(k) || exists|i: int|
            0 <= i < rows.len() && (#[trigger] rows[i]).0 == k by {
            if k == id {
                assert(rows[rows.len() - 1].0 == k);
            } else if !table.contains_key(k) {
                let i = choose|i: int| 0 <= i < rest.len() && (#[trigger] rest[i]).0 == k;
                assert(rows[i].0 == k);
            }
        }
    }
}

/// A reply by ids, where the limit was not reached, is the table on those ids.
proof fn reply_by_id<T>(reply: Seq<(Uuid, T)>, table: Map<Uuid, T>, ids: Set<Uuid>, limit: nat)
    requires
        answers_by_id(reply, table, ids, limit),
        to_map(reply).len() != limit,
    ensures
        forall|id: Uuid|
            #[trigger] to_map(reply).contains_key(id) <==> ids.contains(id) && table.contains_key(
                id,
            ),
        forall|id: Uuid| #[trigger]
            to_map(reply).contains_key(id) ==> to_map(reply)[id] == table[id],
        to_map(reply).dom().finite(),
{
    to_map_of_distinct(reply);
    let m = to_map(reply);
    assert forall|id: Uuid| #[trigger] m.contains_key(id) <==> ids.contains(id)
        && table.contains_key(id) by {
        if m.contains_key(id) {
            let i = choose|i: int| 0 <= i < reply.len() && (#[trigger] reply[i]).0 == id;
            assert(ids.contains(reply[i].0));
        }
        if ids.contains(id) && table.contains_key(id) {
            let i = choose|i: int| 0 <= i < reply.len() && (#[trigger] reply[i]).0 == id;
            assert(m.contains_key(reply[i].0));
        }
    }
    assert forall|id: Uuid| #[trigger] m.contains_key(id) implies m[id] == table[id] by {
        let i = choose|i: int| 0 <= i < reply.len() && (#[trigger] reply[i]).0 == id;
        assert(m[reply[i].0] == reply[i].1);
    }
}

/// Replacing ids by distinct hardware keeps the entries.
proof fn renamed<V>(m: Map<Uuid, V>, known: Map<Uuid, BaseboardIdView>)
    requires
        m.dom().finite(),
        all_known(m, known),
        distinct_contents(known),
    ensures
        forall|h: Uuid| #[trigger]
            m.contains_key(h) ==> by_baseboard(m, known).contains_key(known[h]) && by_baseboard(
                m,
                known,
            )[known[h]] == m[h],
        forall|b: BaseboardIdView| #[trigger]
            by_baseboard(m, known).contains_key(b) ==> exists|h: Uuid| #[trigger]
                m.contains_key(h) && known[h] == b,
{
    entries_of_map::<Uuid, V>(m);
    let e = entries::<Uuid, V>(m);
    let p = e.map_values(|e: (Uuid, V)| (known[e.0], e.1));
    assert forall|i: int, j: int| 0 <= i < j < p.len() implies (#[trigger] p[i]).0 != (
    #[trigger] p[j]).0 by {
        assert(m.contains_key(e[i].0) && m.contains_key(e[j].0));
        assert(e[i].0 != e[j].0);
        assert(known.contains_key(e[i].0) && known.contains_key(e[j].0));
        assert(p[i].0 == known[e[i].0] && p[j].0 == known[e[j].0]);
    }
    to_map_of_distinct(p);
    assert forall|h: Uuid| #[trigger] m.contains_key(h) implies by_baseboard(m, known).contains_key(
        known[h],
    ) && by_baseboard(m, known)[known[h]] == m[h] by {
        let i = choose|i: int| 0 <= i < e.len() && #[trigger] e[i] == (h, m[h]);
        assert(p[i] == (known[h], m[h]));
    }
    assert forall|b: BaseboardIdView| #[trigger] by_baseboard(m, known).contains_key(b) implies
        exists|h: Uuid| #[trigger] m.contains_key(h) && known[h] == b by {
        let i = choose|i: int| 0 <= i < p.len() && (#[trigger] p[i]).0 == b;
        assert(m.contains_key(e[i].0) && known[e[i].0] == b);
    }
}

/// A reply, where the limit was not reached, is the wanted map: each matching row has a key and a
/// value, is determined by them, and is in the table where the map has them.
proof fn keyed_reply<R, V>(
    reply: Seq<R>,
    table: Set<R>,
    matching: spec_fn(R) -> bool,
    limit: nat,
    key: spec_fn(R) -> Uuid,
    val: spec_fn(R) -> V,
    want: Map<Uuid, V>,
)
    requires
        answers(reply, table, matching, limit),
        forall|r: R|
            matching(r) ==> (#[trigger] table.contains(r) <==> want.contains_key(key(r))
                && want[key(r)] == val(r)),
        forall|a: R, b: R|
            #![trigger key(a), key(b)]
            matching(a) && matching(b) && key(a) == key(b) && val(a) == val(b) ==> a == b,
        forall|k: Uuid| #[trigger]
            want.contains_key(k) ==> exists|r: R| #[trigger]
                matching(r) && key(r) == k && val(r) == want[k],
        reply.len() != limit || to_map(reply.map_values(|r: R| (key(r), val(r)))).len() != limit,
    ensures
        to_map(reply.map_values(|r: R| (key(r), val(r)))) == want,
        want.dom().finite(),
        reply.len() == want.len(),
        forall|k: Uuid| #[trigger]
            want.contains_key(k) ==> exists|i: int|
                0 <= i < reply.len() && key(#[trigger] reply[i]) == k,
        forall|i: int|
            0 <= i < reply.len() ==> want.contains_key(key(#[trigger] reply[i])) && want[key(
                reply[i],
            )] == val(reply[i]),
        forall|i: int, j: int|
            0 <= i < j < reply.len() ==> key(#[trigger] reply[i]) != key(#[trigger] reply[j]),
{
    let p = reply.map_values(|r: R| (key(r), val(r)));
    assert forall|i: int| 0 <= i < reply.len() implies want.contains_key(key(#[trigger] reply[i]))
        && want[key(reply[i])] == val(reply[i]) by {
        assert(table.contains(reply[i]));
    }
    assert forall|i: int, j: int| 0 <= i < j < reply.len() implies key(#[trigger] reply[i]) != key(
        #[trigger] reply[j],
    ) by {
        if key(reply[i]) == key(reply[j]) {
            assert(val(reply[i]) == val(reply[j]));
            assert(reply[i] == reply[j]);
        }
    }
    assert forall|i: int, j: int| 0 <= i < j < p.len() implies (#[trigger] p[i]).0 != (
    #[trigger] p[j]).0 by {
        assert(key(reply[i]) != key(reply[j]));
    }
    to_map_of_distinct(p);
    let m = to_map(p);
    assert(reply.len() < limit);
    assert forall|k: Uuid| #[trigger] want.contains_key(k) implies exists|i: int|
        0 <= i < reply.len() && key(#[trigger] reply[i]) == k by {
        let r = choose|r: R| #[trigger] matching(r) && key(r) == k && val(r) == want[k];
        assert(table.contains(r));
        assert(reply.contains(r));
        let i = reply.index_of(r);
        assert(key(reply[i]) == k);
    }
    assert forall|k: Uuid| m.contains_key(k) <==> want.contains_key(k) by {
        if m.contains_key(k) {
            let i = choose|i: int| 0 <= i < p.len() && (#[trigger] p[i]).0 == k;
            assert(want.contains_key(key(reply[i])));
        }
        if want.contains_key(k) {
            let i = choose|i: int| 0 <= i < reply.len() && key(#[trigger] reply[i]) == k;
            assert(p[i].0 == k);
        }
    }
    assert forall|k: Uuid| m.contains_key(k) implies m[k] == want[k] by {
        let i = choose|i: int| 0 <= i < p.len() && (#[trigger] p[i]).0 == k;
        assert(m[p[i].0] == p[i].1);
        assert(want[key(reply[i])] == val(reply[i]));
    }
    assert(m =~= want);
}

/// What stands in the table for each id of hardware on which something was found.
spec fn on_hardware<V>(found: Map<BaseboardIdView, V>, hw: Map<Uuid, BaseboardIdView>) -> Map<
    Uuid,
    V,
> {
    Map::new(
        |h: Uuid| hw.contains_key(h) && found.contains_key(hw[h]),
        |h: Uuid| found[hw[h]],
    )
}

proof fn sps_reply(
    db: Database,
    rows: CollectionRows,
    c: CollectionView,
    limit: nat,
    reply: Seq<InvServiceProcessor>,
)
    requires
        rows_of(rows, c),
        c.sps.dom().finite(),
        db.nothing_of(c.id),
        answers(
            reply,
            db.with_rows(rows).sps,
            |r: InvServiceProcessor| r.inv_collection_id == c.id,
            limit,
        ),
        sps_by_id(reply).len() != limit,
    ensures
        ({
            let want = on_hardware(c.sps, db.with_rows(rows).hw_baseboards);
            &&& sps_by_id(reply) == want
            &&& want.dom().finite()
            &&& forall|h: Uuid|
                want.contains_key(h) <==> exists|i: int|
                    0 <= i < reply.len() && (#[trigger] reply[i]).hw_baseboard_id == h
        }),
{
    let id = c.id;
    let db2 = db.with_rows(rows);
    let hw = db2.hw_baseboards;
    let want = on_hardware(c.sps, hw);
    let matching = |r: InvServiceProcessor| r.inv_collection_id == id;
    let key = |r: InvServiceProcessor| r.hw_baseboard_id;
    let val = |r: InvServiceProcessor| r.sp;
    entries_of_map::<BaseboardId, ServiceProcessor>(c.sps);
    let e = entries::<BaseboardId, ServiceProcessor>(c.sps);
    assert forall|r: InvServiceProcessor| matching(r) implies (#[trigger] db2.sps.contains(r)
        <==> want.contains_key(key(r)) && want[key(r)] == val(r)) by {
        if db2.sps.contains(r) {
            assert(!db.sps.contains(r));
            let i = choose|i: int|
                0 <= i < rows.sps@.len() && (#[trigger] rows.sps@[i]).baseboard@
                    == hw[r.hw_baseboard_id] && rows.sps@[i].sp == r.sp;
            assert(sp_entries(rows.sps@)[i] == e[i]);
        }
        if want.contains_key(key(r)) && want[key(r)] == val(r) {
            let b = hw[r.hw_baseboard_id];
            let i = choose|i: int| 0 <= i < e.len() && #[trigger] e[i] == (b, c.sps[b]);
            assert(sp_entries(rows.sps@)[i] == e[i]);
            assert(rows.sps@[i].baseboard@ == b && rows.sps@[i].sp == r.sp);
        }
    }
    assert forall|k: Uuid| #[trigger] want.contains_key(k) implies exists|r: InvServiceProcessor|
        #[trigger] matching(r) && key(r) == k && val(r) == want[k] by {
        let r = InvServiceProcessor { inv_collection_id: id, hw_baseboard_id: k, sp: want[k] };
        assert(matching(r) && key(r) == k && val(r) == want[k]);
    }
    let pairs = reply.map_values(|r: InvServiceProcessor| (key(r), val(r)));
    assert(pairs =~= reply.map_values(|r: InvServiceProcessor| (r.hw_baseboard_id, r.sp)));
    keyed_reply(reply, db2.sps, matching, limit, key, val, want);
    assert forall|h: Uuid| want.contains_key(h) <==> exists|i: int|
        0 <= i < reply.len() && (#[trigger] reply[i]).hw_baseboard_id == h by {
        if want.contains_key(h) {
            let i = choose|i: int| 0 <= i < reply.len() && key(#[trigger] reply[i]) == h;
            assert(reply[i].hw_baseboard_id == h);
        }
        if exists|i: int| 0 <= i < reply.len() && (#[trigger] reply[i]).hw_baseboard_id == h {
            let i = choose|i: int|
                0 <= i < reply.len() && (#[trigger] reply[i]).hw_baseboard_id == h;
            assert(want.contains_key(key(reply[i])));
        }
    }
}

proof fn rots_reply(
    db: Database,
    rows: CollectionRows,
    c: CollectionView,
    limit: nat,
    reply: Seq<InvRootOfTrust>,
)
    requires
        rows_of(rows, c),
        c.rots.dom().finite(),
        db.nothing_of(c.id),
        answers(
            reply,
            db.with_rows(rows).rots,
            |r: InvRootOfTrust| r.inv_collection_id == c.id,
            limit,
        ),
        rots_by_id(reply).len() != limit,
    ensures
        ({
            let want = on_hardware(c.rots, db.with_rows(rows).hw_baseboards);
            &&& rots_by_id(reply) == want
            &&& want.dom().finite()
            &&& forall|h: Uuid|
                want.contains_key(h) <==> exists|i: int|
                    0 <= i < reply.len() && (#[trigger] reply[i]).hw_baseboard_id == h
        }),
{
    let id = c.id;
    let db2 = db.with_rows(rows);
    let hw = db2.hw_baseboards;
    let want = on_hardware(c.rots, hw);
    let matching = |r: InvRootOfTrust| r.inv_collection_id == id;
    let key = |r: InvRootOfTrust| r.hw_baseboard_id;
    let val = |r: InvRootOfTrust| r.rot;
    entries_of_map::<BaseboardId, RotState>(c.rots);
    let e = entries::<BaseboardId, RotState>(c.rots);
    assert forall|r: InvRootOfTrust| matching(r) implies (#[trigger] db2.rots.contains(r)
        <==> want.contains_key(key(r)) && want[key(r)] == val(r)) by {
        if db2.rots.contains(r) {
            assert(!db.rots.contains(r));
            let i = choose|i: int|
                0 <= i < rows.rots@.len() && (#[trigger] rows.rots@[i]).baseboard@
                    == hw[r.hw_baseboard_id] && rows.rots@[i].rot == r.rot;
            assert(rot_entries(rows.rots@)[i] == e[i]);
        }
        if want.contains_key(key(r)) && want[key(r)] == val(r) {
            let b = hw[r.hw_baseboard_id];
            let i = choose|i: int| 0 <= i < e.len() && #[trigger] e[i] == (b, c.rots[b]);
            assert(rot_entries(rows.rots@)[i] == e[i]);
            assert(rows.rots@[i].baseboard@ == b && rows.rots@[i].rot == r.rot);
        }
    }
    assert forall|k: Uuid| #[trigger] want.contains_key(k) implies exists|r: InvRootOfTrust|
        #[trigger] matching(r) && key(r) == k && val(r) == want[k] by {
        let r = InvRootOfTrust { inv_collection_id: id, hw_baseboard_id: k, rot: want[k] };
        assert(matching(r) && key(r) == k && val(r) == want[k]);
    }
    let pairs = reply.map_values(|r: InvRootOfTrust| (key(r), val(r)));
    assert(pairs =~= reply.map_values(|r: InvRootOfTrust| (r.hw_baseboard_id, r.rot)));
    keyed_reply(reply, db2.rots, matching, limit, key, val, want);
    assert forall|h: Uuid| want.contains_key(h) <==> exists|i: int|
        0 <= i < reply.len() && (#[trigger] reply[i]).hw_baseboard_id == h by {
        if want.contains_key(h) {
            let i = choose|i: int| 0 <= i < reply.len() && key(#[trigger] reply[i]) == h;
            assert(reply[i].hw_baseboard_id == h);
        }
        if exists|i: int| 0 <= i < reply.len() && (#[trigger] reply[i]).hw_baseboard_id == h {
            let i = choose|i: int|
                0 <= i < reply.len() && (#[trigger] reply[i]).hw_baseboard_id == h;
            assert(want.contains_key(key(reply[i])));
        }
    }
}

/// The rows of the sled agents are those of the agents, parted by whether the hardware is known.
proof fn agent_rows_are_parted(id: Uuid, agents: Seq<SledAgentView>)
    ensures
        forall|i: int|
            0 <= i < known_hardware(id, agents).len() ==> exists|j: int|
                0 <= j < agents.len() && (#[trigger] agents[j]).baseboard_id == Some(
                    (#[trigger] known_hardware(id, agents)[i]).0,
                ) && known_hardware(id, agents)[i].1 == sled_agent_row(id, agents[j], None),
        forall|j: int|
            0 <= j < agents.len() ==> ((#[trigger] agents[j]).baseboard_id matches Some(b)
                ==> known_hardware(id, agents).contains((b, sled_agent_row(id, agents[j], None)))),
        forall|i: int|
            0 <= i < unknown_hardware(id, agents).len() ==> exists|j: int|
                0 <= j < agents.len() && (#[trigger] agents[j]).baseboard_id is None
                    && #[trigger] unknown_hardware(id, agents)[i] == sled_agent_row(
                    id,
                    agents[j],
                    None,
                ),
        forall|j: int|
            0 <= j < agents.len() ==> ((#[trigger] agents[j]).baseboard_id is None
                ==> unknown_hardware(id, agents).contains(sled_agent_row(id, agents[j], None))),
    decreases agents.len(),
{
    if agents.len() > 0 {
        let rest = agents.drop_last();
        agent_rows_are_parted(id, rest);
        let last = agents.last();
        assert(agents[agents.len() - 1] == last);
        let known = known_hardware(id, agents);
        let unknown = unknown_hardware(id, agents);
        let known0 = known_hardware(id, rest);
        let unknown0 = unknown_hardware(id, rest);
        assert forall|i: int| 0 <= i < known.len() implies exists|j: int|
            0 <= j < agents.len() && (#[trigger] agents[j]).baseboard_id == Some(
                (#[trigger] known[i]).0,
            ) && known[i].1 == sled_agent_row(id, agents[j], None) by {
            if i < known0.len() {
                assert(known[i] == known0[i]);
                let j = choose|j: int|
                    0 <= j < rest.len() && (#[trigger] rest[j]).baseboard_id == Some(known0[i].0)
                        && known0[i].1 == sled_agent_row(id, rest[j], None);
                assert(agents[j] == rest[j]);
            }
        }
        assert forall|j: int| 0 <= j < agents.len() implies ((
        #[trigger] agents[j]).baseboard_id matches Some(b) ==> known.contains(
            (b, sled_agent_row(id, agents[j], None)),
        )) by {
            if agents[j].baseboard_id is Some {
                let pair = (agents[j].baseboard_id->0, sled_agent_row(id, agents[j], None));
                if j < rest.len() {
                    assert(agents[j] == rest[j]);
                    assert(known0.contains(pair));
                    let i = known0.index_of(pair);
                    assert(known[i] == pair);
                } else {
                    assert(known[known.len() - 1] == pair);
                }
            }
        }
        assert forall|i: int| 0 <= i < unknown.len() implies exists|j: int|
            0 <= j < agents.len() && (#[trigger] agents[j]).baseboard_id is None
                && #[trigger] unknown[i] == sled_agent_row(id, agents[j], None) by {
            if i < unknown0.len() {
                assert(unknown[i] == unknown0[i]);
                let j = choose|j: int|
                    0 <= j < rest.len() && (#[trigger] rest[j]).baseboard_id is None && unknown0[i]
                        == sled_agent_row(id, rest[j], None);
                assert(agents[j] == rest[j]);
            }
        }
        assert forall|j: int|
            0 <= j < agents.len() && (#[trigger] agents[j]).baseboard_id is None implies
            unknown.contains(sled_agent_row(id, agents[j], None)) by {
            let row = sled_agent_row(id, agents[j], None);
            if j < rest.len() {
                assert(agents[j] == rest[j]);
                assert(unknown0.contains(row));
                let i = unknown0.index_of(row);
                assert(unknown[i] == row);
            } else {
                assert(unknown[unknown.len() - 1] == row);
            }
        }
    }
}

/// The id of hardware in the table.
spec fn id_of<T>(table: Map<Uuid, T>, contents: T) -> Uuid {
    choose|h: Uuid| #[trigger] table.dom().contains(h) && table[h] == contents
}

/// The row that stands in the table for a sled agent.
spec fn stored_agent(id: Uuid, hw: Map<Uuid, BaseboardIdView>, agent: SledAgentView) ->
    InvSledAgent {
    sled_agent_row(
        id,
        agent,
        match agent.baseboard_id {
            Some(b) => Some(id_of(hw, b)),
            None => None,
        },
    )
}

spec fn stored_agents(c: CollectionView, hw: Map<Uuid, BaseboardIdView>) -> Map<
    Uuid,
    InvSledAgent,
> {
    Map::new(
        |k: Uuid| c.sled_agents.contains_key(k),
        |k: Uuid| stored_agent(c.id, hw, c.sled_agents[k]),
    )
}

/// All hardware of the collection is in the table.
spec fn hardware_stored(c: CollectionView, hw: Map<Uuid, BaseboardIdView>) -> bool {
    forall|b: BaseboardIdView| #[trigger] c.baseboards.contains(b) ==> hw.contains_value(b)
}

proof fn stored_agent_rows(db: Database, rows: CollectionRows, c: CollectionView, r: InvSledAgent)
    requires
        rows_of(rows, c),
        consistent(c),
        c.sled_agents.dom().finite(),
        db.nothing_of(c.id),
        distinct_contents(db.with_rows(rows).hw_baseboards),
        hardware_stored(c, db.with_rows(rows).hw_baseboards),
        r.inv_collection_id == c.id,
    ensures
        db.with_rows(rows).sled_agents.contains(r) <==> c.sled_agents.contains_key(r.sled_id)
            && stored_agent(c.id, db.with_rows(rows).hw_baseboards, c.sled_agents[r.sled_id]) == r,
{
    let id = c.id;
    let db2 = db.with_rows(rows);
    let hw = db2.hw_baseboards;
    let agents = values::<Uuid, SledAgentView>(c.sled_agents);
    values_of_map::<Uuid, SledAgentView>(c.sled_agents);
    agent_rows_are_parted(id, agents);
    let known = known_hardware(id, agents);
    let unknown = unknown_hardware(id, agents);
    if db2.sled_agents.contains(r) {
        assert(!db.sled_agents.contains(r));
        if rows.sled_agents_no_baseboards@.to_set().contains(r) {
            assert(unknown.contains(r));
            let i = unknown.index_of(r);
            let j = choose|j: int|
                0 <= j < agents.len() && (#[trigger] agents[j]).baseboard_id is None && unknown[i]
                    == sled_agent_row(id, agents[j], None);
            assert(c.sled_agents.contains_value(agents[j]));
            let k = choose|k: Uuid|
                #[trigger] c.sled_agents.dom().contains(k) && c.sled_agents[k] == agents[j];
            assert(c.sled_agents.contains_key(k));
        } else {
            let h = r.hw_baseboard_id->0;
            let n = choose|n: int|
                0 <= n < rows.sled_agents_baseboards@.len() && (
                #[trigger] rows.sled_agents_baseboards@[n]).baseboard@ == hw[h] && with_hardware(
                    rows.sled_agents_baseboards@[n].row,
                    h,
                ) == r;
            assert(agent_entries(rows.sled_agents_baseboards@)[n] == known[n]);
            let j = choose|j: int|
                0 <= j < agents.len() && (#[trigger] agents[j]).baseboard_id == Some(known[n].0)
                    && known[n].1 == sled_agent_row(id, agents[j], None);
            assert(c.sled_agents.contains_value(agents[j]));
            let k = choose|k: Uuid|
                #[trigger] c.sled_agents.dom().contains(k) && c.sled_agents[k] == agents[j];
            assert(c.sled_agents.contains_key(k));
            let b = known[n].0;
            assert(hw.dom().contains(h) && hw[h] == b);
            assert(hw.dom().contains(id_of(hw, b)) && hw[id_of(hw, b)] == b);
            assert(h == id_of(hw, b));
        }
    }
    if c.sled_agents.contains_key(r.sled_id) && stored_agent(id, hw, c.sled_agents[r.sled_id])
        == r {
        let a = c.sled_agents[r.sled_id];
        let j = choose|j: int| 0 <= j < agents.len() && #[trigger] agents[j] == a;
        match a.baseboard_id {
            None => {
                assert(agents[j].baseboard_id is None);
                assert(unknown.contains(sled_agent_row(id, agents[j], None)));
                assert(rows.sled_agents_no_baseboards@.to_set().contains(r));
            },
            Some(b) => {
                assert(referenced(c).contains(b));
                assert(hw.contains_value(b));
                let h = id_of(hw, b);
                assert(hw.dom().contains(h) && hw[h] == b);
                let pair = (b, sled_agent_row(id, agents[j], None));
                assert(agents[j].baseboard_id == Some(b));
                assert(known.contains(pair));
                let n = known.index_of(pair);
                assert(agent_entries(rows.sled_agents_baseboards@)[n] == pair);
                let new = rows.sled_agents_baseboards@[n];
                assert(new.baseboard@ == hw[h] && with_hardware(new.row, h) == r);
            },
        }
    }
}

proof fn agents_reply(
    db: Database,
    rows: CollectionRows,
    c: CollectionView,
    limit: nat,
    reply: Seq<InvSledAgent>,
)
    requires
        rows_of(rows, c),
        consistent(c),
        c.sled_agents.dom().finite(),
        db.nothing_of(c.id),
        distinct_contents(db.with_rows(rows).hw_baseboards),
        hardware_stored(c, db.with_rows(rows).hw_baseboards),
        answers(
            reply,
            db.with_rows(rows).sled_agents,
            |r: InvSledAgent| r.inv_collection_id == c.id,
            limit,
        ),
        reply.len() != limit,
    ensures
        ({
            let want = stored_agents(c, db.with_rows(rows).hw_baseboards);
            &&& forall|k: Uuid| #[trigger]
                want.contains_key(k) ==> exists|i: int|
                    0 <= i < reply.len() && (#[trigger] reply[i]).sled_id == k
            &&& forall|i: int|
                0 <= i < reply.len() ==> want.contains_key((#[trigger] reply[i]).sled_id)
                    && want[reply[i].sled_id] == reply[i]
            &&& forall|i: int, j: int|
                0 <= i < j < reply.len() ==> (#[trigger] reply[i]).sled_id != (
                #[trigger] reply[j]).sled_id
        }),
{
    let id = c.id;
    let db2 = db.with_rows(rows);
    let hw = db2.hw_baseboards;
    let want = stored_agents(c, hw);
    let matching = |r: InvSledAgent| r.inv_collection_id == id;
    let key = |r: InvSledAgent| r.sled_id;
    let val = |r: InvSledAgent| r;
    assert forall|r: InvSledAgent| matching(r) implies (#[trigger] db2.sled_agents.contains(r)
        <==> want.contains_key(key(r)) && want[key(r)] == val(r)) by {
        stored_agent_rows(db, rows, c, r);
    }
    assert forall|k: Uuid| #[trigger] want.contains_key(k) implies exists|r: InvSledAgent|
        #[trigger] matching(r) && key(r) == k && val(r) == want[k] by {
        assert(c.sled_agents.contains_key(k));
        let r = want[k];
        assert(matching(r) && key(r) == k && val(r) == want[k]);
    }
    keyed_reply(reply, db2.sled_agents, matching, limit, key, val, want);
    assert forall|k: Uuid| #[trigger] want.contains_key(k) implies exists|i: int|
        0 <= i < reply.len() && (#[trigger] reply[i]).sled_id == k by {
        let i = choose|i: int| 0 <= i < reply.len() && key(#[trigger] reply[i]) == k;
        assert(reply[i].sled_id == k);
    }
    assert forall|i: int| 0 <= i < reply.len() implies want.contains_key(
        (#[trigger] reply[i]).sled_id,
    ) && want[reply[i].sled_id] == reply[i] by {
        assert(want.contains_key(key(reply[i])));
    }
    assert forall|i: int, j: int| 0 <= i < j < reply.len() implies (#[trigger] reply[i]).sled_id
        != (#[trigger] reply[j]).sled_id by {
        assert(key(reply[i]) != key(reply[j]));
    }
}

/// A collection was inserted, and then all of its rows were read.
pub open spec fn inserted_and_read(
    db: Database,
    rows: CollectionRows,
    c: CollectionView,
    limit: u32,
    replies: CollectionReplies,
) -> bool {
    &&& db.well_formed()
    &&& rows_of(rows, c)
    &&& c.errors.len() <= MAX_ERRORS
    &&& fresh_ids(db, rows)
    &&& db.insert(rows) matches Some(after)
    &&& after.gives(c.id, limit, replies)
    &&& !limit_reached(replies, limit)
}

/// What is known of the tables of hardware, images and pages.
proof fn tables_ready(db: Database, rows: CollectionRows, c: CollectionView)
    requires
        db.well_formed(),
        rows_of(rows, c),
        fresh_ids(db, rows),
        db.accepts(rows),
        finite(c),
    ensures
        db.nothing_of(c.id),
        distinct_contents(db.with_rows(rows).hw_baseboards),
        distinct_contents(db.with_rows(rows).sw_cabooses),
        distinct_contents(db.with_rows(rows).sw_rot_pages),
        hardware_stored(c, db.with_rows(rows).hw_baseboards),
        forall|x: CabooseView| #[trigger]
            c.cabooses.contains(x) ==> db.with_rows(rows).sw_cabooses.contains_value(x),
        forall|x: Seq<char>| #[trigger]
            c.rot_pages.contains(x) ==> db.with_rows(rows).sw_rot_pages.contains_value(x),
{
    assert(!db.has_collection(c.id));
    let db2 = db.with_rows(rows);
    let hw = new_hardware(rows.baseboards@);
    inserted_contents(db.hw_baseboards, hw);
    inserted_contents(db.sw_cabooses, new_cabooses(rows.cabooses@));
    inserted_contents(db.sw_rot_pages, new_rot_pages(rows.rot_pages@));
    order_exists::<BaseboardId>(c.baseboards);
    order_exists::<Caboose>(c.cabooses);
    order_exists::<RotPage>(c.rot_pages);
    assert forall|b: BaseboardIdView| #[trigger] c.baseboards.contains(b) implies
        db2.hw_baseboards.contains_value(b) by {
        let keys = in_order::<BaseboardId>(c.baseboards);
        assert(keys.contains(b));
        let i = keys.index_of(b);
        assert(rows.baseboards@.map_values(|r: HwBaseboardId| r.baseboard@)[i] == b);
        assert(hw[i].1 == b);
    }
    assert forall|x: CabooseView| #[trigger] c.cabooses.contains(x) implies
        db2.sw_cabooses.contains_value(x) by {
        let keys = in_order::<Caboose>(c.cabooses);
        assert(keys.contains(x));
        let i = keys.index_of(x);
        assert(rows.cabooses@.map_values(|r: SwCaboose| r.caboose@)[i] == x);
        assert(new_cabooses(rows.cabooses@)[i].1 == x);
    }
    assert forall|x: Seq<char>| #[trigger] c.rot_pages.contains(x) implies
        db2.sw_rot_pages.contains_value(x) by {
        let keys = in_order::<RotPage>(c.rot_pages);
        assert(keys.contains(x));
        let i = keys.index_of(x);
        assert(rows.rot_pages@.map_values(|r: SwRotPage| r.page@)[i] == x);
        assert(new_rot_pages(rows.rot_pages@)[i].1 == x);
    }
}

/// The hardware of the collection, by its ids.
spec fn stored_hardware(c: CollectionView, hw: Map<Uuid, BaseboardIdView>) -> Map<
    Uuid,
    BaseboardIdView,
> {
    Map::new(|h: Uuid| hw.contains_key(h) && c.baseboards.contains(hw[h]), |h: Uuid| hw[h])
}

#[verifier::rlimit(50)]
proof fn hardware_comes_back(
    db: Database,
    rows: CollectionRows,
    c: CollectionView,
    limit: u32,
    replies: CollectionReplies,
)
    requires
        inserted_and_read(db, rows, c, limit, replies),
        consistent(c),
        finite(c),
    ensures
        baseboards_by_id(replies.baseboards@) == stored_hardware(
            c,
            db.with_rows(rows).hw_baseboards,
        ),
        sps_by_id(replies.sps@) == on_hardware(c.sps, db.with_rows(rows).hw_baseboards),
        rots_by_id(replies.rots@) == on_hardware(c.rots, db.with_rows(rows).hw_baseboards),
        sps_by_id(replies.sps@).dom().finite(),
        rots_by_id(replies.rots@).dom().finite(),
{
    let n = limit as nat;
    let db2 = db.with_rows(rows);
    let hw = db2.hw_baseboards;
    tables_ready(db, rows, c);
    sps_reply(db, rows, c, n, replies.sps@);
    rots_reply(db, rows, c, n, replies.rots@);
    agents_reply(db, rows, c, n, replies.sled_agents@);
    let ids = hardware_ids(replies.sps@, replies.rots@, replies.sled_agents@);
    let reply = new_hardware(replies.baseboards@);
    reply_by_id(reply, hw, ids, n);
    let known = baseboards_by_id(replies.baseboards@);
    let want = stored_hardware(c, hw);
    let agents = stored_agents(c, hw);
    assert forall|h: Uuid| hw.contains_key(h) implies (ids.contains(h) <==> c.baseboards.contains(
        hw[h],
    )) by {
        let b = hw[h];
        assert(hw.dom().contains(h));
        if ids.contains(h) {
            if exists|i: int|
                0 <= i < replies.sps@.len() && (#[trigger] replies.sps@[i]).hw_baseboard_id == h {
                assert(on_hardware(c.sps, hw).contains_key(h));
            } else if exists|i: int|
                0 <= i < replies.rots@.len() && (#[trigger] replies.rots@[i]).hw_baseboard_id == h {
                assert(on_hardware(c.rots, hw).contains_key(h));
            } else {
                let i = choose|i: int|
                    0 <= i < replies.sled_agents@.len() && (
                    #[trigger] replies.sled_agents@[i]).hw_baseboard_id == Some(h);
                let k = replies.sled_agents@[i].sled_id;
                assert(agents.contains_key(k) && agents[k] == replies.sled_agents@[i]);
                let a = c.sled_agents[k];
                assert(a.baseboard_id is Some);
                let x = a.baseboard_id->0;
                assert(referenced(c).contains(x));
                assert(hw.contains_value(x));
                assert(hw.dom().contains(id_of(hw, x)) && hw[id_of(hw, x)] == x);
                assert(h == id_of(hw, x));
            }
            assert(referenced(c).contains(b));
        }
        if c.baseboards.contains(b) {
            assert(referenced(c).contains(b));
            if c.sps.contains_key(b) {
                assert(on_hardware(c.sps, hw).contains_key(h));
            } else if c.rots.contains_key(b) {
                assert(on_hardware(c.rots, hw).contains_key(h));
            } else {
                let k = choose|k: Uuid|
                    #[trigger] c.sled_agents.contains_key(k) && c.sled_agents[k].baseboard_id
                        == Some(b);
                assert(agents.contains_key(k));
                let i = choose|i: int|
                    0 <= i < replies.sled_agents@.len() && (
                    #[trigger] replies.sled_agents@[i]).sled_id == k;
                assert(replies.sled_agents@[i] == agents[k]);
                assert(hw.dom().contains(id_of(hw, b)) && hw[id_of(hw, b)] == b);
                assert(h == id_of(hw, b));
                assert(replies.sled_agents@[i].hw_baseboard_id == Some(h));
            }
        }
    }
    assert(known =~= want);
}

/// What was found on hardware comes back, once the ids are replaced by the hardware.
proof fn found_comes_back<V>(
    found: Map<BaseboardIdView, V>,
    c: CollectionView,
    hw: Map<Uuid, BaseboardIdView>,
)
    requires
        distinct_contents(hw),
        hardware_stored(c, hw),
        on_hardware(found, hw).dom().finite(),
        forall|b: BaseboardIdView| #[trigger] found.contains_key(b) ==> c.baseboards.contains(b),
    ensures
        all_known(on_hardware(found, hw), stored_hardware(c, hw)),
        by_baseboard(on_hardware(found, hw), stored_hardware(c, hw)) == found,
{
    let m = on_hardware(found, hw);
    let known = stored_hardware(c, hw);
    assert forall|h: Uuid| #[trigger] m.contains_key(h) implies known.contains_key(h) by {
        assert(found.contains_key(hw[h]));
    }
    assert forall|a: Uuid, b: Uuid|
        #![trigger known[a], known[b]]
        known.contains_key(a) && known.contains_key(b) && known[a] == known[b] implies a == b by {
        assert(hw[a] == hw[b]);
    }
    renamed(m, known);
    let back = by_baseboard(m, known);
    assert forall|b: BaseboardIdView| back.contains_key(b) <==> found.contains_key(b) by {
        if back.contains_key(b) {
            let h = choose|h: Uuid| #[trigger] m.contains_key(h) && known[h] == b;
            assert(found.contains_key(hw[h]));
        }
        if found.contains_key(b) {
            assert(hw.contains_value(b));
            let h = choose|h: Uuid| #[trigger] hw.dom().contains(h) && hw[h] == b;
            assert(m.contains_key(h));
            assert(known[h] == b);
        }
    }
    assert forall|b: BaseboardIdView| back.contains_key(b) implies back[b] == found[b] by {
        let h = choose|h: Uuid| #[trigger] m.contains_key(h) && known[h] == b;
        assert(back[known[h]] == m[h]);
    }
    assert(back =~= found);
}

/// The hardware, the service processors, the roots of trust and the sled agents come back.
#[verifier::rlimit(50)]
proof fn first_half_comes_back(
    db: Database,
    rows: CollectionRows,
    c: CollectionView,
    limit: u32,
    replies: CollectionReplies,
)
    requires
        inserted_and_read(db, rows, c, limit, replies),
        consistent(c),
        finite(c),
    ensures
        hardware_known(replies),
        baseboards_by_id(replies.baseboards@).values() == c.baseboards,
        by_baseboard(sps_by_id(replies.sps@), baseboards_by_id(replies.baseboards@)) == c.sps,
        by_baseboard(rots_by_id(replies.rots@), baseboards_by_id(replies.baseboards@)) == c.rots,
        agents_of(replies.sled_agents@, baseboards_by_id(replies.baseboards@)) == c.sled_agents,
{
    let db2 = db.with_rows(rows);
    let hw = db2.hw_baseboards;
    tables_ready(db, rows, c);
    hardware_comes_back(db, rows, c, limit, replies);
    agents_reply(db, rows, c, limit as nat, replies.sled_agents@);
    let known = baseboards_by_id(replies.baseboards@);
    assert forall|b: BaseboardIdView| #[trigger] c.sps.contains_key(b) implies
        c.baseboards.contains(b) by {
        assert(referenced(c).contains(b));
    }
    assert forall|b: BaseboardIdView| #[trigger] c.rots.contains_key(b) implies
        c.baseboards.contains(b) by {
        assert(referenced(c).contains(b));
    }
    found_comes_back(c.sps, c, hw);
    found_comes_back(c.rots, c, hw);
    assert forall|b: BaseboardIdView| known.values().contains(b) <==> c.baseboards.contains(b) by {
        if c.baseboards.contains(b) {
            assert(hw.contains_value(b));
            let h = choose|h: Uuid| #[trigger] hw.dom().contains(h) && hw[h] == b;
            assert(known.dom().contains(h) && known[h] == b);
            assert(known.contains_value(b));
        }
        if known.values().contains(b) {
            let h = choose|h: Uuid| #[trigger] known.dom().contains(h) && known[h] == b;
            assert(c.baseboards.contains(hw[h]));
        }
    }
    assert(known.values() =~= c.baseboards);
    let reply = replies.sled_agents@;
    let agents = stored_agents(c, hw);
    assert forall|i: int| 0 <= i < reply.len() implies agent_known(#[trigger] reply[i], known)
        && c.sled_agents.contains_key(reply[i].sled_id) && agent_of(reply[i], known)
        == c.sled_agents[reply[i].sled_id] by {
        let k = reply[i].sled_id;
        assert(agents.contains_key(k) && agents[k] == reply[i]);
        let a = c.sled_agents[k];
        match a.baseboard_id {
            Some(b) => {
                assert(referenced(c).contains(b));
                assert(hw.contains_value(b));
                let h = id_of(hw, b);
                assert(hw.dom().contains(h) && hw[h] == b);
                assert(known.contains_key(h) && known[h] == b);
            },
            None => {},
        }
        assert(agent_of(reply[i], known) =~= a);
    }
    let p = reply.map_values(|r: InvSledAgent| (r.sled_id, agent_of(r, known)));
    assert forall|i: int, j: int| 0 <= i < j < p.len() implies (#[trigger] p[i]).0 != (
    #[trigger] p[j]).0 by {
        assert(reply[i].sled_id != reply[j].sled_id);
    }
    to_map_of_distinct(p);
    let m = to_map(p);
    assert forall|k: Uuid| m.contains_key(k) <==> c.sled_agents.contains_key(k) by {
        if m.contains_key(k) {
            let i = choose|i: int| 0 <= i < p.len() && (#[trigger] p[i]).0 == k;
            assert(c.sled_agents.contains_key(reply[i].sled_id));
        }
        if c.sled_agents.contains_key(k) {
            assert(agents.contains_key(k));
            let i = choose|i: int| 0 <= i < reply.len() && (#[trigger] reply[i]).sled_id == k;
            assert(p[i].0 == k);
        }
    }
    assert forall|k: Uuid| m.contains_key(k) implies m[k] == c.sled_agents[k] by {
        let i = choose|i: int| 0 <= i < p.len() && (#[trigger] p[i]).0 == k;
        assert(m[p[i].0] == p[i].1);
        assert(agent_of(reply[i], known) == c.sled_agents[reply[i].sled_id]);
    }
    assert(m =~= c.sled_agents);
}

/// Rows on known hardware, of known images, in distinct places, are all found.
proof fn all_cabooses_found(
    rows: Seq<InvCaboose>,
    known: Map<Uuid, BaseboardIdView>,
    contents: Map<Uuid, CabooseView>,
    n: nat,
)
    requires
        n <= rows.len(),
        forall|i: int|
            0 <= i < rows.len() ==> known.contains_key((#[trigger] rows[i]).hw_baseboard_id)
                && contents.contains_key(rows[i].sw_caboose_id),
        forall|i: int, j: int|
            0 <= i < j < rows.len() ==> caboose_entry(#[trigger] rows[i], known, contents).0
                != caboose_entry(#[trigger] rows[j], known, contents).0,
    ensures
        found_cabooses(rows, known, contents, n) == Ok::<Map<PlaceView, CabooseFoundView>, ReadErrorView>(
            to_map(rows.take(n as int).map_values(|r: InvCaboose| caboose_entry(r, known, contents))),
        ),
    decreases n,
{
    let f = |r: InvCaboose| caboose_entry(r, known, contents);
    if n > 0 {
        let m = (n - 1) as nat;
        all_cabooses_found(rows, known, contents, m);
        let before = rows.take(m as int).map_values(f);
        let after = rows.take(n as int).map_values(f);
        let row = rows[n - 1];
        assert(known.contains_key(row.hw_baseboard_id));
        assert(after.drop_last() =~= before);
        assert(after.last() == f(row));
        assert forall|i: int, j: int| 0 <= i < j < before.len() implies (#[trigger] before[i]).0
            != (#[trigger] before[j]).0 by {
            assert(before[i] == f(rows[i]) && before[j] == f(rows[j]));
        }
        to_map_of_distinct(before);
        if to_map(before).contains_key(f(row).0) {
            let i = choose|i: int| 0 <= i < before.len() && (#[trigger] before[i]).0 == f(row).0;
            assert(before[i] == f(rows[i]));
            assert(caboose_entry(rows[i], known, contents).0 != caboose_entry(rows[n - 1], known, contents).0);
        }
    } else {
        assert(rows.take(0).map_values(f) =~= Seq::empty());
    }
}

/// The rows of images in the table are those of what was found.
proof fn stored_cabooses_rows(db: Database, rows: CollectionRows, c: CollectionView, r: InvCaboose)
    requires
        rows_of(rows, c),
        c.cabooses_found.dom().finite(),
        db.nothing_of(c.id),
        r.inv_collection_id == c.id,
    ensures
        ({
            let db2 = db.with_rows(rows);
            let place = PlaceView {
                which: r.which.rank(),
                baseboard: db2.hw_baseboards[r.hw_baseboard_id],
            };
            db2.cabooses.contains(r) <==> {
                &&& db2.hw_baseboards.contains_key(r.hw_baseboard_id)
                &&& db2.sw_cabooses.contains_key(r.sw_caboose_id)
                &&& c.cabooses_found.contains_key(place)
                &&& c.cabooses_found[place] == CabooseFoundView {
                    time_collected: r.time_collected,
                    source: r.source,
                    caboose: db2.sw_cabooses[r.sw_caboose_id],
                }
            }
        }),
{
    let db2 = db.with_rows(rows);
    let hw = db2.hw_baseboards;
    let sw = db2.sw_cabooses;
    entries_of_map::<CaboosePlace, CabooseFoundView>(c.cabooses_found);
    let e = entries::<CaboosePlace, CabooseFoundView>(c.cabooses_found);
    let place = PlaceView { which: r.which.rank(), baseboard: hw[r.hw_baseboard_id] };
    if db2.cabooses.contains(r) {
        assert(!db.cabooses.contains(r));
        let i = choose|i: int|
            0 <= i < rows.cabooses_found@.len() && (#[trigger] rows.cabooses_found@[i]).baseboard@
                == hw[r.hw_baseboard_id] && rows.cabooses_found@[i].caboose@ == sw[r.sw_caboose_id]
                && rows.cabooses_found@[i].which == r.which && rows.cabooses_found@[i].time_collected
                == r.time_collected && rows.cabooses_found@[i].source == r.source;
        assert(caboose_entries(rows.cabooses_found@)[i] == e[i]);
    }
    if hw.contains_key(r.hw_baseboard_id) && sw.contains_key(r.sw_caboose_id)
        && c.cabooses_found.contains_key(place) && c.cabooses_found[place] == (CabooseFoundView {
        time_collected: r.time_collected,
        source: r.source,
        caboose: sw[r.sw_caboose_id],
    }) {
        let i = choose|i: int|
            0 <= i < e.len() && #[trigger] e[i] == (place, c.cabooses_found[place]);
        assert(caboose_entries(rows.cabooses_found@)[i] == e[i]);
        let new = rows.cabooses_found@[i];
        assert(new.which == r.which);
        assert(new.baseboard@ == hw[r.hw_baseboard_id] && new.caboose@ == sw[r.sw_caboose_id]);
    }
}

/// The found images come back.
#[verifier::rlimit(50)]
proof fn cabooses_come_back(
    db: Database,
    rows: CollectionRows,
    c: CollectionView,
    limit: u32,
    replies: CollectionReplies,
)
    requires
        inserted_and_read(db, rows, c, limit, replies),
        consistent(c),
        finite(c),
    ensures
        ({
            let known = baseboards_by_id(replies.baseboards@);
            let contents = cabooses_by_id(replies.cabooses@);
            &&& found_cabooses(replies.cabooses_found@, known, contents, replies.cabooses_found@.len()) == Ok::<
                Map<PlaceView, CabooseFoundView>,
                ReadErrorView,
            >(c.cabooses_found)
            &&& contents.values() == c.cabooses
        }),
{
    let n = limit as nat;
    let db2 = db.with_rows(rows);
    let hw = db2.hw_baseboards;
    let sw = db2.sw_cabooses;
    tables_ready(db, rows, c);
    hardware_comes_back(db, rows, c, limit, replies);
    let known = baseboards_by_id(replies.baseboards@);
    let contents = cabooses_by_id(replies.cabooses@);
    let reply = replies.cabooses_found@;
    let ids = reply.map_values(|r: InvCaboose| r.sw_caboose_id).to_set();
    reply_by_id(new_cabooses(replies.cabooses@), sw, ids, n);
    let matching = |r: InvCaboose| r.inv_collection_id == c.id;
    assert(answers(reply, db2.cabooses, matching, n));
    assert forall|i: int| 0 <= i < reply.len() implies {
        let r = #[trigger] reply[i];
        let place = PlaceView { which: r.which.rank(), baseboard: hw[r.hw_baseboard_id] };
        &&& r.inv_collection_id == c.id
        &&& known.contains_key(r.hw_baseboard_id)
        &&& known[r.hw_baseboard_id] == hw[r.hw_baseboard_id]
        &&& contents.contains_key(r.sw_caboose_id)
        &&& contents[r.sw_caboose_id] == sw[r.sw_caboose_id]
        &&& sw.contains_key(r.sw_caboose_id)
        &&& caboose_entry(r, known, contents) == (place, c.cabooses_found[place])
        &&& c.cabooses_found.contains_key(place)
    } by {
        let r = reply[i];
        assert(matching(r));
        assert(db2.cabooses.contains(r));
        stored_cabooses_rows(db, rows, c, r);
        let place = PlaceView { which: r.which.rank(), baseboard: hw[r.hw_baseboard_id] };
        assert(c.baseboards.contains(place.baseboard));
        assert(known.contains_key(r.hw_baseboard_id));
        assert(reply.map_values(|r: InvCaboose| r.sw_caboose_id)[i] == r.sw_caboose_id);
        assert(ids.contains(r.sw_caboose_id));
        assert(contents.contains_key(r.sw_caboose_id));
    }
    assert forall|i: int, j: int| 0 <= i < j < reply.len() implies caboose_entry(
        #[trigger] reply[i],
        known,
        contents,
    ).0 != caboose_entry(#[trigger] reply[j], known, contents).0 by {
        let a = reply[i];
        let b = reply[j];
        if caboose_entry(a, known, contents).0 == caboose_entry(b, known, contents).0 {
            assert(a.which.rank() == b.which.rank());
            assert(hw[a.hw_baseboard_id] == hw[b.hw_baseboard_id]);
            assert(known.contains_key(a.hw_baseboard_id) && known.contains_key(b.hw_baseboard_id));
            assert(sw[a.sw_caboose_id] == sw[b.sw_caboose_id]);
            assert(a == b);
        }
    }
    all_cabooses_found(reply, known, contents, reply.len());
    let f = |r: InvCaboose| caboose_entry(r, known, contents);
    let p = reply.map_values(f);
    assert(reply.take(reply.len() as int) =~= reply);
    assert forall|i: int, j: int| 0 <= i < j < p.len() implies (#[trigger] p[i]).0 != (
    #[trigger] p[j]).0 by {
        assert(p[i] == f(reply[i]) && p[j] == f(reply[j]));
    }
    to_map_of_distinct(p);
    let m = to_map(p);
    assert forall|place: PlaceView| c.cabooses_found.contains_key(place) implies exists|i: int|
        0 <= i < reply.len() && #[trigger] p[i] == (place, c.cabooses_found[place]) by {
        let found = c.cabooses_found[place];
        entries_of_map::<CaboosePlace, CabooseFoundView>(c.cabooses_found);
        let e = entries::<CaboosePlace, CabooseFoundView>(c.cabooses_found);
        let k = choose|k: int| 0 <= k < e.len() && #[trigger] e[k] == (place, found);
        assert(caboose_entries(rows.cabooses_found@)[k] == e[k]);
        assert(c.baseboards.contains(place.baseboard));
        assert(c.cabooses.contains(found.caboose));
        assert(hw.contains_value(place.baseboard) && sw.contains_value(found.caboose));
        let h = id_of(hw, place.baseboard);
        let s = id_of(sw, found.caboose);
        assert(hw.dom().contains(h) && hw[h] == place.baseboard);
        assert(sw.dom().contains(s) && sw[s] == found.caboose);
        let r = InvCaboose {
            inv_collection_id: c.id,
            hw_baseboard_id: h,
            sw_caboose_id: s,
            which: rows.cabooses_found@[k].which,
            time_collected: found.time_collected,
            source: found.source,
        };
        stored_cabooses_rows(db, rows, c, r);
        assert(db2.cabooses.contains(r));
        assert(matching(r));
        assert(reply.contains(r));
        let i = reply.index_of(r);
        assert(p[i] == f(reply[i]));
    }
    assert forall|place: PlaceView| m.contains_key(place) <==> c.cabooses_found.contains_key(place) by {
        if m.contains_key(place) {
            let i = choose|i: int| 0 <= i < p.len() && (#[trigger] p[i]).0 == place;
            assert(p[i] == f(reply[i]));
        }
        if c.cabooses_found.contains_key(place) {
            let i = choose|i: int|
                0 <= i < reply.len() && #[trigger] p[i] == (place, c.cabooses_found[place]);
            assert(m.contains_key(p[i].0));
        }
    }
    assert forall|place: PlaceView| m.contains_key(place) implies m[place] == c.cabooses_found[place] by {
        let i = choose|i: int|
            0 <= i < reply.len() && #[trigger] p[i] == (place, c.cabooses_found[place]);
        assert(m[p[i].0] == p[i].1);
    }
    assert(m =~= c.cabooses_found);
    assert forall|x: CabooseView| contents.values().contains(x) <==> c.cabooses.contains(x) by {
        if contents.values().contains(x) {
            let s = choose|s: Uuid| #[trigger] contents.dom().contains(s) && contents[s] == x;
            assert(contents.contains_key(s));
            let all = reply.map_values(|r: InvCaboose| r.sw_caboose_id);
            assert(all.contains(s));
            let i = all.index_of(s);
            assert(reply[i].sw_caboose_id == s);
            let place = PlaceView {
                which: reply[i].which.rank(),
                baseboard: hw[reply[i].hw_baseboard_id],
            };
            assert(c.cabooses_found.contains_key(place));
        }
        if c.cabooses.contains(x) {
            let place = choose|place: PlaceView|
                #[trigger] c.cabooses_found.contains_key(place) && c.cabooses_found[place].caboose == x;
            let i = choose|i: int|
                0 <= i < reply.len() && #[trigger] p[i] == (place, c.cabooses_found[place]);
            assert(p[i] == f(reply[i]));
            let s = reply[i].sw_caboose_id;
            assert(contents.contains_key(s) && contents[s] == x);
            assert(contents.dom().contains(s));
            assert(contents.contains_value(x));
        }
    }
    assert(contents.values() =~= c.cabooses);
}

/// Rows on known hardware, of known pages, in distinct places, are all found.
proof fn all_rot_pages_found(
    rows: Seq<InvRotPage>,
    known: Map<Uuid, BaseboardIdView>,
    contents: Map<Uuid, Seq<char>>,
    n: nat,
)
    requires
        n <= rows.len(),
        forall|i: int|
            0 <= i < rows.len() ==> known.contains_key((#[trigger] rows[i]).hw_baseboard_id)
                && contents.contains_key(rows[i].sw_root_of_trust_page_id),
        forall|i: int, j: int|
            0 <= i < j < rows.len() ==> rot_page_entry(#[trigger] rows[i], known, contents).0
                != rot_page_entry(#[trigger] rows[j], known, contents).0,
    ensures
        found_rot_pages(rows, known, contents, n) == Ok::<Map<PlaceView, RotPageFoundView>, ReadErrorView>(
            to_map(rows.take(n as int).map_values(|r: InvRotPage| rot_page_entry(r, known, contents))),
        ),
    decreases n,
{
    let f = |r: InvRotPage| rot_page_entry(r, known, contents);
    if n > 0 {
        let m = (n - 1) as nat;
        all_rot_pages_found(rows, known, contents, m);
        let before = rows.take(m as int).map_values(f);
        let after = rows.take(n as int).map_values(f);
        let row = rows[n - 1];
        assert(known.contains_key(row.hw_baseboard_id));
        assert(after.drop_last() =~= before);
        assert(after.last() == f(row));
        assert forall|i: int, j: int| 0 <= i < j < before.len() implies (#[trigger] before[i]).0
            != (#[trigger] before[j]).0 by {
            assert(before[i] == f(rows[i]) && before[j] == f(rows[j]));
        }
        to_map_of_distinct(before);
        if to_map(before).contains_key(f(row).0) {
            let i = choose|i: int| 0 <= i < before.len() && (#[trigger] before[i]).0 == f(row).0;
            assert(before[i] == f(rows[i]));
            assert(rot_page_entry(rows[i], known, contents).0 != rot_page_entry(rows[n - 1], known, contents).0);
        }
    } else {
        assert(rows.take(0).map_values(f) =~= Seq::empty());
    }
}

/// The rows of pages in the table are those of what was found.
proof fn stored_rot_pages_rows(db: Database, rows: CollectionRows, c: CollectionView, r: InvRotPage)
    requires
        rows_of(rows, c),
        c.rot_pages_found.dom().finite(),
        db.nothing_of(c.id),
        r.inv_collection_id == c.id,
    ensures
        ({
            let db2 = db.with_rows(rows);
            let place = PlaceView {
                which: r.which.rank(),
                baseboard: db2.hw_baseboards[r.hw_baseboard_id],
            };
            db2.rot_pages.contains(r) <==> {
                &&& db2.hw_baseboards.contains_key(r.hw_baseboard_id)
                &&& db2.sw_rot_pages.contains_key(r.sw_root_of_trust_page_id)
                &&& c.rot_pages_found.contains_key(place)
                &&& c.rot_pages_found[place] == RotPageFoundView {
                    time_collected: r.time_collected,
                    source: r.source,
                    page: db2.sw_rot_pages[r.sw_root_of_trust_page_id],
                }
            }
        }),
{
    let db2 = db.with_rows(rows);
    let hw = db2.hw_baseboards;
    let sw = db2.sw_rot_pages;
    entries_of_map::<RotPagePlace, RotPageFoundView>(c.rot_pages_found);
    let e = entries::<RotPagePlace, RotPageFoundView>(c.rot_pages_found);
    let place = PlaceView { which: r.which.rank(), baseboard: hw[r.hw_baseboard_id] };
    if db2.rot_pages.contains(r) {
        assert(!db.rot_pages.contains(r));
        let i = choose|i: int|
            0 <= i < rows.rot_pages_found@.len() && (#[trigger] rows.rot_pages_found@[i]).baseboard@
                == hw[r.hw_baseboard_id] && rows.rot_pages_found@[i].page@ == sw[r.sw_root_of_trust_page_id]
                && rows.rot_pages_found@[i].which == r.which && rows.rot_pages_found@[i].time_collected
                == r.time_collected && rows.rot_pages_found@[i].source == r.source;
        assert(rot_page_entries(rows.rot_pages_found@)[i] == e[i]);
    }
    if hw.contains_key(r.hw_baseboard_id) && sw.contains_key(r.sw_root_of_trust_page_id)
        && c.rot_pages_found.contains_key(place) && c.rot_pages_found[place] == (RotPageFoundView {
        time_collected: r.time_collected,
        source: r.source,
        page: sw[r.sw_root_of_trust_page_id],
    }) {
        let i = choose|i: int|
            0 <= i < e.len() && #[trigger] e[i] == (place, c.rot_pages_found[place]);
        assert(rot_page_entries(rows.rot_pages_found@)[i] == e[i]);
        let new = rows.rot_pages_found@[i];
        assert(new.which == r.which);
        assert(new.baseboard@ == hw[r.hw_baseboard_id] && new.page@ == sw[r.sw_root_of_trust_page_id]);
    }
}

/// The found pages come back.
#[verifier::rlimit(50)]
proof fn rot_pages_come_back(
    db: Database,
    rows: CollectionRows,
    c: CollectionView,
    limit: u32,
    replies: CollectionReplies,
)
    requires
        inserted_and_read(db, rows, c, limit, replies),
        consistent(c),
        finite(c),
    ensures
        ({
            let known = baseboards_by_id(replies.baseboards@);
            let contents = rot_pages_by_id(replies.rot_pages@);
            &&& found_rot_pages(replies.rot_pages_found@, known, contents, replies.rot_pages_found@.len()) == Ok::<
                Map<PlaceView, RotPageFoundView>,
                ReadErrorView,
            >(c.rot_pages_found)
            &&& contents.values() == c.rot_pages
        }),
{
    let n = limit as nat;
    let db2 = db.with_rows(rows);
    let hw = db2.hw_baseboards;
    let sw = db2.sw_rot_pages;
    tables_ready(db, rows, c);
    hardware_comes_back(db, rows, c, limit, replies);
    let known = baseboards_by_id(replies.baseboards@);
    let contents = rot_pages_by_id(replies.rot_pages@);
    let reply = replies.rot_pages_found@;
    let ids = reply.map_values(|r: InvRotPage| r.sw_root_of_trust_page_id).to_set();
    reply_by_id(new_rot_pages(replies.rot_pages@), sw, ids, n);
    let matching = |r: InvRotPage| r.inv_collection_id == c.id;
    assert(answers(reply, db2.rot_pages, matching, n));
    assert forall|i: int| 0 <= i < reply.len() implies {
        let r = #[trigger] reply[i];
        let place = PlaceView { which: r.which.rank(), baseboard: hw[r.hw_baseboard_id] };
        &&& r.inv_collection_id == c.id
        &&& known.contains_key(r.hw_baseboard_id)
        &&& known[r.hw_baseboard_id] == hw[r.hw_baseboard_id]
        &&& contents.contains_key(r.sw_root_of_trust_page_id)
        &&& contents[r.sw_root_of_trust_page_id] == sw[r.sw_root_of_trust_page_id]
        &&& sw.contains_key(r.sw_root_of_trust_page_id)
        &&& rot_page_entry(r, known, contents) == (place, c.rot_pages_found[place])
        &&& c.rot_pages_found.contains_key(place)
    } by {
        let r = reply[i];
        assert(matching(r));
        assert(db2.rot_pages.contains(r));
        stored_rot_pages_rows(db, rows, c, r);
        let place = PlaceView { which: r.which.rank(), baseboard: hw[r.hw_baseboard_id] };
        assert(c.baseboards.contains(place.baseboard));
        assert(known.contains_key(r.hw_baseboard_id));
        assert(reply.map_values(|r: InvRotPage| r.sw_root_of_trust_page_id)[i] == r.sw_root_of_trust_page_id);
        assert(ids.contains(r.sw_root_of_trust_page_id));
        assert(contents.contains_key(r.sw_root_of_trust_page_id));
    }
    assert forall|i: int, j: int| 0 <= i < j < reply.len() implies rot_page_entry(
        #[trigger] reply[i],
        known,
        contents,
    ).0 != rot_page_entry(#[trigger] reply[j], known, contents).0 by {
        let a = reply[i];
        let b = reply[j];
        if rot_page_entry(a, known, contents).0 == rot_page_entry(b, known, contents).0 {
            assert(a.which.rank() == b.which.rank());
            assert(hw[a.hw_baseboard_id] == hw[b.hw_baseboard_id]);
            assert(known.contains_key(a.hw_baseboard_id) && known.contains_key(b.hw_baseboard_id));
            assert(sw[a.sw_root_of_trust_page_id] == sw[b.sw_root_of_trust_page_id]);
            assert(a == b);
        }
    }
    all_rot_pages_found(reply, known, contents, reply.len());
    let f = |r: InvRotPage| rot_page_entry(r, known, contents);
    let p = reply.map_values(f);
    assert(reply.take(reply.len() as int) =~= reply);
    assert forall|i: int, j: int| 0 <= i < j < p.len() implies (#[trigger] p[i]).0 != (
    #[trigger] p[j]).0 by {
        assert(p[i] == f(reply[i]) && p[j] == f(reply[j]));
    }
    to_map_of_distinct(p);
    let m = to_map(p);
    assert forall|place: PlaceView| c.rot_pages_found.contains_key(place) implies exists|i: int|
        0 <= i < reply.len() && #[trigger] p[i] == (place, c.rot_pages_found[place]) by {
        let found = c.rot_pages_found[place];
        entries_of_map::<RotPagePlace, RotPageFoundView>(c.rot_pages_found);
        let e = entries::<RotPagePlace, RotPageFoundView>(c.rot_pages_found);
        let k = choose|k: int| 0 <= k < e.len() && #[trigger] e[k] == (place, found);
        assert(rot_page_entries(rows.rot_pages_found@)[k] == e[k]);
        assert(c.baseboards.contains(place.baseboard));
        assert(c.rot_pages.contains(found.page));
        assert(hw.contains_value(place.baseboard) && sw.contains_value(found.page));
        let h = id_of(hw, place.baseboard);
        let s = id_of(sw, found.page);
        assert(hw.dom().contains(h) && hw[h] == place.baseboard);
        assert(sw.dom().contains(s) && sw[s] == found.page);
        let r = InvRotPage {
            inv_collection_id: c.id,
            hw_baseboard_id: h,
            sw_root_of_trust_page_id: s,
            which: rows.rot_pages_found@[k].which,
            time_collected: found.time_collected,
            source: found.source,
        };
        stored_rot_pages_rows(db, rows, c, r);
        assert(db2.rot_pages.contains(r));
        assert(matching(r));
        assert(reply.contains(r));
        let i = reply.index_of(r);
        assert(p[i] == f(reply[i]));
    }
    assert forall|place: PlaceView| m.contains_key(place) <==> c.rot_pages_found.contains_key(place) by {
        if m.contains_key(place) {
            let i = choose|i: int| 0 <= i < p.len() && (#[trigger] p[i]).0 == place;
            assert(p[i] == f(reply[i]));
        }
        if c.rot_pages_found.contains_key(place) {
            let i = choose|i: int|
                0 <= i < reply.len() && #[trigger] p[i] == (place, c.rot_pages_found[place]);
            assert(m.contains_key(p[i].0));
        }
    }
    assert forall|place: PlaceView| m.contains_key(place) implies m[place] == c.rot_pages_found[place] by {
        let i = choose|i: int|
            0 <= i < reply.len() && #[trigger] p[i] == (place, c.rot_pages_found[place]);
        assert(m[p[i].0] == p[i].1);
    }
    assert(m =~= c.rot_pages_found);
    assert forall|x: Seq<char>| contents.values().contains(x) <==> c.rot_pages.contains(x) by {
        if contents.values().contains(x) {
            let s = choose|s: Uuid| #[trigger] contents.dom().contains(s) && contents[s] == x;
            assert(contents.contains_key(s));
            let all = reply.map_values(|r: InvRotPage| r.sw_root_of_trust_page_id);
            assert(all.contains(s));
            let i = all.index_of(s);
            assert(reply[i].sw_root_of_trust_page_id == s);
            let place = PlaceView {
                which: reply[i].which.rank(),
                baseboard: hw[reply[i].hw_baseboard_id],
            };
            assert(c.rot_pages_found.contains_key(place));
        }
        if c.rot_pages.contains(x) {
            let place = choose|place: PlaceView|
                #[trigger] c.rot_pages_found.contains_key(place) && c.rot_pages_found[place].page == x;
            let i = choose|i: int|
                0 <= i < reply.len() && #[trigger] p[i] == (place, c.rot_pages_found[place]);
            assert(p[i] == f(reply[i]));
            let s = reply[i].sw_root_of_trust_page_id;
            assert(contents.contains_key(s) && contents[s] == x);
            assert(contents.dom().contains(s));
            assert(contents.contains_value(x));
        }
    }
    assert(contents.values() =~= c.rot_pages);
}

/// The errors come back, in their order.
proof fn errors_come_back(
    db: Database,
    rows: CollectionRows,
    c: CollectionView,
    limit: u32,
    replies: CollectionReplies,
)
    requires
        inserted_and_read(db, rows, c, limit, replies),
        db.nothing_of(c.id),
    ensures
        replies.errors@.map_values(|r: InvCollectionError| r.message) == c.errors,
{
    let db2 = db.with_rows(rows);
    let reply = replies.errors@;
    let n = c.errors.len();
    let matching = |r: InvCollectionError| r.inv_collection_id == c.id;
    assert(answers(reply, db2.errors, matching, limit as nat));
    assert forall|i: int| 0 <= i < reply.len() implies (#[trigger] reply[i]).idx < n && reply[i]
        == error_row(c, reply[i].idx as int) by {
        let r = reply[i];
        assert(matching(r));
        assert(db2.errors.contains(r));
        assert(rows.errors@.contains(r));
        let k = rows.errors@.index_of(r);
        assert(rows.errors@[k] == error_row(c, k));
    }
    assert forall|k: int| 0 <= k < n implies reply.contains(#[trigger] error_row(c, k)) by {
        let r = error_row(c, k);
        assert(rows.errors@[k] == r);
        assert(rows.errors@.contains(r));
        assert(db2.errors.contains(r));
        assert(matching(r));
    }
    let a = reply.map_values(|r: InvCollectionError| r.idx as u128);
    let b = Seq::new(n, |i: int| i as u128);
    let set = b.to_set();
    assert(b.no_duplicates());
    b.unique_seq_to_set();
    vstd::seq_lib::seq_to_set_is_finite(b);
    assert forall|x: u128| set.contains(x) <==> x < n by {
        if x < n {
            assert(b[x as int] == x);
        }
    }
    assert(lists_keys::<u128>(b, set));
    assert forall|i: int, j: int| 0 <= i < j < a.len() implies <u128 as Key>::before(
        #[trigger] a[i],
        #[trigger] a[j],
    ) by {
        assert(reply[i].idx <= reply[j].idx);
        if reply[i].idx == reply[j].idx {
            assert(reply[i] == reply[j]);
        }
    }
    assert(a.no_duplicates());
    a.unique_seq_to_set();
    assert forall|x: u128| a.to_set().contains(x) <==> set.contains(x) by {
        if a.contains(x) {
            let i = a.index_of(x);
            assert(reply[i].idx < n);
        }
        if x < n {
            let r = error_row(c, x as int);
            assert(reply.contains(r));
            let i = reply.index_of(r);
            assert(a[i] == x);
        }
    }
    assert(a.to_set() =~= set);
    assert forall|i: int| 0 <= i < a.len() implies set.contains(#[trigger] a[i]) by {
        assert(a.to_set().contains(a[i]));
    }
    assert forall|x: u128| set.contains(x) implies a.contains(x) by {
        assert(a.to_set().contains(x));
    }
    assert(lists_keys::<u128>(a, set));
    order_is_unique::<u128>(a, set);
    order_is_unique::<u128>(b, set);
    let messages = reply.map_values(|r: InvCollectionError| r.message);
    assert forall|i: int| 0 <= i < n implies messages[i] == c.errors[i] by {
        assert(a[i] == b[i]);
        assert(reply[i] == error_row(c, i));
    }
    assert(messages =~= c.errors);
}

/// The zone of a row, with the interface that the row names.
spec fn zone_at(row: InvOmicronZone, nics: Map<Uuid, ZoneNic>) -> OmicronZoneConfig {
    zone_of(
        row,
        match row.nic_id {
            Some(id) => Some(nics[id]),
            None => None,
        },
    )
}

/// The zones of the first `n` rows that are on a sled.
spec fn zones_on(rows: Seq<InvOmicronZone>, nics: Map<Uuid, ZoneNic>, sled: Uuid, n: nat) -> Seq<
    OmicronZoneConfig,
>
    decreases n,
{
    if n == 0 {
        Seq::empty()
    } else {
        let rest = zones_on(rows, nics, sled, (n - 1) as nat);
        if rows[n - 1].sled_id == sled {
            rest.push(zone_at(rows[n - 1], nics))
        } else {
            rest
        }
    }
}

/// Zones on known sleds, with interfaces that are there and not shared, are all placed.
proof fn zones_are_placed(start: ZonesState, rows: Seq<InvOmicronZone>, n: nat)
    requires
        n <= rows.len(),
        forall|s: Uuid| #[trigger]
            start.sleds.contains_key(s) ==> start.sleds[s].zones == Seq::<OmicronZoneConfig>::empty(),
        forall|i: int|
            0 <= i < rows.len() ==> start.sleds.contains_key((#[trigger] rows[i]).sled_id) && (
            rows[i].nic_id matches Some(x) ==> start.nics.contains_key(x)) && rows[i].details is Some,
        forall|i: int, j: int|
            0 <= i < j < rows.len() ==> ((#[trigger] rows[i]).nic_id is Some ==> rows[i].nic_id != (
            #[trigger] rows[j]).nic_id),
    ensures
        placed_zones(start, rows, n) matches Ok(state) && {
            &&& state.sleds.dom() == start.sleds.dom()
            &&& forall|s: Uuid| #[trigger]
                state.sleds.contains_key(s) ==> state.sleds[s] == (OmicronZonesFoundView {
                    zones: zones_on(rows, start.nics, s, n),
                    ..start.sleds[s]
                })
            &&& forall|x: Uuid| #[trigger]
                state.nics.contains_key(x) <==> start.nics.contains_key(x) && forall|i: int|
                    0 <= i < n ==> (#[trigger] rows[i]).nic_id != Some(x)
            &&& forall|x: Uuid| #[trigger]
                state.nics.contains_key(x) ==> state.nics[x] == start.nics[x]
        },
    decreases n,
{
    if n > 0 {
        let m = (n - 1) as nat;
        zones_are_placed(start, rows, m);
        let before = placed_zones(start, rows, m)->Ok_0;
        let row = rows[n - 1];
        assert(start.sleds.contains_key(row.sled_id));
        assert(before.sleds.contains_key(row.sled_id));
        match row.nic_id {
            Some(x) => {
                assert forall|i: int| 0 <= i < m implies (#[trigger] rows[i]).nic_id != Some(
                    x,
                ) by {
                    assert(rows[i].nic_id is Some ==> rows[i].nic_id != rows[n - 1].nic_id);
                }
                assert(before.nics.contains_key(x));
            },
            None => {},
        }
        let after = placed_zones(start, rows, n)->Ok_0;
        assert(placed_zones(start, rows, n) is Ok);
        assert(after.sleds.dom() =~= start.sleds.dom());
        assert forall|s: Uuid| #[trigger] after.sleds.contains_key(s) implies after.sleds[s] == (
        OmicronZonesFoundView { zones: zones_on(rows, start.nics, s, n), ..start.sleds[s] }) by {
            assert(before.sleds.contains_key(s));
        }
        assert forall|x: Uuid| #[trigger] after.nics.contains_key(x) <==> start.nics.contains_key(
            x,
        ) && forall|i: int| 0 <= i < n ==> (#[trigger] rows[i]).nic_id != Some(x) by {
            if after.nics.contains_key(x) {
                assert(before.nics.contains_key(x));
                assert forall|i: int| 0 <= i < n implies (#[trigger] rows[i]).nic_id != Some(x) by {
                    if i == n - 1 {
                        assert(row.nic_id != Some(x));
                    }
                }
            }
            if start.nics.contains_key(x) && forall|i: int|
                0 <= i < n ==> (#[trigger] rows[i]).nic_id != Some(x) {
                assert(rows[n - 1].nic_id != Some(x));
                assert(before.nics.contains_key(x));
            }
        }
        assert forall|x: Uuid| #[trigger] after.nics.contains_key(x) implies after.nics[x]
            == start.nics[x] by {
            assert(before.nics.contains_key(x));
        }
    } else {
        assert forall|s: Uuid| #[trigger] start.sleds.contains_key(s) implies start.sleds[s] == (
        OmicronZonesFoundView { zones: zones_on(rows, start.nics, s, 0), ..start.sleds[s] }) by {}
    }
}

/// The zones on a sled are those of the rows that name it, each once where their ids are distinct.
proof fn zones_on_sled(rows: Seq<InvOmicronZone>, nics: Map<Uuid, ZoneNic>, sled: Uuid, n: nat)
    requires
        n <= rows.len(),
        forall|i: int, j: int|
            0 <= i < j < rows.len() ==> (#[trigger] rows[i]).id != (#[trigger] rows[j]).id,
    ensures
        zones_on(rows, nics, sled, n).no_duplicates(),
        forall|k: int|
            0 <= k < zones_on(rows, nics, sled, n).len() ==> exists|i: int|
                0 <= i < n && (#[trigger] rows[i]).sled_id == sled && zone_at(rows[i], nics)
                    == #[trigger] zones_on(rows, nics, sled, n)[k],
        forall|i: int|
            0 <= i < n && (#[trigger] rows[i]).sled_id == sled ==> zones_on(
                rows,
                nics,
                sled,
                n,
            ).contains(zone_at(rows[i], nics)),
    decreases n,
{
    if n > 0 {
        let m = (n - 1) as nat;
        zones_on_sled(rows, nics, sled, m);
        let before = zones_on(rows, nics, sled, m);
        let after = zones_on(rows, nics, sled, n);
        let last = zone_at(rows[n - 1], nics);
        assert forall|k: int| 0 <= k < after.len() implies exists|i: int|
            0 <= i < n && (#[trigger] rows[i]).sled_id == sled && zone_at(rows[i], nics)
                == #[trigger] after[k] by {
            if k < before.len() {
                assert(after[k] == before[k]);
                let i = choose|i: int|
                    0 <= i < m && (#[trigger] rows[i]).sled_id == sled && zone_at(rows[i], nics)
                        == before[k];
                assert(rows[i].sled_id == sled);
            } else {
                assert(rows[n - 1].sled_id == sled);
            }
        }
        assert forall|i: int| 0 <= i < n && (#[trigger] rows[i]).sled_id == sled implies
            after.contains(zone_at(rows[i], nics)) by {
            if i < m {
                assert(before.contains(zone_at(rows[i], nics)));
                let k = before.index_of(zone_at(rows[i], nics));
                assert(after[k] == before[k]);
            } else {
                assert(after[after.len() - 1] == last);
            }
        }
        assert(after.no_duplicates()) by {
            if rows[n - 1].sled_id == sled {
                assert forall|k: int| 0 <= k < before.len() implies before[k] != last by {
                    let i = choose|i: int|
                        0 <= i < m && (#[trigger] rows[i]).sled_id == sled && zone_at(rows[i], nics)
                            == before[k];
                    assert(rows[i].id != rows[n - 1].id);
                }
            }
        }
    }
}

/// The zones in order are the zones of the sleds.
proof fn zones_in_order_are_all(found: Seq<OmicronZonesFoundView>, n: nat)
    requires
        n <= found.len(),
    ensures
        forall|k: int|
            0 <= k < zones_in_order(found, n).len() ==> exists|i: int|
                0 <= i < n && (#[trigger] found[i]).sled_id == (
                #[trigger] zones_in_order(found, n)[k]).0 && found[i].zones.contains(
                    zones_in_order(found, n)[k].1,
                ),
        forall|i: int, z: OmicronZoneConfig|
            0 <= i < n && (#[trigger] found[i].zones.contains(z)) ==> zones_in_order(
                found,
                n,
            ).contains((found[i].sled_id, z)),
    decreases n,
{
    if n > 0 {
        let m = (n - 1) as nat;
        zones_in_order_are_all(found, m);
        let before = zones_in_order(found, m);
        let sled = found[n - 1].sled_id;
        let more = found[n - 1].zones.map_values(|z: OmicronZoneConfig| (sled, z));
        let after = zones_in_order(found, n);
        assert(after == before + more);
        assert forall|k: int| 0 <= k < after.len() implies exists|i: int|
            0 <= i < n && (#[trigger] found[i]).sled_id == (#[trigger] after[k]).0
                && found[i].zones.contains(after[k].1) by {
            if k < before.len() {
                assert(after[k] == before[k]);
                let i = choose|i: int|
                    0 <= i < m && (#[trigger] found[i]).sled_id == before[k].0
                        && found[i].zones.contains(before[k].1);
                assert(found[i].sled_id == after[k].0);
            } else {
                assert(after[k] == more[k - before.len()]);
                assert(found[n - 1].zones[k - before.len()] == after[k].1);
                assert(found[n - 1].sled_id == after[k].0);
            }
        }
        assert forall|i: int, z: OmicronZoneConfig|
            0 <= i < n && (#[trigger] found[i].zones.contains(z)) implies after.contains(
            (found[i].sled_id, z),
        ) by {
            if i < m {
                assert(before.contains((found[i].sled_id, z)));
                let k = before.index_of((found[i].sled_id, z));
                assert(after[k] == before[k]);
            } else {
                let k = found[n - 1].zones.index_of(z);
                assert(more[k] == (sled, z));
                assert(after[before.len() + k] == (sled, z));
            }
        }
    }
}

/// Where no two zones have the same id, no sled has the same zone twice.
proof fn sleds_have_distinct_zones(found: Seq<OmicronZonesFoundView>, n: nat)
    requires
        n <= found.len(),
        forall|a: int, b: int|
            0 <= a < b < zones_in_order(found, n).len() ==> (
            #[trigger] zones_in_order(found, n)[a]).1.id != (
            #[trigger] zones_in_order(found, n)[b]).1.id,
    ensures
        forall|i: int| 0 <= i < n ==> (#[trigger] found[i]).zones.no_duplicates(),
    decreases n,
{
    if n > 0 {
        let m = (n - 1) as nat;
        let before = zones_in_order(found, m);
        let sled = found[n - 1].sled_id;
        let more = found[n - 1].zones.map_values(|z: OmicronZoneConfig| (sled, z));
        let after = zones_in_order(found, n);
        assert(after == before + more);
        assert forall|a: int, b: int| 0 <= a < b < before.len() implies (
        #[trigger] before[a]).1.id != (#[trigger] before[b]).1.id by {
            assert(after[a] == before[a] && after[b] == before[b]);
        }
        sleds_have_distinct_zones(found, m);
        let zones = found[n - 1].zones;
        assert forall|a: int, b: int| 0 <= a < zones.len() && 0 <= b < zones.len() && a
            != b implies zones[a] != zones[b] by {
            assert(after[before.len() + a] == (sled, zones[a]));
            assert(after[before.len() + b] == (sled, zones[b]));
            if a < b {
                assert(after[before.len() + a].1.id != after[before.len() + b].1.id);
            } else {
                assert(after[before.len() + b].1.id != after[before.len() + a].1.id);
            }
        }
    }
}

/// The interfaces in order are the interfaces of the zones, and where their ids are distinct no two
/// zones share one.
proof fn nics_in_order_are_all(zones: Seq<(Uuid, OmicronZoneConfig)>)
    requires
        forall|a: int, b: int|
            0 <= a < b < nics_in_order(zones).len() ==> (#[trigger] nics_in_order(zones)[a]).id != (
            #[trigger] nics_in_order(zones)[b]).id,
    ensures
        forall|k: int|
            0 <= k < nics_in_order(zones).len() ==> exists|i: int|
                0 <= i < zones.len() && (#[trigger] zones[i]).1.nic == Some(
                    #[trigger] nics_in_order(zones)[k],
                ),
        forall|i: int|
            0 <= i < zones.len() ==> ((#[trigger] zones[i]).1.nic matches Some(nic)
                ==> nics_in_order(zones).contains(nic)),
        forall|i: int, j: int|
            0 <= i < j < zones.len() ==> ((#[trigger] zones[i]).1.nic is Some && (
            #[trigger] zones[j]).1.nic is Some ==> zones[i].1.nic->0.id != zones[j].1.nic->0.id),
    decreases zones.len(),
{
    if zones.len() > 0 {
        let rest = zones.drop_last();
        let before = nics_in_order(rest);
        let after = nics_in_order(zones);
        let last = zones.last().1.nic;
        assert(zones[zones.len() - 1].1.nic == last);
        assert forall|a: int, b: int| 0 <= a < b < before.len() implies (#[trigger] before[a]).id
            != (#[trigger] before[b]).id by {
            assert(after[a] == before[a] && after[b] == before[b]);
        }
        nics_in_order_are_all(rest);
        assert forall|k: int| 0 <= k < after.len() implies exists|i: int|
            0 <= i < zones.len() && (#[trigger] zones[i]).1.nic == Some(#[trigger] after[k]) by {
            if k < before.len() {
                assert(after[k] == before[k]);
                let i = choose|i: int|
                    0 <= i < rest.len() && (#[trigger] rest[i]).1.nic == Some(before[k]);
                assert(zones[i] == rest[i]);
            }
        }
        assert forall|i: int| 0 <= i < zones.len() implies ((
        #[trigger] zones[i]).1.nic matches Some(nic) ==> after.contains(nic)) by {
            if zones[i].1.nic is Some {
                let nic = zones[i].1.nic->0;
                if i < rest.len() {
                    assert(rest[i] == zones[i]);
                    assert(before.contains(nic));
                    let k = before.index_of(nic);
                    assert(after[k] == before[k]);
                } else {
                    assert(after[after.len() - 1] == nic);
                }
            }
        }
        assert forall|i: int, j: int|
            0 <= i < j < zones.len() && (#[trigger] zones[i]).1.nic is Some && (
            #[trigger] zones[j]).1.nic is Some implies zones[i].1.nic->0.id
            != zones[j].1.nic->0.id by {
            assert(rest[i] == zones[i]);
            if j < rest.len() {
                assert(rest[j] == zones[j]);
            } else {
                let nic = zones[i].1.nic->0;
                assert(before.contains(nic));
                let k = before.index_of(nic);
                assert(after[k] == nic);
                assert(after[after.len() - 1] == last->0);
                assert(after[k].id != after[after.len() - 1].id);
            }
        }
    }
}

/// A sled of the collection, without its zones.
spec fn bare(found: OmicronZonesFoundView) -> OmicronZonesFoundView {
    OmicronZonesFoundView { zones: Seq::empty(), ..found }
}

proof fn sleds_reply(
    db: Database,
    rows: CollectionRows,
    c: CollectionView,
    limit: nat,
    reply: Seq<InvSledOmicronZones>,
)
    requires
        rows_of(rows, c),
        consistent(c),
        c.omicron_zones.dom().finite(),
        db.nothing_of(c.id),
        answers(
            reply,
            db.with_rows(rows).sled_zones,
            |r: InvSledOmicronZones| r.inv_collection_id == c.id,
            limit,
        ),
        sleds_by_id(reply).len() != limit,
    ensures
        sleds_by_id(reply).dom() == c.omicron_zones.dom(),
        forall|k: Uuid| #[trigger]
            c.omicron_zones.contains_key(k) ==> sleds_by_id(reply)[k] == bare(c.omicron_zones[k]),
{
    let id = c.id;
    let db2 = db.with_rows(rows);
    let want = c.omicron_zones.map_values(|f: OmicronZonesFoundView| bare(f));
    let matching = |r: InvSledOmicronZones| r.inv_collection_id == id;
    let key = |r: InvSledOmicronZones| r.sled_id;
    let val = |r: InvSledOmicronZones| sled_without_zones(r);
    let found = values::<Uuid, OmicronZonesFoundView>(c.omicron_zones);
    values_of_map::<Uuid, OmicronZonesFoundView>(c.omicron_zones);
    assert forall|r: InvSledOmicronZones| matching(r) implies (#[trigger] db2.sled_zones.contains(r)
        <==> want.contains_key(key(r)) && want[key(r)] == val(r)) by {
        if db2.sled_zones.contains(r) {
            assert(!db.sled_zones.contains(r));
            assert(rows.sled_omicron_zones@.contains(r));
            let i = rows.sled_omicron_zones@.index_of(r);
            assert(r == sled_zones_row(id, found[i]));
            assert(c.omicron_zones.contains_value(found[i]));
            let k = choose|k: Uuid|
                #[trigger] c.omicron_zones.dom().contains(k) && c.omicron_zones[k] == found[i];
            assert(c.omicron_zones.contains_key(k));
            assert(want.contains_key(k));
        }
        if want.contains_key(key(r)) && want[key(r)] == val(r) {
            let f = c.omicron_zones[r.sled_id];
            assert(c.omicron_zones.contains_key(r.sled_id));
            let i = choose|i: int| 0 <= i < found.len() && #[trigger] found[i] == f;
            assert(rows.sled_omicron_zones@[i] == sled_zones_row(id, f));
            assert(want[key(r)] == bare(f));
            assert(sled_zones_row(id, f) == r);
            assert(rows.sled_omicron_zones@.contains(r));
        }
    }
    assert forall|k: Uuid| #[trigger] want.contains_key(k) implies exists|r: InvSledOmicronZones|
        #[trigger] matching(r) && key(r) == k && val(r) == want[k] by {
        assert(c.omicron_zones.contains_key(k));
        let r = sled_zones_row(id, c.omicron_zones[k]);
        assert(val(r) == bare(c.omicron_zones[k]));
        assert(matching(r) && key(r) == k && val(r) == want[k]);
    }
    assert forall|a: InvSledOmicronZones, b: InvSledOmicronZones|
        #![trigger key(a), key(b)]
        matching(a) && matching(b) && key(a) == key(b) && val(a) == val(b) implies a == b by {
        assert(sled_without_zones(a) == sled_without_zones(b));
    }
    let pairs = reply.map_values(|r: InvSledOmicronZones| (key(r), val(r)));
    assert(to_map(pairs) == sleds_by_id(reply)) by {
        assert(pairs =~= reply.map_values(
            |r: InvSledOmicronZones| (r.sled_id, sled_without_zones(r)),
        ));
    }
    keyed_reply(reply, db2.sled_zones, matching, limit, key, val, want);
    assert(want.dom() =~= c.omicron_zones.dom());
    assert forall|k: Uuid| #[trigger] c.omicron_zones.contains_key(k) implies sleds_by_id(reply)[k]
        == bare(c.omicron_zones[k]) by {
        assert(want.contains_key(k));
    }
}

/// The interfaces, by their ids.
spec fn nic_map(nics: Seq<ZoneNic>) -> Map<Uuid, ZoneNic> {
    to_map(nics.map_values(|n: ZoneNic| (n.id, n)))
}

proof fn nics_reply(
    db: Database,
    rows: CollectionRows,
    c: CollectionView,
    limit: nat,
    reply: Seq<InvOmicronZoneNic>,
)
    requires
        rows_of(rows, c),
        db.nothing_of(c.id),
        db.accepts(rows),
        answers(
            reply,
            db.with_rows(rows).nics,
            |r: InvOmicronZoneNic| r.inv_collection_id == c.id,
            limit,
        ),
        nics_by_id(reply).len() != limit,
    ensures
        ({
            let nics = nics_in_order(all_zones(c));
            &&& forall|k: int|
                0 <= k < nics.len() ==> nics_by_id(reply).contains_key((#[trigger] nics[k]).id)
                    && nics_by_id(reply)[nics[k].id] == nics[k]
            &&& forall|x: Uuid| #[trigger]
                nics_by_id(reply).contains_key(x) ==> exists|k: int|
                    0 <= k < nics.len() && (#[trigger] nics[k]).id == x
            &&& forall|a: int, b: int|
                0 <= a < b < nics.len() ==> (#[trigger] nics[a]).id != (#[trigger] nics[b]).id
            &&& nics_by_id(reply).dom().finite()
        }),
{
    let id = c.id;
    let db2 = db.with_rows(rows);
    let nics = nics_in_order(all_zones(c));
    let want = nic_map(nics);
    let p = nics.map_values(|n: ZoneNic| (n.id, n));
    assert forall|a: int, b: int| 0 <= a < b < nics.len() implies (#[trigger] nics[a]).id != (
    #[trigger] nics[b]).id by {
        assert(rows.omicron_zone_nics@[a].nic == nics[a]);
        assert(rows.omicron_zone_nics@[b].nic == nics[b]);
    }
    assert forall|a: int, b: int| 0 <= a < b < p.len() implies (#[trigger] p[a]).0 != (
    #[trigger] p[b]).0 by {
        assert(nics[a].id != nics[b].id);
    }
    to_map_of_distinct(p);
    let matching = |r: InvOmicronZoneNic| r.inv_collection_id == id;
    let key = |r: InvOmicronZoneNic| r.nic.id;
    let val = |r: InvOmicronZoneNic| r.nic;
    assert forall|r: InvOmicronZoneNic| matching(r) implies (#[trigger] db2.nics.contains(r)
        <==> want.contains_key(key(r)) && want[key(r)] == val(r)) by {
        if db2.nics.contains(r) {
            assert(!db.nics.contains(r));
            assert(rows.omicron_zone_nics@.contains(r));
            let k = rows.omicron_zone_nics@.index_of(r);
            assert(r.nic == nics[k]);
            assert(want.contains_key(p[k].0) && want[p[k].0] == p[k].1);
        }
        if want.contains_key(key(r)) && want[key(r)] == val(r) {
            let k = choose|k: int| 0 <= k < p.len() && (#[trigger] p[k]).0 == key(r);
            assert(want[p[k].0] == p[k].1);
            assert(rows.omicron_zone_nics@[k] == r);
            assert(rows.omicron_zone_nics@.contains(r));
        }
    }
    assert forall|x: Uuid| #[trigger] want.contains_key(x) implies exists|r: InvOmicronZoneNic|
        #[trigger] matching(r) && key(r) == x && val(r) == want[x] by {
        let k = choose|k: int| 0 <= k < p.len() && (#[trigger] p[k]).0 == x;
        assert(want[p[k].0] == p[k].1);
        let r = InvOmicronZoneNic { inv_collection_id: id, nic: nics[k] };
        assert(matching(r) && key(r) == x && val(r) == want[x]);
    }
    let pairs = reply.map_values(|r: InvOmicronZoneNic| (key(r), val(r)));
    assert(pairs =~= reply.map_values(|r: InvOmicronZoneNic| (r.nic.id, r.nic)));
    keyed_reply(reply, db2.nics, matching, limit, key, val, want);
    assert forall|k: int| 0 <= k < nics.len() implies nics_by_id(reply).contains_key(
        (#[trigger] nics[k]).id,
    ) && nics_by_id(reply)[nics[k].id] == nics[k] by {
        assert(want.contains_key(p[k].0) && want[p[k].0] == p[k].1);
    }
    assert forall|x: Uuid| #[trigger] nics_by_id(reply).contains_key(x) implies exists|k: int|
        0 <= k < nics.len() && (#[trigger] nics[k]).id == x by {
        let k = choose|k: int| 0 <= k < p.len() && (#[trigger] p[k]).0 == x;
        assert(nics[k].id == x);
    }
}

/// The rows of the zones that were read are those of the zones of the collection.
proof fn zones_reply(
    db: Database,
    rows: CollectionRows,
    c: CollectionView,
    limit: nat,
    reply: Seq<InvOmicronZone>,
)
    requires
        rows_of(rows, c),
        db.nothing_of(c.id),
        db.accepts(rows),
        answers(
            reply,
            db.with_rows(rows).zones,
            |r: InvOmicronZone| r.inv_collection_id == c.id,
            limit,
        ),
        reply.len() != limit,
    ensures
        ({
            let all = all_zones(c);
            &&& forall|i: int|
                0 <= i < reply.len() ==> exists|k: int|
                    0 <= k < all.len() && #[trigger] reply[i] == zone_row(
                        c.id,
                        (#[trigger] all[k]).0,
                        all[k].1,
                    )
            &&& forall|k: int|
                0 <= k < all.len() ==> reply.contains(
                    zone_row(c.id, (#[trigger] all[k]).0, all[k].1),
                )
            &&& forall|i: int, j: int|
                0 <= i < j < reply.len() ==> (#[trigger] reply[i]).id != (#[trigger] reply[j]).id
            &&& forall|a: int, b: int|
                0 <= a < b < all.len() ==> (#[trigger] all[a]).1.id != (#[trigger] all[b]).1.id
        }),
{
    let db2 = db.with_rows(rows);
    let all = all_zones(c);
    let matching = |r: InvOmicronZone| r.inv_collection_id == c.id;
    assert(answers(reply, db2.zones, matching, limit));
    assert forall|a: int, b: int| 0 <= a < b < all.len() implies (#[trigger] all[a]).1.id != (
    #[trigger] all[b]).1.id by {
        assert(rows.omicron_zones@[a].id == all[a].1.id);
        assert(rows.omicron_zones@[b].id == all[b].1.id);
    }
    assert forall|i: int| 0 <= i < reply.len() implies exists|k: int|
        0 <= k < all.len() && #[trigger] reply[i] == zone_row(
            c.id,
            (#[trigger] all[k]).0,
            all[k].1,
        ) by {
        let r = reply[i];
        assert(matching(r));
        assert(db2.zones.contains(r));
        assert(rows.omicron_zones@.contains(r));
        let k = rows.omicron_zones@.index_of(r);
        assert(r == zone_row(c.id, all[k].0, all[k].1));
    }
    assert forall|k: int| 0 <= k < all.len() implies reply.contains(
        zone_row(c.id, (#[trigger] all[k]).0, all[k].1),
    ) by {
        let r = zone_row(c.id, all[k].0, all[k].1);
        assert(rows.omicron_zones@[k] == r);
        assert(rows.omicron_zones@.contains(r));
        assert(db2.zones.contains(r));
        assert(matching(r));
    }
    assert forall|i: int, j: int| 0 <= i < j < reply.len() implies (#[trigger] reply[i]).id != (
    #[trigger] reply[j]).id by {
        let a = choose|a: int|
            0 <= a < all.len() && reply[i] == zone_row(c.id, (#[trigger] all[a]).0, all[a].1);
        let b = choose|b: int|
            0 <= b < all.len() && reply[j] == zone_row(c.id, (#[trigger] all[b]).0, all[b].1);
        if reply[i].id == reply[j].id {
            if a < b {
                assert(all[a].1.id != all[b].1.id);
            } else if b < a {
                assert(all[b].1.id != all[a].1.id);
            }
            assert(reply[i] == reply[j]);
        }
    }
}

/// The zone of a row is the zone for which the row was made.
proof fn zone_of_row(id: Uuid, sled: Uuid, zone: OmicronZoneConfig, nics: Map<Uuid, ZoneNic>)
    requires
        zone.nic matches Some(nic) ==> nics[nic.id] == nic,
    ensures
        zone_at(zone_row(id, sled, zone), nics) == zone,
{
}

/// The zones of a sled come back, in whatever order, each of them once.
proof fn sled_comes_back(
    c: CollectionView,
    reply: Seq<InvOmicronZone>,
    nics: Map<Uuid, ZoneNic>,
    k: Uuid,
)
    requires
        consistent(c),
        c.omicron_zones.dom().finite(),
        c.omicron_zones.contains_key(k),
        forall|i: int|
            0 <= i < reply.len() ==> exists|m: int|
                0 <= m < all_zones(c).len() && #[trigger] reply[i] == zone_row(
                    c.id,
                    (#[trigger] all_zones(c)[m]).0,
                    all_zones(c)[m].1,
                ),
        forall|m: int|
            0 <= m < all_zones(c).len() ==> reply.contains(
                zone_row(c.id, (#[trigger] all_zones(c)[m]).0, all_zones(c)[m].1),
            ),
        forall|i: int, j: int|
            0 <= i < j < reply.len() ==> (#[trigger] reply[i]).id != (#[trigger] reply[j]).id,
        forall|a: int, b: int|
            0 <= a < b < all_zones(c).len() ==> (#[trigger] all_zones(c)[a]).1.id != (
            #[trigger] all_zones(c)[b]).1.id,
        forall|m: int|
            0 <= m < all_zones(c).len() ==> ((#[trigger] all_zones(c)[m]).1.nic matches Some(nic)
                ==> nics[nic.id] == nic),
    ensures
        c.omicron_zones[k].zones.no_duplicates(),
        zones_on(reply, nics, k, reply.len()).no_duplicates(),
        forall|z: OmicronZoneConfig|
            c.omicron_zones[k].zones.contains(z) <==> zones_on(
                reply,
                nics,
                k,
                reply.len(),
            ).contains(z),
{
    let found = values::<Uuid, OmicronZonesFoundView>(c.omicron_zones);
    values_of_map::<Uuid, OmicronZonesFoundView>(c.omicron_zones);
    let all = all_zones(c);
    zones_in_order_are_all(found, found.len());
    sleds_have_distinct_zones(found, found.len());
    let f = c.omicron_zones[k];
    zones_on_sled(reply, nics, k, reply.len());
    let back = zones_on(reply, nics, k, reply.len());
    let j = choose|j: int| 0 <= j < found.len() && #[trigger] found[j] == f;
    assert(found[j].zones.no_duplicates());
    assert forall|z: OmicronZoneConfig| f.zones.contains(z) <==> back.contains(z) by {
        if f.zones.contains(z) {
            assert(found[j].zones.contains(z));
            assert(all.contains((k, z)));
            let m = all.index_of((k, z));
            let r = zone_row(c.id, all[m].0, all[m].1);
            assert(reply.contains(r));
            let i = reply.index_of(r);
            assert(reply[i].sled_id == k);
            zone_of_row(c.id, k, z, nics);
            assert(back.contains(zone_at(reply[i], nics)));
        }
        if back.contains(z) {
            let q = back.index_of(z);
            let i = choose|i: int|
                0 <= i < reply.len() && (#[trigger] reply[i]).sled_id == k && zone_at(
                    reply[i],
                    nics,
                ) == back[q];
            let m = choose|m: int|
                0 <= m < all.len() && reply[i] == zone_row(c.id, (#[trigger] all[m]).0, all[m].1);
            zone_of_row(c.id, all[m].0, all[m].1, nics);
            assert(all[m].1 == z);
            let x = choose|x: int|
                0 <= x < found.len() && (#[trigger] found[x]).sled_id == all[m].0
                    && found[x].zones.contains(all[m].1);
            assert(c.omicron_zones.contains_value(found[x]));
            let s = choose|s: Uuid|
                #[trigger] c.omicron_zones.dom().contains(s) && c.omicron_zones[s] == found[x];
            assert(c.omicron_zones.contains_key(s));
            assert(s == k);
        }
    }
}

/// The zones come back, in whatever order.
#[verifier::rlimit(50)]
proof fn zones_come_back(
    db: Database,
    rows: CollectionRows,
    c: CollectionView,
    limit: u32,
    replies: CollectionReplies,
)
    requires
        inserted_and_read(db, rows, c, limit, replies),
        consistent(c),
        finite(c),
    ensures
        zones_found(replies) matches Ok(zones) && {
            &&& c.omicron_zones.dom() == zones.dom()
            &&& forall|k: Uuid| #[trigger]
                c.omicron_zones.contains_key(k) ==> same_zones(c.omicron_zones[k], zones[k])
        },
{
    let n = limit as nat;
    tables_ready(db, rows, c);
    sleds_reply(db, rows, c, n, replies.sled_omicron_zones@);
    nics_reply(db, rows, c, n, replies.omicron_zone_nics@);
    zones_reply(db, rows, c, n, replies.omicron_zones@);
    let found = values::<Uuid, OmicronZonesFoundView>(c.omicron_zones);
    values_of_map::<Uuid, OmicronZonesFoundView>(c.omicron_zones);
    let all = all_zones(c);
    zones_in_order_are_all(found, found.len());
    nics_in_order_are_all(all);
    let start = ZonesState {
        sleds: sleds_by_id(replies.sled_omicron_zones@),
        nics: nics_by_id(replies.omicron_zone_nics@),
    };
    let reply = replies.omicron_zones@;
    let nics = nics_in_order(all);
    assert forall|s: Uuid| #[trigger] start.sleds.contains_key(s) implies start.sleds[s].zones
        == Seq::<OmicronZoneConfig>::empty() by {
        assert(c.omicron_zones.contains_key(s));
    }
    // Each row is the row of a zone on a sled of the collection.
    assert forall|i: int| 0 <= i < reply.len() implies start.sleds.contains_key(
        (#[trigger] reply[i]).sled_id,
    ) && (reply[i].nic_id matches Some(x) ==> start.nics.contains_key(x)) && reply[i].details is Some by {
        let k = choose|k: int|
            0 <= k < all.len() && reply[i] == zone_row(c.id, (#[trigger] all[k]).0, all[k].1);
        let j = choose|j: int|
            0 <= j < found.len() && (#[trigger] found[j]).sled_id == all[k].0
                && found[j].zones.contains(all[k].1);
        assert(c.omicron_zones.contains_value(found[j]));
        let s = choose|s: Uuid|
            #[trigger] c.omicron_zones.dom().contains(s) && c.omicron_zones[s] == found[j];
        assert(c.omicron_zones.contains_key(s));
        if all[k].1.nic is Some {
            let nic = all[k].1.nic->0;
            assert(nics.contains(nic));
            let m = nics.index_of(nic);
            assert(start.nics.contains_key(nics[m].id));
        }
    }
    assert forall|i: int, j: int|
        0 <= i < j < reply.len() && (#[trigger] reply[i]).nic_id is Some implies reply[i].nic_id
        != (#[trigger] reply[j]).nic_id by {
        let a = choose|a: int|
            0 <= a < all.len() && reply[i] == zone_row(c.id, (#[trigger] all[a]).0, all[a].1);
        let b = choose|b: int|
            0 <= b < all.len() && reply[j] == zone_row(c.id, (#[trigger] all[b]).0, all[b].1);
        assert(reply[i].id != reply[j].id);
        assert(a != b);
        if reply[i].nic_id == reply[j].nic_id {
            assert(all[a].1.nic is Some && all[b].1.nic is Some);
            if a < b {
                assert(all[a].1.nic->0.id != all[b].1.nic->0.id);
            } else {
                assert(all[b].1.nic->0.id != all[a].1.nic->0.id);
            }
        }
    }
    zones_are_placed(start, reply, reply.len());
    let state = placed_zones(start, reply, reply.len())->Ok_0;
    assert forall|x: Uuid| !state.nics.contains_key(x) by {
        if state.nics.contains_key(x) {
            assert(start.nics.contains_key(x));
            let m = choose|m: int| 0 <= m < nics.len() && (#[trigger] nics[m]).id == x;
            let k = choose|k: int|
                0 <= k < all.len() && (#[trigger] all[k]).1.nic == Some(nics[m]);
            let r = zone_row(c.id, all[k].0, all[k].1);
            assert(reply.contains(r));
            let i = reply.index_of(r);
            assert(reply[i].nic_id == Some(x));
        }
    }
    assert(state.nics =~= Map::<Uuid, ZoneNic>::empty());
    assert(zones_found(replies) == Ok::<Map<Uuid, OmicronZonesFoundView>, ReadErrorView>(state.sleds));
    assert forall|m: int| 0 <= m < all.len() implies ((#[trigger] all[m]).1.nic matches Some(nic)
        ==> start.nics[nic.id] == nic) by {
        if all[m].1.nic is Some {
            let nic = all[m].1.nic->0;
            assert(nics.contains(nic));
            let q = nics.index_of(nic);
            assert(start.nics[nics[q].id] == nics[q]);
        }
    }
    assert forall|k: Uuid| #[trigger] c.omicron_zones.contains_key(k) implies same_zones(
        c.omicron_zones[k],
        state.sleds[k],
    ) by {
        assert(state.sleds.contains_key(k));
        sled_comes_back(c, reply, start.nics, k);
    }
}

/// What is inserted can be read back: reading a collection right after it was inserted, with a limit
/// that is not reached, gives the collection, whatever else the database holds.
pub proof fn inserted_collection_reads_back(
    db: Database,
    rows: CollectionRows,
    c: CollectionView,
    limit: u32,
    replies: CollectionReplies,
)
    requires
        inserted_and_read(db, rows, c, limit, replies),
        consistent(c),
        finite(c),
    ensures
        assembled(c.id, replies) matches Ok(back) && same_collection(c, back),
{
    let db2 = db.with_rows(rows);
    tables_ready(db, rows, c);
    let matching = |r: InvCollection| r.id == c.id;
    assert(answers(replies.collections@, db2.collections, matching, 2));
    assert(db2.collections.contains(rows.collection));
    assert(matching(rows.collection));
    assert forall|i: int| 0 <= i < replies.collections@.len() implies #[trigger]
        replies.collections@[i] == rows.collection by {
        let r = replies.collections@[i];
        assert(matching(r));
        assert(db2.collections.contains(r));
    }
    if replies.collections@.len() == 2 {
        assert(replies.collections@[0] == replies.collections@[1]);
    }
    if replies.collections@.len() == 0 {
        assert(replies.collections@.contains(rows.collection));
    }
    assert(replies.collections@[0] == collection_row(c));
    first_half_comes_back(db, rows, c, limit, replies);
    cabooses_come_back(db, rows, c, limit, replies);
    rot_pages_come_back(db, rows, c, limit, replies);
    zones_come_back(db, rows, c, limit, replies);
    errors_come_back(db, rows, c, limit, replies);
}

/// Inserting a collection leaves the rows of every other collection as they were, and all the
/// hardware, images and pages that were there.
pub proof fn insertion_leaves_other_rows(
    db: Database,
    rows: CollectionRows,
    c: CollectionView,
    other: Uuid,
)
    requires
        rows_of(rows, c),
        other != c.id,
    ensures
        db.same_rows(db.with_rows(rows), other),
        db.keeps_contents(db.with_rows(rows)),
{
    let db2 = db.with_rows(rows);
    insertion_adds(db.hw_baseboards, new_hardware(rows.baseboards@));
    insertion_adds(db.sw_cabooses, new_cabooses(rows.cabooses@));
    insertion_adds(db.sw_rot_pages, new_rot_pages(rows.rot_pages@));
    let agents = values::<Uuid, SledAgentView>(c.sled_agents);
    agent_rows_are_parted(c.id, agents);
    assert forall|r: InvCollectionError| r.inv_collection_id == other implies (
    #[trigger] db.errors.contains(r) <==> db2.errors.contains(r)) by {
        if rows.errors@.contains(r) {
            let i = rows.errors@.index_of(r);
            assert(rows.errors@[i] == error_row(c, i));
        }
    }
    assert forall|r: InvSledAgent| r.inv_collection_id == other implies (
    #[trigger] db.sled_agents.contains(r) <==> db2.sled_agents.contains(r)) by {
        if rows.sled_agents_no_baseboards@.contains(r) {
            let i = rows.sled_agents_no_baseboards@.index_of(r);
            let unknown = unknown_hardware(c.id, agents);
            assert(unknown[i] == r);
            let j = choose|j: int|
                0 <= j < agents.len() && (#[trigger] agents[j]).baseboard_id is None && unknown[i]
                    == sled_agent_row(c.id, agents[j], None);
        } else if db2.sled_agents.contains(r) && !db.sled_agents.contains(r) {
            let hw = db2.hw_baseboards;
            let h = r.hw_baseboard_id->0;
            let n = choose|n: int|
                0 <= n < rows.sled_agents_baseboards@.len() && (
                #[trigger] rows.sled_agents_baseboards@[n]).baseboard@ == hw[h] && with_hardware(
                    rows.sled_agents_baseboards@[n].row,
                    h,
                ) == r;
            let known = known_hardware(c.id, agents);
            assert(agent_entries(rows.sled_agents_baseboards@)[n] == known[n]);
            let j = choose|j: int|
                0 <= j < agents.len() && (#[trigger] agents[j]).baseboard_id == Some(known[n].0)
                    && known[n].1 == sled_agent_row(c.id, agents[j], None);
        }
    }
    assert forall|r: InvSledOmicronZones| r.inv_collection_id == other implies (
    #[trigger] db.sled_zones.contains(r) <==> db2.sled_zones.contains(r)) by {
        if rows.sled_omicron_zones@.contains(r) {
            let i = rows.sled_omicron_zones@.index_of(r);
            assert(rows.sled_omicron_zones@[i].inv_collection_id == c.id);
        }
    }
    assert forall|r: InvOmicronZone| r.inv_collection_id == other implies (
    #[trigger] db.zones.contains(r) <==> db2.zones.contains(r)) by {
        if rows.omicron_zones@.contains(r) {
            let i = rows.omicron_zones@.index_of(r);
            assert(rows.omicron_zones@[i].inv_collection_id == c.id);
        }
    }
    assert forall|r: InvOmicronZoneNic| r.inv_collection_id == other implies (
    #[trigger] db.nics.contains(r) <==> db2.nics.contains(r)) by {
        if rows.omicron_zone_nics@.contains(r) {
            let i = rows.omicron_zone_nics@.index_of(r);
            assert(rows.omicron_zone_nics@[i].inv_collection_id == c.id);
        }
    }
}

/// What the rows of an inserted collection refer to is stored.
pub proof fn inserted_references_are_stored(db: Database, rows: CollectionRows, c: CollectionView)
    requires
        db.well_formed(),
        rows_of(rows, c),
        db.accepts(rows),
    ensures
        db.with_rows(rows).references_stored(c.id),
{
    let db2 = db.with_rows(rows);
    assert(!db.has_collection(c.id));
    assert(db.nothing_of(c.id));
    let agents = values::<Uuid, SledAgentView>(c.sled_agents);
    agent_rows_are_parted(c.id, agents);
    assert forall|r: InvSledAgent| #[trigger]
        db2.sled_agents.contains(r) && r.inv_collection_id == c.id implies (
    r.hw_baseboard_id matches Some(h) ==> db2.hw_baseboards.contains_key(h)) by {
        if rows.sled_agents_no_baseboards@.contains(r) {
            let i = rows.sled_agents_no_baseboards@.index_of(r);
            let unknown = unknown_hardware(c.id, agents);
            assert(unknown[i] == r);
            let j = choose|j: int|
                0 <= j < agents.len() && (#[trigger] agents[j]).baseboard_id is None && unknown[i]
                    == sled_agent_row(c.id, agents[j], None);
        }
    }
}

/// Inserting a collection keeps the database well formed: hardware, images and pages stay distinct,
/// and every row belongs to a collection.
pub proof fn insertion_keeps_the_database_well_formed(
    db: Database,
    rows: CollectionRows,
    c: CollectionView,
)
    requires
        db.well_formed(),
        rows_of(rows, c),
        fresh_ids(db, rows),
        finite(c),
        db.accepts(rows),
    ensures
        db.with_rows(rows).well_formed(),
        db.with_rows(rows).has_collection(c.id),
{
    let db2 = db.with_rows(rows);
    tables_ready(db, rows, c);
    assert(db2.collections.contains(rows.collection));
    assert forall|id: Uuid| !db2.has_collection(id) implies #[trigger] db2.nothing_of(id) by {
        assert(id != c.id);
        assert(!db.has_collection(id)) by {
            if db.has_collection(id) {
                let r = choose|r: InvCollection| #[trigger] db.collections.contains(r) && r.id == id;
                assert(db2.collections.contains(r));
            }
        }
        insertion_leaves_other_rows(db, rows, c, id);
        assert(db.nothing_of(id));
    }
}

/// A collection that is there cannot be inserted again.
pub proof fn a_collection_is_inserted_once(db: Database, rows: CollectionRows)
    requires
        db.has_collection(rows.collection.id),
    ensures
        db.insert(rows) is None,
{
}

/// Inserting a collection re-uses the hardware that is there: afterwards the table holds the
/// hardware that it held, under the same ids, and that of the collection, each of them once.
pub proof fn hardware_is_reused(db: Database, rows: CollectionRows, c: CollectionView)
    requires
        db.well_formed(),
        rows_of(rows, c),
        fresh_ids(db, rows),
        finite(c),
        db.accepts(rows),
    ensures
        distinct_contents(db.with_rows(rows).hw_baseboards),
        db.hw_baseboards.submap_of(db.with_rows(rows).hw_baseboards),
        forall|b: BaseboardIdView|
            db.with_rows(rows).hw_baseboards.contains_value(b) <==> db.hw_baseboards.contains_value(
                b,
            ) || c.baseboards.contains(b),
{
    let db2 = db.with_rows(rows);
    tables_ready(db, rows, c);
    order_exists::<BaseboardId>(c.baseboards);
    let new = new_hardware(rows.baseboards@);
    insertion_adds(db.hw_baseboards, new);
    assert forall|b: BaseboardIdView|
        db2.hw_baseboards.contains_value(b) <==> db.hw_baseboards.contains_value(b)
            || c.baseboards.contains(b) by {
        if db2.hw_baseboards.contains_value(b) && !db.hw_baseboards.contains_value(b) {
            let i = choose|i: int| 0 <= i < new.len() && (#[trigger] new[i]).1 == b;
            let keys = in_order::<BaseboardId>(c.baseboards);
            assert(rows.baseboards@.map_values(|r: HwBaseboardId| r.baseboard@)[i] == b);
            assert(c.baseboards.contains(keys[i]));
        }
        if db.hw_baseboards.contains_value(b) {
            let h = choose|h: Uuid|
                #[trigger] db.hw_baseboards.dom().contains(h) && db.hw_baseboards[h] == b;
            assert(db.hw_baseboards.submap_of(db2.hw_baseboards));
            assert(db2.hw_baseboards.dom().contains(h));
        }
    }
}

/// Insertion adds contents of the new rows only, and changes nothing that is there.
proof fn insertion_adds<T>(table: Map<Uuid, T>, rows: Seq<(Uuid, T)>)
    ensures
        table.submap_of(insert_new(table, rows)),
        forall|x: T|
            insert_new(table, rows).contains_value(x) ==> table.contains_value(x) || exists|i: int|
                0 <= i < rows.len() && (#[trigger] rows[i]).1 == x,
    decreases rows.len(),
{
    if rows.len() > 0 {
        let rest = rows.drop_last();
        insertion_adds(table, rest);
        let before = insert_new(table, rest);
        let after = insert_new(table, rows);
        assert(rows[rows.len() - 1] == rows.last());
        assert forall|x: T| after.contains_value(x) implies table.contains_value(x) || exists|i: int|
            0 <= i < rows.len() && (#[trigger] rows[i]).1 == x by {
            let k = choose|k: Uuid| #[trigger] after.dom().contains(k) && after[k] == x;
            if before.dom().contains(k) && before[k] == x {
                assert(before.contains_value(x));
                if !table.contains_value(x) {
                    let i = choose|i: int| 0 <= i < rest.len() && (#[trigger] rest[i]).1 == x;
                    assert(rows[i].1 == x);
                }
            } else {
                assert(rows[rows.len() - 1].1 == x);
            }
        }
    }
}

} // verus!
