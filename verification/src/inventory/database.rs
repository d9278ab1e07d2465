//! The database that keeps collections: what it holds, and what inserting, deleting and selecting
//! mean.

use vstd::prelude::*;

use crate::ids::Uuid;
use crate::inventory::read::{assembled, hardware_ids, CollectionReplies, ReadErrorView};
use crate::inventory::rows::{
    CollectionRows, HwBaseboardId, InvCaboose, InvCollection, InvCollectionError, InvOmicronZone,
    InvOmicronZoneNic, InvRootOfTrust, InvRotPage, InvServiceProcessor, InvSledAgent,
    InvSledOmicronZones, SwCaboose, SwRotPage,
};
use crate::inventory::types::{BaseboardIdView, CabooseView, CollectionView};

verus! {

/// The tables of the database, each as the set of its rows. The tables of hardware, images and pages
/// map ids to contents.
#[verifier::ext_equal]
pub ghost struct Database {
    pub hw_baseboards: Map<Uuid, BaseboardIdView>,
    pub sw_cabooses: Map<Uuid, CabooseView>,
    pub sw_rot_pages: Map<Uuid, Seq<char>>,
    pub collections: Set<InvCollection>,
    pub errors: Set<InvCollectionError>,
    pub sps: Set<InvServiceProcessor>,
    pub rots: Set<InvRootOfTrust>,
    pub cabooses: Set<InvCaboose>,
    pub rot_pages: Set<InvRotPage>,
    pub sled_agents: Set<InvSledAgent>,
    pub sled_zones: Set<InvSledOmicronZones>,
    pub zones: Set<InvOmicronZone>,
    pub nics: Set<InvOmicronZoneNic>,
}

/// No two ids have the same contents.
pub open spec fn distinct_contents<T>(table: Map<Uuid, T>) -> bool {
    forall|a: Uuid, b: Uuid|
        #![trigger table[a], table[b]]
        table.contains_key(a) && table.contains_key(b) && table[a] == table[b] ==> a == b
}

impl Database {
    /// A collection with the id is there.
    pub open spec fn has_collection(self, id: Uuid) -> bool {
        exists|c: InvCollection| #[trigger] self.collections.contains(c) && c.id == id
    }

    /// No row belongs to the collection.
    pub open spec fn nothing_of(self, id: Uuid) -> bool {
        &&& forall|r: InvCollection| #[trigger] self.collections.contains(r) ==> r.id != id
        &&& forall|r: InvCollectionError|
            #[trigger] self.errors.contains(r) ==> r.inv_collection_id != id
        &&& forall|r: InvServiceProcessor|
            #[trigger] self.sps.contains(r) ==> r.inv_collection_id != id
        &&& forall|r: InvRootOfTrust| #[trigger] self.rots.contains(r) ==> r.inv_collection_id != id
        &&& forall|r: InvCaboose| #[trigger] self.cabooses.contains(r) ==> r.inv_collection_id != id
        &&& forall|r: InvRotPage|
            #[trigger] self.rot_pages.contains(r) ==> r.inv_collection_id != id
        &&& forall|r: InvSledAgent|
            #[trigger] self.sled_agents.contains(r) ==> r.inv_collection_id != id
        &&& forall|r: InvSledOmicronZones|
            #[trigger] self.sled_zones.contains(r) ==> r.inv_collection_id != id
        &&& forall|r: InvOmicronZone|
            #[trigger] self.zones.contains(r) ==> r.inv_collection_id != id
        &&& forall|r: InvOmicronZoneNic|
            #[trigger] self.nics.contains(r) ==> r.inv_collection_id != id
    }

    /// Hardware, images and pages are there once each, and every row belongs to a collection.
    pub open spec fn well_formed(self) -> bool {
        &&& distinct_contents(self.hw_baseboards)
        &&& distinct_contents(self.sw_cabooses)
        &&& distinct_contents(self.sw_rot_pages)
        &&& forall|id: Uuid| !self.has_collection(id) ==> #[trigger] self.nothing_of(id)
    }
}

impl Database {
    /// What the rows of the collection refer to is stored: hardware, images and pages.
    pub open spec fn references_stored(self, id: Uuid) -> bool {
        &&& forall|r: InvServiceProcessor| #[trigger]
            self.sps.contains(r) && r.inv_collection_id == id ==> self.hw_baseboards.contains_key(
                r.hw_baseboard_id,
            )
        &&& forall|r: InvRootOfTrust| #[trigger]
            self.rots.contains(r) && r.inv_collection_id == id ==> self.hw_baseboards.contains_key(
                r.hw_baseboard_id,
            )
        &&& forall|r: InvSledAgent| #[trigger]
            self.sled_agents.contains(r) && r.inv_collection_id == id ==> (
            r.hw_baseboard_id matches Some(h) ==> self.hw_baseboards.contains_key(h))
        &&& forall|r: InvCaboose| #[trigger]
            self.cabooses.contains(r) && r.inv_collection_id == id
                ==> self.hw_baseboards.contains_key(r.hw_baseboard_id)
                && self.sw_cabooses.contains_key(r.sw_caboose_id)
        &&& forall|r: InvRotPage| #[trigger]
            self.rot_pages.contains(r) && r.inv_collection_id == id
                ==> self.hw_baseboards.contains_key(r.hw_baseboard_id)
                && self.sw_rot_pages.contains_key(r.sw_root_of_trust_page_id)
    }

    /// The two databases hold the same rows of the collection.
    pub open spec fn same_rows(self, other: Database, id: Uuid) -> bool {
        &&& forall|r: InvCollection|
            r.id == id ==> (#[trigger] self.collections.contains(r) <==> other.collections.contains(r))
        &&& forall|r: InvCollectionError|
            r.inv_collection_id == id ==> (#[trigger] self.errors.contains(r) <==> other.errors.contains(r))
        &&& forall|r: InvServiceProcessor|
            r.inv_collection_id == id ==> (#[trigger] self.sps.contains(r) <==> other.sps.contains(r))
        &&& forall|r: InvRootOfTrust|
            r.inv_collection_id == id ==> (#[trigger] self.rots.contains(r) <==> other.rots.contains(r))
        &&& forall|r: InvCaboose|
            r.inv_collection_id == id ==> (#[trigger] self.cabooses.contains(r) <==> other.cabooses.contains(r))
        &&& forall|r: InvRotPage|
            r.inv_collection_id == id ==> (#[trigger] self.rot_pages.contains(r) <==> other.rot_pages.contains(r))
        &&& forall|r: InvSledAgent|
            r.inv_collection_id == id ==> (#[trigger] self.sled_agents.contains(r) <==> other.sled_agents.contains(r))
        &&& forall|r: InvSledOmicronZones|
            r.inv_collection_id == id ==> (#[trigger] self.sled_zones.contains(r) <==> other.sled_zones.contains(r))
        &&& forall|r: InvOmicronZone|
            r.inv_collection_id == id ==> (#[trigger] self.zones.contains(r) <==> other.zones.contains(r))
        &&& forall|r: InvOmicronZoneNic|
            r.inv_collection_id == id ==> (#[trigger] self.nics.contains(r) <==> other.nics.contains(r))
    }

    /// The other database holds the hardware, images and pages of this one, under the same ids.
    pub open spec fn keeps_contents(self, other: Database) -> bool {
        &&& self.hw_baseboards.submap_of(other.hw_baseboards)
        &&& self.sw_cabooses.submap_of(other.sw_cabooses)
        &&& self.sw_rot_pages.submap_of(other.sw_rot_pages)
    }
}

/// The table after these rows were inserted, but for those whose id or contents are there.
pub open spec fn insert_new<T>(table: Map<Uuid, T>, rows: Seq<(Uuid, T)>) -> Map<Uuid, T>
    decreases rows.len(),
{
    if rows.len() == 0 {
        table
    } else {
        let before = insert_new(table, rows.drop_last());
        let (id, contents) = rows.last();
        if before.contains_key(id) || before.contains_value(contents) {
            before
        } else {
            before.insert(id, contents)
        }
    }
}

/// The ids and the hardware of the rows.
pub open spec fn new_hardware(rows: Seq<HwBaseboardId>) -> Seq<(Uuid, BaseboardIdView)> {
    rows.map_values(|r: HwBaseboardId| (r.id, r.baseboard@))
}

/// The ids and the images of the rows.
pub open spec fn new_cabooses(rows: Seq<SwCaboose>) -> Seq<(Uuid, CabooseView)> {
    rows.map_values(|r: SwCaboose| (r.id, r.caboose@))
}

/// The ids and the pages of the rows.
pub open spec fn new_rot_pages(rows: Seq<SwRotPage>) -> Seq<(Uuid, Seq<char>)> {
    rows.map_values(|r: SwRotPage| (r.id, r.page@))
}

/// The row of the sled agent with its hardware looked up.
pub open spec fn with_hardware(row: InvSledAgent, hw: Uuid) -> InvSledAgent {
    InvSledAgent { hw_baseboard_id: Some(hw), ..row }
}

impl Database {
    /// The rows break no primary key.
    pub open spec fn accepts(self, rows: CollectionRows) -> bool {
        &&& !self.has_collection(rows.collection.id)
        &&& forall|i: int, j: int|
            0 <= i < j < rows.sled_agents_baseboards@.len() ==> (
            #[trigger] rows.sled_agents_baseboards@[i]).row.sled_id != (
            #[trigger] rows.sled_agents_baseboards@[j]).row.sled_id
        &&& forall|i: int, j: int|
            0 <= i < j < rows.sled_agents_no_baseboards@.len() ==> (
            #[trigger] rows.sled_agents_no_baseboards@[i]).sled_id != (
            #[trigger] rows.sled_agents_no_baseboards@[j]).sled_id
        &&& forall|i: int, j: int|
            0 <= i < rows.sled_agents_baseboards@.len() && 0 <= j
                < rows.sled_agents_no_baseboards@.len() ==> (
            #[trigger] rows.sled_agents_baseboards@[i]).row.sled_id != (
            #[trigger] rows.sled_agents_no_baseboards@[j]).sled_id
        &&& forall|i: int, j: int|
            0 <= i < j < rows.sled_omicron_zones@.len() ==> (
            #[trigger] rows.sled_omicron_zones@[i]).sled_id != (
            #[trigger] rows.sled_omicron_zones@[j]).sled_id
        &&& forall|i: int, j: int|
            0 <= i < j < rows.omicron_zones@.len() ==> (#[trigger] rows.omicron_zones@[i]).id != (
            #[trigger] rows.omicron_zones@[j]).id
        &&& forall|i: int, j: int|
            0 <= i < j < rows.omicron_zone_nics@.len() ==> (
            #[trigger] rows.omicron_zone_nics@[i]).nic.id != (
            #[trigger] rows.omicron_zone_nics@[j]).nic.id
    }

    /// The database after the rows of a collection were inserted. A row whose hardware, image or
    /// page is still to be looked up goes in once for each match in the table, and so not at all
    /// where there is none.
    pub open spec fn with_rows(self, rows: CollectionRows) -> Database {
        let id = rows.collection.id;
        let hw = insert_new(self.hw_baseboards, new_hardware(rows.baseboards@));
        let sw = insert_new(self.sw_cabooses, new_cabooses(rows.cabooses@));
        let pages = insert_new(self.sw_rot_pages, new_rot_pages(rows.rot_pages@));
        Database {
            hw_baseboards: hw,
            sw_cabooses: sw,
            sw_rot_pages: pages,
            collections: self.collections.insert(rows.collection),
            errors: self.errors.union(rows.errors@.to_set()),
            sps: self.sps.union(
                Set::new(
                    |r: InvServiceProcessor|
                        r.inv_collection_id == id && hw.contains_key(r.hw_baseboard_id) && exists|
                            i: int,
                        |
                            0 <= i < rows.sps@.len() && (#[trigger] rows.sps@[i]).baseboard@
                                == hw[r.hw_baseboard_id] && rows.sps@[i].sp == r.sp,
                ),
            ),
            rots: self.rots.union(
                Set::new(
                    |r: InvRootOfTrust|
                        r.inv_collection_id == id && hw.contains_key(r.hw_baseboard_id) && exists|
                            i: int,
                        |
                            0 <= i < rows.rots@.len() && (#[trigger] rows.rots@[i]).baseboard@
                                == hw[r.hw_baseboard_id] && rows.rots@[i].rot == r.rot,
                ),
            ),
            cabooses: self.cabooses.union(
                Set::new(
                    |r: InvCaboose|
                        r.inv_collection_id == id && hw.contains_key(r.hw_baseboard_id)
                            && sw.contains_key(r.sw_caboose_id) && exists|i: int|
                            0 <= i < rows.cabooses_found@.len() && (
                            #[trigger] rows.cabooses_found@[i]).baseboard@ == hw[r.hw_baseboard_id]
                                && rows.cabooses_found@[i].caboose@ == sw[r.sw_caboose_id]
                                && rows.cabooses_found@[i].which == r.which
                                && rows.cabooses_found@[i].time_collected == r.time_collected
                                && rows.cabooses_found@[i].source == r.source,
                ),
            ),
            rot_pages: self.rot_pages.union(
                Set::new(
                    |r: InvRotPage|
                        r.inv_collection_id == id && hw.contains_key(r.hw_baseboard_id)
                            && pages.contains_key(r.sw_root_of_trust_page_id) && exists|i: int|
                            0 <= i < rows.rot_pages_found@.len() && (
                            #[trigger] rows.rot_pages_found@[i]).baseboard@ == hw[r.hw_baseboard_id]
                                && rows.rot_pages_found@[i].page@
                                == pages[r.sw_root_of_trust_page_id]
                                && rows.rot_pages_found@[i].which == r.which
                                && rows.rot_pages_found@[i].time_collected == r.time_collected
                                && rows.rot_pages_found@[i].source == r.source,
                ),
            ),
            sled_agents: self.sled_agents.union(
                rows.sled_agents_no_baseboards@.to_set(),
            ).union(
                Set::new(
                    |r: InvSledAgent|
                        r.hw_baseboard_id matches Some(h) && hw.contains_key(h) && exists|i: int|
                            0 <= i < rows.sled_agents_baseboards@.len() && (
                            #[trigger] rows.sled_agents_baseboards@[i]).baseboard@ == hw[h]
                                && with_hardware(rows.sled_agents_baseboards@[i].row, h) == r,
                ),
            ),
            sled_zones: self.sled_zones.union(rows.sled_omicron_zones@.to_set()),
            zones: self.zones.union(rows.omicron_zones@.to_set()),
            nics: self.nics.union(rows.omicron_zone_nics@.to_set()),
        }
    }

    /// What inserting the rows of a collection does: nothing, where they break a primary key.
    pub open spec fn insert(self, rows: CollectionRows) -> Option<Database> {
        if self.accepts(rows) {
            Some(self.with_rows(rows))
        } else {
            None
        }
    }
}

/// A reply to a query with a limit: matching rows, each once, and all of them where the limit was
/// not reached.
pub open spec fn answers<R>(
    reply: Seq<R>,
    table: Set<R>,
    matching: spec_fn(R) -> bool,
    limit: nat,
) -> bool {
    &&& reply.no_duplicates()
    &&& reply.len() <= limit
    &&& forall|i: int| 0 <= i < reply.len() ==> table.contains(#[trigger] reply[i])
    &&& forall|i: int| 0 <= i < reply.len() ==> matching(#[trigger] reply[i])
    &&& reply.len() < limit ==> forall|r: R|
        #[trigger] table.contains(r) && matching(r) ==> reply.contains(r)
}

/// A reply to a query for the rows with certain ids.
pub open spec fn answers_by_id<T>(
    reply: Seq<(Uuid, T)>,
    table: Map<Uuid, T>,
    ids: Set<Uuid>,
    limit: nat,
) -> bool {
    &&& forall|i: int, j: int|
        0 <= i < j < reply.len() ==> (#[trigger] reply[i]).0 != (#[trigger] reply[j]).0
    &&& reply.len() <= limit
    &&& forall|i: int|
        0 <= i < reply.len() ==> ids.contains((#[trigger] reply[i]).0) && table.contains_key(
            reply[i].0,
        ) && table[reply[i].0] == reply[i].1
    &&& reply.len() < limit ==> forall|id: Uuid|
        ids.contains(id) && table.contains_key(id) ==> exists|i: int|
            0 <= i < reply.len() && (#[trigger] reply[i]).0 == id
}

impl Database {
    /// The replies are what the database answers to the queries for a collection.
    pub open spec fn gives(self, id: Uuid, limit: u32, replies: CollectionReplies) -> bool {
        let n = limit as nat;
        &&& answers(replies.collections@, self.collections, |r: InvCollection| r.id == id, 2)
        &&& answers(
            replies.errors@,
            self.errors,
            |r: InvCollectionError| r.inv_collection_id == id,
            n,
        )
        &&& forall|i: int, j: int|
            0 <= i < j < replies.errors@.len() ==> (#[trigger] replies.errors@[i]).idx <= (
            #[trigger] replies.errors@[j]).idx
        &&& answers(
            replies.sps@,
            self.sps,
            |r: InvServiceProcessor| r.inv_collection_id == id,
            n,
        )
        &&& answers(replies.rots@, self.rots, |r: InvRootOfTrust| r.inv_collection_id == id, n)
        &&& answers(
            replies.sled_agents@,
            self.sled_agents,
            |r: InvSledAgent| r.inv_collection_id == id,
            n,
        )
        &&& answers_by_id(
            new_hardware(replies.baseboards@),
            self.hw_baseboards,
            hardware_ids(replies.sps@, replies.rots@, replies.sled_agents@),
            n,
        )
        &&& answers(
            replies.cabooses_found@,
            self.cabooses,
            |r: InvCaboose| r.inv_collection_id == id,
            n,
        )
        &&& answers_by_id(
            new_cabooses(replies.cabooses@),
            self.sw_cabooses,
            replies.cabooses_found@.map_values(|r: InvCaboose| r.sw_caboose_id).to_set(),
            n,
        )
        &&& answers(
            replies.rot_pages_found@,
            self.rot_pages,
            |r: InvRotPage| r.inv_collection_id == id,
            n,
        )
        &&& answers_by_id(
            new_rot_pages(replies.rot_pages@),
            self.sw_rot_pages,
            replies.rot_pages_found@.map_values(
                |r: InvRotPage| r.sw_root_of_trust_page_id,
            ).to_set(),
            n,
        )
        &&& answers(
            replies.sled_omicron_zones@,
            self.sled_zones,
            |r: InvSledOmicronZones| r.inv_collection_id == id,
            n,
        )
        &&& answers(
            replies.omicron_zone_nics@,
            self.nics,
            |r: InvOmicronZoneNic| r.inv_collection_id == id,
            n,
        )
        &&& answers(
            replies.omicron_zones@,
            self.zones,
            |r: InvOmicronZone| r.inv_collection_id == id,
            n,
        )
    }
}

/// The tables whose rows belong to collections.
#[derive(Debug, Clone, Copy, PartialEq, Eq, Structural)]
pub enum InvTable {
    Collection,
    ServiceProcessor,
    RootOfTrust,
    Caboose,
    RootOfTrustPage,
    SledAgent,
    SledOmicronZones,
    OmicronZone,
    OmicronZoneNic,
    CollectionError,
}

impl Database {
    /// The database after the rows of a collection were deleted from one table.
    pub open spec fn delete_from(self, table: InvTable, id: Uuid) -> Database {
        match table {
            InvTable::Collection => Database {
                collections: self.collections.filter(|r: InvCollection| r.id != id),
                ..self
            },
            InvTable::ServiceProcessor => Database {
                sps: self.sps.filter(|r: InvServiceProcessor| r.inv_collection_id != id),
                ..self
            },
            InvTable::RootOfTrust => Database {
                rots: self.rots.filter(|r: InvRootOfTrust| r.inv_collection_id != id),
                ..self
            },
            InvTable::Caboose => Database {
                cabooses: self.cabooses.filter(|r: InvCaboose| r.inv_collection_id != id),
                ..self
            },
            InvTable::RootOfTrustPage => Database {
                rot_pages: self.rot_pages.filter(|r: InvRotPage| r.inv_collection_id != id),
                ..self
            },
            InvTable::SledAgent => Database {
                sled_agents: self.sled_agents.filter(
                    |r: InvSledAgent| r.inv_collection_id != id,
                ),
                ..self
            },
            InvTable::SledOmicronZones => Database {
                sled_zones: self.sled_zones.filter(
                    |r: InvSledOmicronZones| r.inv_collection_id != id,
                ),
                ..self
            },
            InvTable::OmicronZone => Database {
                zones: self.zones.filter(|r: InvOmicronZone| r.inv_collection_id != id),
                ..self
            },
            InvTable::OmicronZoneNic => Database {
                nics: self.nics.filter(|r: InvOmicronZoneNic| r.inv_collection_id != id),
                ..self
            },
            InvTable::CollectionError => Database {
                errors: self.errors.filter(|r: InvCollectionError| r.inv_collection_id != id),
                ..self
            },
        }
    }

    /// The database after the rows of a collection were deleted from these tables.
    pub open spec fn delete_from_all(self, tables: Seq<InvTable>, id: Uuid) -> Database
        decreases tables.len(),
    {
        if tables.len() == 0 {
            self
        } else {
            self.delete_from_all(tables.drop_last(), id).delete_from(tables.last(), id)
        }
    }

    /// The database without the rows of a collection.
    pub open spec fn without(self, id: Uuid) -> Database {
        Database {
            collections: self.collections.filter(|r: InvCollection| r.id != id),
            errors: self.errors.filter(|r: InvCollectionError| r.inv_collection_id != id),
            sps: self.sps.filter(|r: InvServiceProcessor| r.inv_collection_id != id),
            rots: self.rots.filter(|r: InvRootOfTrust| r.inv_collection_id != id),
            cabooses: self.cabooses.filter(|r: InvCaboose| r.inv_collection_id != id),
            rot_pages: self.rot_pages.filter(|r: InvRotPage| r.inv_collection_id != id),
            sled_agents: self.sled_agents.filter(|r: InvSledAgent| r.inv_collection_id != id),
            sled_zones: self.sled_zones.filter(|r: InvSledOmicronZones| r.inv_collection_id != id),
            zones: self.zones.filter(|r: InvOmicronZone| r.inv_collection_id != id),
            nics: self.nics.filter(|r: InvOmicronZoneNic| r.inv_collection_id != id),
            ..self
        }
    }
}

/// The tables from which the rows of a collection have to be deleted.
pub open spec fn deletion_tables() -> Seq<InvTable> {
    seq![
        InvTable::Collection,
        InvTable::ServiceProcessor,
        InvTable::RootOfTrust,
        InvTable::Caboose,
        InvTable::RootOfTrustPage,
        InvTable::SledAgent,
        InvTable::SledOmicronZones,
        InvTable::OmicronZone,
        InvTable::OmicronZoneNic,
        InvTable::CollectionError,
    ]
}

/// Lists the tables from which the rows of a collection have to be deleted.
pub fn tables_to_delete_from() -> (tables: Vec<InvTable>)
    ensures
        tables@ == deletion_tables(),
{
    let mut tables: Vec<InvTable> = Vec::new();
    tables.push(InvTable::Collection);
    tables.push(InvTable::ServiceProcessor);
    tables.push(InvTable::RootOfTrust);
    tables.push(InvTable::Caboose);
    tables.push(InvTable::RootOfTrustPage);
    tables.push(InvTable::SledAgent);
    tables.push(InvTable::SledOmicronZones);
    tables.push(InvTable::OmicronZone);
    tables.push(InvTable::OmicronZoneNic);
    tables.push(InvTable::CollectionError);
    assert(tables@ =~= deletion_tables());
    tables
}

/// Deleting a collection removes all of its rows, and nothing else: hardware, images and pages stay.
pub proof fn deletion_is_complete(db: Database, id: Uuid)
    ensures
        db.delete_from_all(deletion_tables(), id) == db.without(id),
        db.without(id).nothing_of(id),
        db.without(id).hw_baseboards == db.hw_baseboards,
        db.without(id).sw_cabooses == db.sw_cabooses,
        db.without(id).sw_rot_pages == db.sw_rot_pages,
{
    reveal_with_fuel(Database::delete_from_all, 11);
    let all = deletion_tables();
    let t9 = all.drop_last();
    let t8 = t9.drop_last();
    let t7 = t8.drop_last();
    let t6 = t7.drop_last();
    let t5 = t6.drop_last();
    let t4 = t5.drop_last();
    let t3 = t4.drop_last();
    let t2 = t3.drop_last();
    let t1 = t2.drop_last();
    let t0 = t1.drop_last();
    assert(t0.len() == 0);
    assert(db.delete_from_all(all, id) =~= db.without(id));
}

/// Rows that no query asks for do not change its answers.
proof fn answers_without<R>(
    reply: Seq<R>,
    table: Set<R>,
    kept: spec_fn(R) -> bool,
    matching: spec_fn(R) -> bool,
    limit: nat,
)
    requires
        forall|r: R| matching(r) ==> #[trigger] kept(r),
    ensures
        answers(reply, table.filter(kept), matching, limit) <==> answers(
            reply,
            table,
            matching,
            limit,
        ),
{
    let few = table.filter(kept);
    assert forall|r: R| matching(r) implies (#[trigger] few.contains(r) <==> table.contains(r)) by {
        assert(kept(r));
    }
    if answers(reply, table, matching, limit) {
        assert forall|i: int| 0 <= i < reply.len() implies few.contains(#[trigger] reply[i]) by {
            assert(table.contains(reply[i]) && matching(reply[i]));
        }
    }
    if answers(reply, few, matching, limit) {
        if reply.len() < limit {
            assert forall|r: R| #[trigger] table.contains(r) && matching(r) implies reply.contains(
                r,
            ) by {
                assert(few.contains(r));
            }
        }
    }
}

/// Deleting a collection leaves every other collection as it was: the same queries get the same
/// answers.
pub proof fn deletion_leaves_others(
    db: Database,
    id: Uuid,
    other: Uuid,
    limit: u32,
    replies: CollectionReplies,
)
    requires
        other != id,
    ensures
        db.without(id).gives(other, limit, replies) <==> db.gives(other, limit, replies),
{
    let n = limit as nat;
    answers_without(
        replies.collections@,
        db.collections,
        |r: InvCollection| r.id != id,
        |r: InvCollection| r.id == other,
        2,
    );
    answers_without(
        replies.errors@,
        db.errors,
        |r: InvCollectionError| r.inv_collection_id != id,
        |r: InvCollectionError| r.inv_collection_id == other,
        n,
    );
    answers_without(
        replies.sps@,
        db.sps,
        |r: InvServiceProcessor| r.inv_collection_id != id,
        |r: InvServiceProcessor| r.inv_collection_id == other,
        n,
    );
    answers_without(
        replies.rots@,
        db.rots,
        |r: InvRootOfTrust| r.inv_collection_id != id,
        |r: InvRootOfTrust| r.inv_collection_id == other,
        n,
    );
    answers_without(
        replies.sled_agents@,
        db.sled_agents,
        |r: InvSledAgent| r.inv_collection_id != id,
        |r: InvSledAgent| r.inv_collection_id == other,
        n,
    );
    answers_without(
        replies.cabooses_found@,
        db.cabooses,
        |r: InvCaboose| r.inv_collection_id != id,
        |r: InvCaboose| r.inv_collection_id == other,
        n,
    );
    answers_without(
        replies.rot_pages_found@,
        db.rot_pages,
        |r: InvRotPage| r.inv_collection_id != id,
        |r: InvRotPage| r.inv_collection_id == other,
        n,
    );
    answers_without(
        replies.sled_omicron_zones@,
        db.sled_zones,
        |r: InvSledOmicronZones| r.inv_collection_id != id,
        |r: InvSledOmicronZones| r.inv_collection_id == other,
        n,
    );
    answers_without(
        replies.omicron_zone_nics@,
        db.nics,
        |r: InvOmicronZoneNic| r.inv_collection_id != id,
        |r: InvOmicronZoneNic| r.inv_collection_id == other,
        n,
    );
    answers_without(
        replies.omicron_zones@,
        db.zones,
        |r: InvOmicronZone| r.inv_collection_id != id,
        |r: InvOmicronZone| r.inv_collection_id == other,
        n,
    );
}

/// A deleted collection cannot be read any more.
pub proof fn deleted_collection_is_not_found(
    db: Database,
    id: Uuid,
    limit: u32,
    replies: CollectionReplies,
)
    requires
        db.without(id).gives(id, limit, replies),
    ensures
        assembled(id, replies) == Err::<CollectionView, ReadErrorView>(
            ReadErrorView::CollectionCount { found: 0 },
        ),
{
    if replies.collections@.len() > 0 {
        assert(db.without(id).collections.contains(replies.collections@[0]));
    }
}

} // verus!
