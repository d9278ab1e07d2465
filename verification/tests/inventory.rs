//! Inventory collections: how they are stored, read back, pruned and deleted.

use omicron::inventory::database::{tables_to_delete_from, InvTable};
use omicron::inventory::prune::{candidates_limit, find_pruneable, Candidate};
use omicron::inventory::read::{
    baseboards_to_fetch, cabooses_to_fetch, read_all_or_nothing, read_best_effort,
    rot_pages_to_fetch, CollectionReplies, ReadError,
};
use omicron::inventory::rows::{
    CollectionRows, HwBaseboardId, InsertError, InvCaboose, InvCollection, InvCollectionError,
    InvOmicronZone, InvOmicronZoneNic, InvRootOfTrust, InvRotPage, InvServiceProcessor,
    InvSledAgent, InvSledOmicronZones, SwCaboose, SwRotPage, Unstorable,
};
use omicron::inventory::types::{
    BaseboardId, Caboose, CabooseFound, CaboosePlace, CabooseWhich, Collection,
    OmicronZoneConfig, OmicronZonesFound, PowerState, RotPage, RotPageFound, RotPagePlace,
    RotPageWhich, RotSlot, RotState, ServiceAddress, ServiceProcessor, SledAgent, SledRole,
    SocketAddrV6, SpType, ZoneDetails, ZoneNic, ZoneType,
};
use omicron::net::IpAddr;
use omicron::ordmap::OrdMap;
use omicron::time::Timestamp;
use std::sync::Arc;

fn text(s: &str) -> String {
    s.to_string()
}

fn time(secs: i64) -> Timestamp {
    Timestamp { secs, nanos: 0 }
}

fn board(serial: &str) -> BaseboardId {
    BaseboardId { part_number: text("part"), serial_number: text(serial) }
}

fn caboose(name: &str) -> Caboose {
    Caboose {
        board: text("board"),
        git_commit: text("commit"),
        name: text(name),
        version: text("1.0"),
    }
}

fn page(data: &str) -> RotPage {
    RotPage { data_base64: text(data) }
}

/// A database in memory.
#[derive(Default)]
struct Db {
    hw: Vec<HwBaseboardId>,
    sw_cabooses: Vec<SwCaboose>,
    sw_pages: Vec<SwRotPage>,
    collections: Vec<InvCollection>,
    errors: Vec<InvCollectionError>,
    sps: Vec<InvServiceProcessor>,
    rots: Vec<InvRootOfTrust>,
    cabooses: Vec<InvCaboose>,
    pages: Vec<InvRotPage>,
    agents: Vec<InvSledAgent>,
    sled_zones: Vec<InvSledOmicronZones>,
    zones: Vec<InvOmicronZone>,
    nics: Vec<InvOmicronZoneNic>,
}

impl Db {
    fn hw_id(&self, b: &BaseboardId) -> u128 {
        self.hw.iter().find(|r| r.baseboard == *b).unwrap().id
    }

    fn insert(&mut self, c: &Collection) -> Result<(), String> {
        let rows = CollectionRows::new(c, &storable()).map_err(|e| e.message())?;
        if self.collections.iter().any(|r| r.id == rows.collection.id) {
            return Err(text("duplicate key value violates unique constraint"));
        }
        let id = rows.collection.id;
        for r in rows.baseboards {
            if !self.hw.iter().any(|h| h.baseboard == r.baseboard) {
                self.hw.push(r);
            }
        }
        for r in rows.cabooses {
            if !self.sw_cabooses.iter().any(|h| h.caboose == r.caboose) {
                self.sw_cabooses.push(r);
            }
        }
        for r in rows.rot_pages {
            if !self.sw_pages.iter().any(|h| h.page == r.page) {
                self.sw_pages.push(r);
            }
        }
        self.collections.push(rows.collection);
        for r in rows.sps {
            let hw_baseboard_id = self.hw_id(&r.baseboard);
            self.sps.push(InvServiceProcessor { inv_collection_id: id, hw_baseboard_id, sp: r.sp });
        }
        for r in rows.rots {
            let hw_baseboard_id = self.hw_id(&r.baseboard);
            self.rots.push(InvRootOfTrust { inv_collection_id: id, hw_baseboard_id, rot: r.rot });
        }
        for r in rows.cabooses_found {
            let hw_baseboard_id = self.hw_id(&r.baseboard);
            let sw = self.sw_cabooses.iter().find(|s| s.caboose == r.caboose).unwrap();
            self.cabooses.push(InvCaboose {
                inv_collection_id: id,
                hw_baseboard_id,
                sw_caboose_id: sw.id,
                which: r.which,
                time_collected: r.time_collected,
                source: r.source,
            });
        }
        for r in rows.rot_pages_found {
            let hw_baseboard_id = self.hw_id(&r.baseboard);
            let sw = self.sw_pages.iter().find(|s| s.page == r.page).unwrap();
            self.pages.push(InvRotPage {
                inv_collection_id: id,
                hw_baseboard_id,
                sw_root_of_trust_page_id: sw.id,
                which: r.which,
                time_collected: r.time_collected,
                source: r.source,
            });
        }
        for r in rows.sled_agents_baseboards {
            let mut row = r.row;
            row.hw_baseboard_id = Some(self.hw_id(&r.baseboard));
            self.agents.push(row);
        }
        self.agents.extend(rows.sled_agents_no_baseboards);
        self.sled_zones.extend(rows.sled_omicron_zones);
        self.zones.extend(rows.omicron_zones);
        self.nics.extend(rows.omicron_zone_nics);
        self.errors.extend(rows.errors);
        Ok(())
    }

    fn replies(&self, id: u128, limit: usize) -> CollectionReplies {
        let sps: Vec<_> =
            self.sps.iter().filter(|r| r.inv_collection_id == id).take(limit).cloned().collect();
        let rots: Vec<_> =
            self.rots.iter().filter(|r| r.inv_collection_id == id).take(limit).cloned().collect();
        let sled_agents: Vec<_> =
            self.agents.iter().filter(|r| r.inv_collection_id == id).take(limit).cloned().collect();
        let hw = baseboards_to_fetch(&sps, &rots, &sled_agents);
        let cabooses_found: Vec<_> = self
            .cabooses
            .iter()
            .filter(|r| r.inv_collection_id == id)
            .take(limit)
            .cloned()
            .collect();
        let sw = cabooses_to_fetch(&cabooses_found);
        let rot_pages_found: Vec<_> =
            self.pages.iter().filter(|r| r.inv_collection_id == id).take(limit).cloned().collect();
        let pages = rot_pages_to_fetch(&rot_pages_found);
        CollectionReplies {
            collections: self.collections.iter().filter(|r| r.id == id).cloned().collect(),
            errors: self
                .errors
                .iter()
                .filter(|r| r.inv_collection_id == id)
                .take(limit)
                .cloned()
                .collect(),
            sps,
            rots,
            sled_agents,
            baseboards: self
                .hw
                .iter()
                .filter(|r| hw.contains(&r.id))
                .take(limit)
                .cloned()
                .collect(),
            cabooses_found,
            cabooses: self
                .sw_cabooses
                .iter()
                .filter(|r| sw.contains(&r.id))
                .take(limit)
                .cloned()
                .collect(),
            rot_pages_found,
            rot_pages: self
                .sw_pages
                .iter()
                .filter(|r| pages.contains(&r.id))
                .take(limit)
                .cloned()
                .collect(),
            sled_omicron_zones: self
                .sled_zones
                .iter()
                .filter(|r| r.inv_collection_id == id)
                .take(limit)
                .cloned()
                .collect(),
            omicron_zone_nics: self
                .nics
                .iter()
                .filter(|r| r.inv_collection_id == id)
                .take(limit)
                .cloned()
                .collect(),
            omicron_zones: self
                .zones
                .iter()
                .filter(|r| r.inv_collection_id == id)
                .take(limit)
                .cloned()
                .collect(),
        }
    }

    fn read(&self, id: u128) -> Result<Collection, ReadError> {
        read_all_or_nothing(id, &self.replies(id, 1000), 1000)
    }

    fn delete(&mut self, id: u128) {
        for table in tables_to_delete_from() {
            match table {
                InvTable::Collection => self.collections.retain(|r| r.id != id),
                InvTable::ServiceProcessor => self.sps.retain(|r| r.inv_collection_id != id),
                InvTable::RootOfTrust => self.rots.retain(|r| r.inv_collection_id != id),
                InvTable::Caboose => self.cabooses.retain(|r| r.inv_collection_id != id),
                InvTable::RootOfTrustPage => self.pages.retain(|r| r.inv_collection_id != id),
                InvTable::SledAgent => self.agents.retain(|r| r.inv_collection_id != id),
                InvTable::SledOmicronZones => {
                    self.sled_zones.retain(|r| r.inv_collection_id != id)
                }
                InvTable::OmicronZone => self.zones.retain(|r| r.inv_collection_id != id),
                InvTable::OmicronZoneNic => self.nics.retain(|r| r.inv_collection_id != id),
                InvTable::CollectionError => self.errors.retain(|r| r.inv_collection_id != id),
            }
        }
    }

    fn prune(&mut self, nkeep: u32) {
        loop {
            let limit = candidates_limit(nkeep) as usize;
            let candidates: Vec<Candidate> = self
                .collections
                .iter()
                .take(limit)
                .map(|c| Candidate {
                    id: c.id,
                    errors: self.errors.iter().filter(|e| e.inv_collection_id == c.id).count()
                        as i64,
                })
                .collect();
            match find_pruneable(&candidates, nkeep) {
                Some(id) => self.delete(id),
                None => break,
            }
        }
    }

    fn ids(&self) -> Vec<u128> {
        self.collections.iter().map(|c| c.id).collect()
    }

    fn counts(&self) -> (usize, usize, usize) {
        (self.hw.len(), self.sw_cabooses.len(), self.sw_pages.len())
    }

    fn rows_left(&self) -> usize {
        self.collections.len()
            + self.errors.len()
            + self.sps.len()
            + self.rots.len()
            + self.cabooses.len()
            + self.pages.len()
            + self.agents.len()
            + self.sled_zones.len()
            + self.zones.len()
            + self.nics.len()
    }
}

fn empty(id: u128) -> Collection {
    Collection {
        id,
        errors: vec![],
        time_started: time(id as i64),
        time_done: time(id as i64 + 1),
        collector: text("test"),
        baseboards: OrdMap::new(),
        cabooses: OrdMap::new(),
        rot_pages: OrdMap::new(),
        sps: OrdMap::new(),
        rots: OrdMap::new(),
        cabooses_found: OrdMap::new(),
        rot_pages_found: OrdMap::new(),
        sled_agents: OrdMap::new(),
        omicron_zones: OrdMap::new(),
    }
}

fn sp(slot: u16, sp_type: SpType) -> ServiceProcessor {
    ServiceProcessor {
        time_collected: time(5),
        source: text("mgs"),
        sp_type,
        sp_slot: slot,
        baseboard_revision: 2,
        hubris_archive: text("archive"),
        power_state: PowerState::A2,
    }
}

/// Nothing that cannot be kept.
fn storable() -> Unstorable {
    Unstorable { sled_agent: None, zone: None, nic: None }
}

fn details() -> ZoneDetails {
    ZoneDetails {
        service_address: Some(ServiceAddress { ip: IpAddr::V6(0xfd30), port: 12345 }),
        dns_address: None,
        gz_address: None,
        ntp_servers: vec![],
        dns_servers: vec![],
        domain: None,
        external_ip: None,
        external_tls: None,
        external_dns_servers: vec![],
        snat: None,
    }
}

fn nic(id: u128) -> ZoneNic {
    ZoneNic {
        id,
        name: text("nic"),
        ip: IpAddr::V4(0x0a00_0005),
        mac: 0x0102_0304_0506,
        subnet: text("10.0.0.0/8"),
        vni: 100,
        is_primary: true,
        slot: 0,
    }
}

/// A collection with some of everything, and errors.
fn full(id: u128) -> Collection {
    let mut c = empty(id);
    c.errors = vec![text("first"), text("second")];
    for serial in ["a", "b", "c"] {
        c.baseboards.insert(board(serial), ());
    }
    c.cabooses.insert(caboose("x"), ());
    c.cabooses.insert(caboose("y"), ());
    c.rot_pages.insert(page("p"), ());
    c.sps.insert(board("a"), sp(1, SpType::Sled));
    c.sps.insert(board("b"), sp(2, SpType::Power));
    c.rots.insert(
        board("a"),
        RotState {
            time_collected: time(6),
            source: text("mgs"),
            active_slot: RotSlot::B,
            persistent_boot_preference: RotSlot::A,
            pending_persistent_boot_preference: None,
            transient_boot_preference: Some(RotSlot::A),
            slot_a_sha3_256_digest: Some(text("digest")),
            slot_b_sha3_256_digest: None,
        },
    );
    for (which, name) in [(CabooseWhich::SpSlot0, "x"), (CabooseWhich::RotSlotB, "y")] {
        c.cabooses_found.insert(
            CaboosePlace { which, baseboard: board("a") },
            CabooseFound { time_collected: time(7), source: text("mgs"), caboose: caboose(name) },
        );
    }
    c.rot_pages_found.insert(
        RotPagePlace { which: RotPageWhich::Cmpa, baseboard: board("b") },
        RotPageFound { time_collected: time(8), source: text("mgs"), page: page("p") },
    );
    for (sled_id, baseboard_id) in [(20, Some(board("c"))), (21, None)] {
        c.sled_agents.insert(
            sled_id,
            SledAgent {
                time_collected: time(9),
                source: text("sled"),
                sled_id,
                baseboard_id,
                sled_agent_address: SocketAddrV6 {
                    ip: 0xfd00,
                    port: 12345,
                    flowinfo: 0,
                    scope_id: 0,
                },
                sled_role: SledRole::Gimlet,
                usable_hardware_threads: 128,
                usable_physical_ram: 1 << 40,
                reservoir_size: 1 << 39,
            },
        );
    }
    c.omicron_zones.insert(
        20,
        OmicronZonesFound {
            time_collected: time(10),
            source: text("sled"),
            sled_id: 20,
            generation: 3,
            zones: vec![
                OmicronZoneConfig {
                    id: 30,
                    underlay_address: 0xfd30,
                    zone_type: ZoneType::Crucible,
                    dataset: Some(text("pool")),
                    details: Arc::new(details()),
                    nic: None,
                },
                OmicronZoneConfig {
                    id: 31,
                    underlay_address: 0xfd31,
                    zone_type: ZoneType::Nexus,
                    dataset: None,
                    details: Arc::new(ZoneDetails {
                        external_ip: Some(IpAddr::V4(0x0a00_0009)),
                        external_tls: Some(true),
                        external_dns_servers: vec![IpAddr::V4(0x0101_0101)],
                        ntp_servers: vec![text("ntp.example")],
                        ..details()
                    }),
                    nic: Some(nic(40)),
                },
            ],
        },
    );
    c
}

/// The collection with more hardware, images and pages.
fn fuller(id: u128) -> Collection {
    let mut c = full(id);
    c.baseboards.insert(board("d"), ());
    c.baseboards.insert(board("e"), ());
    c.sps.insert(board("d"), sp(1, SpType::Switch));
    c.sps.insert(board("e"), sp(1, SpType::Power));
    c.cabooses.insert(caboose("dummy"), ());
    c.rot_pages.insert(page("dummy"), ());
    c.cabooses_found.insert(
        CaboosePlace { which: CabooseWhich::SpSlot0, baseboard: board("e") },
        CabooseFound {
            time_collected: time(7),
            source: text("dummy"),
            caboose: caboose("dummy"),
        },
    );
    c.rot_pages_found.insert(
        RotPagePlace { which: RotPageWhich::Cmpa, baseboard: board("e") },
        RotPageFound { time_collected: time(8), source: text("dummy"), page: page("dummy") },
    );
    c
}

#[test]
fn collections_are_inserted_read_and_pruned() {
    let mut db = Db::default();
    db.insert(&empty(1)).unwrap();
    assert_eq!(db.read(1), Ok(empty(1)));
    assert_eq!(db.counts(), (0, 0, 0));

    db.insert(&full(2)).unwrap();
    assert_eq!(db.read(2), Ok(full(2)));
    assert_eq!(db.counts(), (3, 2, 1));
    assert!(read_all_or_nothing(2, &db.replies(2, 1), 1).is_err());

    // Hardware, images and pages are used again.
    db.insert(&full(3)).unwrap();
    assert_eq!(db.read(3), Ok(full(3)));
    assert_eq!(db.counts(), (3, 2, 1));

    db.insert(&fuller(4)).unwrap();
    assert_eq!(db.read(4), Ok(fuller(4)));
    assert_eq!(db.counts(), (5, 3, 2));

    db.insert(&full(5)).unwrap();
    assert_eq!(db.read(5), Ok(full(5)));
    assert_eq!(db.counts(), (5, 3, 2));

    assert_eq!(
        db.insert(&full(5)),
        Err(text("duplicate key value violates unique constraint"))
    );

    // The oldest collection is the only one without errors: it stays.
    assert_eq!(db.ids(), vec![1, 2, 3, 4, 5]);
    db.prune(4);
    assert_eq!(db.ids(), vec![1, 3, 4, 5]);
    db.prune(3);
    assert_eq!(db.ids(), vec![1, 4, 5]);
    db.prune(3);
    assert_eq!(db.ids(), vec![1, 4, 5]);

    // Once there is another one without errors, it goes.
    db.insert(&empty(6)).unwrap();
    assert_eq!(db.ids(), vec![1, 4, 5, 6]);
    db.prune(3);
    assert_eq!(db.ids(), vec![4, 5, 6]);
    db.prune(3);
    assert_eq!(db.ids(), vec![4, 5, 6]);
    db.insert(&full(7)).unwrap();
    db.prune(3);
    assert_eq!(db.ids(), vec![5, 6, 7]);

    // What was pruned cannot be read, and what is left can be.
    assert_eq!(db.read(4), Err(ReadError::CollectionCount { found: 0 }));
    assert_eq!(db.read(5), Ok(full(5)));
    assert_eq!(db.read(6), Ok(empty(6)));
    assert_eq!(db.read(7), Ok(full(7)));

    // More than one goes, if need be: the latest one without errors is left.
    db.prune(1);
    assert_eq!(db.ids(), vec![6]);

    db.delete(6);
    assert_eq!(db.rows_left(), 0);
    assert_eq!(db.counts(), (5, 3, 2));
}

#[test]
fn deleting_leaves_other_collections() {
    let mut db = Db::default();
    db.insert(&full(2)).unwrap();
    db.insert(&fuller(4)).unwrap();
    db.delete(2);
    assert_eq!(db.read(4), Ok(fuller(4)));
    assert_eq!(db.read(2), Err(ReadError::CollectionCount { found: 0 }));
}

#[test]
fn stored_collections_read_back_later() {
    let mut db = Db::default();
    db.insert(&full(2)).unwrap();
    db.insert(&fuller(4)).unwrap();
    assert_eq!(db.read(2), Ok(full(2)));
    db.insert(&full(3)).unwrap();
    db.delete(4);
    assert_eq!(db.read(2), Ok(full(2)));
    db.delete(3);
    db.insert(&fuller(5)).unwrap();
    assert_eq!(db.read(2), Ok(full(2)));
    assert_eq!(db.read(5), Ok(fuller(5)));
}

#[test]
fn ids_of_hardware_images_and_pages_are_drawn() {
    let rows = CollectionRows::new(&fuller(4), &storable()).unwrap();
    let mut ids: Vec<u128> = rows.baseboards.iter().map(|r| r.id).collect();
    ids.extend(rows.cabooses.iter().map(|r| r.id));
    ids.extend(rows.rot_pages.iter().map(|r| r.id));
    assert_eq!(ids.len(), 10);
    for id in &ids {
        assert_eq!(((id >> 76) & 0xf, (id >> 62) & 3), (4, 2));
    }
    ids.sort();
    ids.dedup();
    assert_eq!(ids.len(), 10);
}

#[test]
fn collections_that_are_cut_short_are_read_in_part() {
    let mut db = Db::default();
    db.insert(&fuller(4)).unwrap();
    let (c, limit_reached) = read_best_effort(4, &db.replies(4, 1000), 1000).unwrap();
    assert_eq!((c, limit_reached), (fuller(4), false));
    let mut db = Db::default();
    let mut c = empty(8);
    c.errors = vec![text("first"), text("second")];
    db.insert(&c).unwrap();
    let (c, limit_reached) = read_best_effort(8, &db.replies(8, 1), 1).unwrap();
    assert!(limit_reached);
    assert_eq!(c.errors, vec![text("first")]);
    assert_eq!(
        read_all_or_nothing(8, &db.replies(8, 1), 1),
        Err(ReadError::LimitReached { limit: 1 })
    );
}

#[test]
fn collections_can_have_too_many_errors() {
    let mut c = empty(9);
    c.errors = vec![text("e"); 65536];
    assert!(CollectionRows::new(&c, &storable()).is_ok());
    c.errors.push(text("e"));
    assert_eq!(CollectionRows::new(&c, &storable()), Err(InsertError::TooManyErrors));
    assert_eq!(
        InsertError::TooManyErrors.message(),
        "failed to convert error index to u16 (too many errors in inventory collection?): \
        out of range integral type conversion attempted"
    );
}

#[test]
fn collections_that_cannot_be_kept_are_refused() {
    let c = full(9);
    let mut unstorable = storable();
    unstorable.nic = Some((31, text("bad subnet")));
    let refused = CollectionRows::new(&c, &unstorable).unwrap_err();
    assert_eq!(
        refused.message(),
        "zone 00000000-0000-0000-0000-00000000001f: bad subnet"
    );
    unstorable.zone = Some(text("bad address"));
    let refused = CollectionRows::new(&c, &unstorable).unwrap_err();
    assert_eq!(refused, InsertError::Unstorable { reason: text("bad address") });
    unstorable.sled_agent = Some(text("bad role"));
    let refused = CollectionRows::new(&c, &unstorable).unwrap_err();
    assert_eq!(refused.message(), "bad role");
}

fn read_with(change: fn(&mut CollectionReplies)) -> ReadError {
    let mut db = Db::default();
    db.insert(&full(2)).unwrap();
    let mut replies = db.replies(2, 1000);
    change(&mut replies);
    read_all_or_nothing(2, &replies, 1000).unwrap_err()
}

#[test]
fn rows_that_do_not_fit_are_refused() {
    assert_eq!(
        read_with(|r| {
            let again = r.collections[0].clone();
            r.collections.push(again);
        }),
        ReadError::CollectionCount { found: 2 }
    );
    assert_eq!(read_with(|r| r.baseboards.clear()), ReadError::MissingBaseboard);
    assert_eq!(
        read_with(|r| {
            r.cabooses_found.truncate(1);
            r.cabooses_found[0].hw_baseboard_id = 77;
        }),
        ReadError::CabooseUnknownBaseboard { id: 77 }
    );
    assert_eq!(
        read_with(|r| {
            r.cabooses_found.truncate(1);
            r.cabooses_found[0].sw_caboose_id = 78;
        }),
        ReadError::UnknownCaboose { id: 78 }
    );
    assert!(matches!(
        read_with(|r| {
            r.cabooses_found.truncate(1);
            let again = r.cabooses_found[0].clone();
            r.cabooses_found.push(again);
        }),
        ReadError::DuplicateCaboose { .. }
    ));
    assert_eq!(
        read_with(|r| r.rot_pages_found[0].hw_baseboard_id = 79),
        ReadError::RotPageUnknownBaseboard { id: 79 }
    );
    assert_eq!(
        read_with(|r| r.rot_pages_found[0].sw_root_of_trust_page_id = 80),
        ReadError::UnknownRotPage { id: 80 }
    );
    assert!(matches!(
        read_with(|r| {
            let again = r.rot_pages_found[0].clone();
            r.rot_pages_found.push(again);
        }),
        ReadError::DuplicateRotPage { page: RotPageWhich::Cmpa, .. }
    ));
    assert_eq!(
        read_with(|r| r.omicron_zone_nics.clear()),
        ReadError::MissingNic { zone: 31, nic: 40 }
    );
    assert_eq!(
        read_with(|r| r.sled_omicron_zones.clear()),
        ReadError::UnknownSled { zone: 30, sled: 20 }
    );
    assert_eq!(
        read_with(|r| r.omicron_zones[0].details = None),
        ReadError::UnreadableZone { zone: 30 }
    );
    assert_eq!(
        read_with(|r| r.omicron_zone_nics.push(InvOmicronZoneNic {
            inv_collection_id: 2,
            nic: nic(41)
        })),
        ReadError::ExtraNics { ids: vec![41] }
    );
}

#[test]
fn reasons_not_to_read_are_told() {
    let id = "00000000-0000-0000-0000-00000000001f";
    let other = "00000000-0000-0000-0000-000000000028";
    let told = |e: ReadError, text: String| assert_eq!(e.message(), text);
    told(
        ReadError::CollectionCount { found: 2 },
        text("failed runtime check: \"collections.len() == 1\""),
    );
    told(ReadError::MissingBaseboard, text("missing baseboard that we should have fetched"));
    told(
        ReadError::CabooseUnknownBaseboard { id: 31 },
        format!("unknown baseboard found in inv_caboose: {}", id),
    );
    told(
        ReadError::UnknownCaboose { id: 31 },
        format!("unknown caboose found in inv_caboose: {}", id),
    );
    told(
        ReadError::DuplicateCaboose { which: CabooseWhich::RotSlotA, hw_baseboard_id: 31 },
        format!("duplicate caboose found: RotSlotA baseboard {}", id),
    );
    told(
        ReadError::RotPageUnknownBaseboard { id: 31 },
        format!("unknown baseboard found in inv_root_of_trust_page: {}", id),
    );
    told(
        ReadError::UnknownRotPage { id: 31 },
        format!("unknown rot page found in inv_root_of_trust_page: {}", id),
    );
    told(
        ReadError::DuplicateRotPage { page: RotPageWhich::CfpaActive, hw_baseboard_id: 31 },
        format!("duplicate rot page found: CfpaActive baseboard {}", id),
    );
    told(
        ReadError::MissingNic { zone: 31, nic: 40 },
        format!("zone {}: expected to find NIC Some({}), but didn't", id, other),
    );
    told(
        ReadError::UnknownSled { zone: 31, sled: 40 },
        format!("zone {}: unknown sled: {}", id, other),
    );
    told(
        ReadError::UnreadableZone { zone: 31 },
        format!("zone {}: parse from database", id),
    );
    told(
        ReadError::ExtraNics { ids: vec![31, 40] },
        format!("found extra Omicron zone NICs: [{}, {}]", id, other),
    );
    told(
        ReadError::LimitReached { limit: 1000 },
        text("hit limit of 1000 records while loading collection"),
    );
}

#[test]
fn pruning_keeps_enough() {
    let candidate = |id: u128, errors: i64| Candidate { id, errors };
    assert_eq!(find_pruneable(&vec![candidate(1, 0), candidate(2, 0)], 2), None);
    assert_eq!(find_pruneable(&vec![candidate(1, 0), candidate(2, 0)], 1), Some(1));
    assert_eq!(find_pruneable(&vec![candidate(1, 0), candidate(2, 3)], 1), Some(2));
    assert_eq!(find_pruneable(&vec![candidate(1, 1), candidate(2, 3)], 1), Some(1));
    assert_eq!(find_pruneable(&vec![], 0), None);
    assert_eq!(find_pruneable(&vec![candidate(1, 0)], 0), None);
    assert_eq!(find_pruneable(&vec![candidate(1, 0), candidate(2, 1)], 0), Some(2));
    assert_eq!(candidates_limit(0), 2);
    assert_eq!(candidates_limit(3), 4);
}

#[test]
fn pruning_keeps_the_newest() {
    let pruned = |nkeep: u32, with_errors: &[bool]| {
        let mut db = Db::default();
        for (i, errors) in with_errors.iter().enumerate() {
            let id = i as u128 + 1;
            db.insert(&if *errors { full(id) } else { empty(id) }).unwrap();
        }
        db.prune(nkeep);
        db.ids()
    };
    assert_eq!(pruned(0, &[false, true]), vec![1]);
    assert_eq!(pruned(0, &[true, false, true, true]), vec![2]);
    assert_eq!(pruned(0, &[true, true]), vec![]);
    assert_eq!(pruned(1, &[false, true]), vec![1]);
    assert_eq!(pruned(2, &[false, false, true, true, true]), vec![2, 5]);
    assert_eq!(pruned(2, &[false, true, false, true]), vec![3, 4]);
    assert_eq!(pruned(2, &[true, true, true]), vec![2, 3]);
}
