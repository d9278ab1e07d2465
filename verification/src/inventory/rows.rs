//! The rows in which a collection is kept, and those that a new collection needs.

use std::sync::Arc;

use vstd::prelude::*;

use crate::ids::{format_uuid, is_random_id, random_uuid, text_of_uuid, Uuid};
use crate::inventory::types::{
    clone_text, BaseboardId, BaseboardIdView, Caboose, CabooseFound, CabooseFoundView,
    CaboosePlace, CabooseView, CabooseWhich, Collection, CollectionView, OmicronZoneConfig,
    OmicronZonesFound, OmicronZonesFoundView, PlaceView, RotPage, RotPageFound, RotPageFoundView,
    RotPagePlace, RotPageWhich, RotState, ServiceProcessor, SledAgent, SledAgentView, SledRole,
    ZoneDetails, ZoneNic, ZoneType,
};
use crate::ordmap::{entries, in_order, lists_keys, values, Key, OrdMap};
use crate::text::joined;
use crate::time::Timestamp;

verus! {

/// A row of `inv_collection`.
#[derive(Debug, Clone, PartialEq, Eq)]
pub struct InvCollection {
    pub id: Uuid,
    pub time_started: Timestamp,
    pub time_done: Timestamp,
    pub collector: String,
}

/// A row of `inv_collection_error`.
#[derive(Debug, Clone, PartialEq, Eq)]
pub struct InvCollectionError {
    pub inv_collection_id: Uuid,
    pub idx: u16,
    pub message: String,
}

/// A row of `hw_baseboard_id`.
#[derive(Debug, Clone, PartialEq, Eq)]
pub struct HwBaseboardId {
    pub id: Uuid,
    pub baseboard: BaseboardId,
}

/// A row of `sw_caboose`.
#[derive(Debug, Clone, PartialEq, Eq)]
pub struct SwCaboose {
    pub id: Uuid,
    pub caboose: Caboose,
}

/// A row of `sw_root_of_trust_page`.
#[derive(Debug, Clone, PartialEq, Eq)]
pub struct SwRotPage {
    pub id: Uuid,
    pub page: RotPage,
}

/// A row of `inv_service_processor`.
#[derive(Debug, Clone, PartialEq, Eq)]
pub struct InvServiceProcessor {
    pub inv_collection_id: Uuid,
    pub hw_baseboard_id: Uuid,
    pub sp: ServiceProcessor,
}

/// A row of `inv_root_of_trust`.
#[derive(Debug, Clone, PartialEq, Eq)]
pub struct InvRootOfTrust {
    pub inv_collection_id: Uuid,
    pub hw_baseboard_id: Uuid,
    pub rot: RotState,
}

/// A row of `inv_caboose`.
#[derive(Debug, Clone, PartialEq, Eq)]
pub struct InvCaboose {
    pub inv_collection_id: Uuid,
    pub hw_baseboard_id: Uuid,
    pub sw_caboose_id: Uuid,
    pub which: CabooseWhich,
    pub time_collected: Timestamp,
    pub source: String,
}

/// A row of `inv_root_of_trust_page`.
#[derive(Debug, Clone, PartialEq, Eq)]
pub struct InvRotPage {
    pub inv_collection_id: Uuid,
    pub hw_baseboard_id: Uuid,
    pub sw_root_of_trust_page_id: Uuid,
    pub which: RotPageWhich,
    pub time_collected: Timestamp,
    pub source: String,
}

/// A row of `inv_sled_agent`.
#[derive(Debug, Clone, PartialEq, Eq)]
pub struct InvSledAgent {
    pub inv_collection_id: Uuid,
    pub time_collected: Timestamp,
    pub source: String,
    pub sled_id: Uuid,
    pub hw_baseboard_id: Option<Uuid>,
    pub sled_agent_ip: u128,
    pub sled_agent_port: u16,
    pub sled_role: SledRole,
    pub usable_hardware_threads: u32,
    pub usable_physical_ram: u64,
    pub reservoir_size: u64,
}

/// A row of `inv_sled_omicron_zones`.
#[derive(Debug, Clone, PartialEq, Eq)]
pub struct InvSledOmicronZones {
    pub inv_collection_id: Uuid,
    pub time_collected: Timestamp,
    pub source: String,
    pub sled_id: Uuid,
    pub generation: u64,
}

/// A row of `inv_omicron_zone`.
#[derive(Debug, Clone, PartialEq, Eq)]
pub struct InvOmicronZone {
    pub inv_collection_id: Uuid,
    pub sled_id: Uuid,
    pub id: Uuid,
    pub underlay_address: u128,
    pub zone_type: ZoneType,
    pub dataset: Option<String>,
    /// What the columns of the service say. There is nothing where they cannot be understood.
    pub details: Option<Arc<ZoneDetails>>,
    pub nic_id: Option<Uuid>,
}

/// A row of `inv_omicron_zone_nic`.
#[derive(Debug, Clone, PartialEq, Eq)]
pub struct InvOmicronZoneNic {
    pub inv_collection_id: Uuid,
    pub nic: ZoneNic,
}

/// A row of `inv_service_processor` whose hardware is still to be looked up.
#[derive(Debug, PartialEq, Eq)]
pub struct NewServiceProcessor {
    pub baseboard: BaseboardId,
    pub sp: ServiceProcessor,
}

/// A row of `inv_root_of_trust` whose hardware is still to be looked up.
#[derive(Debug, PartialEq, Eq)]
pub struct NewRootOfTrust {
    pub baseboard: BaseboardId,
    pub rot: RotState,
}

/// A row of `inv_caboose` whose hardware and image are still to be looked up.
#[derive(Debug, PartialEq, Eq)]
pub struct NewCaboose {
    pub baseboard: BaseboardId,
    pub caboose: Caboose,
    pub which: CabooseWhich,
    pub time_collected: Timestamp,
    pub source: String,
}

/// A row of `inv_root_of_trust_page` whose hardware and page are still to be looked up.
#[derive(Debug, PartialEq, Eq)]
pub struct NewRotPage {
    pub baseboard: BaseboardId,
    pub page: RotPage,
    pub which: RotPageWhich,
    pub time_collected: Timestamp,
    pub source: String,
}

/// A row of `inv_sled_agent` whose hardware is still to be looked up.
#[derive(Debug, PartialEq, Eq)]
pub struct NewSledAgent {
    pub baseboard: BaseboardId,
    /// The row, without its hardware.
    pub row: InvSledAgent,
}

/// The rows that a new collection needs, table by table.
///
/// Rows of `hw_baseboard_id`, `sw_caboose` and `sw_root_of_trust_page` are inserted only where the
/// table has no row with the same contents yet.
#[derive(Debug, PartialEq, Eq)]
pub struct CollectionRows {
    pub baseboards: Vec<HwBaseboardId>,
    pub cabooses: Vec<SwCaboose>,
    pub rot_pages: Vec<SwRotPage>,
    pub collection: InvCollection,
    pub sps: Vec<NewServiceProcessor>,
    pub rots: Vec<NewRootOfTrust>,
    pub cabooses_found: Vec<NewCaboose>,
    pub rot_pages_found: Vec<NewRotPage>,
    pub sled_agents_baseboards: Vec<NewSledAgent>,
    pub sled_agents_no_baseboards: Vec<InvSledAgent>,
    pub sled_omicron_zones: Vec<InvSledOmicronZones>,
    pub omicron_zones: Vec<InvOmicronZone>,
    pub omicron_zone_nics: Vec<InvOmicronZoneNic>,
    pub errors: Vec<InvCollectionError>,
}

/// Which of the values of a collection cannot be kept in a column, and why: the first of each sort.
#[derive(Debug, PartialEq, Eq)]
pub struct Unstorable {
    /// Of the sled agents without known hardware.
    pub sled_agent: Option<String>,
    /// Of the zones.
    pub zone: Option<String>,
    /// Of the interfaces of zones, with the zone.
    pub nic: Option<(Uuid, String)>,
}

/// Why a collection cannot be inserted.
#[derive(Debug, PartialEq, Eq)]
pub enum InsertError {
    /// The index of an error does not fit: there are too many.
    TooManyErrors,
    /// A value of a sled agent or of a zone cannot be kept, for this reason.
    Unstorable { reason: String },
    /// A value of the interface of a zone cannot be kept, for this reason.
    UnstorableNic { zone: Uuid, reason: String },
}

impl InsertError {
    /// What the error says.
    pub open spec fn text(self) -> Seq<char> {
        match self {
            InsertError::TooManyErrors
                => "failed to convert error index to u16 (too many errors in inventory collection?): out of range integral type conversion attempted"@,
            InsertError::Unstorable { reason } => reason@,
            InsertError::UnstorableNic { zone, reason } => "zone "@ + text_of_uuid(zone) + ": "@
                + reason@,
        }
    }

    /// What the error says.
    pub fn message(&self) -> (s: String)
        ensures
            s@ == self.text(),
    {
        match self {
            InsertError::TooManyErrors
                => "failed to convert error index to u16 (too many errors in inventory collection?): out of range integral type conversion attempted".to_owned(),
            InsertError::Unstorable { reason } => reason.clone(),
            InsertError::UnstorableNic { zone, reason } => {
                let mut s = joined("zone ", format_uuid(*zone).as_str());
                s.append(": ");
                s.append(reason.as_str());
                s
            },
        }
    }
}

/// Why a collection cannot be inserted, if it cannot: the errors are looked at first, then the sled
/// agents, then the zones, and then their interfaces.
pub open spec fn insert_error(c: CollectionView, unstorable: Unstorable) -> Option<InsertError> {
    if c.errors.len() > MAX_ERRORS {
        Some(InsertError::TooManyErrors)
    } else {
        match (unstorable.sled_agent, unstorable.zone, unstorable.nic) {
            (Some(reason), _, _) => Some(InsertError::Unstorable { reason }),
            (None, Some(reason), _) => Some(InsertError::Unstorable { reason }),
            (None, None, Some((zone, reason))) => Some(InsertError::UnstorableNic { zone, reason }),
            (None, None, None) => None,
        }
    }
}

/// The number of errors that a collection can hold.
pub const MAX_ERRORS: usize = 65536;

/// The row of a collection.
pub open spec fn collection_row(c: CollectionView) -> InvCollection {
    InvCollection {
        id: c.id,
        time_started: c.time_started,
        time_done: c.time_done,
        collector: c.collector,
    }
}

/// The row of the error at an index.
pub open spec fn error_row(c: CollectionView, i: int) -> InvCollectionError {
    InvCollectionError { inv_collection_id: c.id, idx: i as u16, message: c.errors[i] }
}

/// The row of a sled agent, with the hardware given.
pub open spec fn sled_agent_row(id: Uuid, agent: SledAgentView, hw: Option<Uuid>) -> InvSledAgent {
    InvSledAgent {
        inv_collection_id: id,
        time_collected: agent.time_collected,
        source: agent.source,
        sled_id: agent.sled_id,
        hw_baseboard_id: hw,
        sled_agent_ip: agent.sled_agent_address.ip,
        sled_agent_port: agent.sled_agent_address.port,
        sled_role: agent.sled_role,
        usable_hardware_threads: agent.usable_hardware_threads,
        usable_physical_ram: agent.usable_physical_ram,
        reservoir_size: agent.reservoir_size,
    }
}

/// The row that says when the zones of a sled were found.
pub open spec fn sled_zones_row(id: Uuid, found: OmicronZonesFoundView) -> InvSledOmicronZones {
    InvSledOmicronZones {
        inv_collection_id: id,
        time_collected: found.time_collected,
        source: found.source,
        sled_id: found.sled_id,
        generation: found.generation,
    }
}

/// The row of a zone.
pub open spec fn zone_row(id: Uuid, sled_id: Uuid, zone: OmicronZoneConfig) -> InvOmicronZone {
    InvOmicronZone {
        inv_collection_id: id,
        sled_id,
        id: zone.id,
        underlay_address: zone.underlay_address,
        zone_type: zone.zone_type,
        dataset: zone.dataset,
        details: Some(zone.details),
        nic_id: match zone.nic {
            Some(nic) => Some(nic.id),
            None => None,
        },
    }
}

/// The zones of the first `n` of these, one after the other.
pub open spec fn zones_in_order(found: Seq<OmicronZonesFoundView>, n: nat) -> Seq<
    (Uuid, OmicronZoneConfig),
>
    decreases n,
{
    if n == 0 {
        Seq::empty()
    } else {
        zones_in_order(found, (n - 1) as nat) + found[n - 1].zones.map_values(
            |z: OmicronZoneConfig| (found[n - 1].sled_id, z),
        )
    }
}

/// The interfaces of the zones that have one.
pub open spec fn nics_in_order(zones: Seq<(Uuid, OmicronZoneConfig)>) -> Seq<ZoneNic>
    decreases zones.len(),
{
    if zones.len() == 0 {
        Seq::empty()
    } else {
        let rest = nics_in_order(zones.drop_last());
        match zones.last().1.nic {
            Some(nic) => rest.push(nic),
            None => rest,
        }
    }
}

/// The hardware and the service processors of the rows.
pub open spec fn sp_entries(rows: Seq<NewServiceProcessor>) -> Seq<
    (BaseboardIdView, ServiceProcessor),
> {
    rows.map_values(|r: NewServiceProcessor| (r.baseboard@, r.sp))
}

/// The hardware and the roots of trust of the rows.
pub open spec fn rot_entries(rows: Seq<NewRootOfTrust>) -> Seq<(BaseboardIdView, RotState)> {
    rows.map_values(|r: NewRootOfTrust| (r.baseboard@, r.rot))
}

/// The place and the image of a row.
pub open spec fn caboose_entry_of(row: NewCaboose) -> (PlaceView, CabooseFoundView) {
    (
        PlaceView { which: row.which.rank(), baseboard: row.baseboard@ },
        CabooseFoundView {
            time_collected: row.time_collected,
            source: row.source,
            caboose: row.caboose@,
        },
    )
}

/// The places and the images of the rows.
pub open spec fn caboose_entries(rows: Seq<NewCaboose>) -> Seq<(PlaceView, CabooseFoundView)> {
    rows.map_values(|r: NewCaboose| caboose_entry_of(r))
}

/// The place and the page of a row.
pub open spec fn rot_page_entry_of(row: NewRotPage) -> (PlaceView, RotPageFoundView) {
    (
        PlaceView { which: row.which.rank(), baseboard: row.baseboard@ },
        RotPageFoundView {
            time_collected: row.time_collected,
            source: row.source,
            page: row.page@,
        },
    )
}

/// The places and the pages of the rows.
pub open spec fn rot_page_entries(rows: Seq<NewRotPage>) -> Seq<(PlaceView, RotPageFoundView)> {
    rows.map_values(|r: NewRotPage| rot_page_entry_of(r))
}

/// The rows of the sled agents on known hardware, with that hardware.
pub open spec fn known_hardware(id: Uuid, agents: Seq<SledAgentView>) -> Seq<
    (BaseboardIdView, InvSledAgent),
>
    decreases agents.len(),
{
    if agents.len() == 0 {
        Seq::empty()
    } else {
        let rest = known_hardware(id, agents.drop_last());
        match agents.last().baseboard_id {
            Some(b) => rest.push((b, sled_agent_row(id, agents.last(), None))),
            None => rest,
        }
    }
}

/// The rows of the sled agents on unknown hardware.
pub open spec fn unknown_hardware(id: Uuid, agents: Seq<SledAgentView>) -> Seq<InvSledAgent>
    decreases agents.len(),
{
    if agents.len() == 0 {
        Seq::empty()
    } else {
        let rest = unknown_hardware(id, agents.drop_last());
        match agents.last().baseboard_id {
            Some(_) => rest,
            None => rest.push(sled_agent_row(id, agents.last(), None)),
        }
    }
}

/// The hardware and the sled agents of the rows.
pub open spec fn agent_entries(rows: Seq<NewSledAgent>) -> Seq<(BaseboardIdView, InvSledAgent)> {
    rows.map_values(|r: NewSledAgent| (r.baseboard@, r.row))
}

/// The zones of a collection, sled by sled, each with its sled.
pub open spec fn all_zones(c: CollectionView) -> Seq<(Uuid, OmicronZoneConfig)> {
    let found = values::<Uuid, OmicronZonesFoundView>(c.omicron_zones);
    zones_in_order(found, found.len())
}

/// These are the rows that the collection needs.
pub open spec fn rows_of(rows: CollectionRows, c: CollectionView) -> bool {
    &&& rows.collection == collection_row(c)
    &&& rows.baseboards@.map_values(|r: HwBaseboardId| r.baseboard@) == in_order::<BaseboardId>(
        c.baseboards,
    )
    &&& rows.cabooses@.map_values(|r: SwCaboose| r.caboose@) == in_order::<Caboose>(c.cabooses)
    &&& rows.rot_pages@.map_values(|r: SwRotPage| r.page@) == in_order::<RotPage>(c.rot_pages)
    &&& sp_entries(rows.sps@) == entries::<BaseboardId, ServiceProcessor>(c.sps)
    &&& rot_entries(rows.rots@) == entries::<BaseboardId, RotState>(c.rots)
    &&& caboose_entries(rows.cabooses_found@) == entries::<CaboosePlace, CabooseFoundView>(
        c.cabooses_found,
    )
    &&& rot_page_entries(rows.rot_pages_found@) == entries::<RotPagePlace, RotPageFoundView>(
        c.rot_pages_found,
    )
    &&& agent_entries(rows.sled_agents_baseboards@) == known_hardware(
        c.id,
        values::<Uuid, SledAgentView>(c.sled_agents),
    )
    &&& rows.sled_agents_no_baseboards@ == unknown_hardware(
        c.id,
        values::<Uuid, SledAgentView>(c.sled_agents),
    )
    &&& rows.sled_omicron_zones@ == values::<Uuid, OmicronZonesFoundView>(
        c.omicron_zones,
    ).map_values(|f: OmicronZonesFoundView| sled_zones_row(c.id, f))
    &&& rows.omicron_zones@ == all_zones(c).map_values(
        |z: (Uuid, OmicronZoneConfig)| zone_row(c.id, z.0, z.1),
    )
    &&& rows.omicron_zone_nics@ == nics_in_order(all_zones(c)).map_values(
        |nic: ZoneNic| InvOmicronZoneNic { inv_collection_id: c.id, nic },
    )
    &&& rows.errors@ == Seq::new(c.errors.len(), |i: int| error_row(c, i))
}

/// The ids of the rows of hardware, images and pages are drawn at random.
pub open spec fn ids_are_drawn(rows: CollectionRows) -> bool {
    &&& forall|i: int|
        0 <= i < rows.baseboards@.len() ==> is_random_id((#[trigger] rows.baseboards@[i]).id)
    &&& forall|i: int|
        0 <= i < rows.cabooses@.len() ==> is_random_id((#[trigger] rows.cabooses@[i]).id)
    &&& forall|i: int|
        0 <= i < rows.rot_pages@.len() ==> is_random_id((#[trigger] rows.rot_pages@[i]).id)
}

/// The rows of the entries of a map, in the order of their keys, where `row` gives the row of an
/// entry.
fn rows_from<K: Key, V, R, T, F: Fn(&K, &V) -> R>(
    map: &OrdMap<K, V>,
    row: F,
    Ghost(of): Ghost<spec_fn(R) -> T>,
    Ghost(want): Ghost<spec_fn(K::Id, V) -> T>,
) -> (rows: Vec<R>)
    requires
        forall|k: K, v: V| #[trigger] call_requires(row, (&k, &v)),
        forall|k: K, v: V, r: R| #[trigger]
            call_ensures(row, (&k, &v), r) ==> of(r) == want(k.id(), v),
    ensures
        rows@.map_values(of) == in_order::<K>(map@.dom()).map_values(|k: K::Id| want(k, map@[k])),
        lists_keys::<K>(in_order::<K>(map@.dom()), map@.dom()),
{
    let mut rows: Vec<R> = Vec::new();
    let n = map.len();
    let mut i: usize = 0;
    while i < n
        invariant
            i <= n == map.keys().len(),
            rows@.len() == i,
            forall|k: K, v: V| #[trigger] call_requires(row, (&k, &v)),
            forall|k: K, v: V, r: R| #[trigger]
                call_ensures(row, (&k, &v), r) ==> of(r) == want(k.id(), v),
            forall|j: int|
                0 <= j < i ==> of(#[trigger] rows@[j]) == want(
                    map.keys()[j],
                    map@[map.keys()[j]],
                ),
        decreases n - i,
    {
        rows.push(row(map.key_at(i), map.value_at(i)));
        i = i + 1;
    }
    assert(rows@.map_values(of) =~= in_order::<K>(map@.dom()).map_values(
        |k: K::Id| want(k, map@[k]),
    ));
    rows
}

fn baseboard_row(k: &BaseboardId, _value: &()) -> (r: HwBaseboardId)
    ensures
        r.baseboard@ == k@ && is_random_id(r.id),
{
    HwBaseboardId { id: random_uuid(), baseboard: k.clone() }
}

fn baseboard_rows(set: &OrdMap<BaseboardId, ()>) -> (rows: Vec<HwBaseboardId>)
    ensures
        rows@.map_values(|r: HwBaseboardId| r.baseboard@) == in_order::<BaseboardId>(set@.dom()),
        forall|i: int| 0 <= i < rows@.len() ==> is_random_id((#[trigger] rows@[i]).id),
{
    let ghost of = |r: HwBaseboardId| (r.baseboard@, is_random_id(r.id));
    let rows = rows_from::<_, _, _, (BaseboardIdView, bool), _>(
        set,
        baseboard_row,
        Ghost(of),
        Ghost(|k: BaseboardIdView, v: ()| (k, true)),
    );
    proof {
        let keys = in_order::<BaseboardId>(set@.dom());
        assert(rows@.map_values(of).len() == keys.len());
        assert forall|i: int| 0 <= i < rows@.len() implies (#[trigger] rows@[i]).baseboard@ == keys[i]
            && is_random_id(rows@[i].id) by {
            assert(rows@.map_values(of)[i] == (keys[i], true));
        }
        assert(rows@.map_values(|r: HwBaseboardId| r.baseboard@) =~= keys);
    }
    rows
}

fn caboose_row(k: &Caboose, _value: &()) -> (r: SwCaboose)
    ensures
        r.caboose@ == k@ && is_random_id(r.id),
{
    SwCaboose { id: random_uuid(), caboose: k.clone() }
}

fn caboose_rows(set: &OrdMap<Caboose, ()>) -> (rows: Vec<SwCaboose>)
    ensures
        rows@.map_values(|r: SwCaboose| r.caboose@) == in_order::<Caboose>(set@.dom()),
        forall|i: int| 0 <= i < rows@.len() ==> is_random_id((#[trigger] rows@[i]).id),
{
    let ghost of = |r: SwCaboose| (r.caboose@, is_random_id(r.id));
    let rows = rows_from::<_, _, _, (CabooseView, bool), _>(
        set,
        caboose_row,
        Ghost(of),
        Ghost(|k: CabooseView, v: ()| (k, true)),
    );
    proof {
        let keys = in_order::<Caboose>(set@.dom());
        assert(rows@.map_values(of).len() == keys.len());
        assert forall|i: int| 0 <= i < rows@.len() implies (#[trigger] rows@[i]).caboose@ == keys[i]
            && is_random_id(rows@[i].id) by {
            assert(rows@.map_values(of)[i] == (keys[i], true));
        }
        assert(rows@.map_values(|r: SwCaboose| r.caboose@) =~= keys);
    }
    rows
}

fn rot_page_row(k: &RotPage, _value: &()) -> (r: SwRotPage)
    ensures
        r.page@ == k@ && is_random_id(r.id),
{
    SwRotPage { id: random_uuid(), page: k.clone() }
}

fn rot_page_rows(set: &OrdMap<RotPage, ()>) -> (rows: Vec<SwRotPage>)
    ensures
        rows@.map_values(|r: SwRotPage| r.page@) == in_order::<RotPage>(set@.dom()),
        forall|i: int| 0 <= i < rows@.len() ==> is_random_id((#[trigger] rows@[i]).id),
{
    let ghost of = |r: SwRotPage| (r.page@, is_random_id(r.id));
    let rows = rows_from::<_, _, _, (Seq<char>, bool), _>(
        set,
        rot_page_row,
        Ghost(of),
        Ghost(|k: Seq<char>, v: ()| (k, true)),
    );
    proof {
        let keys = in_order::<RotPage>(set@.dom());
        assert(rows@.map_values(of).len() == keys.len());
        assert forall|i: int| 0 <= i < rows@.len() implies (#[trigger] rows@[i]).page@ == keys[i]
            && is_random_id(rows@[i].id) by {
            assert(rows@.map_values(of)[i] == (keys[i], true));
        }
        assert(rows@.map_values(|r: SwRotPage| r.page@) =~= keys);
    }
    rows
}

fn error_rows(id: Uuid, errors: &Vec<String>) -> (rows: Result<Vec<InvCollectionError>, InsertError>)
    ensures
        match rows {
            Ok(rows) => errors@.len() <= MAX_ERRORS && rows@ == Seq::new(
                errors@.len(),
                |i: int|
                    InvCollectionError {
                        inv_collection_id: id,
                        idx: i as u16,
                        message: errors@[i],
                    },
            ),
            Err(e) => errors@.len() > MAX_ERRORS && e == InsertError::TooManyErrors,
        },
{
    if errors.len() > MAX_ERRORS {
        return Err(InsertError::TooManyErrors);
    }
    let mut rows: Vec<InvCollectionError> = Vec::new();
    let mut i: usize = 0;
    while i < errors.len()
        invariant
            i <= errors@.len() <= MAX_ERRORS,
            rows@.len() == i,
            forall|k: int|
                0 <= k < i ==> #[trigger] rows@[k] == (InvCollectionError {
                    inv_collection_id: id,
                    idx: k as u16,
                    message: errors@[k],
                }),
        decreases errors@.len() - i,
    {
        rows.push(
            InvCollectionError { inv_collection_id: id, idx: i as u16, message: errors[i].clone() },
        );
        i = i + 1;
    }
    assert(rows@ =~= Seq::new(
        errors@.len(),
        |i: int|
            InvCollectionError { inv_collection_id: id, idx: i as u16, message: errors@[i] },
    ));
    Ok(rows)
}

fn sp_row(k: &BaseboardId, v: &ServiceProcessor) -> (r: NewServiceProcessor)
    ensures
        (r.baseboard@, r.sp) == (k@, *v),
{
    NewServiceProcessor { baseboard: k.clone(), sp: v.clone() }
}

fn sp_rows(map: &OrdMap<BaseboardId, ServiceProcessor>) -> (rows: Vec<NewServiceProcessor>)
    ensures
        sp_entries(rows@) == entries::<BaseboardId, ServiceProcessor>(map@),
{
    let rows = rows_from::<_, _, _, (BaseboardIdView, ServiceProcessor), _>(
        map,
        sp_row,
        Ghost(|r: NewServiceProcessor| (r.baseboard@, r.sp)),
        Ghost(|k: BaseboardIdView, v: ServiceProcessor| (k, v)),
    );
    assert(sp_entries(rows@) =~= entries::<BaseboardId, ServiceProcessor>(map@));
    rows
}

fn rot_row(k: &BaseboardId, v: &RotState) -> (r: NewRootOfTrust)
    ensures
        (r.baseboard@, r.rot) == (k@, *v),
{
    NewRootOfTrust { baseboard: k.clone(), rot: v.clone() }
}

fn rot_rows(map: &OrdMap<BaseboardId, RotState>) -> (rows: Vec<NewRootOfTrust>)
    ensures
        rot_entries(rows@) == entries::<BaseboardId, RotState>(map@),
{
    let rows = rows_from::<_, _, _, (BaseboardIdView, RotState), _>(
        map,
        rot_row,
        Ghost(|r: NewRootOfTrust| (r.baseboard@, r.rot)),
        Ghost(|k: BaseboardIdView, v: RotState| (k, v)),
    );
    assert(rot_entries(rows@) =~= entries::<BaseboardId, RotState>(map@));
    rows
}

fn caboose_found_row(k: &CaboosePlace, v: &CabooseFound) -> (r: NewCaboose)
    ensures
        caboose_entry_of(r) == (k@, v@),
{
    NewCaboose {
        baseboard: k.baseboard.clone(),
        caboose: v.caboose.clone(),
        which: k.which,
        time_collected: v.time_collected,
        source: v.source.clone(),
    }
}

fn caboose_found_rows(map: &OrdMap<CaboosePlace, CabooseFound>) -> (rows: Vec<NewCaboose>)
    ensures
        caboose_entries(rows@) == entries::<CaboosePlace, CabooseFoundView>(
            map@.map_values(|f: CabooseFound| f@),
        ),
{
    let rows = rows_from::<_, _, _, (PlaceView, CabooseFoundView), _>(
        map,
        caboose_found_row,
        Ghost(|r: NewCaboose| caboose_entry_of(r)),
        Ghost(|k: PlaceView, v: CabooseFound| (k, v@)),
    );
    proof {
        let views = map@.map_values(|f: CabooseFound| f@);
        assert(views.dom() =~= map@.dom());
        let keys = in_order::<CaboosePlace>(map@.dom());
        assert(forall|i: int| 0 <= i < keys.len() ==> map@.contains_key(#[trigger] keys[i]));
        assert(caboose_entries(rows@) =~= entries::<CaboosePlace, CabooseFoundView>(views));
    }
    rows
}

fn rot_page_found_row(k: &RotPagePlace, v: &RotPageFound) -> (r: NewRotPage)
    ensures
        rot_page_entry_of(r) == (k@, v@),
{
    NewRotPage {
        baseboard: k.baseboard.clone(),
        page: v.page.clone(),
        which: k.which,
        time_collected: v.time_collected,
        source: v.source.clone(),
    }
}

fn rot_page_found_rows(map: &OrdMap<RotPagePlace, RotPageFound>) -> (rows: Vec<NewRotPage>)
    ensures
        rot_page_entries(rows@) == entries::<RotPagePlace, RotPageFoundView>(
            map@.map_values(|f: RotPageFound| f@),
        ),
{
    let rows = rows_from::<_, _, _, (PlaceView, RotPageFoundView), _>(
        map,
        rot_page_found_row,
        Ghost(|r: NewRotPage| rot_page_entry_of(r)),
        Ghost(|k: PlaceView, v: RotPageFound| (k, v@)),
    );
    proof {
        let views = map@.map_values(|f: RotPageFound| f@);
        assert(views.dom() =~= map@.dom());
        let keys = in_order::<RotPagePlace>(map@.dom());
        assert(forall|i: int| 0 <= i < keys.len() ==> map@.contains_key(#[trigger] keys[i]));
        assert(rot_page_entries(rows@) =~= entries::<RotPagePlace, RotPageFoundView>(views));
    }
    rows
}

impl InvSledAgent {
    /// The row of a sled agent, without its hardware.
    fn new_without_baseboard(id: Uuid, agent: &SledAgent) -> (row: InvSledAgent)
        ensures
            row == sled_agent_row(id, agent@, None),
    {
        InvSledAgent {
            inv_collection_id: id,
            time_collected: agent.time_collected,
            source: agent.source.clone(),
            sled_id: agent.sled_id,
            hw_baseboard_id: None,
            sled_agent_ip: agent.sled_agent_address.ip,
            sled_agent_port: agent.sled_agent_address.port,
            sled_role: agent.sled_role,
            usable_hardware_threads: agent.usable_hardware_threads,
            usable_physical_ram: agent.usable_physical_ram,
            reservoir_size: agent.reservoir_size,
        }
    }
}

/// Parts the sled agents on known hardware from the others.
fn sled_agent_rows(id: Uuid, map: &OrdMap<Uuid, SledAgent>) -> (rows: (
    Vec<NewSledAgent>,
    Vec<InvSledAgent>,
))
    ensures
        ({
            let agents = values::<Uuid, SledAgentView>(map@.map_values(|s: SledAgent| s@));
            &&& agent_entries(rows.0@) == known_hardware(id, agents)
            &&& rows.1@ == unknown_hardware(id, agents)
        }),
{
    let mut known: Vec<NewSledAgent> = Vec::new();
    let mut unknown: Vec<InvSledAgent> = Vec::new();
    let ghost views = map@.map_values(|s: SledAgent| s@);
    let ghost agents = values::<Uuid, SledAgentView>(views);
    let n = map.len();
    let mut i: usize = 0;
    assert(views.dom() =~= map@.dom());
    assert(agent_entries(known@) =~= Seq::empty());
    while i < n
        invariant
            i <= n == map.keys().len() == agents.len(),
            views == map@.map_values(|s: SledAgent| s@),
            forall|k: int| 0 <= k < n ==> #[trigger] agents[k] == views[map.keys()[k]],
            agent_entries(known@) == known_hardware(id, agents.take(i as int)),
            unknown@ == unknown_hardware(id, agents.take(i as int)),
        decreases n - i,
    {
        let agent = map.value_at(i);
        proof {
            assert(agents[i as int] == agent@);
            assert(agents.take(i + 1).drop_last() =~= agents.take(i as int));
            assert(agents.take(i + 1).last() == agent@);
        }
        let row = InvSledAgent::new_without_baseboard(id, agent);
        match &agent.baseboard_id {
            Some(baseboard) => {
                let ghost was = known@;
                let new = NewSledAgent { baseboard: baseboard.clone(), row };
                known.push(new);
                assert(agent_entries(known@) =~= agent_entries(was).push(
                    (new.baseboard@, new.row),
                ));
            },
            None => {
                unknown.push(row);
            },
        }
        i = i + 1;
    }
    assert(agents.take(n as int) =~= agents);
    (known, unknown)
}

fn sled_zones_rows(id: Uuid, map: &OrdMap<Uuid, OmicronZonesFound>) -> (rows: Vec<
    InvSledOmicronZones,
>)
    ensures
        rows@ == values::<Uuid, OmicronZonesFoundView>(
            map@.map_values(|z: OmicronZonesFound| z@),
        ).map_values(|f: OmicronZonesFoundView| sled_zones_row(id, f)),
{
    let mut rows: Vec<InvSledOmicronZones> = Vec::new();
    let ghost views = map@.map_values(|z: OmicronZonesFound| z@);
    let n = map.len();
    let mut i: usize = 0;
    assert(views.dom() =~= map@.dom());
    while i < n
        invariant
            i <= n == map.keys().len(),
            views == map@.map_values(|z: OmicronZonesFound| z@),
            rows@.len() == i,
            forall|k: int|
                0 <= k < i ==> #[trigger] rows@[k] == sled_zones_row(id, views[map.keys()[k]]),
        decreases n - i,
    {
        let found = map.value_at(i);
        rows.push(
            InvSledOmicronZones {
                inv_collection_id: id,
                time_collected: found.time_collected,
                source: found.source.clone(),
                sled_id: found.sled_id,
                generation: found.generation,
            },
        );
        i = i + 1;
    }
    assert(rows@ =~= values::<Uuid, OmicronZonesFoundView>(views).map_values(
        |f: OmicronZonesFoundView| sled_zones_row(id, f),
    ));
    rows
}

impl InvOmicronZone {
    fn new(id: Uuid, sled_id: Uuid, zone: &OmicronZoneConfig) -> (row: InvOmicronZone)
        ensures
            row == zone_row(id, sled_id, *zone),
    {
        InvOmicronZone {
            inv_collection_id: id,
            sled_id,
            id: zone.id,
            underlay_address: zone.underlay_address,
            zone_type: zone.zone_type,
            dataset: clone_text(&zone.dataset),
            details: Some(zone.details.clone()),
            nic_id: match &zone.nic {
                Some(nic) => Some(nic.id),
                None => None,
            },
        }
    }
}

spec fn zone_rows_of(id: Uuid, zones: Seq<(Uuid, OmicronZoneConfig)>) -> Seq<InvOmicronZone> {
    zones.map_values(|z: (Uuid, OmicronZoneConfig)| zone_row(id, z.0, z.1))
}

spec fn nic_rows_of(id: Uuid, zones: Seq<(Uuid, OmicronZoneConfig)>) -> Seq<InvOmicronZoneNic> {
    nics_in_order(zones).map_values(
        |nic: ZoneNic| InvOmicronZoneNic { inv_collection_id: id, nic },
    )
}

/// Adds the rows of a sled's zones and of their interfaces.
fn add_zone_rows(
    id: Uuid,
    found: &OmicronZonesFound,
    zones: &mut Vec<InvOmicronZone>,
    nics: &mut Vec<InvOmicronZoneNic>,
    Ghost(before): Ghost<Seq<(Uuid, OmicronZoneConfig)>>,
)
    requires
        old(zones)@ == zone_rows_of(id, before),
        old(nics)@ == nic_rows_of(id, before),
    ensures
        ({
            let after = before + found@.zones.map_values(
                |z: OmicronZoneConfig| (found@.sled_id, z),
            );
            &&& final(zones)@ == zone_rows_of(id, after)
            &&& final(nics)@ == nic_rows_of(id, after)
        }),
{
    let ghost more = found@.zones.map_values(|z: OmicronZoneConfig| (found@.sled_id, z));
    let mut i: usize = 0;
    assert(before + more.take(0) =~= before);
    while i < found.zones.len()
        invariant
            i <= found.zones@.len(),
            more == found@.zones.map_values(|z: OmicronZoneConfig| (found@.sled_id, z)),
            zones@ == zone_rows_of(id, before + more.take(i as int)),
            nics@ == nic_rows_of(id, before + more.take(i as int)),
        decreases found.zones@.len() - i,
    {
        let zone = &found.zones[i];
        let ghost all = before + more.take(i as int);
        let ghost next = before + more.take(i + 1);
        let ghost was = nics@;
        proof {
            assert(next =~= all.push((found.sled_id, *zone)));
            assert(next.drop_last() =~= all);
        }
        zones.push(InvOmicronZone::new(id, found.sled_id, zone));
        assert(zones@ =~= zone_rows_of(id, next));
        if let Some(nic) = &zone.nic {
            nics.push(InvOmicronZoneNic { inv_collection_id: id, nic: nic.clone() });
        }
        assert(nics@ =~= nic_rows_of(id, next));
        i = i + 1;
    }
    assert(more.take(found.zones@.len() as int) =~= more);
}

fn zone_and_nic_rows(id: Uuid, map: &OrdMap<Uuid, OmicronZonesFound>) -> (rows: (
    Vec<InvOmicronZone>,
    Vec<InvOmicronZoneNic>,
))
    ensures
        ({
            let found = values::<Uuid, OmicronZonesFoundView>(
                map@.map_values(|z: OmicronZonesFound| z@),
            );
            let all = zones_in_order(found, found.len());
            &&& rows.0@ == zone_rows_of(id, all)
            &&& rows.1@ == nic_rows_of(id, all)
        }),
{
    let mut zones: Vec<InvOmicronZone> = Vec::new();
    let mut nics: Vec<InvOmicronZoneNic> = Vec::new();
    let ghost views = map@.map_values(|z: OmicronZonesFound| z@);
    let ghost found = values::<Uuid, OmicronZonesFoundView>(views);
    let n = map.len();
    let mut i: usize = 0;
    assert(views.dom() =~= map@.dom());
    assert(zones@ =~= zone_rows_of(id, zones_in_order(found, 0)));
    assert(nics@ =~= nic_rows_of(id, zones_in_order(found, 0)));
    while i < n
        invariant
            i <= n == map.keys().len() == found.len(),
            views == map@.map_values(|z: OmicronZonesFound| z@),
            forall|k: int| 0 <= k < n ==> #[trigger] found[k] == views[map.keys()[k]],
            zones@ == zone_rows_of(id, zones_in_order(found, i as nat)),
            nics@ == nic_rows_of(id, zones_in_order(found, i as nat)),
        decreases n - i,
    {
        let sled = map.value_at(i);
        assert(found[i as int] == sled@);
        add_zone_rows(id, sled, &mut zones, &mut nics, Ghost(zones_in_order(found, i as nat)));
        i = i + 1;
    }
    (zones, nics)
}

impl CollectionRows {
    /// The rows that a collection needs, where these of its values cannot be kept.
    ///
    /// The rows of hardware, images and pages get new random ids.
    pub fn new(collection: &Collection, unstorable: &Unstorable) -> (rows: Result<
        CollectionRows,
        InsertError,
    >)
        ensures
            match rows {
                Ok(rows) => insert_error(collection@, *unstorable) is None && rows_of(
                    rows,
                    collection@,
                ) && ids_are_drawn(rows),
                Err(e) => insert_error(collection@, *unstorable) == Some(e),
            },
    {
        let id = collection.id;
        let errors = match error_rows(id, &collection.errors) {
            Ok(rows) => rows,
            Err(e) => return Err(e),
        };
        if let Some(reason) = &unstorable.sled_agent {
            return Err(InsertError::Unstorable { reason: reason.clone() });
        }
        if let Some(reason) = &unstorable.zone {
            return Err(InsertError::Unstorable { reason: reason.clone() });
        }
        if let Some((zone, reason)) = &unstorable.nic {
            return Err(InsertError::UnstorableNic { zone: *zone, reason: reason.clone() });
        }
        let (sled_agents_baseboards, sled_agents_no_baseboards) = sled_agent_rows(
            id,
            &collection.sled_agents,
        );
        let (omicron_zones, omicron_zone_nics) = zone_and_nic_rows(id, &collection.omicron_zones);
        let rows = CollectionRows {
            baseboards: baseboard_rows(&collection.baseboards),
            cabooses: caboose_rows(&collection.cabooses),
            rot_pages: rot_page_rows(&collection.rot_pages),
            collection: InvCollection {
                id,
                time_started: collection.time_started,
                time_done: collection.time_done,
                collector: collection.collector.clone(),
            },
            sps: sp_rows(&collection.sps),
            rots: rot_rows(&collection.rots),
            cabooses_found: caboose_found_rows(&collection.cabooses_found),
            rot_pages_found: rot_page_found_rows(&collection.rot_pages_found),
            sled_agents_baseboards,
            sled_agents_no_baseboards,
            sled_omicron_zones: sled_zones_rows(id, &collection.omicron_zones),
            omicron_zones,
            omicron_zone_nics,
            errors,
        };
        assert(rows.errors@ =~= Seq::new(
            collection@.errors.len(),
            |i: int| error_row(collection@, i),
        ));
        Ok(rows)
    }
}

} // verus!
