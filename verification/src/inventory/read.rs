//! Putting a collection together from the rows in which it is kept.

use vstd::prelude::*;

use crate::ids::{format_uuid, text_of_uuid, Uuid};
use crate::inventory::rows::{
    HwBaseboardId, InvCaboose, InvCollection, InvCollectionError, InvOmicronZone,
    InvOmicronZoneNic, InvRootOfTrust, InvRotPage, InvServiceProcessor, InvSledAgent,
    InvSledOmicronZones, SwCaboose, SwRotPage,
};
use crate::inventory::types::{
    clone_text, BaseboardId, BaseboardIdView, Caboose, CabooseFound, CabooseFoundView,
    CaboosePlace, CabooseView, CabooseWhich, Collection, CollectionView, OmicronZoneConfig,
    OmicronZonesFound, OmicronZonesFoundView, PlaceView, RotPage, RotPageFound, RotPageFoundView,
    RotPagePlace, RotPageWhich, RotState, ServiceProcessor, SledAgent, SledAgentView, SocketAddrV6,
    ZoneNic,
};
use crate::ordmap::{entries, in_order, to_map, to_map_grows, Key, OrdMap};
use crate::text::{decimal, decimal_of, joined};

verus! {

/// Why a collection cannot be put together.
#[derive(Debug, PartialEq, Eq)]
pub enum ReadError {
    /// There is not exactly one collection with the id.
    CollectionCount { found: usize },
    /// Hardware that should have been fetched is missing.
    MissingBaseboard,
    /// A found image is on unknown hardware.
    CabooseUnknownBaseboard { id: Uuid },
    /// A found image is unknown.
    UnknownCaboose { id: Uuid },
    /// Two images were found in one place.
    DuplicateCaboose { which: CabooseWhich, hw_baseboard_id: Uuid },
    /// A found page is on unknown hardware.
    RotPageUnknownBaseboard { id: Uuid },
    /// A found page is unknown.
    UnknownRotPage { id: Uuid },
    /// Two pages were found in one place.
    DuplicateRotPage { page: RotPageWhich, hw_baseboard_id: Uuid },
    /// A zone's interface was not found, or was used by another zone before.
    MissingNic { zone: Uuid, nic: Uuid },
    /// A zone is on a sled that is not known to have zones.
    UnknownSled { zone: Uuid, sled: Uuid },
    /// What is kept of a zone cannot be understood.
    UnreadableZone { zone: Uuid },
    /// Interfaces are left that no zone uses.
    ExtraNics { ids: Vec<Uuid> },
    /// The limit on rows was reached.
    LimitReached { limit: u32 },
}

/// Why a collection cannot be put together.
pub ghost enum ReadErrorView {
    /// There is not exactly one collection with the id.
    CollectionCount { found: usize },
    /// Hardware that should have been fetched is missing.
    MissingBaseboard,
    /// A found image is on unknown hardware.
    CabooseUnknownBaseboard { id: Uuid },
    /// A found image is unknown.
    UnknownCaboose { id: Uuid },
    /// Two images were found in one place.
    DuplicateCaboose { which: CabooseWhich, hw_baseboard_id: Uuid },
    /// A found page is on unknown hardware.
    RotPageUnknownBaseboard { id: Uuid },
    /// A found page is unknown.
    UnknownRotPage { id: Uuid },
    /// Two pages were found in one place.
    DuplicateRotPage { page: RotPageWhich, hw_baseboard_id: Uuid },
    /// A zone's interface was not found, or was used by another zone before.
    MissingNic { zone: Uuid, nic: Uuid },
    /// A zone is on a sled that is not known to have zones.
    UnknownSled { zone: Uuid, sled: Uuid },
    /// What is kept of a zone cannot be understood.
    UnreadableZone { zone: Uuid },
    /// Interfaces are left that no zone uses.
    ExtraNics { ids: Seq<Uuid> },
    /// The limit on rows was reached.
    LimitReached { limit: u32 },
}

impl View for ReadError {
    type V = ReadErrorView;

    open spec fn view(&self) -> ReadErrorView {
        match *self {
            ReadError::CollectionCount { found } => ReadErrorView::CollectionCount { found },
            ReadError::MissingBaseboard => ReadErrorView::MissingBaseboard,
            ReadError::CabooseUnknownBaseboard { id } => ReadErrorView::CabooseUnknownBaseboard { id },
            ReadError::UnknownCaboose { id } => ReadErrorView::UnknownCaboose { id },
            ReadError::DuplicateCaboose { which, hw_baseboard_id } => ReadErrorView::DuplicateCaboose { which, hw_baseboard_id },
            ReadError::RotPageUnknownBaseboard { id } => ReadErrorView::RotPageUnknownBaseboard { id },
            ReadError::UnknownRotPage { id } => ReadErrorView::UnknownRotPage { id },
            ReadError::DuplicateRotPage { page, hw_baseboard_id } => ReadErrorView::DuplicateRotPage { page, hw_baseboard_id },
            ReadError::MissingNic { zone, nic } => ReadErrorView::MissingNic { zone, nic },
            ReadError::UnknownSled { zone, sled } => ReadErrorView::UnknownSled { zone, sled },
            ReadError::UnreadableZone { zone } => ReadErrorView::UnreadableZone { zone },
            ReadError::ExtraNics { ids } => ReadErrorView::ExtraNics { ids: ids@ },
            ReadError::LimitReached { limit } => ReadErrorView::LimitReached { limit },
        }
    }
}

/// Ids, with commas between them.
pub open spec fn listed_ids(ids: Seq<Uuid>) -> Seq<char>
    decreases ids.len(),
{
    if ids.len() == 0 {
        Seq::empty()
    } else if ids.len() == 1 {
        text_of_uuid(ids[0])
    } else {
        listed_ids(ids.drop_last()) + ", "@ + text_of_uuid(ids.last())
    }
}

fn list_ids(ids: &Vec<Uuid>) -> (s: String)
    ensures
        s@ == listed_ids(ids@),
{
    let mut s = String::new();
    let mut i: usize = 0;
    assert(ids@.take(0) =~= Seq::empty());
    while i < ids.len()
        invariant
            i <= ids@.len(),
            s@ == listed_ids(ids@.take(i as int)),
        decreases ids@.len() - i,
    {
        proof {
            assert(ids@.take(i + 1).drop_last() =~= ids@.take(i as int));
        }
        if i > 0 {
            s.append(", ");
        }
        s.append(format_uuid(ids[i]).as_str());
        i = i + 1;
        assert(s@ =~= listed_ids(ids@.take(i as int)));
    }
    assert(ids@.take(i as int) =~= ids@);
    s
}

impl ReadErrorView {
    /// What the error says.
    pub open spec fn text(self) -> Seq<char> {
        match self {
            ReadErrorView::CollectionCount { .. }
                => "failed runtime check: \"collections.len() == 1\""@,
            ReadErrorView::MissingBaseboard => "missing baseboard that we should have fetched"@,
            ReadErrorView::CabooseUnknownBaseboard { id }
                => "unknown baseboard found in inv_caboose: "@ + text_of_uuid(id),
            ReadErrorView::UnknownCaboose { id } => "unknown caboose found in inv_caboose: "@
                + text_of_uuid(id),
            ReadErrorView::DuplicateCaboose { which, hw_baseboard_id }
                => "duplicate caboose found: "@ + which.text() + " baseboard "@ + text_of_uuid(
                hw_baseboard_id,
            ),
            ReadErrorView::RotPageUnknownBaseboard { id }
                => "unknown baseboard found in inv_root_of_trust_page: "@ + text_of_uuid(id),
            ReadErrorView::UnknownRotPage { id }
                => "unknown rot page found in inv_root_of_trust_page: "@ + text_of_uuid(id),
            ReadErrorView::DuplicateRotPage { page, hw_baseboard_id }
                => "duplicate rot page found: "@ + page.text() + " baseboard "@ + text_of_uuid(
                hw_baseboard_id,
            ),
            ReadErrorView::MissingNic { zone, nic } => "zone "@ + text_of_uuid(zone)
                + ": expected to find NIC Some("@ + text_of_uuid(nic) + "), but didn't"@,
            ReadErrorView::UnknownSled { zone, sled } => "zone "@ + text_of_uuid(zone)
                + ": unknown sled: "@ + text_of_uuid(sled),
            ReadErrorView::UnreadableZone { zone } => "zone "@ + text_of_uuid(zone)
                + ": parse from database"@,
            ReadErrorView::ExtraNics { ids } => "found extra Omicron zone NICs: ["@ + listed_ids(
                ids,
            ) + "]"@,
            ReadErrorView::LimitReached { limit } => "hit limit of "@ + decimal(limit as nat)
                + " records while loading collection"@,
        }
    }
}

impl ReadError {
    /// What the error says.
    pub fn message(&self) -> (s: String)
        ensures
            s@ == self@.text(),
    {
        match self {
            ReadError::CollectionCount { .. } => {
                "failed runtime check: \"collections.len() == 1\"".to_owned()
            },
            ReadError::MissingBaseboard => {
                "missing baseboard that we should have fetched".to_owned()
            },
            ReadError::CabooseUnknownBaseboard { id } => {
                joined("unknown baseboard found in inv_caboose: ", format_uuid(*id).as_str())
            },
            ReadError::UnknownCaboose { id } => {
                joined("unknown caboose found in inv_caboose: ", format_uuid(*id).as_str())
            },
            ReadError::DuplicateCaboose { which, hw_baseboard_id } => {
                let mut s = joined("duplicate caboose found: ", which.name());
                s.append(" baseboard ");
                s.append(format_uuid(*hw_baseboard_id).as_str());
                s
            },
            ReadError::RotPageUnknownBaseboard { id } => joined(
                "unknown baseboard found in inv_root_of_trust_page: ",
                format_uuid(*id).as_str(),
            ),
            ReadError::UnknownRotPage { id } => joined(
                "unknown rot page found in inv_root_of_trust_page: ",
                format_uuid(*id).as_str(),
            ),
            ReadError::DuplicateRotPage { page, hw_baseboard_id } => {
                let mut s = joined("duplicate rot page found: ", page.name());
                s.append(" baseboard ");
                s.append(format_uuid(*hw_baseboard_id).as_str());
                s
            },
            ReadError::MissingNic { zone, nic } => {
                let mut s = joined("zone ", format_uuid(*zone).as_str());
                s.append(": expected to find NIC Some(");
                s.append(format_uuid(*nic).as_str());
                s.append("), but didn't");
                s
            },
            ReadError::UnknownSled { zone, sled } => {
                let mut s = joined("zone ", format_uuid(*zone).as_str());
                s.append(": unknown sled: ");
                s.append(format_uuid(*sled).as_str());
                s
            },
            ReadError::UnreadableZone { zone } => {
                let mut s = joined("zone ", format_uuid(*zone).as_str());
                s.append(": parse from database");
                s
            },
            ReadError::ExtraNics { ids } => {
                let mut s = joined("found extra Omicron zone NICs: [", list_ids(ids).as_str());
                s.append("]");
                s
            },
            ReadError::LimitReached { limit } => {
                let mut s = joined("hit limit of ", decimal_of(*limit as u64).as_str());
                s.append(" records while loading collection");
                s
            },
        }
    }
}

/// The rows that were read for a collection, table by table. At most two rows of `inv_collection`
/// were asked for, and at most as many as the limit says of each other table. The errors are in the
/// order of their indices.
#[derive(Debug, PartialEq, Eq)]
pub struct CollectionReplies {
    pub collections: Vec<InvCollection>,
    pub errors: Vec<InvCollectionError>,
    pub sps: Vec<InvServiceProcessor>,
    pub rots: Vec<InvRootOfTrust>,
    pub sled_agents: Vec<InvSledAgent>,
    pub baseboards: Vec<HwBaseboardId>,
    pub cabooses_found: Vec<InvCaboose>,
    pub cabooses: Vec<SwCaboose>,
    pub rot_pages_found: Vec<InvRotPage>,
    pub rot_pages: Vec<SwRotPage>,
    pub sled_omicron_zones: Vec<InvSledOmicronZones>,
    pub omicron_zone_nics: Vec<InvOmicronZoneNic>,
    pub omicron_zones: Vec<InvOmicronZone>,
}

/// The service processors by the id of their hardware.
pub open spec fn sps_by_id(rows: Seq<InvServiceProcessor>) -> Map<Uuid, ServiceProcessor> {
    to_map(rows.map_values(|r: InvServiceProcessor| (r.hw_baseboard_id, r.sp)))
}

/// The roots of trust by the id of their hardware.
pub open spec fn rots_by_id(rows: Seq<InvRootOfTrust>) -> Map<Uuid, RotState> {
    to_map(rows.map_values(|r: InvRootOfTrust| (r.hw_baseboard_id, r.rot)))
}

/// The hardware by its id.
pub open spec fn baseboards_by_id(rows: Seq<HwBaseboardId>) -> Map<Uuid, BaseboardIdView> {
    to_map(rows.map_values(|r: HwBaseboardId| (r.id, r.baseboard@)))
}

/// The images by their ids.
pub open spec fn cabooses_by_id(rows: Seq<SwCaboose>) -> Map<Uuid, CabooseView> {
    to_map(rows.map_values(|r: SwCaboose| (r.id, r.caboose@)))
}

/// The pages by their ids.
pub open spec fn rot_pages_by_id(rows: Seq<SwRotPage>) -> Map<Uuid, Seq<char>> {
    to_map(rows.map_values(|r: SwRotPage| (r.id, r.page@)))
}

/// The interfaces by their ids.
pub open spec fn nics_by_id(rows: Seq<InvOmicronZoneNic>) -> Map<Uuid, ZoneNic> {
    to_map(rows.map_values(|r: InvOmicronZoneNic| (r.nic.id, r.nic)))
}

/// The sled of a row, without zones so far.
pub open spec fn sled_without_zones(row: InvSledOmicronZones) -> OmicronZonesFoundView {
    OmicronZonesFoundView {
        time_collected: row.time_collected,
        source: row.source,
        sled_id: row.sled_id,
        generation: row.generation,
        zones: Seq::empty(),
    }
}

/// The sleds that have zones, with no zones yet.
pub open spec fn sleds_by_id(rows: Seq<InvSledOmicronZones>) -> Map<Uuid, OmicronZonesFoundView> {
    to_map(rows.map_values(|r: InvSledOmicronZones| (r.sled_id, sled_without_zones(r))))
}

/// The values of all ids in `map` are known.
pub open spec fn all_known<V, W>(map: Map<Uuid, V>, known: Map<Uuid, W>) -> bool {
    forall|id: Uuid| #[trigger] map.contains_key(id) ==> known.contains_key(id)
}

/// The map with each id replaced by the hardware that it stands for. Where two ids stand for the
/// same hardware, the greater decides.
pub open spec fn by_baseboard<V>(map: Map<Uuid, V>, known: Map<Uuid, BaseboardIdView>) -> Map<
    BaseboardIdView,
    V,
> {
    to_map(entries::<Uuid, V>(map).map_values(|e: (Uuid, V)| (known[e.0], e.1)))
}

/// A sled agent's hardware is known, if the row names it.
pub open spec fn agent_known(row: InvSledAgent, known: Map<Uuid, BaseboardIdView>) -> bool {
    row.hw_baseboard_id matches Some(id) ==> known.contains_key(id)
}

/// The sled agent of a row.
pub open spec fn agent_of(row: InvSledAgent, known: Map<Uuid, BaseboardIdView>) -> SledAgentView {
    SledAgentView {
        time_collected: row.time_collected,
        source: row.source,
        sled_id: row.sled_id,
        baseboard_id: match row.hw_baseboard_id {
            Some(id) => Some(known[id]),
            None => None,
        },
        sled_agent_address: SocketAddrV6 {
            ip: row.sled_agent_ip,
            port: row.sled_agent_port,
            flowinfo: 0,
            scope_id: 0,
        },
        sled_role: row.sled_role,
        usable_hardware_threads: row.usable_hardware_threads,
        usable_physical_ram: row.usable_physical_ram,
        reservoir_size: row.reservoir_size,
    }
}

/// The sled agents of the rows by the ids of the sleds.
pub open spec fn agents_of(rows: Seq<InvSledAgent>, known: Map<Uuid, BaseboardIdView>) -> Map<
    Uuid,
    SledAgentView,
> {
    to_map(rows.map_values(|r: InvSledAgent| (r.sled_id, agent_of(r, known))))
}

/// The place and the image of a row.
pub open spec fn caboose_entry(
    row: InvCaboose,
    known: Map<Uuid, BaseboardIdView>,
    cabooses: Map<Uuid, CabooseView>,
) -> (PlaceView, CabooseFoundView) {
    (
        PlaceView { which: row.which.rank(), baseboard: known[row.hw_baseboard_id] },
        CabooseFoundView {
            time_collected: row.time_collected,
            source: row.source,
            caboose: cabooses[row.sw_caboose_id],
        },
    )
}

/// The images of the first `n` rows by their places, or the first error.
pub open spec fn found_cabooses(
    rows: Seq<InvCaboose>,
    known: Map<Uuid, BaseboardIdView>,
    cabooses: Map<Uuid, CabooseView>,
    n: nat,
) -> Result<Map<PlaceView, CabooseFoundView>, ReadErrorView>
    decreases n,
{
    if n == 0 {
        Ok(Map::empty())
    } else {
        match found_cabooses(rows, known, cabooses, (n - 1) as nat) {
            Ok(found) => {
                let row = rows[n - 1];
                let entry = caboose_entry(row, known, cabooses);
                if !known.contains_key(row.hw_baseboard_id) {
                    Err(ReadErrorView::CabooseUnknownBaseboard { id: row.hw_baseboard_id })
                } else if !cabooses.contains_key(row.sw_caboose_id) {
                    Err(ReadErrorView::UnknownCaboose { id: row.sw_caboose_id })
                } else if found.contains_key(entry.0) {
                    Err(
                        ReadErrorView::DuplicateCaboose {
                            which: row.which,
                            hw_baseboard_id: row.hw_baseboard_id,
                        },
                    )
                } else {
                    Ok(found.insert(entry.0, entry.1))
                }
            },
            Err(e) => Err(e),
        }
    }
}

/// The place and the page of a row.
pub open spec fn rot_page_entry(
    row: InvRotPage,
    known: Map<Uuid, BaseboardIdView>,
    pages: Map<Uuid, Seq<char>>,
) -> (PlaceView, RotPageFoundView) {
    (
        PlaceView { which: row.which.rank(), baseboard: known[row.hw_baseboard_id] },
        RotPageFoundView {
            time_collected: row.time_collected,
            source: row.source,
            page: pages[row.sw_root_of_trust_page_id],
        },
    )
}

/// The pages of the first `n` rows by their places, or the first error.
pub open spec fn found_rot_pages(
    rows: Seq<InvRotPage>,
    known: Map<Uuid, BaseboardIdView>,
    pages: Map<Uuid, Seq<char>>,
    n: nat,
) -> Result<Map<PlaceView, RotPageFoundView>, ReadErrorView>
    decreases n,
{
    if n == 0 {
        Ok(Map::empty())
    } else {
        match found_rot_pages(rows, known, pages, (n - 1) as nat) {
            Ok(found) => {
                let row = rows[n - 1];
                let entry = rot_page_entry(row, known, pages);
                if !known.contains_key(row.hw_baseboard_id) {
                    Err(ReadErrorView::RotPageUnknownBaseboard { id: row.hw_baseboard_id })
                } else if !pages.contains_key(row.sw_root_of_trust_page_id) {
                    Err(ReadErrorView::UnknownRotPage { id: row.sw_root_of_trust_page_id })
                } else if found.contains_key(entry.0) {
                    Err(
                        ReadErrorView::DuplicateRotPage {
                            page: row.which,
                            hw_baseboard_id: row.hw_baseboard_id,
                        },
                    )
                } else {
                    Ok(found.insert(entry.0, entry.1))
                }
            },
            Err(e) => Err(e),
        }
    }
}

/// The zone of a row that can be understood, with its interface.
pub open spec fn zone_of(row: InvOmicronZone, nic: Option<ZoneNic>) -> OmicronZoneConfig
    recommends
        row.details is Some,
{
    OmicronZoneConfig {
        id: row.id,
        underlay_address: row.underlay_address,
        zone_type: row.zone_type,
        dataset: row.dataset,
        details: row.details->0,
        nic,
    }
}

/// The sleds with their zones, and the interfaces that no zone used yet.
#[verifier::ext_equal]
pub ghost struct ZonesState {
    pub sleds: Map<Uuid, OmicronZonesFoundView>,
    pub nics: Map<Uuid, ZoneNic>,
}

/// The sled with one more zone.
pub open spec fn with_zone(found: OmicronZonesFoundView, zone: OmicronZoneConfig) ->
    OmicronZonesFoundView {
    OmicronZonesFoundView { zones: found.zones.push(zone), ..found }
}

/// Puts the zone of a row on its sled.
pub open spec fn place_zone(state: ZonesState, row: InvOmicronZone) -> Result<
    ZonesState,
    ReadErrorView,
> {
    match row.nic_id {
        Some(nic) if !state.nics.contains_key(nic) => Err(
            ReadErrorView::MissingNic { zone: row.id, nic },
        ),
        _ => if !state.sleds.contains_key(row.sled_id) {
            Err(ReadErrorView::UnknownSled { zone: row.id, sled: row.sled_id })
        } else if row.details is None {
            Err(ReadErrorView::UnreadableZone { zone: row.id })
        } else {
            let found = state.sleds[row.sled_id];
            match row.nic_id {
                Some(nic) => Ok(
                    ZonesState {
                        sleds: state.sleds.insert(
                            row.sled_id,
                            with_zone(found, zone_of(row, Some(state.nics[nic]))),
                        ),
                        nics: state.nics.remove(nic),
                    },
                ),
                None => Ok(
                    ZonesState {
                        sleds: state.sleds.insert(
                            row.sled_id,
                            with_zone(found, zone_of(row, None)),
                        ),
                        nics: state.nics,
                    },
                ),
            }
        },
    }
}

/// The zones of the first `n` rows on their sleds, or the first error.
pub open spec fn placed_zones(start: ZonesState, rows: Seq<InvOmicronZone>, n: nat) -> Result<
    ZonesState,
    ReadErrorView,
>
    decreases n,
{
    if n == 0 {
        Ok(start)
    } else {
        match placed_zones(start, rows, (n - 1) as nat) {
            Ok(state) => place_zone(state, rows[n - 1]),
            Err(e) => Err(e),
        }
    }
}

/// The sleds with all their zones.
pub open spec fn zones_found(replies: CollectionReplies) -> Result<
    Map<Uuid, OmicronZonesFoundView>,
    ReadErrorView,
> {
    let start = ZonesState {
        sleds: sleds_by_id(replies.sled_omicron_zones@),
        nics: nics_by_id(replies.omicron_zone_nics@),
    };
    match placed_zones(start, replies.omicron_zones@, replies.omicron_zones@.len()) {
        Ok(state) => if state.nics.len() > 0 {
            Err(ReadErrorView::ExtraNics { ids: in_order::<Uuid>(state.nics.dom()) })
        } else {
            Ok(state.sleds)
        },
        Err(e) => Err(e),
    }
}

/// All hardware that the service processors, the roots of trust and the sled agents name was
/// fetched.
pub open spec fn hardware_known(replies: CollectionReplies) -> bool {
    let known = baseboards_by_id(replies.baseboards@);
    &&& all_known(sps_by_id(replies.sps@), known)
    &&& all_known(rots_by_id(replies.rots@), known)
    &&& forall|i: int|
        0 <= i < replies.sled_agents@.len() ==> agent_known(
            #[trigger] replies.sled_agents@[i],
            known,
        )
}

/// The collection that the rows stand for, or why they stand for none.
pub open spec fn assembled(id: Uuid, replies: CollectionReplies) -> Result<
    CollectionView,
    ReadErrorView,
> {
    let known = baseboards_by_id(replies.baseboards@);
    let cabooses = cabooses_by_id(replies.cabooses@);
    let pages = rot_pages_by_id(replies.rot_pages@);
    if replies.collections@.len() != 1 {
        Err(ReadErrorView::CollectionCount { found: replies.collections@.len() as usize })
    } else if !hardware_known(replies) {
        Err(ReadErrorView::MissingBaseboard)
    } else {
        match found_cabooses(
            replies.cabooses_found@,
            known,
            cabooses,
            replies.cabooses_found@.len(),
        ) {
            Err(e) => Err(e),
            Ok(cabooses_found) => match found_rot_pages(
                replies.rot_pages_found@,
                known,
                pages,
                replies.rot_pages_found@.len(),
            ) {
                Err(e) => Err(e),
                Ok(rot_pages_found) => match zones_found(replies) {
                    Err(e) => Err(e),
                    Ok(omicron_zones) => Ok(
                        CollectionView {
                            id,
                            errors: replies.errors@.map_values(|r: InvCollectionError| r.message),
                            time_started: replies.collections@[0].time_started,
                            time_done: replies.collections@[0].time_done,
                            collector: replies.collections@[0].collector,
                            baseboards: known.values(),
                            cabooses: cabooses.values(),
                            rot_pages: pages.values(),
                            sps: by_baseboard(sps_by_id(replies.sps@), known),
                            rots: by_baseboard(rots_by_id(replies.rots@), known),
                            cabooses_found,
                            rot_pages_found,
                            sled_agents: agents_of(replies.sled_agents@, known),
                            omicron_zones,
                        },
                    ),
                },
            },
        }
    }
}

/// Some table had as many rows as were asked for at most, so that there may be more.
pub open spec fn limit_reached(replies: CollectionReplies, limit: u32) -> bool {
    ||| replies.errors@.len() == limit
    ||| sps_by_id(replies.sps@).len() == limit
    ||| rots_by_id(replies.rots@).len() == limit
    ||| replies.sled_agents@.len() == limit
    ||| baseboards_by_id(replies.baseboards@).len() == limit
    ||| replies.cabooses_found@.len() == limit
    ||| cabooses_by_id(replies.cabooses@).len() == limit
    ||| replies.rot_pages_found@.len() == limit
    ||| rot_pages_by_id(replies.rot_pages@).len() == limit
    ||| sleds_by_id(replies.sled_omicron_zones@).len() == limit
    ||| nics_by_id(replies.omicron_zone_nics@).len() == limit
    ||| replies.omicron_zones@.len() == limit
}

/// The entries of the rows as a map, where `entry` gives the entry of a row.
fn index<R, V, T, F: Fn(&R) -> (Uuid, V)>(
    rows: &Vec<R>,
    entry: F,
    Ghost(view): Ghost<spec_fn(V) -> T>,
    Ghost(pair): Ghost<spec_fn(R) -> (Uuid, T)>,
) -> (m: OrdMap<Uuid, V>)
    requires
        forall|r: R| #[trigger] call_requires(entry, (&r,)),
        forall|r: R, e: (Uuid, V)| #[trigger]
            call_ensures(entry, (&r,), e) ==> (e.0, view(e.1)) == pair(r),
    ensures
        m@.map_values(view) == to_map(rows@.map_values(pair)),
        m@.map_values(view).dom() == m@.dom(),
{
    let mut m: OrdMap<Uuid, V> = OrdMap::new();
    let ghost pairs = rows@.map_values(pair);
    let mut i: usize = 0;
    assert(m@.map_values(view) =~= to_map(pairs.take(0)));
    while i < rows.len()
        invariant
            i <= rows@.len() == pairs.len(),
            pairs == rows@.map_values(pair),
            forall|r: R| #[trigger] call_requires(entry, (&r,)),
            forall|r: R, e: (Uuid, V)| #[trigger]
                call_ensures(entry, (&r,), e) ==> (e.0, view(e.1)) == pair(r),
            m@.map_values(view) == to_map(pairs.take(i as int)),
        decreases rows@.len() - i,
    {
        let ghost was = m@;
        let (key, value) = entry(&rows[i]);
        let _ = m.insert(key, value);
        proof {
            to_map_grows(pairs, i as int);
            assert(m@.map_values(view) =~= was.map_values(view).insert(key, view(value)));
        }
        i = i + 1;
    }
    proof {
        assert(pairs.take(rows@.len() as int) =~= pairs);
        assert(m@.map_values(view).dom() =~= m@.dom());
    }
    m
}

fn sp_entry(r: &InvServiceProcessor) -> (e: (Uuid, ServiceProcessor))
    ensures
        e == (r.hw_baseboard_id, r.sp),
{
    (r.hw_baseboard_id, r.sp.clone())
}

fn index_sps(rows: &Vec<InvServiceProcessor>) -> (m: OrdMap<Uuid, ServiceProcessor>)
    ensures
        m@ == sps_by_id(rows@),
{
    let m = index::<_, _, ServiceProcessor, _>(
        rows,
        sp_entry,
        Ghost(|v: ServiceProcessor| v),
        Ghost(|r: InvServiceProcessor| (r.hw_baseboard_id, r.sp)),
    );
    assert(m@.map_values(|v: ServiceProcessor| v) =~= m@);
    m
}

fn rot_entry(r: &InvRootOfTrust) -> (e: (Uuid, RotState))
    ensures
        e == (r.hw_baseboard_id, r.rot),
{
    (r.hw_baseboard_id, r.rot.clone())
}

fn index_rots(rows: &Vec<InvRootOfTrust>) -> (m: OrdMap<Uuid, RotState>)
    ensures
        m@ == rots_by_id(rows@),
{
    let m = index::<_, _, RotState, _>(
        rows,
        rot_entry,
        Ghost(|v: RotState| v),
        Ghost(|r: InvRootOfTrust| (r.hw_baseboard_id, r.rot)),
    );
    assert(m@.map_values(|v: RotState| v) =~= m@);
    m
}

fn nic_entry(r: &InvOmicronZoneNic) -> (e: (Uuid, ZoneNic))
    ensures
        e == (r.nic.id, r.nic),
{
    (r.nic.id, r.nic.clone())
}

fn index_nics(rows: &Vec<InvOmicronZoneNic>) -> (m: OrdMap<Uuid, ZoneNic>)
    ensures
        m@ == nics_by_id(rows@),
{
    let m = index::<_, _, ZoneNic, _>(
        rows,
        nic_entry,
        Ghost(|v: ZoneNic| v),
        Ghost(|r: InvOmicronZoneNic| (r.nic.id, r.nic)),
    );
    assert(m@.map_values(|v: ZoneNic| v) =~= m@);
    m
}

fn baseboard_entry(r: &HwBaseboardId) -> (e: (Uuid, BaseboardId))
    ensures
        e == (r.id, r.baseboard),
{
    (r.id, r.baseboard.clone())
}

fn index_baseboards(rows: &Vec<HwBaseboardId>) -> (m: OrdMap<Uuid, BaseboardId>)
    ensures
        m@.map_values(|v: BaseboardId| v@) == baseboards_by_id(rows@),
        m@.map_values(|v: BaseboardId| v@).dom() == m@.dom(),
{
    index::<_, _, BaseboardIdView, _>(
        rows,
        baseboard_entry,
        Ghost(|v: BaseboardId| v@),
        Ghost(|r: HwBaseboardId| (r.id, r.baseboard@)),
    )
}

fn image_entry(r: &SwCaboose) -> (e: (Uuid, Caboose))
    ensures
        e == (r.id, r.caboose),
{
    (r.id, r.caboose.clone())
}

fn index_cabooses(rows: &Vec<SwCaboose>) -> (m: OrdMap<Uuid, Caboose>)
    ensures
        m@.map_values(|v: Caboose| v@) == cabooses_by_id(rows@),
        m@.map_values(|v: Caboose| v@).dom() == m@.dom(),
{
    index::<_, _, CabooseView, _>(
        rows,
        image_entry,
        Ghost(|v: Caboose| v@),
        Ghost(|r: SwCaboose| (r.id, r.caboose@)),
    )
}

fn page_entry(r: &SwRotPage) -> (e: (Uuid, RotPage))
    ensures
        e == (r.id, r.page),
{
    (r.id, r.page.clone())
}

fn index_rot_pages(rows: &Vec<SwRotPage>) -> (m: OrdMap<Uuid, RotPage>)
    ensures
        m@.map_values(|v: RotPage| v@) == rot_pages_by_id(rows@),
        m@.map_values(|v: RotPage| v@).dom() == m@.dom(),
{
    index::<_, _, Seq<char>, _>(
        rows,
        page_entry,
        Ghost(|v: RotPage| v@),
        Ghost(|r: SwRotPage| (r.id, r.page@)),
    )
}

fn sled_entry(r: &InvSledOmicronZones) -> (e: (Uuid, OmicronZonesFound))
    ensures
        (e.0, e.1@) == (r.sled_id, sled_without_zones(*r)),
{
    let found = OmicronZonesFound {
        time_collected: r.time_collected,
        source: r.source.clone(),
        sled_id: r.sled_id,
        generation: r.generation,
        zones: Vec::new(),
    };
    assert(found@ =~= sled_without_zones(*r));
    (r.sled_id, found)
}

fn index_sleds(rows: &Vec<InvSledOmicronZones>) -> (m: OrdMap<Uuid, OmicronZonesFound>)
    ensures
        m@.map_values(|v: OmicronZonesFound| v@) == sleds_by_id(rows@),
        m@.map_values(|v: OmicronZonesFound| v@).dom() == m@.dom(),
{
    index::<_, _, OmicronZonesFoundView, _>(
        rows,
        sled_entry,
        Ghost(|v: OmicronZonesFound| v@),
        Ghost(|r: InvSledOmicronZones| (r.sled_id, sled_without_zones(r))),
    )
}

/// What the known hardware is.
spec fn known_of(known: Map<Uuid, BaseboardId>) -> Map<Uuid, BaseboardIdView> {
    known.map_values(|b: BaseboardId| b@)
}

/// What was found on hardware, by that hardware in place of its id, unless some of it is not known.
fn found_by_baseboard<V: Clone>(
    found: &OrdMap<Uuid, V>,
    known: &OrdMap<Uuid, BaseboardId>,
) -> (m: Option<OrdMap<BaseboardId, V>>)
    requires
        forall|a: V, b: V| #[trigger] call_ensures(V::clone, (&a,), b) ==> b == a,
    ensures
        match m {
            Some(m) => all_known(found@, known_of(known@)) && m@ == by_baseboard(
                found@,
                known_of(known@),
            ),
            None => !all_known(found@, known_of(known@)),
        },
{
    let mut m: OrdMap<BaseboardId, V> = OrdMap::new();
    let ghost ids = known_of(known@);
    let n = found.len();
    let ghost keys = found.keys();
    let ghost pairs = entries::<Uuid, V>(found@).map_values(
        |e: (Uuid, V)| (ids[e.0], e.1),
    );
    let mut i: usize = 0;
    while i < n
        invariant
            forall|a: V, b: V| #[trigger] call_ensures(V::clone, (&a,), b) ==> b == a,
            i <= n == keys.len() == pairs.len(),
            keys == found.keys(),
            keys == in_order::<Uuid>(found@.dom()),
            ids == known_of(known@),
            pairs == entries::<Uuid, V>(found@).map_values(
                |e: (Uuid, V)| (ids[e.0], e.1),
            ),
            forall|k: int| 0 <= k < i ==> ids.contains_key(#[trigger] keys[k]),
            m@ == to_map(pairs.take(i as int)),
        decreases n - i,
    {
        let id = *found.key_at(i);
        match known.get(&id) {
            Some(baseboard) => {
                proof {
                    to_map_grows(pairs, i as int);
                    assert(pairs[i as int] == (baseboard@, found@[keys[i as int]]));
                }
                let _ = m.insert(baseboard.clone(), found.value_at(i).clone());
            },
            None => {
                assert(found@.contains_key(id) && !ids.contains_key(id));
                return None;
            },
        }
        i = i + 1;
    }
    proof {
        assert(pairs.take(n as int) =~= pairs);
        assert(all_known(found@, ids)) by {
            assert forall|id: Uuid| #[trigger] found@.contains_key(id) implies ids.contains_key(
                id,
            ) by {
                assert(keys.contains(id));
            }
        }
    }
    Some(m)
}

fn agent_from(row: &InvSledAgent, known: &OrdMap<Uuid, BaseboardId>) -> (agent: Option<SledAgent>)
    ensures
        match agent {
            Some(agent) => agent_known(*row, known_of(known@)) && agent@ == agent_of(
                *row,
                known_of(known@),
            ),
            None => !agent_known(*row, known_of(known@)),
        },
{
    let baseboard_id = match row.hw_baseboard_id {
        Some(id) => match known.get(&id) {
            Some(baseboard) => Some(baseboard.clone()),
            None => return None,
        },
        None => None,
    };
    Some(
        SledAgent {
            time_collected: row.time_collected,
            source: row.source.clone(),
            sled_id: row.sled_id,
            baseboard_id,
            sled_agent_address: SocketAddrV6 {
                ip: row.sled_agent_ip,
                port: row.sled_agent_port,
                flowinfo: 0,
                scope_id: 0,
            },
            sled_role: row.sled_role,
            usable_hardware_threads: row.usable_hardware_threads,
            usable_physical_ram: row.usable_physical_ram,
            reservoir_size: row.reservoir_size,
        },
    )
}

fn agents_from(rows: &Vec<InvSledAgent>, known: &OrdMap<Uuid, BaseboardId>) -> (m: Option<
    OrdMap<Uuid, SledAgent>,
>)
    ensures
        match m {
            Some(m) => (forall|i: int|
                0 <= i < rows@.len() ==> agent_known(#[trigger] rows@[i], known_of(known@)))
                && m@.map_values(|s: SledAgent| s@) == agents_of(rows@, known_of(known@)),
            None => exists|i: int|
                0 <= i < rows@.len() && !agent_known(#[trigger] rows@[i], known_of(known@)),
        },
{
    let mut m: OrdMap<Uuid, SledAgent> = OrdMap::new();
    let ghost view = |s: SledAgent| s@;
    let ghost ids = known_of(known@);
    let ghost pairs = rows@.map_values(|r: InvSledAgent| (r.sled_id, agent_of(r, ids)));
    let mut i: usize = 0;
    assert(m@.map_values(view) =~= to_map(pairs.take(0)));
    while i < rows.len()
        invariant
            i <= rows@.len() == pairs.len(),
            view == (|s: SledAgent| s@),
            ids == known_of(known@),
            pairs == rows@.map_values(|r: InvSledAgent| (r.sled_id, agent_of(r, ids))),
            forall|k: int| 0 <= k < i ==> agent_known(#[trigger] rows@[k], ids),
            m@.map_values(view) == to_map(pairs.take(i as int)),
        decreases rows@.len() - i,
    {
        let ghost was = m@;
        let agent = match agent_from(&rows[i], known) {
            Some(agent) => agent,
            None => {
                assert(!agent_known(rows@[i as int], ids));
                return None;
            },
        };
        let _ = m.insert(rows[i].sled_id, agent);
        proof {
            to_map_grows(pairs, i as int);
            assert(m@.map_values(view) =~= was.map_values(view).insert(pairs[i as int].0, agent@));
        }
        i = i + 1;
    }
    assert(pairs.take(rows@.len() as int) =~= pairs);
    Some(m)
}

proof fn caboose_error_stands(
    rows: Seq<InvCaboose>,
    known: Map<Uuid, BaseboardIdView>,
    cabooses: Map<Uuid, CabooseView>,
    n: nat,
    m: nat,
)
    requires
        n <= m,
        found_cabooses(rows, known, cabooses, n) is Err,
    ensures
        found_cabooses(rows, known, cabooses, m) == found_cabooses(rows, known, cabooses, n),
    decreases m - n,
{
    if n < m {
        caboose_error_stands(rows, known, cabooses, n, (m - 1) as nat);
    }
}

fn place_cabooses(
    rows: &Vec<InvCaboose>,
    known: &OrdMap<Uuid, BaseboardId>,
    cabooses: &OrdMap<Uuid, Caboose>,
) -> (r: Result<OrdMap<CaboosePlace, CabooseFound>, ReadError>)
    ensures
        ({
            let result = found_cabooses(
                rows@,
                known_of(known@),
                cabooses@.map_values(|c: Caboose| c@),
                rows@.len(),
            );
            match r {
                Ok(m) => result == Ok::<Map<PlaceView, CabooseFoundView>, ReadErrorView>(
                    m@.map_values(|f: CabooseFound| f@),
                ),
                Err(e) => result == Err::<Map<PlaceView, CabooseFoundView>, ReadErrorView>(e@),
            }
        }),
{
    let mut m: OrdMap<CaboosePlace, CabooseFound> = OrdMap::new();
    let ghost view = |f: CabooseFound| f@;
    let ghost ids = known_of(known@);
    let ghost images = cabooses@.map_values(|c: Caboose| c@);
    let mut i: usize = 0;
    assert(m@.map_values(view) =~= Map::empty());
    while i < rows.len()
        invariant
            i <= rows@.len(),
            view == (|f: CabooseFound| f@),
            ids == known_of(known@),
            images == cabooses@.map_values(|c: Caboose| c@),
            found_cabooses(rows@, ids, images, i as nat) == Ok::<
                Map<PlaceView, CabooseFoundView>,
                ReadErrorView,
            >(m@.map_values(view)),
        decreases rows@.len() - i,
    {
        let row = &rows[i];
        let baseboard = match known.get(&row.hw_baseboard_id) {
            Some(b) => b,
            None => {
                proof {
                    caboose_error_stands(rows@, ids, images, (i + 1) as nat, rows@.len());
                }
                return Err(ReadError::CabooseUnknownBaseboard { id: row.hw_baseboard_id });
            },
        };
        let caboose = match cabooses.get(&row.sw_caboose_id) {
            Some(c) => c,
            None => {
                proof {
                    caboose_error_stands(rows@, ids, images, (i + 1) as nat, rows@.len());
                }
                return Err(ReadError::UnknownCaboose { id: row.sw_caboose_id });
            },
        };
        let place = CaboosePlace { which: row.which, baseboard: baseboard.clone() };
        let found = CabooseFound {
            time_collected: row.time_collected,
            source: row.source.clone(),
            caboose: caboose.clone(),
        };
        let ghost was = m@;
        let ghost entry = caboose_entry(*row, ids, images);
        assert(place@ == entry.0);
        assert(found@ == entry.1);
        assert(was.map_values(view).contains_key(entry.0) == was.contains_key(entry.0));
        match m.insert(place, found) {
            Some(_) => {
                proof {
                    caboose_error_stands(rows@, ids, images, (i + 1) as nat, rows@.len());
                }
                return Err(
                    ReadError::DuplicateCaboose {
                        which: row.which,
                        hw_baseboard_id: row.hw_baseboard_id,
                    },
                );
            },
            None => {},
        }
        proof {
            assert(m@.map_values(view) =~= was.map_values(view).insert(entry.0, entry.1));
        }
        i = i + 1;
    }
    Ok(m)
}

proof fn rot_page_error_stands(
    rows: Seq<InvRotPage>,
    known: Map<Uuid, BaseboardIdView>,
    pages: Map<Uuid, Seq<char>>,
    n: nat,
    m: nat,
)
    requires
        n <= m,
        found_rot_pages(rows, known, pages, n) is Err,
    ensures
        found_rot_pages(rows, known, pages, m) == found_rot_pages(rows, known, pages, n),
    decreases m - n,
{
    if n < m {
        rot_page_error_stands(rows, known, pages, n, (m - 1) as nat);
    }
}

fn place_rot_pages(
    rows: &Vec<InvRotPage>,
    known: &OrdMap<Uuid, BaseboardId>,
    pages: &OrdMap<Uuid, RotPage>,
) -> (r: Result<OrdMap<RotPagePlace, RotPageFound>, ReadError>)
    ensures
        ({
            let result = found_rot_pages(
                rows@,
                known_of(known@),
                pages@.map_values(|p: RotPage| p@),
                rows@.len(),
            );
            match r {
                Ok(m) => result == Ok::<Map<PlaceView, RotPageFoundView>, ReadErrorView>(
                    m@.map_values(|f: RotPageFound| f@),
                ),
                Err(e) => result == Err::<Map<PlaceView, RotPageFoundView>, ReadErrorView>(e@),
            }
        }),
{
    let mut m: OrdMap<RotPagePlace, RotPageFound> = OrdMap::new();
    let ghost view = |f: RotPageFound| f@;
    let ghost ids = known_of(known@);
    let ghost texts = pages@.map_values(|p: RotPage| p@);
    let mut i: usize = 0;
    assert(m@.map_values(view) =~= Map::empty());
    while i < rows.len()
        invariant
            i <= rows@.len(),
            view == (|f: RotPageFound| f@),
            ids == known_of(known@),
            texts == pages@.map_values(|p: RotPage| p@),
            found_rot_pages(rows@, ids, texts, i as nat) == Ok::<
                Map<PlaceView, RotPageFoundView>,
                ReadErrorView,
            >(m@.map_values(view)),
        decreases rows@.len() - i,
    {
        let row = &rows[i];
        let baseboard = match known.get(&row.hw_baseboard_id) {
            Some(b) => b,
            None => {
                proof {
                    rot_page_error_stands(rows@, ids, texts, (i + 1) as nat, rows@.len());
                }
                return Err(ReadError::RotPageUnknownBaseboard { id: row.hw_baseboard_id });
            },
        };
        let page = match pages.get(&row.sw_root_of_trust_page_id) {
            Some(p) => p,
            None => {
                proof {
                    rot_page_error_stands(rows@, ids, texts, (i + 1) as nat, rows@.len());
                }
                return Err(ReadError::UnknownRotPage { id: row.sw_root_of_trust_page_id });
            },
        };
        let place = RotPagePlace { which: row.which, baseboard: baseboard.clone() };
        let found = RotPageFound {
            time_collected: row.time_collected,
            source: row.source.clone(),
            page: page.clone(),
        };
        let ghost was = m@;
        let ghost entry = rot_page_entry(*row, ids, texts);
        assert(place@ == entry.0);
        assert(found@ == entry.1);
        assert(was.map_values(view).contains_key(entry.0) == was.contains_key(entry.0));
        match m.insert(place, found) {
            Some(_) => {
                proof {
                    rot_page_error_stands(rows@, ids, texts, (i + 1) as nat, rows@.len());
                }
                return Err(
                    ReadError::DuplicateRotPage {
                        page: row.which,
                        hw_baseboard_id: row.hw_baseboard_id,
                    },
                );
            },
            None => {},
        }
        proof {
            assert(m@.map_values(view) =~= was.map_values(view).insert(entry.0, entry.1));
        }
        i = i + 1;
    }
    Ok(m)
}

proof fn zone_error_stands(start: ZonesState, rows: Seq<InvOmicronZone>, n: nat, m: nat)
    requires
        n <= m,
        placed_zones(start, rows, n) is Err,
    ensures
        placed_zones(start, rows, m) == placed_zones(start, rows, n),
    decreases m - n,
{
    if n < m {
        zone_error_stands(start, rows, n, (m - 1) as nat);
    }
}

/// Puts the zone of a row on its sled.
fn place_one_zone(
    sleds: &mut OrdMap<Uuid, OmicronZonesFound>,
    nics: &mut OrdMap<Uuid, ZoneNic>,
    row: &InvOmicronZone,
) -> (r: Result<(), ReadError>)
    ensures
        ({
            let view = |z: OmicronZonesFound| z@;
            let result = place_zone(
                ZonesState { sleds: old(sleds)@.map_values(view), nics: old(nics)@ },
                *row,
            );
            match r {
                Ok(_) => result == Ok::<ZonesState, ReadErrorView>(
                    ZonesState { sleds: final(sleds)@.map_values(view), nics: final(nics)@ },
                ),
                Err(e) => result == Err::<ZonesState, ReadErrorView>(e@),
            }
        }),
{
    let ghost view = |z: OmicronZonesFound| z@;
    let ghost before = sleds@;
    assert(before.map_values(view).contains_key(row.sled_id) == before.contains_key(row.sled_id));
    let nic = match row.nic_id {
        Some(id) => match nics.remove(&id) {
            Some(nic) => Some(nic),
            None => return Err(ReadError::MissingNic { zone: row.id, nic: id }),
        },
        None => None,
    };
    let mut found = match sleds.remove(&row.sled_id) {
        Some(found) => found,
        None => return Err(ReadError::UnknownSled { zone: row.id, sled: row.sled_id }),
    };
    let ghost was = found@;
    let details = match &row.details {
        Some(details) => details.clone(),
        None => return Err(ReadError::UnreadableZone { zone: row.id }),
    };
    let zone = OmicronZoneConfig {
        id: row.id,
        underlay_address: row.underlay_address,
        zone_type: row.zone_type,
        dataset: clone_text(&row.dataset),
        details,
        nic,
    };
    found.zones.push(zone);
    proof {
        assert(found@ == with_zone(was, zone));
        assert(zone == zone_of(*row, nic));
    }
    let _ = sleds.insert(row.sled_id, found);
    proof {
        assert(sleds@.map_values(view) =~= before.map_values(view).insert(row.sled_id, found@));
    }
    Ok(())
}

fn place_zones(replies: &CollectionReplies) -> (r: Result<
    OrdMap<Uuid, OmicronZonesFound>,
    ReadError,
>)
    ensures
        match r {
            Ok(m) => zones_found(*replies) == Ok::<Map<Uuid, OmicronZonesFoundView>, ReadErrorView>(
                m@.map_values(|z: OmicronZonesFound| z@),
            ),
            Err(e) => zones_found(*replies) == Err::<Map<Uuid, OmicronZonesFoundView>, ReadErrorView>(
                e@,
            ),
        },
{
    let mut sleds = index_sleds(&replies.sled_omicron_zones);
    let mut nics = index_nics(&replies.omicron_zone_nics);
    let rows = &replies.omicron_zones;
    let ghost view = |z: OmicronZonesFound| z@;
    let ghost start = ZonesState { sleds: sleds@.map_values(view), nics: nics@ };
    let mut i: usize = 0;
    while i < rows.len()
        invariant
            i <= rows@.len(),
            rows == &replies.omicron_zones,
            view == (|z: OmicronZonesFound| z@),
            start == (ZonesState {
                sleds: sleds_by_id(replies.sled_omicron_zones@),
                nics: nics_by_id(replies.omicron_zone_nics@),
            }),
            placed_zones(start, rows@, i as nat) == Ok::<ZonesState, ReadErrorView>(
                ZonesState { sleds: sleds@.map_values(view), nics: nics@ },
            ),
        decreases rows@.len() - i,
    {
        match place_one_zone(&mut sleds, &mut nics, &rows[i]) {
            Ok(_) => {},
            Err(e) => {
                proof {
                    zone_error_stands(start, rows@, (i + 1) as nat, rows@.len());
                }
                return Err(e);
            },
        }
        i = i + 1;
    }
    let count = nics.len();
    if count > 0 {
        let mut ids: Vec<Uuid> = Vec::new();
        let mut k: usize = 0;
        while k < count
            invariant
                k <= count == nics.keys().len(),
                ids@ == nics.keys().take(k as int),
            decreases count - k,
        {
            ids.push(*nics.key_at(k));
            k = k + 1;
            assert(ids@ =~= nics.keys().take(k as int));
        }
        assert(ids@ =~= nics.keys());
        return Err(ReadError::ExtraNics { ids });
    }
    Ok(sleds)
}

/// The contents of a table, without their ids.
fn contents_of<K: Key + Clone>(known: &OrdMap<Uuid, K>) -> (set: OrdMap<K, ()>)
    requires
        forall|a: K, b: K| #[trigger] call_ensures(K::clone, (&a,), b) ==> b == a,
    ensures
        set@.dom() == known@.map_values(|v: K| v.id()).values(),
{
    let mut set: OrdMap<K, ()> = OrdMap::new();
    let ghost views = known@.map_values(|v: K| v.id());
    let n = known.len();
    let ghost keys = known.keys();
    let mut i: usize = 0;
    while i < n
        invariant
            forall|a: K, b: K| #[trigger] call_ensures(K::clone, (&a,), b) ==> b == a,
            i <= n == keys.len(),
            keys == known.keys(),
            views == known@.map_values(|v: K| v.id()),
            forall|k: int| 0 <= k < i ==> set@.contains_key(views[#[trigger] keys[k]]),
            forall|v: K::Id| set@.contains_key(v) ==> views.contains_value(v),
        decreases n - i,
    {
        let value = known.value_at(i);
        let ghost was = set@;
        let _ = set.insert(value.clone(), ());
        proof {
            assert(views.contains_key(keys[i as int]) && views[keys[i as int]] == value.id());
            assert(views.contains_value(value.id()));
            assert forall|v: K::Id| set@.contains_key(v) implies views.contains_value(v) by {
                if v != value.id() {
                    assert(was.contains_key(v));
                }
            }
        }
        i = i + 1;
    }
    proof {
        assert forall|v: K::Id| views.contains_value(v) implies set@.contains_key(v) by {
            let k = choose|k: Uuid| #[trigger] views.contains_key(k) && views[k] == v;
            assert(known@.dom().contains(k));
            let j = keys.index_of(k);
            assert(keys.contains(k));
            assert(keys[j] == k);
        }
        assert(set@.dom() =~= views.values());
    }
    set
}

/// The ids, each of them once, in order.
pub open spec fn distinct_ids(ids: Seq<Uuid>, set: Set<Uuid>) -> bool {
    &&& forall|i: int, j: int| 0 <= i < j < ids.len() ==> ids[i] < ids[j]
    &&& forall|id: Uuid| ids.contains(id) <==> set.contains(id)
}

/// The ids of the hardware that the rows name.
pub open spec fn hardware_ids(
    sps: Seq<InvServiceProcessor>,
    rots: Seq<InvRootOfTrust>,
    agents: Seq<InvSledAgent>,
) -> Set<Uuid> {
    Set::new(
        |id: Uuid|
            {
                ||| exists|i: int| 0 <= i < sps.len() && (#[trigger] sps[i]).hw_baseboard_id == id
                ||| exists|i: int| 0 <= i < rots.len() && (#[trigger] rots[i]).hw_baseboard_id == id
                ||| exists|i: int|
                    0 <= i < agents.len() && (#[trigger] agents[i]).hw_baseboard_id == Some(id)
            },
    )
}

fn ids_of(set: &OrdMap<Uuid, ()>) -> (ids: Vec<Uuid>)
    ensures
        distinct_ids(ids@, set@.dom()),
{
    let mut ids: Vec<Uuid> = Vec::new();
    let n = set.len();
    let mut i: usize = 0;
    while i < n
        invariant
            i <= n == set.keys().len(),
            ids@ == set.keys().take(i as int),
        decreases n - i,
    {
        ids.push(*set.key_at(i));
        i = i + 1;
    }
    proof {
        let keys = set.keys();
        assert(keys.take(n as int) =~= keys);
        assert forall|a: int, b: int| 0 <= a < b < keys.len() implies keys[a] < keys[b] by {
            assert(<Uuid as crate::ordmap::Key>::before(keys[a], keys[b]));
        }
    }
    ids
}

/// The ids of the hardware to fetch for the service processors, the roots of trust and the sled
/// agents.
pub fn baseboards_to_fetch(
    sps: &Vec<InvServiceProcessor>,
    rots: &Vec<InvRootOfTrust>,
    agents: &Vec<InvSledAgent>,
) -> (ids: Vec<Uuid>)
    ensures
        distinct_ids(ids@, hardware_ids(sps@, rots@, agents@)),
{
    let mut set: OrdMap<Uuid, ()> = OrdMap::new();
    let mut i: usize = 0;
    assert(set@.dom() =~= hardware_ids(sps@.take(0), rots@.take(0), agents@.take(0)));
    while i < sps.len()
        invariant
            i <= sps@.len(),
            set@.dom() == hardware_ids(sps@.take(i as int), rots@.take(0), agents@.take(0)),
        decreases sps@.len() - i,
    {
        let _ = set.insert(sps[i].hw_baseboard_id, ());
        proof {
            let a = hardware_ids(sps@.take(i as int), rots@.take(0), agents@.take(0));
            let b = hardware_ids(sps@.take(i + 1), rots@.take(0), agents@.take(0));
            assert(sps@.take(i + 1) =~= sps@.take(i as int).push(sps@[i as int]));
            let was = sps@.take(i as int);
            let now = sps@.take(i + 1);
            assert forall|id: Uuid| b.contains(id) <==> a.insert(
                sps@[i as int].hw_baseboard_id,
            ).contains(id) by {
                if a.contains(id) {
                    let k = choose|k: int|
                        0 <= k < was.len() && (#[trigger] was[k]).hw_baseboard_id == id;
                    assert(now[k] == was[k]);
                }
                assert(now[i as int] == sps@[i as int]);
                if b.contains(id) {
                    let k = choose|k: int|
                        0 <= k < now.len() && (#[trigger] now[k]).hw_baseboard_id == id;
                    if k < i {
                        assert(was[k] == now[k]);
                    }
                }
            }
            assert(set@.dom() =~= b);
        }
        i = i + 1;
    }
    i = 0;
    while i < rots.len()
        invariant
            i <= rots@.len(),
            set@.dom() == hardware_ids(
                sps@.take(sps@.len() as int),
                rots@.take(i as int),
                agents@.take(0),
            ),
        decreases rots@.len() - i,
    {
        let _ = set.insert(rots[i].hw_baseboard_id, ());
        proof {
            let all = sps@.take(sps@.len() as int);
            let was = rots@.take(i as int);
            let now = rots@.take(i + 1);
            let a = hardware_ids(all, was, agents@.take(0));
            let b = hardware_ids(all, now, agents@.take(0));
            assert(now =~= was.push(rots@[i as int]));
            assert forall|id: Uuid| b.contains(id) <==> a.insert(
                rots@[i as int].hw_baseboard_id,
            ).contains(id) by {
                assert(now[i as int] == rots@[i as int]);
                if exists|k: int| 0 <= k < was.len() && (#[trigger] was[k]).hw_baseboard_id == id {
                    let k = choose|k: int|
                        0 <= k < was.len() && (#[trigger] was[k]).hw_baseboard_id == id;
                    assert(now[k] == was[k]);
                }
                if exists|k: int| 0 <= k < now.len() && (#[trigger] now[k]).hw_baseboard_id == id {
                    let k = choose|k: int|
                        0 <= k < now.len() && (#[trigger] now[k]).hw_baseboard_id == id;
                    if k < i {
                        assert(was[k] == now[k]);
                    }
                }
            }
            assert(set@.dom() =~= b);
        }
        i = i + 1;
    }
    i = 0;
    while i < agents.len()
        invariant
            i <= agents@.len(),
            set@.dom() == hardware_ids(
                sps@.take(sps@.len() as int),
                rots@.take(rots@.len() as int),
                agents@.take(i as int),
            ),
        decreases agents@.len() - i,
    {
        let ghost before = set@.dom();
        if let Some(id) = agents[i].hw_baseboard_id {
            let _ = set.insert(id, ());
        }
        proof {
            let all = sps@.take(sps@.len() as int);
            let more = rots@.take(rots@.len() as int);
            let was = agents@.take(i as int);
            let now = agents@.take(i + 1);
            let b = hardware_ids(all, more, now);
            assert(now =~= was.push(agents@[i as int]));
            assert forall|id: Uuid| b.contains(id) <==> (before.contains(id)
                || agents@[i as int].hw_baseboard_id == Some(id)) by {
                assert(now[i as int] == agents@[i as int]);
                if exists|k: int|
                    0 <= k < was.len() && (#[trigger] was[k]).hw_baseboard_id == Some(id) {
                    let k = choose|k: int|
                        0 <= k < was.len() && (#[trigger] was[k]).hw_baseboard_id == Some(id);
                    assert(now[k] == was[k]);
                }
                if exists|k: int|
                    0 <= k < now.len() && (#[trigger] now[k]).hw_baseboard_id == Some(id) {
                    let k = choose|k: int|
                        0 <= k < now.len() && (#[trigger] now[k]).hw_baseboard_id == Some(id);
                    if k < i {
                        assert(was[k] == now[k]);
                    }
                }
            }
            assert(set@.dom() =~= b);
        }
        i = i + 1;
    }
    proof {
        assert(sps@.take(sps@.len() as int) =~= sps@);
        assert(rots@.take(rots@.len() as int) =~= rots@);
        assert(agents@.take(agents@.len() as int) =~= agents@);
    }
    ids_of(&set)
}

/// The ids, each of them once, in order.
fn each_once(ids: &Vec<Uuid>) -> (r: Vec<Uuid>)
    ensures
        distinct_ids(r@, ids@.to_set()),
{
    let mut set: OrdMap<Uuid, ()> = OrdMap::new();
    let mut i: usize = 0;
    assert(set@.dom() =~= ids@.take(0).to_set());
    while i < ids.len()
        invariant
            i <= ids@.len(),
            set@.dom() == ids@.take(i as int).to_set(),
        decreases ids@.len() - i,
    {
        let _ = set.insert(ids[i], ());
        proof {
            member_is_added(ids@, i as int);
        }
        i = i + 1;
    }
    assert(ids@.take(ids@.len() as int) =~= ids@);
    ids_of(&set)
}

/// The ids of the images to fetch.
pub fn cabooses_to_fetch(rows: &Vec<InvCaboose>) -> (ids: Vec<Uuid>)
    ensures
        distinct_ids(ids@, rows@.map_values(|r: InvCaboose| r.sw_caboose_id).to_set()),
{
    let mut all: Vec<Uuid> = Vec::new();
    for i in 0..rows.len()
        invariant
            all@.len() == i,
            forall|k: int| 0 <= k < i ==> #[trigger] all@[k] == rows@[k].sw_caboose_id,
    {
        all.push(rows[i].sw_caboose_id);
    }
    assert(all@ =~= rows@.map_values(|r: InvCaboose| r.sw_caboose_id));
    each_once(&all)
}

/// The ids of the pages to fetch.
pub fn rot_pages_to_fetch(rows: &Vec<InvRotPage>) -> (ids: Vec<Uuid>)
    ensures
        distinct_ids(ids@, rows@.map_values(|r: InvRotPage| r.sw_root_of_trust_page_id).to_set()),
{
    let mut all: Vec<Uuid> = Vec::new();
    for i in 0..rows.len()
        invariant
            all@.len() == i,
            forall|k: int| 0 <= k < i ==> #[trigger] all@[k] == rows@[k].sw_root_of_trust_page_id,
    {
        all.push(rows[i].sw_root_of_trust_page_id);
    }
    assert(all@ =~= rows@.map_values(|r: InvRotPage| r.sw_root_of_trust_page_id));
    each_once(&all)
}

proof fn member_is_added(all: Seq<Uuid>, i: int)
    requires
        0 <= i < all.len(),
    ensures
        all.take(i + 1).to_set() == all.take(i).to_set().insert(all[i]),
{
    let was = all.take(i);
    let now = all.take(i + 1);
    assert forall|id: Uuid| now.to_set().contains(id) <==> was.to_set().insert(all[i]).contains(
        id,
    ) by {
        if was.contains(id) {
            let k = was.index_of(id);
            assert(now[k] == id);
        }
        if now.contains(id) {
            let k = now.index_of(id);
            if k < i {
                assert(was[k] == id);
            }
        }
        assert(now[i] == all[i]);
    }
    assert(now.to_set() =~= was.to_set().insert(all[i]));
}

fn messages_of(rows: &Vec<InvCollectionError>) -> (messages: Vec<String>)
    ensures
        messages@ == rows@.map_values(|r: InvCollectionError| r.message),
{
    let mut messages: Vec<String> = Vec::new();
    let ghost all = rows@.map_values(|r: InvCollectionError| r.message);
    let mut i: usize = 0;
    while i < rows.len()
        invariant
            i <= rows@.len() == all.len(),
            all == rows@.map_values(|r: InvCollectionError| r.message),
            messages@ == all.take(i as int),
        decreases rows@.len() - i,
    {
        messages.push(rows[i].message.clone());
        i = i + 1;
    }
    messages
}

/// Puts a collection together from its rows, as far as they were read. The second value says
/// whether the collection may be incomplete, because of some table as many rows were read as were
/// asked for at most.
pub fn read_best_effort(id: Uuid, replies: &CollectionReplies, limit: u32) -> (r: Result<
    (Collection, bool),
    ReadError,
>)
    ensures
        match r {
            Ok((collection, reached)) => assembled(id, *replies) == Ok::<CollectionView, ReadErrorView>(
                collection@,
            ) && reached == limit_reached(*replies, limit),
            Err(e) => assembled(id, *replies) == Err::<CollectionView, ReadErrorView>(e@),
        },
{
    if replies.collections.len() != 1 {
        return Err(ReadError::CollectionCount { found: replies.collections.len() });
    }
    let row = &replies.collections[0];
    let limit = limit as usize;
    let errors = messages_of(&replies.errors);
    let sps = index_sps(&replies.sps);
    let rots = index_rots(&replies.rots);
    let known = index_baseboards(&replies.baseboards);
    let images = index_cabooses(&replies.cabooses);
    let pages = index_rot_pages(&replies.rot_pages);
    let sleds = index_sleds(&replies.sled_omicron_zones);
    let nics = index_nics(&replies.omicron_zone_nics);
    let reached = errors.len() == limit || sps.len() == limit || rots.len() == limit
        || replies.sled_agents.len() == limit || known.len() == limit
        || replies.cabooses_found.len() == limit || images.len() == limit
        || replies.rot_pages_found.len() == limit || pages.len() == limit || sleds.len() == limit
        || nics.len() == limit || replies.omicron_zones.len() == limit;
    let sps_found = match found_by_baseboard(&sps, &known) {
        Some(m) => m,
        None => return Err(ReadError::MissingBaseboard),
    };
    let rots_found = match found_by_baseboard(&rots, &known) {
        Some(m) => m,
        None => return Err(ReadError::MissingBaseboard),
    };
    let sled_agents = match agents_from(&replies.sled_agents, &known) {
        Some(m) => m,
        None => return Err(ReadError::MissingBaseboard),
    };
    let cabooses_found = match place_cabooses(&replies.cabooses_found, &known, &images) {
        Ok(m) => m,
        Err(e) => return Err(e),
    };
    let rot_pages_found = match place_rot_pages(&replies.rot_pages_found, &known, &pages) {
        Ok(m) => m,
        Err(e) => return Err(e),
    };
    let omicron_zones = match place_zones(replies) {
        Ok(m) => m,
        Err(e) => return Err(e),
    };
    let collection = Collection {
        id,
        errors,
        time_started: row.time_started,
        time_done: row.time_done,
        collector: row.collector.clone(),
        baseboards: contents_of(&known),
        cabooses: contents_of(&images),
        rot_pages: contents_of(&pages),
        sps: sps_found,
        rots: rots_found,
        cabooses_found,
        rot_pages_found,
        sled_agents,
        omicron_zones,
    };
    proof {
        assert(known@.map_values(|v: BaseboardId| v.id()) =~= known_of(known@));
        assert(images@.map_values(|v: Caboose| v.id()) =~= images@.map_values(|v: Caboose| v@));
        assert(pages@.map_values(|v: RotPage| v.id()) =~= pages@.map_values(|v: RotPage| v@));
    }
    Ok((collection, reached))
}

/// Puts a collection together from its rows, unless some of them may not have been read.
pub fn read_all_or_nothing(id: Uuid, replies: &CollectionReplies, limit: u32) -> (r: Result<
    Collection,
    ReadError,
>)
    ensures
        match r {
            Ok(collection) => assembled(id, *replies) == Ok::<CollectionView, ReadErrorView>(
                collection@,
            ) && !limit_reached(*replies, limit),
            Err(e) => match assembled(id, *replies) {
                Ok(_) => limit_reached(*replies, limit) && e@ == (ReadErrorView::LimitReached { limit }),
                Err(cause) => e@ == cause,
            },
        },
{
    match read_best_effort(id, replies, limit) {
        Ok((collection, reached)) => if reached {
            Err(ReadError::LimitReached { limit })
        } else {
            Ok(collection)
        },
        Err(e) => Err(e),
    }
}

/// The hardware that has to be fetched is that which some service processor, root of trust or sled
/// agent of the rows names.
pub proof fn named_hardware_is_fetched(
    sps: Seq<InvServiceProcessor>,
    rots: Seq<InvRootOfTrust>,
    agents: Seq<InvSledAgent>,
    id: Uuid,
)
    ensures
        hardware_ids(sps, rots, agents).contains(id) <==> sps.map_values(
            |r: InvServiceProcessor| r.hw_baseboard_id,
        ).contains(id) || rots.map_values(|r: InvRootOfTrust| r.hw_baseboard_id).contains(id)
            || agents.map_values(|r: InvSledAgent| r.hw_baseboard_id).contains(Some(id)),
{
    let a = sps.map_values(|r: InvServiceProcessor| r.hw_baseboard_id);
    let b = rots.map_values(|r: InvRootOfTrust| r.hw_baseboard_id);
    let c = agents.map_values(|r: InvSledAgent| r.hw_baseboard_id);
    if exists|i: int| 0 <= i < sps.len() && (#[trigger] sps[i]).hw_baseboard_id == id {
        let i = choose|i: int| 0 <= i < sps.len() && (#[trigger] sps[i]).hw_baseboard_id == id;
        assert(a[i] == id);
    }
    if exists|i: int| 0 <= i < rots.len() && (#[trigger] rots[i]).hw_baseboard_id == id {
        let i = choose|i: int| 0 <= i < rots.len() && (#[trigger] rots[i]).hw_baseboard_id == id;
        assert(b[i] == id);
    }
    if exists|i: int| 0 <= i < agents.len() && (#[trigger] agents[i]).hw_baseboard_id == Some(id) {
        let i = choose|i: int|
            0 <= i < agents.len() && (#[trigger] agents[i]).hw_baseboard_id == Some(id);
        assert(c[i] == Some(id));
    }
    if a.contains(id) {
        let i = choose|i: int| 0 <= i < a.len() && a[i] == id;
        assert(sps[i].hw_baseboard_id == id);
    }
    if b.contains(id) {
        let i = choose|i: int| 0 <= i < b.len() && b[i] == id;
        assert(rots[i].hw_baseboard_id == id);
    }
    if c.contains(Some(id)) {
        let i = choose|i: int| 0 <= i < c.len() && c[i] == Some(id);
        assert(agents[i].hw_baseboard_id == Some(id));
    }
}

} // verus!
