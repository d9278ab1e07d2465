//! What storing and reading a collection promises row by row: what each row says, when a row cannot
//! be read, and when there may be more rows than were read.

use vstd::prelude::*;

use crate::ids::Uuid;
use crate::inventory::read::{
    agent_of, all_known, assembled, baseboards_by_id, found_cabooses, found_rot_pages,
    limit_reached, nics_by_id, place_zone, placed_zones, rots_by_id, sled_without_zones,
    sleds_by_id, sps_by_id, zones_found, CollectionReplies, ReadErrorView, ZonesState,
};
use crate::inventory::rows::{
    collection_row, error_row, insert_error, nics_in_order, sled_agent_row, sled_zones_row,
    zone_row, HwBaseboardId, InsertError, InvCaboose, InvOmicronZone, InvOmicronZoneNic,
    InvRootOfTrust, InvRotPage, InvServiceProcessor, InvSledAgent, InvSledOmicronZones, SwCaboose,
    SwRotPage, Unstorable,
};
use crate::inventory::types::{
    BaseboardIdView, CabooseFoundView, CabooseView, CabooseWhich, CollectionView, OmicronZoneConfig,
    OmicronZonesFoundView, PlaceView, RotPageFoundView, RotPageWhich, SledAgentView,
};
use crate::ordmap::{in_order, order_exists, to_map, to_map_of_distinct};

verus! {

/// The row of a collection says when it was made and by whom, and that of an error which one it is
/// and what it says.
pub proof fn collection_rows_say_what_was_found(c: CollectionView, i: int)
    requires
        0 <= i < c.errors.len() <= 65536,
    ensures
        collection_row(c).id == c.id,
        collection_row(c).time_started == c.time_started,
        collection_row(c).time_done == c.time_done,
        collection_row(c).collector == c.collector,
        error_row(c, i).inv_collection_id == c.id,
        error_row(c, i).idx == i,
        error_row(c, i).message == c.errors[i],
{
}

/// The row of a sled agent says what the sled agent said, and which hardware it is on.
pub proof fn sled_agent_rows_say_what_was_found(id: Uuid, agent: SledAgentView, hw: Option<Uuid>)
    ensures
        ({
            let row = sled_agent_row(id, agent, hw);
            &&& row.inv_collection_id == id
            &&& row.time_collected == agent.time_collected
            &&& row.source == agent.source
            &&& row.sled_id == agent.sled_id
            &&& row.hw_baseboard_id == hw
            &&& row.sled_agent_ip == agent.sled_agent_address.ip
            &&& row.sled_agent_port == agent.sled_agent_address.port
            &&& row.sled_role == agent.sled_role
            &&& row.usable_hardware_threads == agent.usable_hardware_threads
            &&& row.usable_physical_ram == agent.usable_physical_ram
            &&& row.reservoir_size == agent.reservoir_size
        }),
{
}

/// A sled agent is read as its row says, on the hardware that the row names, with an address that
/// has no flow and no scope.
pub proof fn sled_agents_are_read_from_their_rows(
    row: InvSledAgent,
    known: Map<Uuid, BaseboardIdView>,
)
    ensures
        ({
            let agent = agent_of(row, known);
            &&& agent.time_collected == row.time_collected
            &&& agent.source == row.source
            &&& agent.sled_id == row.sled_id
            &&& agent.sled_agent_address.ip == row.sled_agent_ip
            &&& agent.sled_agent_address.port == row.sled_agent_port
            &&& agent.sled_agent_address.flowinfo == 0
            &&& agent.sled_agent_address.scope_id == 0
            &&& agent.sled_role == row.sled_role
            &&& agent.usable_hardware_threads == row.usable_hardware_threads
            &&& agent.usable_physical_ram == row.usable_physical_ram
            &&& agent.reservoir_size == row.reservoir_size
            &&& row.hw_baseboard_id is None ==> agent.baseboard_id is None
            &&& row.hw_baseboard_id matches Some(hw) ==> agent.baseboard_id == Some(known[hw])
        }),
{
}

/// The rows of a sled's zones and of a zone say what was found of them. The row of a zone names its
/// interface, where it has one.
pub proof fn zone_rows_say_what_was_found(
    id: Uuid,
    found: OmicronZonesFoundView,
    zone: OmicronZoneConfig,
    sled_id: Uuid,
)
    ensures
        ({
            let row = sled_zones_row(id, found);
            &&& row.inv_collection_id == id
            &&& row.time_collected == found.time_collected
            &&& row.source == found.source
            &&& row.sled_id == found.sled_id
            &&& row.generation == found.generation
        }),
        ({
            let row = zone_row(id, sled_id, zone);
            &&& row.inv_collection_id == id
            &&& row.sled_id == sled_id
            &&& row.id == zone.id
            &&& row.underlay_address == zone.underlay_address
            &&& row.zone_type == zone.zone_type
            &&& row.dataset == zone.dataset
            &&& row.details == Some(zone.details)
            &&& zone.nic is None ==> row.nic_id is None
            &&& zone.nic matches Some(nic) ==> row.nic_id == Some(nic.id)
        }),
{
}

/// An interface is stored for each zone that has one, in the order of the zones.
pub proof fn interfaces_come_in_the_order_of_the_zones(zones: Seq<(Uuid, OmicronZoneConfig)>)
    ensures
        nics_in_order(zones) == zones.filter(
            |z: (Uuid, OmicronZoneConfig)| z.1.nic is Some,
        ).map_values(|z: (Uuid, OmicronZoneConfig)| z.1.nic->0),
    decreases zones.len(),
{
    reveal(Seq::filter);
    let has = |z: (Uuid, OmicronZoneConfig)| z.1.nic is Some;
    let nic = |z: (Uuid, OmicronZoneConfig)| z.1.nic->0;
    if zones.len() > 0 {
        let rest = zones.drop_last();
        interfaces_come_in_the_order_of_the_zones(rest);
        if zones.last().1.nic is Some {
            assert(zones.filter(has) == rest.filter(has).push(zones.last()));
            assert(zones.filter(has).map_values(nic) =~= rest.filter(has).map_values(nic).push(
                zones.last().1.nic->0,
            ));
        }
    } else {
        assert(nics_in_order(zones) =~= zones.filter(has).map_values(nic));
    }
}

/// A collection with more than 65536 errors is refused for that, whatever else is wrong with it. Any
/// other is refused for a value that cannot be kept, of the sled agents before the zones, and of
/// the zones before their interfaces. It is accepted if and only if there is none.
pub proof fn collections_are_refused_for_cause(c: CollectionView, unstorable: Unstorable)
    ensures
        insert_error(c, unstorable) is None <==> c.errors.len() <= 65536 && unstorable.sled_agent
            is None && unstorable.zone is None && unstorable.nic is None,
        c.errors.len() > 65536 ==> insert_error(c, unstorable) == Some(InsertError::TooManyErrors),
        c.errors.len() <= 65536 ==> {
            &&& unstorable.sled_agent matches Some(reason) ==> insert_error(c, unstorable) == Some(
                InsertError::Unstorable { reason },
            )
            &&& unstorable.sled_agent is None ==> (unstorable.zone matches Some(reason)
                ==> insert_error(c, unstorable) == Some(InsertError::Unstorable { reason }))
            &&& unstorable.sled_agent is None && unstorable.zone is None ==> (
            unstorable.nic matches Some((zone, reason)) ==> insert_error(c, unstorable) == Some(
                InsertError::UnstorableNic { zone, reason },
            ))
        },
{
}

/// The ids of the rows of each table differ, as the ids in a table do.
pub open spec fn ids_differ(replies: CollectionReplies) -> bool {
    &&& forall|i: int, j: int|
        0 <= i < j < replies.sps@.len() ==> (#[trigger] replies.sps@[i]).hw_baseboard_id != (
        #[trigger] replies.sps@[j]).hw_baseboard_id
    &&& forall|i: int, j: int|
        0 <= i < j < replies.rots@.len() ==> (#[trigger] replies.rots@[i]).hw_baseboard_id != (
        #[trigger] replies.rots@[j]).hw_baseboard_id
    &&& forall|i: int, j: int|
        0 <= i < j < replies.baseboards@.len() ==> (#[trigger] replies.baseboards@[i]).id != (
        #[trigger] replies.baseboards@[j]).id
    &&& forall|i: int, j: int|
        0 <= i < j < replies.cabooses@.len() ==> (#[trigger] replies.cabooses@[i]).id != (
        #[trigger] replies.cabooses@[j]).id
    &&& forall|i: int, j: int|
        0 <= i < j < replies.rot_pages@.len() ==> (#[trigger] replies.rot_pages@[i]).id != (
        #[trigger] replies.rot_pages@[j]).id
    &&& forall|i: int, j: int|
        0 <= i < j < replies.sled_omicron_zones@.len() ==> (
        #[trigger] replies.sled_omicron_zones@[i]).sled_id != (
        #[trigger] replies.sled_omicron_zones@[j]).sled_id
    &&& forall|i: int, j: int|
        0 <= i < j < replies.omicron_zone_nics@.len() ==> (
        #[trigger] replies.omicron_zone_nics@[i]).nic.id != (
        #[trigger] replies.omicron_zone_nics@[j]).nic.id
}

/// There may be more rows than were read if and only if as many rows of some table were read as
/// could be.
pub proof fn limits_are_noticed_in_every_table(replies: CollectionReplies, limit: u32)
    requires
        ids_differ(replies),
    ensures
        limit_reached(replies, limit) <==> replies.errors@.len() == limit || replies.sps@.len()
            == limit || replies.rots@.len() == limit || replies.sled_agents@.len() == limit
            || replies.baseboards@.len() == limit || replies.cabooses_found@.len() == limit
            || replies.cabooses@.len() == limit || replies.rot_pages_found@.len() == limit
            || replies.rot_pages@.len() == limit || replies.sled_omicron_zones@.len() == limit
            || replies.omicron_zone_nics@.len() == limit || replies.omicron_zones@.len() == limit,
{
    to_map_of_distinct(
        replies.sps@.map_values(|r: InvServiceProcessor| (r.hw_baseboard_id, r.sp)),
    );
    to_map_of_distinct(
        replies.rots@.map_values(|r: InvRootOfTrust| (r.hw_baseboard_id, r.rot)),
    );
    to_map_of_distinct(replies.baseboards@.map_values(|r: HwBaseboardId| (r.id, r.baseboard@)));
    to_map_of_distinct(replies.cabooses@.map_values(|r: SwCaboose| (r.id, r.caboose@)));
    to_map_of_distinct(replies.rot_pages@.map_values(|r: SwRotPage| (r.id, r.page@)));
    to_map_of_distinct(
        replies.sled_omicron_zones@.map_values(
            |r: InvSledOmicronZones| (r.sled_id, sled_without_zones(r)),
        ),
    );
    to_map_of_distinct(
        replies.omicron_zone_nics@.map_values(|r: InvOmicronZoneNic| (r.nic.id, r.nic)),
    );
}

/// The hardware with this id was fetched.
pub open spec fn fetched(replies: CollectionReplies, id: Uuid) -> bool {
    exists|i: int| 0 <= i < replies.baseboards@.len() && (#[trigger] replies.baseboards@[i]).id == id
}

/// A collection is read only where there is exactly one with the id, and where all hardware that its
/// service processors, roots of trust and sled agents name was fetched. Which of the two is missing
/// is told, the first before the second.
pub proof fn collections_need_their_hardware(id: Uuid, replies: CollectionReplies)
    requires
        ids_differ(replies),
        replies.collections@.len() <= usize::MAX,
    ensures
        ({
            let named = (forall|i: int|
                0 <= i < replies.sps@.len() ==> fetched(
                    replies,
                    (#[trigger] replies.sps@[i]).hw_baseboard_id,
                )) && (forall|i: int|
                0 <= i < replies.rots@.len() ==> fetched(
                    replies,
                    (#[trigger] replies.rots@[i]).hw_baseboard_id,
                )) && (forall|i: int|
                0 <= i < replies.sled_agents@.len() ==> (
                #[trigger] replies.sled_agents@[i].hw_baseboard_id matches Some(hw) ==> fetched(
                    replies,
                    hw,
                )));
            let found = replies.collections@.len();
            &&& found != 1 ==> assembled(id, replies) == Err::<CollectionView, ReadErrorView>(
                ReadErrorView::CollectionCount { found: found as usize },
            )
            &&& found == 1 && !named ==> assembled(id, replies) == Err::<
                CollectionView,
                ReadErrorView,
            >(ReadErrorView::MissingBaseboard)
            &&& assembled(id, replies) is Ok ==> found == 1 && named
        }),
{
    let known = baseboards_by_id(replies.baseboards@);
    let pairs = replies.baseboards@.map_values(|r: HwBaseboardId| (r.id, r.baseboard@));
    let sps = replies.sps@.map_values(|r: InvServiceProcessor| (r.hw_baseboard_id, r.sp));
    let rots = replies.rots@.map_values(|r: InvRootOfTrust| (r.hw_baseboard_id, r.rot));
    to_map_of_distinct(pairs);
    to_map_of_distinct(sps);
    to_map_of_distinct(rots);
    assert forall|hw: Uuid| known.contains_key(hw) <==> #[trigger] fetched(replies, hw) by {
        if known.contains_key(hw) {
            let i = choose|i: int| 0 <= i < pairs.len() && (#[trigger] pairs[i]).0 == hw;
            assert(replies.baseboards@[i].id == hw);
        }
        if fetched(replies, hw) {
            let i = choose|i: int|
                0 <= i < replies.baseboards@.len() && (#[trigger] replies.baseboards@[i]).id == hw;
            assert(pairs[i].0 == hw);
        }
    }
    let named_sps = forall|i: int|
        0 <= i < replies.sps@.len() ==> fetched(
            replies,
            (#[trigger] replies.sps@[i]).hw_baseboard_id,
        );
    let named_rots = forall|i: int|
        0 <= i < replies.rots@.len() ==> fetched(
            replies,
            (#[trigger] replies.rots@[i]).hw_baseboard_id,
        );
    assert(all_known(sps_by_id(replies.sps@), known) <==> named_sps) by {
        if all_known(sps_by_id(replies.sps@), known) {
            assert forall|i: int| 0 <= i < replies.sps@.len() implies fetched(
                replies,
                (#[trigger] replies.sps@[i]).hw_baseboard_id,
            ) by {
                assert(to_map(sps).contains_key(sps[i].0));
            }
        }
        if named_sps {
            assert forall|hw: Uuid| #[trigger]
                sps_by_id(replies.sps@).contains_key(hw) implies known.contains_key(hw) by {
                let i = choose|i: int| 0 <= i < sps.len() && (#[trigger] sps[i]).0 == hw;
                assert(fetched(replies, replies.sps@[i].hw_baseboard_id));
            }
        }
    }
    assert(all_known(rots_by_id(replies.rots@), known) <==> named_rots) by {
        if all_known(rots_by_id(replies.rots@), known) {
            assert forall|i: int| 0 <= i < replies.rots@.len() implies fetched(
                replies,
                (#[trigger] replies.rots@[i]).hw_baseboard_id,
            ) by {
                assert(to_map(rots).contains_key(rots[i].0));
            }
        }
        if named_rots {
            assert forall|hw: Uuid| #[trigger]
                rots_by_id(replies.rots@).contains_key(hw) implies known.contains_key(hw) by {
                let i = choose|i: int| 0 <= i < rots.len() && (#[trigger] rots[i]).0 == hw;
                assert(fetched(replies, replies.rots@[i].hw_baseboard_id));
            }
        }
    }
}

/// The image of this row can be placed: its hardware and its contents are known.
pub open spec fn caboose_readable(
    row: InvCaboose,
    known: Map<Uuid, BaseboardIdView>,
    cabooses: Map<Uuid, CabooseView>,
) -> bool {
    known.contains_key(row.hw_baseboard_id) && cabooses.contains_key(row.sw_caboose_id)
}

/// Two rows are about the same place on the same hardware.
pub open spec fn same_place(a: InvCaboose, b: InvCaboose, known: Map<Uuid, BaseboardIdView>) -> bool {
    a.which == b.which && known[a.hw_baseboard_id] == known[b.hw_baseboard_id]
}

/// Where the images are read, each row gives the image in its place, with its own time and source,
/// and no place has two.
pub proof fn images_are_read_from_their_rows(
    rows: Seq<InvCaboose>,
    known: Map<Uuid, BaseboardIdView>,
    cabooses: Map<Uuid, CabooseView>,
    n: nat,
)
    requires
        n <= rows.len(),
    ensures
        found_cabooses(rows, known, cabooses, n) matches Ok(found) ==> {
            &&& forall|i: int|
                0 <= i < n ==> {
                    let row = #[trigger] rows[i];
                    let place = PlaceView {
                        which: row.which.rank(),
                        baseboard: known[row.hw_baseboard_id],
                    };
                    &&& caboose_readable(row, known, cabooses)
                    &&& found.contains_key(place)
                    &&& found[place] == (CabooseFoundView {
                        time_collected: row.time_collected,
                        source: row.source,
                        caboose: cabooses[row.sw_caboose_id],
                    })
                }
            &&& forall|i: int, j: int|
                0 <= i < j < n ==> !same_place(#[trigger] rows[i], #[trigger] rows[j], known)
            &&& forall|place: PlaceView| #[trigger]
                found.contains_key(place) ==> exists|i: int|
                    0 <= i < n && (#[trigger] rows[i]).which.rank() == place.which
                        && known[rows[i].hw_baseboard_id] == place.baseboard
        },
    decreases n,
{
    if n > 0 {
        let m = (n - 1) as nat;
        images_are_read_from_their_rows(rows, known, cabooses, m);
        match (
            found_cabooses(rows, known, cabooses, m),
            found_cabooses(rows, known, cabooses, n),
        ) {
            (Ok(before), Ok(found)) => {
                let row = rows[n - 1];
                let place = PlaceView {
                    which: row.which.rank(),
                    baseboard: known[row.hw_baseboard_id],
                };
                assert(!before.contains_key(place));
                assert forall|i: int, j: int| 0 <= i < j < n implies !same_place(
                    #[trigger] rows[i],
                    #[trigger] rows[j],
                    known,
                ) by {
                    if j == m && same_place(rows[i], rows[j], known) {
                        assert(before.contains_key(
                            PlaceView {
                                which: rows[i].which.rank(),
                                baseboard: known[rows[i].hw_baseboard_id],
                            },
                        ));
                    }
                }
                assert forall|p: PlaceView| #[trigger] found.contains_key(p) implies exists|i: int|
                    0 <= i < n && (#[trigger] rows[i]).which.rank() == p.which
                        && known[rows[i].hw_baseboard_id] == p.baseboard by {
                    if p == place {
                        assert(rows[n - 1].which.rank() == p.which);
                    } else {
                        assert(before.contains_key(p));
                        let i = choose|i: int|
                            0 <= i < m && (#[trigger] rows[i]).which.rank() == p.which
                                && known[rows[i].hw_baseboard_id] == p.baseboard;
                        assert(rows[i].which.rank() == p.which);
                    }
                }
            },
            _ => {},
        }
    }
}

/// The images cannot be read for the first row that is at fault, and the error says what is wrong
/// with it: its hardware is unknown, its contents are, or an earlier row is about the same place.
pub proof fn images_fail_for_the_first_bad_row(
    rows: Seq<InvCaboose>,
    known: Map<Uuid, BaseboardIdView>,
    cabooses: Map<Uuid, CabooseView>,
    n: nat,
)
    requires
        n <= rows.len(),
    ensures
        found_cabooses(rows, known, cabooses, n) matches Err(e) ==> exists|k: int|
            0 <= k < n && #[trigger] found_cabooses(rows, known, cabooses, k as nat) is Ok && ({
                let row = rows[k];
                if !known.contains_key(row.hw_baseboard_id) {
                    e == (ReadErrorView::CabooseUnknownBaseboard { id: row.hw_baseboard_id })
                } else if !cabooses.contains_key(row.sw_caboose_id) {
                    e == (ReadErrorView::UnknownCaboose { id: row.sw_caboose_id })
                } else {
                    &&& e == (ReadErrorView::DuplicateCaboose {
                        which: row.which,
                        hw_baseboard_id: row.hw_baseboard_id,
                    })
                    &&& exists|j: int| 0 <= j < k && same_place(#[trigger] rows[j], row, known)
                }
            }),
    decreases n,
{
    if n > 0 {
        let m = (n - 1) as nat;
        images_fail_for_the_first_bad_row(rows, known, cabooses, m);
        images_are_read_from_their_rows(rows, known, cabooses, m);
        match (
            found_cabooses(rows, known, cabooses, m),
            found_cabooses(rows, known, cabooses, n),
        ) {
            (Ok(before), Err(e)) => {
                let row = rows[n - 1];
                let place = PlaceView {
                    which: row.which.rank(),
                    baseboard: known[row.hw_baseboard_id],
                };
                if caboose_readable(row, known, cabooses) {
                    assert(before.contains_key(place));
                    let j = choose|j: int|
                        0 <= j < m && (#[trigger] rows[j]).which.rank() == place.which
                            && known[rows[j].hw_baseboard_id] == place.baseboard;
                    assert(same_place(rows[j], row, known));
                }
                assert(found_cabooses(rows, known, cabooses, m as int as nat) is Ok);
            },
            _ => {},
        }
    }
}

/// Two rows are about the same page on the same hardware.
pub open spec fn same_page(a: InvRotPage, b: InvRotPage, known: Map<Uuid, BaseboardIdView>) -> bool {
    a.which == b.which && known[a.hw_baseboard_id] == known[b.hw_baseboard_id]
}

/// Where the pages are read, each row gives the page in its place, with its own time and source, and
/// no place has two.
pub proof fn pages_are_read_from_their_rows(
    rows: Seq<InvRotPage>,
    known: Map<Uuid, BaseboardIdView>,
    pages: Map<Uuid, Seq<char>>,
    n: nat,
)
    requires
        n <= rows.len(),
    ensures
        found_rot_pages(rows, known, pages, n) matches Ok(found) ==> {
            &&& forall|i: int|
                0 <= i < n ==> {
                    let row = #[trigger] rows[i];
                    let place = PlaceView {
                        which: row.which.rank(),
                        baseboard: known[row.hw_baseboard_id],
                    };
                    &&& known.contains_key(row.hw_baseboard_id)
                    &&& pages.contains_key(row.sw_root_of_trust_page_id)
                    &&& found.contains_key(place)
                    &&& found[place] == (RotPageFoundView {
                        time_collected: row.time_collected,
                        source: row.source,
                        page: pages[row.sw_root_of_trust_page_id],
                    })
                }
            &&& forall|i: int, j: int|
                0 <= i < j < n ==> !same_page(#[trigger] rows[i], #[trigger] rows[j], known)
            &&& forall|place: PlaceView| #[trigger]
                found.contains_key(place) ==> exists|i: int|
                    0 <= i < n && (#[trigger] rows[i]).which.rank() == place.which
                        && known[rows[i].hw_baseboard_id] == place.baseboard
        },
    decreases n,
{
    if n > 0 {
        let m = (n - 1) as nat;
        pages_are_read_from_their_rows(rows, known, pages, m);
        match (found_rot_pages(rows, known, pages, m), found_rot_pages(rows, known, pages, n)) {
            (Ok(before), Ok(found)) => {
                let row = rows[n - 1];
                let place = PlaceView {
                    which: row.which.rank(),
                    baseboard: known[row.hw_baseboard_id],
                };
                assert(!before.contains_key(place));
                assert forall|i: int, j: int| 0 <= i < j < n implies !same_page(
                    #[trigger] rows[i],
                    #[trigger] rows[j],
                    known,
                ) by {
                    if j == m && same_page(rows[i], rows[j], known) {
                        assert(before.contains_key(
                            PlaceView {
                                which: rows[i].which.rank(),
                                baseboard: known[rows[i].hw_baseboard_id],
                            },
                        ));
                    }
                }
                assert forall|p: PlaceView| #[trigger] found.contains_key(p) implies exists|i: int|
                    0 <= i < n && (#[trigger] rows[i]).which.rank() == p.which
                        && known[rows[i].hw_baseboard_id] == p.baseboard by {
                    if p == place {
                        assert(rows[n - 1].which.rank() == p.which);
                    } else {
                        assert(before.contains_key(p));
                        let i = choose|i: int|
                            0 <= i < m && (#[trigger] rows[i]).which.rank() == p.which
                                && known[rows[i].hw_baseboard_id] == p.baseboard;
                        assert(rows[i].which.rank() == p.which);
                    }
                }
            },
            _ => {},
        }
    }
}

/// The pages cannot be read for the first row that is at fault, and the error says what is wrong
/// with it: its hardware is unknown, its contents are, or an earlier row is about the same place.
pub proof fn pages_fail_for_the_first_bad_row(
    rows: Seq<InvRotPage>,
    known: Map<Uuid, BaseboardIdView>,
    pages: Map<Uuid, Seq<char>>,
    n: nat,
)
    requires
        n <= rows.len(),
    ensures
        found_rot_pages(rows, known, pages, n) matches Err(e) ==> exists|k: int|
            0 <= k < n && #[trigger] found_rot_pages(rows, known, pages, k as nat) is Ok && ({
                let row = rows[k];
                if !known.contains_key(row.hw_baseboard_id) {
                    e == (ReadErrorView::RotPageUnknownBaseboard { id: row.hw_baseboard_id })
                } else if !pages.contains_key(row.sw_root_of_trust_page_id) {
                    e == (ReadErrorView::UnknownRotPage { id: row.sw_root_of_trust_page_id })
                } else {
                    &&& e == (ReadErrorView::DuplicateRotPage {
                        page: row.which,
                        hw_baseboard_id: row.hw_baseboard_id,
                    })
                    &&& exists|j: int| 0 <= j < k && same_page(#[trigger] rows[j], row, known)
                }
            }),
    decreases n,
{
    if n > 0 {
        let m = (n - 1) as nat;
        pages_fail_for_the_first_bad_row(rows, known, pages, m);
        pages_are_read_from_their_rows(rows, known, pages, m);
        match (found_rot_pages(rows, known, pages, m), found_rot_pages(rows, known, pages, n)) {
            (Ok(before), Err(e)) => {
                let row = rows[n - 1];
                let place = PlaceView {
                    which: row.which.rank(),
                    baseboard: known[row.hw_baseboard_id],
                };
                if known.contains_key(row.hw_baseboard_id) && pages.contains_key(
                    row.sw_root_of_trust_page_id,
                ) {
                    assert(before.contains_key(place));
                    let j = choose|j: int|
                        0 <= j < m && (#[trigger] rows[j]).which.rank() == place.which
                            && known[rows[j].hw_baseboard_id] == place.baseboard;
                    assert(same_page(rows[j], row, known));
                }
                assert(found_rot_pages(rows, known, pages, m as int as nat) is Ok);
            },
            _ => {},
        }
    }
}

/// Places are told apart by their ranks.
pub proof fn places_have_different_ranks(
    a: CabooseWhich,
    b: CabooseWhich,
    p: RotPageWhich,
    q: RotPageWhich,
)
    ensures
        a.rank() == b.rank() <==> a == b,
        p.rank() == q.rank() <==> p == q,
        CabooseWhich::SpSlot0.rank() < CabooseWhich::SpSlot1.rank()
            < CabooseWhich::RotSlotA.rank() < CabooseWhich::RotSlotB.rank(),
        RotPageWhich::Cmpa.rank() < RotPageWhich::CfpaActive.rank()
            < RotPageWhich::CfpaInactive.rank() < RotPageWhich::CfpaScratch.rank(),
{
}

/// A zone goes behind the others of its sled, with what its row says and with the interface that the
/// row names, which no other zone can use then. Other sleds stay as they are.
pub proof fn zones_are_put_on_their_sleds(state: ZonesState, row: InvOmicronZone)
    requires
        place_zone(state, row) is Ok,
    ensures
        ({
            let after = place_zone(state, row)->Ok_0;
            let before = state.sleds[row.sled_id];
            let found = after.sleds[row.sled_id];
            let zone = found.zones.last();
            &&& state.sleds.contains_key(row.sled_id)
            &&& after.sleds.dom() == state.sleds.dom()
            &&& after.sleds.remove(row.sled_id) == state.sleds.remove(row.sled_id)
            &&& found.time_collected == before.time_collected
            &&& found.source == before.source
            &&& found.sled_id == before.sled_id
            &&& found.generation == before.generation
            &&& found.zones.len() == before.zones.len() + 1
            &&& found.zones.drop_last() == before.zones
            &&& zone.id == row.id
            &&& zone.underlay_address == row.underlay_address
            &&& zone.zone_type == row.zone_type
            &&& zone.dataset == row.dataset
            &&& row.details == Some(zone.details)
            &&& row.nic_id is None ==> zone.nic is None && after.nics == state.nics
            &&& row.nic_id matches Some(nic) ==> state.nics.contains_key(nic) && zone.nic == Some(
                state.nics[nic],
            ) && after.nics == state.nics.remove(nic)
        }),
{
    let after = place_zone(state, row)->Ok_0;
    let before = state.sleds[row.sled_id];
    assert(after.sleds.dom() =~= state.sleds.dom());
    assert(after.sleds.remove(row.sled_id) =~= state.sleds.remove(row.sled_id));
    assert(after.sleds[row.sled_id].zones.drop_last() =~= before.zones);
}

/// A zone cannot be put on its sled where its interface is missing, where its sled is unknown, or
/// where it cannot be understood. The first of these that holds is told.
pub proof fn zones_fail_for_cause(state: ZonesState, row: InvOmicronZone)
    ensures
        ({
            let lacks = row.nic_id is Some && !state.nics.contains_key(row.nic_id->0);
            let lost = !state.sleds.contains_key(row.sled_id);
            let r = place_zone(state, row);
            &&& r is Ok <==> !lacks && !lost && row.details is Some
            &&& lacks ==> r == Err::<ZonesState, ReadErrorView>(
                ReadErrorView::MissingNic { zone: row.id, nic: row.nic_id->0 },
            )
            &&& !lacks && lost ==> r == Err::<ZonesState, ReadErrorView>(
                ReadErrorView::UnknownSled { zone: row.id, sled: row.sled_id },
            )
            &&& !lacks && !lost && row.details is None ==> r == Err::<ZonesState, ReadErrorView>(
                ReadErrorView::UnreadableZone { zone: row.id },
            )
        }),
{
}

/// A row before the `n`th names the interface.
pub open spec fn named_before(rows: Seq<InvOmicronZone>, n: nat, nic: Uuid) -> bool {
    exists|j: int| 0 <= j < n && (#[trigger] rows[j]).nic_id == Some(nic)
}

proof fn used_interfaces_are_taken(
    start: ZonesState,
    rows: Seq<InvOmicronZone>,
    n: nat,
    nic: Uuid,
)
    requires
        n <= rows.len(),
    ensures
        placed_zones(start, rows, n) matches Ok(state) ==> (state.nics.contains_key(nic)
            <==> start.nics.contains_key(nic) && !named_before(rows, n, nic)),
    decreases n,
{
    if n > 0 {
        let m = (n - 1) as nat;
        used_interfaces_are_taken(start, rows, m, nic);
        if named_before(rows, m, nic) {
            let j = choose|j: int| 0 <= j < m && (#[trigger] rows[j]).nic_id == Some(nic);
            assert(rows[j].nic_id == Some(nic));
        }
        if rows[n - 1].nic_id == Some(nic) {
            assert(named_before(rows, n, nic));
        }
        if named_before(rows, n, nic) && rows[n - 1].nic_id != Some(nic) {
            let j = choose|j: int| 0 <= j < n && (#[trigger] rows[j]).nic_id == Some(nic);
            assert(rows[j].nic_id == Some(nic));
            assert(named_before(rows, m, nic));
        }
    }
}

/// Where the zones are read, a zone uses each interface that was fetched. Those that no zone uses are
/// told where there are any, and no others.
pub proof fn every_interface_is_used(replies: CollectionReplies, i: int)
    requires
        ids_differ(replies),
        0 <= i < replies.omicron_zone_nics@.len(),
    ensures
        ({
            let nic = replies.omicron_zone_nics@[i].nic.id;
            let used = named_before(
                replies.omicron_zones@,
                replies.omicron_zones@.len(),
                nic,
            );
            &&& zones_found(replies) is Ok ==> used
            &&& zones_found(replies) matches Err(ReadErrorView::ExtraNics { ids }) ==> (
            ids.contains(nic) <==> !used)
        }),
{
    let pairs = replies.omicron_zone_nics@.map_values(|r: InvOmicronZoneNic| (r.nic.id, r.nic));
    let rows = replies.omicron_zones@;
    let start = ZonesState {
        sleds: sleds_by_id(replies.sled_omicron_zones@),
        nics: nics_by_id(replies.omicron_zone_nics@),
    };
    let nic = replies.omicron_zone_nics@[i].nic.id;
    to_map_of_distinct(pairs);
    assert(start.nics.contains_key(pairs[i].0));
    used_interfaces_are_taken(start, rows, rows.len(), nic);
    nics_stay_finite(start, rows, rows.len());
    match placed_zones(start, rows, rows.len()) {
        Ok(state) => {
            if state.nics.len() > 0 {
                order_exists::<Uuid>(state.nics.dom());
                let ids = in_order::<Uuid>(state.nics.dom());
                if ids.contains(nic) {
                    let k = choose|k: int| 0 <= k < ids.len() && ids[k] == nic;
                    assert(state.nics.dom().contains(ids[k]));
                }
                if state.nics.contains_key(nic) {
                    assert(state.nics.dom().contains(nic));
                }
            } else if state.nics.contains_key(nic) {
                assert(state.nics.dom().contains(nic));
                assert(state.nics.dom().len() > 0);
            }
        },
        Err(e) => {
            no_other_error_tells_interfaces(start, rows, rows.len());
        },
    }
}

proof fn nics_stay_finite(start: ZonesState, rows: Seq<InvOmicronZone>, n: nat)
    requires
        n <= rows.len(),
        start.nics.dom().finite(),
    ensures
        placed_zones(start, rows, n) matches Ok(state) ==> state.nics.dom().finite(),
    decreases n,
{
    if n > 0 {
        nics_stay_finite(start, rows, (n - 1) as nat);
    }
}

proof fn no_other_error_tells_interfaces(start: ZonesState, rows: Seq<InvOmicronZone>, n: nat)
    ensures
        placed_zones(start, rows, n) matches Err(e) ==> e !is ExtraNics,
    decreases n,
{
    if n > 0 {
        no_other_error_tells_interfaces(start, rows, (n - 1) as nat);
    }
}

} // verus!
