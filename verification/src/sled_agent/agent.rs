//! What the sled agent decides, and what it says of its sled.

use vstd::prelude::*;

use crate::baseboard::Baseboard;
use crate::ids::Uuid;
use crate::inventory::types::{BaseboardId, SledRole, SocketAddrV6};
use crate::sled_agent::error::Error;
use crate::sled_agent::startup::StartRequest;
use crate::storage::disk::{DiskVariant, ZpoolName};
use crate::storage::manager::DatasetName;
use crate::storage::resources::{disks_in_order, zpools_with_variants, StorageResources};
use crate::storage::worker::MAX_BYTE_COUNT;
use crate::text::{has_prefix, in_text_order, sorted_texts, starts_with, str_eq, texts};

verus! {

/// What the hardware of a sled says of itself.
#[derive(Debug, PartialEq, Eq)]
pub struct Hardware {
    pub is_scrimlet: bool,
    pub baseboard: Baseboard,
    pub online_processor_count: u32,
    pub usable_physical_ram_bytes: u64,
}

/// The role of a sled: one with a switch is a scrimlet.
pub open spec fn role_of(is_scrimlet: bool) -> SledRole {
    if is_scrimlet {
        SledRole::Scrimlet
    } else {
        SledRole::Gimlet
    }
}

/// What the control plane is told of a sled.
#[derive(Debug, PartialEq, Eq)]
pub struct SledAgentStartupInfo {
    pub sa_address: String,
    pub role: SledRole,
    pub baseboard: Baseboard,
    pub usable_hardware_threads: u32,
    pub usable_physical_ram: u64,
    pub reservoir_size: u64,
}

/// What a sled answers when it is asked about itself.
#[derive(Debug, PartialEq, Eq)]
pub struct Inventory {
    pub sled_id: Uuid,
    pub sled_agent_address: SocketAddrV6,
    pub sled_role: SledRole,
    pub baseboard: Baseboard,
    pub usable_hardware_threads: u32,
    pub usable_physical_ram: i64,
    pub reservoir_size: i64,
}

/// Why a sled cannot say what it is.
#[derive(Debug, Clone, Copy, PartialEq, Eq, Structural)]
pub enum InventoryError {
    /// There are more bytes of memory than can be counted.
    BadByteCount { bytes: u64 },
}

/// A zpool of a sled.
#[derive(Debug, Clone, Copy, PartialEq, Eq, Structural)]
pub struct Zpool {
    pub id: Uuid,
    pub disk_type: DiskVariant,
}

/// How a failure is logged.
#[derive(Debug, Clone, Copy, PartialEq, Eq, Structural)]
pub enum LogLevel {
    Info,
    Warn,
}

/// A sled agent.
#[derive(Debug, Clone, Copy, PartialEq, Eq, Structural)]
pub struct SledAgent {
    pub start_request: StartRequest,
    /// The address of the switch zone, where the sled has one.
    pub switch_zone_ip: u128,
}

impl SledAgent {
    /// The id of the sled.
    pub fn id(&self) -> (id: Uuid)
        ensures
            id == self.start_request.id,
    {
        self.start_request.id
    }

    /// What the sled was started with.
    pub fn start_request(&self) -> (request: &StartRequest)
        ensures
            *request == self.start_request,
    {
        &self.start_request
    }

    /// The role of the sled.
    pub fn get_role(&self, hardware: &Hardware) -> (role: SledRole)
        ensures
            role == role_of(hardware.is_scrimlet),
    {
        if hardware.is_scrimlet {
            SledRole::Scrimlet
        } else {
            SledRole::Gimlet
        }
    }

    /// What the control plane is told of the sled, at the agent's address in text.
    pub fn startup_info(&self, hardware: &Hardware, sa_address: String, reservoir_size: u64) -> (info:
        SledAgentStartupInfo)
        ensures
            info == (SledAgentStartupInfo {
                sa_address,
                role: role_of(hardware.is_scrimlet),
                baseboard: hardware.baseboard,
                usable_hardware_threads: hardware.online_processor_count,
                usable_physical_ram: hardware.usable_physical_ram_bytes,
                reservoir_size,
            }),
    {
        SledAgentStartupInfo {
            sa_address,
            role: self.get_role(hardware),
            baseboard: hardware.baseboard.clone(),
            usable_hardware_threads: hardware.online_processor_count,
            usable_physical_ram: hardware.usable_physical_ram_bytes,
            reservoir_size,
        }
    }

    /// What the sled answers when it is asked about itself.
    pub fn inventory(&self, hardware: &Hardware, reservoir_size: i64) -> (r: Result<
        Inventory,
        InventoryError,
    >)
        ensures
            match r {
                Ok(inventory) => {
                    &&& hardware.usable_physical_ram_bytes <= MAX_BYTE_COUNT
                    &&& inventory == (Inventory {
                        sled_id: self.start_request.id,
                        sled_agent_address: self.start_request.sled_address,
                        sled_role: role_of(hardware.is_scrimlet),
                        baseboard: hardware.baseboard,
                        usable_hardware_threads: hardware.online_processor_count,
                        usable_physical_ram: hardware.usable_physical_ram_bytes as i64,
                        reservoir_size,
                    })
                },
                Err(e) => {
                    &&& hardware.usable_physical_ram_bytes > MAX_BYTE_COUNT
                    &&& e == (InventoryError::BadByteCount {
                        bytes: hardware.usable_physical_ram_bytes,
                    })
                },
            },
    {
        let bytes: u64 = hardware.usable_physical_ram_bytes;
        if bytes > MAX_BYTE_COUNT {
            return Err(InventoryError::BadByteCount { bytes });
        }
        Ok(
            Inventory {
                sled_id: self.start_request.id,
                sled_agent_address: self.start_request.sled_address,
                sled_role: self.get_role(hardware),
                baseboard: hardware.baseboard.clone(),
                usable_hardware_threads: hardware.online_processor_count,
                usable_physical_ram: bytes as i64,
                reservoir_size,
            },
        )
    }
}

/// How a failure is logged, after so many calls and so much time.
pub open spec fn failure_level(call_count: u64, secs: u64, nanos: u32) -> Option<LogLevel> {
    if call_count == 0 {
        Some(LogLevel::Info)
    } else if secs > 30 || (secs == 30 && nanos > 0) {
        Some(LogLevel::Warn)
    } else {
        None
    }
}

/// The first failure is told, and no other within half a minute. Every failure after that is a
/// warning.
pub proof fn failures_are_told_at_first_and_after_half_a_minute(
    call_count: u64,
    secs: u64,
    nanos: u32,
)
    ensures
        failure_level(0, secs, nanos) == Some(LogLevel::Info),
        call_count > 0 ==> ({
            let late = secs * 1_000_000_000 + nanos > 30_000_000_000;
            nanos < 1_000_000_000 ==> failure_level(call_count, secs, nanos) == (if late {
                Some(LogLevel::Warn)
            } else {
                None
            })
        }),
{
}

/// How it is logged that the control plane could not be told of the sled. It is often not up yet at
/// first, so nothing is said between the first failure and the time at which the failures have gone
/// on for more than half a minute.
pub fn notification_failure_level(call_count: u64, secs: u64, nanos: u32) -> (level: Option<LogLevel>)
    ensures
        level == (if call_count == 0 {
            Some(LogLevel::Info)
        } else if secs > 30 || (secs == 30 && nanos > 0) {
            Some(LogLevel::Warn)
        } else {
            None
        }),
        level == failure_level(call_count, secs, nanos),
{
    if call_count == 0 {
        Some(LogLevel::Info)
    } else if secs > 30 || (secs == 30 && nanos > 0) {
        Some(LogLevel::Warn)
    } else {
        None
    }
}

/// What came of loading the services and of the request for their firewall rules, both of which are
/// always made: it is done once both succeeded, and where both failed the services are named.
pub fn load_services_result(
    load_services: Result<(), Error>,
    firewall: Result<(), Error>,
) -> (r: Result<(), Error>)
    ensures
        r is Ok <==> load_services is Ok && firewall is Ok,
        load_services is Err ==> r == load_services,
        load_services is Ok ==> r == firewall,
{
    match load_services {
        Ok(()) => firewall,
        Err(e) => Err(e),
    }
}

/// Who makes the bundle of a zone.
#[derive(Debug, Clone, Copy, PartialEq, Eq, Structural)]
pub enum BundleMaker {
    Instances,
    Services,
}

/// There is no zone with this name.
#[derive(Debug, PartialEq, Eq)]
pub struct NoSuchZone {
    pub name: String,
}

/// Who makes the bundle of a zone with this name, if anyone does.
pub open spec fn maker_of(name: Seq<char>) -> Option<BundleMaker> {
    if has_prefix(name, "oxz_propolis-server_"@) {
        Some(BundleMaker::Instances)
    } else if has_prefix(name, "oxz_"@) {
        Some(BundleMaker::Services)
    } else {
        None
    }
}

/// The bundle of the zone of an instance is made with the instances, and that of any other zone of
/// the control plane with the services, whatever their names end with.
pub proof fn bundles_are_made_by_the_kind_of_zone(rest: Seq<char>, name: Seq<char>)
    ensures
        maker_of("oxz_propolis-server_"@ + rest) == Some(BundleMaker::Instances),
        maker_of("oxz_"@ + rest) == Some(BundleMaker::Services) || rest == "propolis-server_"@
            + rest.skip(16),
        maker_of(name) is Some ==> name == "oxz_"@ + name.skip(4),
        maker_of(name) == Some(BundleMaker::Instances) ==> name == "oxz_propolis-server_"@
            + name.skip(20),
{
    reveal_strlit("oxz_propolis-server_");
    reveal_strlit("propolis-server_");
    reveal_strlit("oxz_");
    let long = "oxz_propolis-server_"@;
    let short = "oxz_"@;
    assert((long + rest).take(20) =~= long);
    assert((short + rest).take(4) =~= short);
    if has_prefix(short + rest, long) {
        assert((short + rest).take(20) == long);
        assert forall|i: int| 0 <= i < 16 implies rest[i] == "propolis-server_"@[i] by {
            assert((short + rest).take(20)[i + 4] == long[i + 4]);
        }
        assert(rest =~= "propolis-server_"@ + rest.skip(16));
    }
    if has_prefix(name, long) {
        assert(name =~= long + name.skip(20));
        assert(name.take(4) =~= short) by {
            assert forall|i: int| 0 <= i < 4 implies name[i] == short[i] by {
                assert(name.take(20)[i] == long[i]);
            }
        }
    }
    if has_prefix(name, short) {
        assert(name =~= short + name.skip(4));
    } else if has_prefix(name, long) {
        assert(name =~= short + name.skip(4));
    }
}

/// Who makes the bundle of a zone: the manager of instances for the zone of one, the manager of
/// services for another zone of the control plane. No other zone is known.
pub fn zone_bundle_maker(name: &str) -> (r: Result<BundleMaker, NoSuchZone>)
    ensures
        match r {
            Ok(BundleMaker::Instances) => has_prefix(name@, "oxz_propolis-server_"@),
            Ok(BundleMaker::Services) => !has_prefix(name@, "oxz_propolis-server_"@) && has_prefix(
                name@,
                "oxz_"@,
            ),
            Err(e) => {
                &&& !has_prefix(name@, "oxz_propolis-server_"@)
                &&& !has_prefix(name@, "oxz_"@)
                &&& e.name@ == name@
            },
        },
        match r {
            Ok(maker) => maker_of(name@) == Some(maker),
            Err(_) => maker_of(name@) is None,
        },
{
    if starts_with(name, "oxz_propolis-server_") {
        Ok(BundleMaker::Instances)
    } else if starts_with(name, "oxz_") {
        Ok(BundleMaker::Services)
    } else {
        Err(NoSuchZone { name: name.to_owned() })
    }
}

/// A zone of the system.
#[derive(Debug, PartialEq, Eq)]
pub struct Zone {
    pub name: String,
    pub running: bool,
}

/// The names of the zones that run.
pub open spec fn running_names(zones: Seq<Zone>) -> Seq<Seq<char>>
    decreases zones.len(),
{
    if zones.len() == 0 {
        Seq::empty()
    } else if zones.last().running {
        running_names(zones.drop_last()).push(zones.last().name@)
    } else {
        running_names(zones.drop_last())
    }
}

/// The names of the zones that run, in order.
pub fn zones_list(zones: &Vec<Zone>) -> (names: Vec<String>)
    ensures
        in_text_order(texts(names@)),
        texts(names@).to_multiset() == running_names(zones@).to_multiset(),
{
    let mut names: Vec<String> = Vec::new();
    let mut i: usize = 0;
    assert(zones@.take(0) =~= Seq::empty());
    assert(texts(names@) =~= running_names(zones@.take(0)));
    while i < zones.len()
        invariant
            i <= zones@.len(),
            texts(names@) == running_names(zones@.take(i as int)),
        decreases zones@.len() - i,
    {
        assert(zones@.take(i + 1).drop_last() =~= zones@.take(i as int));
        if zones[i].running {
            let ghost before = texts(names@);
            names.push(zones[i].name.clone());
            assert(texts(names@) =~= before.push(zones@[i as int].name@));
        }
        i = i + 1;
    }
    assert(zones@.take(i as int) =~= zones@);
    sorted_texts(names)
}

/// The zpools of the sled.
pub fn zpools_get(resources: &StorageResources) -> (r: Vec<Zpool>)
    ensures
        r@ == zpools_with_variants(disks_in_order(resources@)).map_values(
            |z: (ZpoolName, DiskVariant)| (Zpool { id: z.0.id, disk_type: z.1 }),
        ),
{
    let zpools = resources.get_all_zpools();
    let mut r: Vec<Zpool> = Vec::new();
    let mut i: usize = 0;
    while i < zpools.len()
        invariant
            i <= zpools@.len(),
            r@.len() == i,
            forall|k: int|
                0 <= k < i ==> #[trigger] r@[k] == (Zpool {
                    id: zpools@[k].0.id,
                    disk_type: zpools@[k].1,
                }),
        decreases zpools@.len() - i,
    {
        r.push(Zpool { id: zpools[i].0.id, disk_type: zpools[i].1 });
        i = i + 1;
    }
    assert(r@ =~= zpools@.map_values(
        |z: (ZpoolName, DiskVariant)| (Zpool { id: z.0.id, disk_type: z.1 }),
    ));
    r
}

/// A zone that the control plane asks for, with the dataset that it needs, if it needs one.
#[derive(Debug, PartialEq, Eq)]
pub struct RequestedZone {
    pub id: Uuid,
    pub dataset_name: Option<DatasetName>,
}

/// What is done so that the zones that the control plane asks for run.
#[derive(Debug, PartialEq, Eq)]
pub enum ZonesStep {
    /// The dataset of a zone has to exist, with the id of the zone.
    UpsertFilesystem { dataset_id: Uuid, dataset_name: DatasetName },
    /// These zones have to run, and no others.
    EnsureZones,
    /// New firewall rules are asked for, each time: they may be missing from a time before.
    RequestFirewallUpdate,
}

/// The steps that make the datasets of the zones, in the order of the zones.
pub open spec fn dataset_steps(zones: Seq<RequestedZone>) -> Seq<ZonesStep>
    decreases zones.len(),
{
    if zones.len() == 0 {
        Seq::empty()
    } else {
        match zones.last().dataset_name {
            Some(dataset_name) => dataset_steps(zones.drop_last()).push(
                ZonesStep::UpsertFilesystem { dataset_id: zones.last().id, dataset_name },
            ),
            None => dataset_steps(zones.drop_last()),
        }
    }
}

/// What is done so that the zones that the control plane asks for run, step by step. A step that
/// fails ends it.
pub fn omicron_zones_ensure(zones: Vec<RequestedZone>) -> (steps: Vec<ZonesStep>)
    ensures
        steps@ == dataset_steps(zones@).push(ZonesStep::EnsureZones).push(
            ZonesStep::RequestFirewallUpdate,
        ),
{
    let ghost all = zones@;
    let mut zones = zones;
    let mut reversed: Vec<ZonesStep> = Vec::new();
    assert(dataset_steps(zones@) + reversed@.reverse() =~= dataset_steps(all));
    while zones.len() > 0
        invariant
            dataset_steps(zones@) + reversed@.reverse() == dataset_steps(all),
        decreases zones@.len(),
    {
        let ghost before = zones@;
        let ghost tail = reversed@;
        match zones.pop() {
            Some(zone) => {
                assert(zones@ =~= before.drop_last());
                if let Some(dataset_name) = zone.dataset_name {
                    reversed.push(
                        ZonesStep::UpsertFilesystem { dataset_id: zone.id, dataset_name },
                    );
                    assert(dataset_steps(zones@) + reversed@.reverse() =~= dataset_steps(before)
                        + tail.reverse());
                }
            },
            None => {},
        }
    }
    let mut steps: Vec<ZonesStep> = Vec::new();
    assert(dataset_steps(zones@) + reversed@.reverse() =~= reversed@.reverse());
    assert(steps@ + reversed@.reverse() =~= dataset_steps(all));
    while reversed.len() > 0
        invariant
            steps@ + reversed@.reverse() == dataset_steps(all),
        decreases reversed@.len(),
    {
        let ghost before = reversed@;
        let ghost done = steps@;
        match reversed.pop() {
            Some(step) => {
                steps.push(step);
                assert(steps@ + reversed@.reverse() =~= done + before.reverse());
            },
            None => {},
        }
    }
    assert(steps@ =~= dataset_steps(all));
    steps.push(ZonesStep::EnsureZones);
    steps.push(ZonesStep::RequestFirewallUpdate);
    steps
}

/// Why a sled could not be added to the rack.
#[derive(Debug, PartialEq, Eq)]
pub enum AddSledError {
    /// No sled with this board answered.
    NotFound { sled_id: BaseboardId },
    /// The sled could not be started, with the text of what failed.
    BootstrapTcpClient { board: Baseboard, cause: String },
}

/// The board is the one that is looked for.
pub open spec fn is_board(sled_id: BaseboardId, found: Baseboard) -> bool {
    sled_id.serial_number@ == found.identifier@ && sled_id.part_number@ == found.model@
}

/// The search for the address of a sled, among sleds that answer one after the other.
pub struct SledSearch {
    pub sled_id: BaseboardId,
    pub found: Option<(u128, Baseboard)>,
}

impl SledSearch {
    /// What was found is the sled that is looked for.
    pub open spec fn well_formed(self) -> bool {
        self.found matches Some((_, board)) ==> is_board(self.sled_id, board)
    }

    /// Begins to search.
    pub fn new(sled_id: BaseboardId) -> (s: SledSearch)
        ensures
            s.well_formed(),
            s.sled_id == sled_id,
            s.found is None,
    {
        SledSearch { sled_id, found: None }
    }

    /// Takes in the answer of a sled, if it answered, and says whether the search is over. The first
    /// sled that has the board is the one.
    pub fn on_reply(&mut self, ip: u128, board: Option<Baseboard>) -> (done: bool)
        requires
            old(self).well_formed(),
        ensures
            final(self).well_formed(),
            final(self).sled_id == old(self).sled_id,
            final(self).found == (match (old(self).found, board) {
                (None, Some(b)) if is_board(old(self).sled_id, b) => Some((ip, b)),
                _ => old(self).found,
            }),
            done == final(self).found is Some,
    {
        if self.found.is_some() {
            return true;
        }
        match board {
            Some(b) => if str_eq(self.sled_id.serial_number.as_str(), b.identifier.as_str())
                && str_eq(self.sled_id.part_number.as_str(), b.model.as_str()) {
                self.found = Some((ip, b));
                true
            } else {
                false
            },
            None => false,
        }
    }

    /// Ends the search: gives the address of the sled, and its board.
    pub fn finish(self) -> (r: Result<(u128, Baseboard), AddSledError>)
        requires
            self.well_formed(),
        ensures
            r == (match self.found {
                Some(found) => Ok::<(u128, Baseboard), AddSledError>(found),
                None => Err::<(u128, Baseboard), AddSledError>(
                    AddSledError::NotFound { sled_id: self.sled_id },
                ),
            }),
            r matches Ok((_, board)) ==> is_board(self.sled_id, board),
    {
        match self.found {
            Some(found) => Ok(found),
            None => Err(AddSledError::NotFound { sled_id: self.sled_id }),
        }
    }
}

/// What a search has found once all these sleds have answered.
pub open spec fn found_after(
    sled_id: BaseboardId,
    replies: Seq<(u128, Option<Baseboard>)>,
) -> Option<(u128, Baseboard)>
    decreases replies.len(),
{
    if replies.len() == 0 {
        None
    } else {
        match (found_after(sled_id, replies.drop_last()), replies.last().1) {
            (None, Some(b)) if is_board(sled_id, b) => Some((replies.last().0, b)),
            (found, _) => found,
        }
    }
}

/// A search finds a sled exactly where one with the board answered.
pub proof fn search_finds_what_answers(
    sled_id: BaseboardId,
    replies: Seq<(u128, Option<Baseboard>)>,
)
    ensures
        found_after(sled_id, replies) is Some <==> exists|i: int|
            #![trigger replies[i]]
            0 <= i < replies.len() && (replies[i].1 matches Some(b) && is_board(sled_id, b)),
    decreases replies.len(),
{
    if replies.len() > 0 {
        let rest = replies.drop_last();
        search_finds_what_answers(sled_id, rest);
        assert(forall|i: int| 0 <= i < rest.len() ==> rest[i] == replies[i]);
        if found_after(sled_id, rest) is Some {
            let i = choose|i: int|
                #![trigger rest[i]]
                0 <= i < rest.len() && (rest[i].1 matches Some(b) && is_board(sled_id, b));
            assert(replies[i] == rest[i]);
        }
        if found_after(sled_id, replies) is Some && found_after(sled_id, rest) is None {
            assert(replies[replies.len() - 1] == replies.last());
        }
    }
}

} // verus!
