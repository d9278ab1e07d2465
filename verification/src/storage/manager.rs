//! What the manager of a sled's storage does with the requests that it gets.

use vstd::prelude::*;

use crate::ids::{format_uuid, parse_uuid, text_of_uuid, uuid_of_text, Uuid};
use crate::storage::disk::{
    same_config, Disk, DiskIdentity, DiskIdentityView, DiskVariant, OmicronPhysicalDisksConfig,
    RawDisk, ZpoolName,
};
use crate::storage::path::{join_path, joined_path};
use crate::storage::resources::{
    disks_in_order, in_use, unchanged, zpools_of, AddDiskResult, ManagedDisk, Pool, StorageError,
    StorageResources,
};

verus! {

/// The number of requests that can wait.
pub const QUEUE_SIZE: usize = 256;

/// By how much the room for requests has to change for it to be logged.
pub const CAPACITY_LOG_THRESHOLD: usize = 10;

/// How far the manager is.
#[derive(Debug, Clone, Copy, PartialEq, Eq, Structural)]
pub enum StorageManagerState {
    WaitingForKeyManager,
    QueueingDisks,
    Normal,
}

/// What the manager says of itself.
#[derive(Debug, Clone, Copy, PartialEq, Eq, Structural)]
pub struct StorageManagerData {
    pub state: StorageManagerState,
}

/// The name of a dataset: the zpool that it is on, and its name there.
#[derive(Debug, PartialEq, Eq)]
pub struct DatasetName {
    pub pool_name: ZpoolName,
    pub dataset: String,
}

impl DatasetName {
    /// The whole name.
    pub open spec fn text(self) -> Seq<char> {
        self.pool_name.text() + "/"@ + self.dataset@
    }

    /// The zpool of the dataset.
    pub fn pool(&self) -> (pool: &ZpoolName)
        ensures
            *pool == self.pool_name,
    {
        &self.pool_name
    }

    /// The whole name.
    pub fn full_name(&self) -> (s: String)
        ensures
            s@ == self.text(),
    {
        let mut s = self.pool_name.as_text();
        s.append("/");
        s.append(self.dataset.as_str());
        s
    }
}

/// A request to the manager.
#[derive(Debug, PartialEq, Eq)]
pub enum StorageRequest {
    /// The hardware found a disk.
    DetectedRawDisk(RawDisk),
    /// The hardware lost a disk.
    DetectedRawDiskRemoval(RawDisk),
    /// These are all the disks that the hardware has.
    DisksChanged(Vec<RawDisk>),
    /// The control plane asks for these disks.
    OmicronPhysicalDisksEnsure(OmicronPhysicalDisksConfig),
    /// A dataset is asked for.
    NewFilesystem { dataset_id: Uuid, dataset_name: DatasetName },
    /// Keys can be had now.
    KeyManagerReady,
    GetLatestResources,
    GetManagerState,
}

/// What is to be done for a request, once the manager has taken it in.
#[derive(Debug, PartialEq, Eq)]
pub enum StorageAction {
    /// Nothing more.
    Finish,
    /// The disk has to be formatted, and then handed back.
    FormatM2 { disk: RawDisk },
    /// These disks have to be added one by one.
    AddDisks { disks: Vec<RawDisk> },
    /// The disks that the control plane asks for have to be brought into use.
    EnsureDisks { config: OmicronPhysicalDisksConfig },
    /// The dataset has to be made.
    AddDataset { dataset_id: Uuid, dataset_name: DatasetName },
    SendResources,
    SendState { data: StorageManagerData },
}

/// How the room for requests changed.
#[derive(Debug, Clone, Copy, PartialEq, Eq, Structural)]
pub enum CapacityChange {
    Decreased { previous: usize, current: usize },
    Increased { previous: usize, current: usize },
}

/// What came of a disk that was found.
#[derive(Debug, PartialEq, Eq)]
pub enum Detected {
    /// It was added, or was known.
    Added(AddDiskResult),
    /// It has to be formatted first.
    Format(RawDisk),
}

/// The identity is that of one of the disks.
pub open spec fn among(disks: Seq<RawDisk>, id: DiskIdentityView) -> bool {
    exists|i: int| 0 <= i < disks.len() && (#[trigger] disks[i]).identity_of()@ == id
}

/// The disks that stay where the hardware has only these: a synthetic disk always stays.
pub open spec fn retained(
    known: Map<DiskIdentityView, ManagedDisk>,
    disks: Seq<RawDisk>,
) -> Map<DiskIdentityView, ManagedDisk> {
    Map::new(
        |id: DiskIdentityView|
            known.contains_key(id) && (among(disks, id) || known[id].synthetic()),
        |id: DiskIdentityView| known[id],
    )
}

/// The manager of a sled's storage.
#[derive(Debug, PartialEq, Eq)]
pub struct StorageManager {
    pub state: StorageManagerState,
    pub resources: StorageResources,
    /// The resources changed since they were last sent to those who watch them.
    pub changed: bool,
    pub last_logged_capacity: usize,
}

/// What the manager notes of an operation: that the resources changed, where they did.
pub open spec fn noticed(before: StorageManager, after: StorageManager) -> bool {
    before.changed || after.resources@ != before.resources@
}

/// The operation at this place changed the resources.
pub open spec fn changes_at(states: Seq<StorageManager>, i: int) -> bool {
    0 < i < states.len() && states[i].resources@ != states[i - 1].resources@
}

/// The operation at this place notes what it changed.
pub open spec fn notes_at(states: Seq<StorageManager>, i: int) -> bool {
    0 < i < states.len() ==> states[i].changed == noticed(states[i - 1], states[i])
}

/// The resources are sent, where these are the states of the manager since they were last sent, if
/// and only if one of the operations changed them. Where they differ from what was sent, they are
/// sent.
pub proof fn changes_are_sent(states: Seq<StorageManager>)
    requires
        states.len() > 0,
        !states[0].changed,
        forall|i: int| #[trigger] notes_at(states, i),
    ensures
        states.last().changed <==> exists|i: int| #[trigger] changes_at(states, i),
        states.last().resources@ != states[0].resources@ ==> states.last().changed,
    decreases states.len(),
{
    if states.len() > 1 {
        let rest = states.drop_last();
        let n = states.len() - 1;
        assert forall|i: int| #[trigger] notes_at(rest, i) by {
            assert(notes_at(states, i));
        }
        changes_are_sent(rest);
        assert(notes_at(states, n));
        if rest.last().changed {
            let i = choose|i: int| #[trigger] changes_at(rest, i);
            assert(changes_at(states, i));
        } else if states.last().changed {
            assert(changes_at(states, n));
        }
        if exists|i: int| #[trigger] changes_at(states, i) {
            let i = choose|i: int| #[trigger] changes_at(states, i);
            if i < n {
                assert(changes_at(rest, i));
            }
        }
    }
}

/// How the room for requests changed, where it changed by enough to be told.
pub open spec fn capacity_change(previous: usize, current: usize) -> Option<CapacityChange> {
    if previous - current >= CAPACITY_LOG_THRESHOLD {
        Some(CapacityChange::Decreased { previous, current })
    } else if current - previous >= CAPACITY_LOG_THRESHOLD {
        Some(CapacityChange::Increased { previous, current })
    } else {
        None
    }
}

/// A change of the room is told if and only if it is one by ten or more, as what it is, with what
/// was told before and what there is now.
pub proof fn changes_of_room_are_told(previous: usize, current: usize)
    ensures
        capacity_change(previous, current) is None <==> previous < current + 10 && current < previous
            + 10,
        capacity_change(previous, current) matches Some(CapacityChange::Decreased {
            previous: p,
            current: c,
        }) ==> p == previous && c == current && c < p,
        capacity_change(previous, current) matches Some(CapacityChange::Increased {
            previous: p,
            current: c,
        }) ==> p == previous && c == current && c > p,
{
}

fn is_among(disks: &Vec<RawDisk>, id: &DiskIdentity) -> (yes: bool)
    ensures
        yes == among(disks@, id@),
{
    let mut i: usize = 0;
    while i < disks.len()
        invariant
            i <= disks@.len(),
            forall|k: int| 0 <= k < i ==> (#[trigger] disks@[k]).identity_of()@ != id@,
        decreases disks@.len() - i,
    {
        if disks[i].identity().same(id) {
            assert(disks@[i as int].identity_of()@ == id@);
            return true;
        }
        i = i + 1;
    }
    false
}

impl StorageManager {
    /// A manager that knows no disk, and waits for keys.
    pub fn new() -> (m: StorageManager)
        ensures
            m.state == StorageManagerState::WaitingForKeyManager,
            m.resources@ == Map::<DiskIdentityView, ManagedDisk>::empty(),
            !m.changed,
            m.last_logged_capacity == QUEUE_SIZE,
    {
        StorageManager {
            state: StorageManagerState::WaitingForKeyManager,
            resources: StorageResources::new(),
            changed: false,
            last_logged_capacity: QUEUE_SIZE,
        }
    }

    /// Takes note of the room for requests, and says how it changed where it changed by enough since
    /// the last time that it was said.
    pub fn note_capacity(&mut self, current: usize) -> (change: Option<CapacityChange>)
        ensures
            ({
                let previous = old(self).last_logged_capacity;
                change == (if previous - current >= CAPACITY_LOG_THRESHOLD {
                    Some(CapacityChange::Decreased { previous, current })
                } else if current - previous >= CAPACITY_LOG_THRESHOLD {
                    Some(CapacityChange::Increased { previous, current })
                } else {
                    None
                })
            }),
            change == capacity_change(old(self).last_logged_capacity, current),
            final(self).last_logged_capacity == (if change is Some {
                current
            } else {
                old(self).last_logged_capacity
            }),
            final(self).state == old(self).state,
            final(self).resources == old(self).resources,
            final(self).changed == old(self).changed,
    {
        let previous = self.last_logged_capacity;
        if previous.saturating_sub(current) >= CAPACITY_LOG_THRESHOLD {
            self.last_logged_capacity = current;
            Some(CapacityChange::Decreased { previous, current })
        } else if current.saturating_sub(previous) >= CAPACITY_LOG_THRESHOLD {
            self.last_logged_capacity = current;
            Some(CapacityChange::Increased { previous, current })
        } else {
            None
        }
    }

    /// Takes in a disk that was found. A U.2 disk is noted. An M.2 disk is brought into use, for
    /// which it has to be formatted first.
    pub fn detected_disk(&mut self, raw_disk: RawDisk) -> (r: Detected)
        ensures
            raw_disk.variant_of() == DiskVariant::M2 ==> r == Detected::Format(raw_disk)
                && *final(self) == *old(self),
            raw_disk.variant_of() == DiskVariant::U2 ==> {
                let id = raw_disk.identity_of()@;
                let known = old(self).resources@.contains_key(id);
                &&& r == Detected::Added(
                    if known {
                        AddDiskResult::DiskAlreadyInserted
                    } else {
                        AddDiskResult::DiskInserted
                    },
                )
            },
            final(self).resources@ == noted(old(self).resources@, raw_disk),
            final(self).changed == noticed(*old(self), *final(self)),
            final(self).state == old(self).state,
            final(self).last_logged_capacity == old(self).last_logged_capacity,
    {
        match raw_disk.variant() {
            DiskVariant::U2 => {
                let ghost id = raw_disk.identity_of()@;
                let result = self.resources.insert_raw_disk(raw_disk);
                if result.disk_inserted() {
                    self.changed = true;
                    assert(self.resources@.contains_key(id) && !old(self).resources@.contains_key(id));
                }
                Detected::Added(result)
            },
            DiskVariant::M2 => Detected::Format(raw_disk),
        }
    }

    /// Takes in a disk that was formatted to be used.
    pub fn disk_ready(&mut self, disk: Disk, pool: Pool) -> (r: AddDiskResult)
        ensures
            ({
                let id = disk.identity_of()@;
                let before = old(self).resources@;
                let known = before.contains_key(id) && unchanged(before[id], disk, pool);
                &&& r == (if known {
                    AddDiskResult::DiskAlreadyInserted
                } else {
                    AddDiskResult::DiskInserted
                })
                &&& final(self).resources@ == (if known {
                    before
                } else {
                    before.insert(id, ManagedDisk::Managed { disk, pool })
                })
            }),
            final(self).changed == noticed(*old(self), *final(self)),
            final(self).state == old(self).state,
            final(self).last_logged_capacity == old(self).last_logged_capacity,
    {
        let ghost id = disk.identity_of()@;
        let ghost before = self.resources@;
        let ghost entry = ManagedDisk::Managed { disk, pool };
        let result = self.resources.insert_managed_disk(disk, pool);
        if result.disk_inserted() {
            self.changed = true;
            proof {
                assert(self.resources@[id] == entry);
                assert(!before.contains_key(id) || before[id] != entry);
            }
        }
        result
    }

    /// Removes the disks that are not among these.
    pub fn retain_disks(&mut self, disks: &Vec<RawDisk>)
        ensures
            final(self).resources@ == retained(old(self).resources@, disks@),
            final(self).changed == noticed(*old(self), *final(self)),
            final(self).state == old(self).state,
            final(self).last_logged_capacity == old(self).last_logged_capacity,
    {
        let all = self.resources.all_disks();
        let ghost before = self.resources@;
        let ghost ids = all@.map_values(|e: (DiskIdentity, DiskVariant)| e.0@);
        let mut removed = false;
        let mut i: usize = 0;
        proof {
            assert forall|id: DiskIdentityView| before.contains_key(id) implies ids.contains(
                id,
            ) by {
                all_are_listed(before, ids, id);
            }
            assert(before =~= partly_retained(before, disks@, ids.take(0)));
        }
        while i < all.len()
            invariant
                i <= all@.len() == ids.len(),
                ids == all@.map_values(|e: (DiskIdentity, DiskVariant)| e.0@),
                forall|id: DiskIdentityView| before.contains_key(id) ==> ids.contains(id),
                self.resources@ == partly_retained(before, disks@, ids.take(i as int)),
                removed == (self.resources@ != before),
                self.changed == old(self).changed,
                self.state == old(self).state,
                self.last_logged_capacity == old(self).last_logged_capacity,
            decreases all@.len() - i,
        {
            let id = &all[i].0;
            let ghost now = self.resources@;
            if !is_among(disks, id) {
                if self.resources.remove_disk(id) {
                    removed = true;
                    proof {
                        assert(before.contains_key(id@));
                        assert(!self.resources@.contains_key(id@));
                    }
                }
            }
            proof {
                let next = ids.take(i + 1);
                assert(next =~= ids.take(i as int).push(id@));
                assert(partly_retained(before, disks@, next) =~= self.resources@) by {
                    assert forall|x: DiskIdentityView|
                        next.contains(x) <==> ids.take(i as int).contains(x) || x == id@ by {
                        if ids.take(i as int).contains(x) {
                            let k = ids.take(i as int).index_of(x);
                            assert(next[k] == x);
                        }
                        assert(next[i as int] == id@);
                        if next.contains(x) {
                            let k = next.index_of(x);
                            if k < i {
                                assert(ids.take(i as int)[k] == x);
                            }
                        }
                    }
                }
            }
            i = i + 1;
        }
        proof {
            assert(ids.take(all@.len() as int) =~= ids);
            assert(partly_retained(before, disks@, ids) =~= retained(before, disks@));
        }
        if removed {
            self.changed = true;
        }
    }

    /// Takes in disks that were found, one after the other. Gives the M.2 disks, which have to be
    /// formatted first.
    pub fn add_disks(&mut self, disks: &Vec<RawDisk>) -> (to_format: Vec<RawDisk>)
        ensures
            final(self).resources@ == all_noted(old(self).resources@, disks@),
            to_format@ == m2_disks(disks@),
            final(self).changed == noticed(*old(self), *final(self)),
            final(self).state == old(self).state,
            final(self).last_logged_capacity == old(self).last_logged_capacity,
    {
        let mut to_format: Vec<RawDisk> = Vec::new();
        let ghost is_m2 = |disk: RawDisk| disk.variant_of() == DiskVariant::M2;
        let mut i: usize = 0;
        proof {
            reveal(Seq::filter);
            assert(disks@.take(0) =~= Seq::empty());
        }
        while i < disks.len()
            invariant
                i <= disks@.len(),
                self.resources@ == all_noted(old(self).resources@, disks@.take(i as int)),
                is_m2 == (|disk: RawDisk| disk.variant_of() == DiskVariant::M2),
                to_format@ == disks@.take(i as int).filter(is_m2),
                self.changed == noticed(*old(self), *self),
                forall|id: DiskIdentityView|
                    old(self).resources@.contains_key(id) ==> #[trigger]
                    self.resources@.contains_key(id),
                self.state == old(self).state,
                self.last_logged_capacity == old(self).last_logged_capacity,
            decreases disks@.len() - i,
        {
            let ghost now = self.resources@;
            proof {
                assert(disks@.take(i + 1).drop_last() =~= disks@.take(i as int));
                reveal(Seq::filter);
            }
            match self.detected_disk(disks[i].clone()) {
                Detected::Added(result) => {
                    proof {
                        if result == AddDiskResult::DiskInserted {
                            let id = disks@[i as int].identity_of()@;
                            assert(!now.contains_key(id) && self.resources@.contains_key(id));
                            assert(!old(self).resources@.contains_key(id));
                        }
                    }
                },
                Detected::Format(disk) => {
                    to_format.push(disk);
                },
            }
            i = i + 1;
        }
        assert(disks@.take(i as int) =~= disks@);
        to_format
    }

    /// Takes in a request, and gives what is to be done for it.
    pub fn handle(&mut self, request: StorageRequest) -> (action: StorageAction)
        ensures
            final(self).changed == noticed(*old(self), *final(self)),
            final(self).last_logged_capacity == old(self).last_logged_capacity,
            final(self).state == (if request is KeyManagerReady {
                StorageManagerState::Normal
            } else {
                old(self).state
            }),
            match request {
                StorageRequest::DetectedRawDisk(disk) => {
                    let id = disk.identity_of()@;
                    let known = old(self).resources@.contains_key(id);
                    if disk.variant_of() == DiskVariant::M2 {
                        &&& action == (StorageAction::FormatM2 { disk })
                        &&& final(self).resources == old(self).resources
                    } else if known {
                        &&& action == StorageAction::Finish
                        &&& final(self).resources@ == old(self).resources@
                    } else {
                        &&& action == StorageAction::Finish
                        &&& final(self).resources@ == old(self).resources@.insert(
                            id,
                            ManagedDisk::Unmanaged(disk),
                        )
                    }
                },
                StorageRequest::DetectedRawDiskRemoval(disk) => {
                    let id = disk.identity_of()@;
                    let before = old(self).resources@;
                    let gone = before.contains_key(id) && !before[id].synthetic();
                    &&& action == StorageAction::Finish
                    &&& final(self).resources@ == (if gone {
                        before.remove(id)
                    } else {
                        before
                    })
                },
                StorageRequest::DisksChanged(disks) => {
                    &&& final(self).resources@ == retained(old(self).resources@, disks@)
                    &&& action == (StorageAction::AddDisks { disks })
                },
                StorageRequest::OmicronPhysicalDisksEnsure(config) => {
                    &&& action == (StorageAction::EnsureDisks { config })
                    &&& final(self).resources == old(self).resources
                },
                StorageRequest::NewFilesystem { dataset_id, dataset_name } => {
                    &&& action == (StorageAction::AddDataset { dataset_id, dataset_name })
                    &&& final(self).resources == old(self).resources
                },
                StorageRequest::KeyManagerReady => {
                    &&& action == StorageAction::Finish
                    &&& final(self).resources == old(self).resources
                },
                StorageRequest::GetLatestResources => {
                    &&& action == StorageAction::SendResources
                    &&& final(self).resources == old(self).resources
                },
                StorageRequest::GetManagerState => {
                    &&& action == (StorageAction::SendState {
                        data: StorageManagerData { state: old(self).state },
                    })
                    &&& final(self).resources == old(self).resources
                },
            },
    {
        match request {
            StorageRequest::DetectedRawDisk(disk) => match self.detected_disk(disk) {
                Detected::Added(_) => StorageAction::Finish,
                Detected::Format(disk) => StorageAction::FormatM2 { disk },
            },
            StorageRequest::DetectedRawDiskRemoval(disk) => {
                if self.resources.remove_disk(disk.identity()) {
                    self.changed = true;
                    proof {
                        let id = disk.identity_of()@;
                        assert(old(self).resources@.contains_key(id));
                        assert(!self.resources@.contains_key(id));
                    }
                }
                StorageAction::Finish
            },
            StorageRequest::DisksChanged(disks) => {
                self.retain_disks(&disks);
                StorageAction::AddDisks { disks }
            },
            StorageRequest::OmicronPhysicalDisksEnsure(config) => StorageAction::EnsureDisks {
                config,
            },
            StorageRequest::NewFilesystem { dataset_id, dataset_name } => StorageAction::AddDataset {
                dataset_id,
                dataset_name,
            },
            StorageRequest::KeyManagerReady => {
                self.state = StorageManagerState::Normal;
                StorageAction::Finish
            },
            StorageRequest::GetLatestResources => StorageAction::SendResources,
            StorageRequest::GetManagerState => StorageAction::SendState {
                data: StorageManagerData { state: self.state },
            },
        }
    }

    /// What has to be sent to those who watch the resources, once a request is served: the resources,
    /// where they changed since they were last sent.
    pub fn updates(&mut self) -> (r: Option<StorageResources>)
        ensures
            match r {
                Some(resources) => old(self).changed && resources@ == old(self).resources@,
                None => !old(self).changed,
            },
            !final(self).changed,
            final(self).resources == old(self).resources,
            final(self).state == old(self).state,
            final(self).last_logged_capacity == old(self).last_logged_capacity,
    {
        if self.changed {
            self.changed = false;
            Some(self.resources.clone())
        } else {
            None
        }
    }

    /// The files in which the disks that the control plane asked for are kept: one on each M.2 disk
    /// that is in use.
    pub fn all_omicron_disk_ledgers(&self) -> (paths: Vec<String>)
        ensures
            paths@.map_values(|s: String| s@) == zpools_of(
                disks_in_order(self.resources@),
                DiskVariant::M2,
            ).map_values(
                |z: ZpoolName|
                    joined_path(z.mountpoint("config"@), "omicron-physical-disks.json"@),
            ),
    {
        let configs = self.resources.all_m2_mountpoints("config");
        let ghost pools = zpools_of(disks_in_order(self.resources@), DiskVariant::M2);
        let ghost target = pools.map_values(
            |z: ZpoolName| joined_path(z.mountpoint("config"@), "omicron-physical-disks.json"@),
        );
        let mut paths: Vec<String> = Vec::new();
        let mut i: usize = 0;
        assert(configs@.map_values(|s: String| s@).len() == configs@.len());
        while i < configs.len()
            invariant
                i <= configs@.len() == pools.len() == target.len(),
                configs@.map_values(|s: String| s@) == pools.map_values(
                    |z: ZpoolName| z.mountpoint("config"@),
                ),
                target == pools.map_values(
                    |z: ZpoolName|
                        joined_path(z.mountpoint("config"@), "omicron-physical-disks.json"@),
                ),
                paths@.len() == i,
                forall|k: int| 0 <= k < i ==> (#[trigger] paths@[k])@ == target[k],
            decreases configs@.len() - i,
        {
            proof {
                assert(configs@.map_values(|s: String| s@)[i as int] == configs@[i as int]@);
            }
            paths.push(join_path(configs[i].as_str(), "omicron-physical-disks.json"));
            i = i + 1;
        }
        assert(paths@.map_values(|s: String| s@) =~= target);
        paths
    }

    /// Finds the next disk, at `from` or after, that has to be brought into use for a configuration.
    /// All the disks before it are in use.
    pub fn next_disk_to_manage(&self, config: &OmicronPhysicalDisksConfig, from: usize) -> (r:
        Result<Option<usize>, StorageError>)
        requires
            from <= config.disks@.len(),
        ensures
            r == next_disk(self.state, self.resources@, *config, from as int),
    {
        if self.state != StorageManagerState::Normal {
            return Err(StorageError::KeyManagerNotReady);
        }
        let mut i: usize = from;
        while i < config.disks.len()
            invariant
                from <= i <= config.disks@.len(),
                first_unused(self.resources@, *config, from as int) == first_unused(
                    self.resources@,
                    *config,
                    i as int,
                ),
                self.state == StorageManagerState::Normal,
            decreases config.disks@.len() - i,
        {
            match self.resources.get_disk(&config.disks[i].identity) {
                Ok(disk) => match disk {
                    ManagedDisk::Managed { .. } => {},
                    ManagedDisk::Unmanaged(_) => {
                        return Ok(Some(i));
                    },
                },
                Err(e) => {
                    return Err(e);
                },
            }
            i = i + 1;
        }
        Ok(None)
    }

    /// Checks that the zpool of a dataset is on a disk that is in use.
    pub fn check_pool(&self, dataset_name: &DatasetName) -> (r: Result<(), StorageError>)
        ensures
            r == (if on_disk_in_use(self.resources@, dataset_name.pool_name) {
                Ok::<(), StorageError>(())
            } else {
                Err::<(), StorageError>(
                    StorageError::ZpoolNotFound { pool: dataset_name.pool_name },
                )
            }),
    {
        let disks = self.resources.managed_disks();
        let pool = *dataset_name.pool();
        let mut i: usize = 0;
        while i < disks.len()
            invariant
                i <= disks@.len(),
                pool == dataset_name.pool_name,
                disks@ == in_use(disks_in_order(self.resources@)),
                forall|k: int| 0 <= k < i ==> (#[trigger] disks@[k]).zpool_of() != pool,
            decreases disks@.len() - i,
        {
            if *disks[i].zpool_name() == pool {
                assert(disks@[i as int].zpool_of() == pool);
                return Ok(());
            }
            i = i + 1;
        }
        Err(StorageError::ZpoolNotFound { pool })
    }
}

/// A disk that is in use has the zpool.
pub open spec fn on_disk_in_use(
    known: Map<DiskIdentityView, ManagedDisk>,
    pool: ZpoolName,
) -> bool {
    let disks = in_use(disks_in_order(known));
    exists|i: int| 0 <= i < disks.len() && (#[trigger] disks[i]).zpool_of() == pool
}

/// The first disk of a configuration, at `from` or after, that is not in use, or an error where
/// that disk is not known.
pub open spec fn first_unused(
    known: Map<DiskIdentityView, ManagedDisk>,
    config: OmicronPhysicalDisksConfig,
    from: int,
) -> Result<Option<usize>, StorageError>
    decreases config.disks@.len() - from,
{
    if from < 0 || from >= config.disks@.len() {
        Ok(None)
    } else {
        let id = config.disks@[from].identity@;
        if !known.contains_key(id) {
            Err(StorageError::PhysicalDiskNotFound)
        } else if known[id] is Managed {
            first_unused(known, config, from + 1)
        } else {
            Ok(Some(from as usize))
        }
    }
}

/// The next disk to be brought into use. None can be, while keys cannot be had.
pub open spec fn next_disk(
    state: StorageManagerState,
    known: Map<DiskIdentityView, ManagedDisk>,
    config: OmicronPhysicalDisksConfig,
    from: int,
) -> Result<Option<usize>, StorageError> {
    if state != StorageManagerState::Normal {
        Err(StorageError::KeyManagerNotReady)
    } else {
        first_unused(known, config, from)
    }
}

/// Where no disk is left to be brought into use, all the disks of the configuration are in use.
pub proof fn finished_configuration_is_in_use(
    known: Map<DiskIdentityView, ManagedDisk>,
    config: OmicronPhysicalDisksConfig,
    from: int,
    i: int,
)
    requires
        0 <= from <= i < config.disks@.len(),
        first_unused(known, config, from) == Ok::<Option<usize>, StorageError>(None),
    ensures
        known.contains_key(config.disks@[i].identity@),
        known[config.disks@[i].identity@] is Managed,
    decreases i - from,
{
    if from < i {
        finished_configuration_is_in_use(known, config, from + 1, i);
    }
}

/// A configuration may follow the one that is kept, if one is.
pub open spec fn may_follow(requested: u64, current: Option<u64>) -> bool {
    match current {
        Some(current) => requested >= current,
        None => true,
    }
}

/// Any configuration may be the first. Then it may be followed by itself, and by each one with a
/// higher generation, and by no other.
pub proof fn generations_never_go_back(requested: u64, current: u64)
    ensures
        may_follow(requested, None),
        may_follow(current, Some(current)),
        requested > current ==> may_follow(requested, Some(current)),
        requested < current ==> !may_follow(requested, Some(current)),
{
}

/// Whether a configuration may follow the one that is kept: it must not be older.
pub fn check_generation(requested: u64, current: Option<u64>) -> (r: Result<(), StorageError>)
    ensures
        r == (match current {
            Some(current) if requested < current => Err::<(), StorageError>(
                StorageError::PhysicalDiskConfigurationOutdated { requested, current },
            ),
            _ => Ok::<(), StorageError>(()),
        }),
        r is Ok <==> may_follow(requested, current),
{
    match current {
        Some(current) => if requested < current {
            Err(StorageError::PhysicalDiskConfigurationOutdated { requested, current })
        } else {
            Ok(())
        },
        None => Ok(()),
    }
}

/// Whether a configuration has to be written in place of the one that is kept.
pub fn must_be_kept(
    kept: &OmicronPhysicalDisksConfig,
    config: &OmicronPhysicalDisksConfig,
) -> (yes: bool)
    ensures
        yes == !same_config(*kept, *config),
{
    !kept.same(config)
}

/// What is to be done about the id of a dataset.
#[derive(Debug, Clone, Copy, PartialEq, Eq, Structural)]
pub enum DatasetIdAction {
    /// The dataset has the id.
    Keep,
    /// The dataset has no id that can be read: it gets this one.
    Assign { id: Uuid },
}

/// What is to be done about the id of a dataset that has this one, if it has one, where another is
/// wanted.
pub open spec fn dataset_id_decision(found: Option<Uuid>, wanted: Uuid) -> Result<
    DatasetIdAction,
    StorageError,
> {
    match found {
        Some(id) if id == wanted => Ok(DatasetIdAction::Keep),
        Some(id) => Err(StorageError::UuidMismatch { old: id, new: wanted }),
        None => Ok(DatasetIdAction::Assign { id: wanted }),
    }
}

/// What is to be done about the id of a dataset, where this is the id that it has, if it has one.
pub fn dataset_id_action(found: Option<Uuid>, wanted: Uuid) -> (r: Result<
    DatasetIdAction,
    StorageError,
>)
    ensures
        r == dataset_id_decision(found, wanted),
{
    match found {
        Some(id) => if id != wanted {
            Err(StorageError::UuidMismatch { old: id, new: wanted })
        } else {
            Ok(DatasetIdAction::Keep)
        },
        None => Ok(DatasetIdAction::Assign { id: wanted }),
    }
}

/// What is to be done about the id of a dataset, where this is its property, if it has one. A
/// property that is no id counts as none.
pub fn check_dataset_id(property: Option<&str>, wanted: Uuid) -> (r: Result<
    DatasetIdAction,
    StorageError,
>)
    ensures
        r == dataset_id_decision(
            match property {
                Some(text) => uuid_of_text(text@),
                None => None,
            },
            wanted,
        ),
{
    let found = match property {
        Some(text) => parse_uuid(text),
        None => None,
    };
    dataset_id_action(found, wanted)
}

/// The text in which the id of a dataset is kept. A dataset whose id was assigned is found to have it.
pub fn dataset_id_property(id: Uuid) -> (text: String)
    ensures
        text@ == text_of_uuid(id),
        dataset_id_decision(uuid_of_text(text@), id) == Ok::<DatasetIdAction, StorageError>(
            DatasetIdAction::Keep,
        ),
{
    format_uuid(id)
}

/// The disks that are known once a disk was found: a U.2 disk is noted, unless it was known.
pub open spec fn noted(
    known: Map<DiskIdentityView, ManagedDisk>,
    disk: RawDisk,
) -> Map<DiskIdentityView, ManagedDisk> {
    if disk.variant_of() == DiskVariant::M2 || known.contains_key(disk.identity_of()@) {
        known
    } else {
        known.insert(disk.identity_of()@, ManagedDisk::Unmanaged(disk))
    }
}

/// The disks that are known once these were found, one after the other.
pub open spec fn all_noted(
    known: Map<DiskIdentityView, ManagedDisk>,
    disks: Seq<RawDisk>,
) -> Map<DiskIdentityView, ManagedDisk>
    decreases disks.len(),
{
    if disks.len() == 0 {
        known
    } else {
        noted(all_noted(known, disks.drop_last()), disks.last())
    }
}

/// The M.2 disks among these.
pub open spec fn m2_disks(disks: Seq<RawDisk>) -> Seq<RawDisk> {
    disks.filter(|disk: RawDisk| disk.variant_of() == DiskVariant::M2)
}

/// The identity is that of one of the U.2 disks among these.
pub open spec fn among_u2(disks: Seq<RawDisk>, id: DiskIdentityView) -> bool {
    exists|i: int|
        0 <= i < disks.len() && (#[trigger] disks[i]).identity_of()@ == id
            && disks[i].variant_of() == DiskVariant::U2
}

/// Once the hardware has said which disks it has, the manager knows exactly these U.2 disks, those
/// of the M.2 disks among them that it knew before, and the synthetic disks that it knew. What it
/// knew of a disk that stays is unchanged.
pub proof fn tracked_disks_are_those_of_the_hardware(
    known: Map<DiskIdentityView, ManagedDisk>,
    disks: Seq<RawDisk>,
    id: DiskIdentityView,
)
    ensures
        ({
            let after = all_noted(retained(known, disks), disks);
            &&& after.contains_key(id) <==> among_u2(disks, id) || (known.contains_key(id) && (
            among(disks, id) || known[id].synthetic()))
            &&& known.contains_key(id) && after.contains_key(id) ==> after[id] == known[id]
        }),
{
    noting_adds(retained(known, disks), disks, id);
    if among_u2(disks, id) {
        let i = choose|i: int|
            0 <= i < disks.len() && (#[trigger] disks[i]).identity_of()@ == id
                && disks[i].variant_of() == DiskVariant::U2;
        assert(disks[i].identity_of()@ == id);
    }
}

proof fn noting_adds(
    known: Map<DiskIdentityView, ManagedDisk>,
    disks: Seq<RawDisk>,
    id: DiskIdentityView,
)
    ensures
        all_noted(known, disks).contains_key(id) <==> known.contains_key(id) || among_u2(disks, id),
        known.contains_key(id) ==> all_noted(known, disks)[id] == known[id],
    decreases disks.len(),
{
    if disks.len() > 0 {
        let rest = disks.drop_last();
        noting_adds(known, rest, id);
        assert(forall|i: int| 0 <= i < rest.len() ==> rest[i] == disks[i]);
        if among_u2(rest, id) {
            let i = choose|i: int|
                0 <= i < rest.len() && (#[trigger] rest[i]).identity_of()@ == id
                    && rest[i].variant_of() == DiskVariant::U2;
            assert(disks[i].identity_of()@ == id);
        }
        if among_u2(disks, id) && !(disks.last().identity_of()@ == id && disks.last().variant_of()
            == DiskVariant::U2) {
            let i = choose|i: int|
                0 <= i < disks.len() && (#[trigger] disks[i]).identity_of()@ == id
                    && disks[i].variant_of() == DiskVariant::U2;
            assert(rest[i].identity_of()@ == id);
        }
        if disks.last().identity_of()@ == id && disks.last().variant_of() == DiskVariant::U2 {
            assert(disks[disks.len() - 1].identity_of()@ == id);
        }
    }
}

spec fn partly_retained(
    known: Map<DiskIdentityView, ManagedDisk>,
    disks: Seq<RawDisk>,
    seen: Seq<DiskIdentityView>,
) -> Map<DiskIdentityView, ManagedDisk> {
    Map::new(
        |id: DiskIdentityView|
            known.contains_key(id) && (!seen.contains(id) || among(disks, id)
                || known[id].synthetic()),
        |id: DiskIdentityView| known[id],
    )
}

proof fn all_are_listed(
    known: Map<DiskIdentityView, ManagedDisk>,
    ids: Seq<DiskIdentityView>,
    id: DiskIdentityView,
)
    requires
        ids == crate::ordmap::in_order::<DiskIdentity>(known.dom()),
        crate::ordmap::lists_keys::<DiskIdentity>(ids, known.dom()),
        known.contains_key(id),
    ensures
        ids.contains(id),
{
    assert(known.dom().contains(id));
}

} // verus!
