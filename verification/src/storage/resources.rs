//! The disks that a sled knows of, and the zpools on those that are in use.

use vstd::prelude::*;

use crate::ordmap::{in_order, lists_keys, values, OrdMap};
use crate::storage::disk::{
    Disk, DiskIdentity, DiskIdentityView, DiskVariant, RawDisk, ZpoolName,
};
use crate::storage::path::{join_path, joined_path};

verus! {

/// What came of adding a disk.
#[derive(Debug, Clone, Copy, PartialEq, Eq, Structural)]
pub enum AddDiskResult {
    DiskInserted,
    DiskAlreadyInserted,
    DiskQueued,
}

impl AddDiskResult {
    /// Whether the disk was inserted.
    pub fn disk_inserted(&self) -> (yes: bool)
        ensures
            yes == (*self == AddDiskResult::DiskInserted),
    {
        match self {
            AddDiskResult::DiskInserted => true,
            _ => false,
        }
    }
}

/// What a zpool says of itself.
#[derive(Debug, Clone, Copy, PartialEq, Eq, Structural)]
pub struct ZpoolInfo {
    pub size: u64,
    pub allocated: u64,
    pub free: u64,
    pub online: bool,
}

/// A zpool, with the disk that it is on.
#[derive(Debug, PartialEq, Eq)]
pub struct Pool {
    pub name: ZpoolName,
    pub info: ZpoolInfo,
    pub parent: DiskIdentity,
}

impl Clone for Pool {
    fn clone(&self) -> (r: Self)
        ensures
            r == *self,
    {
        Pool { name: self.name, info: self.info, parent: self.parent.clone() }
    }
}

/// A disk that a sled knows of.
#[derive(Debug, PartialEq, Eq)]
pub enum ManagedDisk {
    /// A disk that the control plane uses.
    Managed { disk: Disk, pool: Pool },
    /// A disk that was seen. It is not to be written to until the control plane asks for it.
    Unmanaged(RawDisk),
}

impl Clone for ManagedDisk {
    fn clone(&self) -> (r: Self)
        ensures
            r == *self,
    {
        match self {
            ManagedDisk::Managed { disk, pool } => ManagedDisk::Managed {
                disk: disk.clone(),
                pool: pool.clone(),
            },
            ManagedDisk::Unmanaged(raw) => ManagedDisk::Unmanaged(raw.clone()),
        }
    }
}

impl ManagedDisk {
    /// The identity of the disk.
    pub open spec fn identity_of(self) -> DiskIdentity {
        match self {
            ManagedDisk::Managed { disk, .. } => disk.identity_of(),
            ManagedDisk::Unmanaged(raw) => raw.identity_of(),
        }
    }

    /// The form of the disk.
    pub open spec fn variant_of(self) -> DiskVariant {
        match self {
            ManagedDisk::Managed { disk, .. } => disk.variant_of(),
            ManagedDisk::Unmanaged(raw) => raw.variant_of(),
        }
    }

    /// The disk is synthetic.
    pub open spec fn synthetic(self) -> bool {
        match self {
            ManagedDisk::Managed { disk, .. } => disk is Synthetic,
            ManagedDisk::Unmanaged(raw) => raw is Synthetic,
        }
    }

    fn variant(&self) -> (v: DiskVariant)
        ensures
            v == self.variant_of(),
    {
        match self {
            ManagedDisk::Managed { disk, .. } => disk.variant(),
            ManagedDisk::Unmanaged(raw) => raw.variant(),
        }
    }

    fn is_synthetic(&self) -> (yes: bool)
        ensures
            yes == self.synthetic(),
    {
        match self {
            ManagedDisk::Managed { disk, .. } => disk.is_synthetic(),
            ManagedDisk::Unmanaged(raw) => raw.is_synthetic(),
        }
    }
}

/// Why a request about storage failed.
#[derive(Debug, Clone, Copy, PartialEq, Eq, Structural)]
pub enum StorageError {
    PhysicalDiskNotFound,
    PhysicalDiskConfigurationOutdated { requested: u64, current: u64 },
    KeyManagerNotReady,
    ZpoolNotFound { pool: ZpoolName },
    UuidMismatch { old: u128, new: u128 },
}

/// The disks that a sled knows of, by their identities.
#[derive(Debug, PartialEq, Eq)]
pub struct StorageResources {
    disks: OrdMap<DiskIdentity, ManagedDisk>,
}

impl View for StorageResources {
    type V = Map<DiskIdentityView, ManagedDisk>;

    closed spec fn view(&self) -> Map<DiskIdentityView, ManagedDisk> {
        self.disks@
    }
}

impl Clone for StorageResources {
    fn clone(&self) -> (r: Self)
        ensures
            r@ == self@,
    {
        let mut disks: OrdMap<DiskIdentity, ManagedDisk> = OrdMap::new();
        let n = self.disks.len();
        let ghost keys = self.disks.keys();
        let mut i: usize = 0;
        while i < n
            invariant
                i <= n,
                n == keys.len(),
                keys == self.disks.keys(),
                lists_keys::<DiskIdentity>(keys, self@.dom()),
                forall|id: DiskIdentityView| #[trigger]
                    disks@.contains_key(id) ==> self@.contains_key(id) && disks@[id] == self@[id],
                forall|k: int| 0 <= k < i ==> disks@.contains_key(#[trigger] keys[k]),
            decreases n - i,
        {
            let key = self.disks.key_at(i);
            let disk = self.disks.value_at(i);
            let ghost before = disks@;
            let key = key.clone();
            disks.insert(key, disk.clone());
            proof {
                assert forall|id: DiskIdentityView| #[trigger]
                    disks@.contains_key(id) implies self@.contains_key(id) && disks@[id]
                    == self@[id] by {
                    if id != keys[i as int] {
                        assert(before.contains_key(id));
                    }
                }
            }
            i = i + 1;
        }
        proof {
            assert forall|id: DiskIdentityView| self@.contains_key(id) implies disks@.contains_key(
                id,
            ) by {
                assert(keys.contains(id));
            }
            assert(disks@ =~= self@);
        }
        StorageResources { disks }
    }
}

/// Every disk is listed under its own identity.
pub open spec fn listed_by_identity(disks: Map<DiskIdentityView, ManagedDisk>) -> bool {
    forall|id: DiskIdentityView| #[trigger]
        disks.contains_key(id) ==> disks[id].identity_of()@ == id
}

/// The disks in the order of their identities.
pub open spec fn disks_in_order(disks: Map<DiskIdentityView, ManagedDisk>) -> Seq<ManagedDisk> {
    values::<DiskIdentity, ManagedDisk>(disks)
}

/// The zpools of the disks of a form that are in use.
pub open spec fn zpools_of(disks: Seq<ManagedDisk>, variant: DiskVariant) -> Seq<ZpoolName>
    decreases disks.len(),
{
    if disks.len() == 0 {
        Seq::empty()
    } else {
        let rest = zpools_of(disks.drop_last(), variant);
        match disks.last() {
            ManagedDisk::Managed { disk, .. } if disk.variant_of() == variant => rest.push(
                disk.zpool_of(),
            ),
            _ => rest,
        }
    }
}

/// The zpools of the disks that are in use, with the forms of the disks.
pub open spec fn zpools_with_variants(disks: Seq<ManagedDisk>) -> Seq<(ZpoolName, DiskVariant)>
    decreases disks.len(),
{
    if disks.len() == 0 {
        Seq::empty()
    } else {
        let rest = zpools_with_variants(disks.drop_last());
        match disks.last() {
            ManagedDisk::Managed { disk, .. } => rest.push((disk.zpool_of(), disk.variant_of())),
            _ => rest,
        }
    }
}

/// The disks that are in use.
pub open spec fn in_use(disks: Seq<ManagedDisk>) -> Seq<Disk>
    decreases disks.len(),
{
    if disks.len() == 0 {
        Seq::empty()
    } else {
        let rest = in_use(disks.drop_last());
        match disks.last() {
            ManagedDisk::Managed { disk, .. } => rest.push(disk),
            _ => rest,
        }
    }
}

/// The first disk that is in use and from which the system boots, at `from` or after.
pub open spec fn first_boot_disk(disks: Seq<ManagedDisk>, from: int) -> Option<Disk>
    decreases disks.len() - from,
{
    if from < 0 || from >= disks.len() {
        None
    } else {
        match disks[from] {
            ManagedDisk::Managed { disk, .. } if disk.boots() => Some(disk),
            _ => first_boot_disk(disks, from + 1),
        }
    }
}

/// The disk and the size and name of its zpool are what is stored.
pub open spec fn unchanged(stored: ManagedDisk, disk: Disk, pool: Pool) -> bool {
    match stored {
        ManagedDisk::Managed { disk: stored_disk, pool: stored_pool } => stored_disk.same_as(disk)
            && stored_pool.info.size == pool.info.size && stored_pool.name == pool.name,
        ManagedDisk::Unmanaged(_) => false,
    }
}

impl StorageResources {
    /// No disks.
    pub fn new() -> (r: Self)
        ensures
            r@ == Map::<DiskIdentityView, ManagedDisk>::empty(),
            listed_by_identity(r@),
    {
        StorageResources { disks: OrdMap::new() }
    }

    /// Lists all disks, in use or not, with their forms, in the order of their identities.
    pub fn all_disks(&self) -> (r: Vec<(DiskIdentity, DiskVariant)>)
        ensures
            r@.map_values(|e: (DiskIdentity, DiskVariant)| e.0@) == in_order::<DiskIdentity>(
                self@.dom(),
            ),
            lists_keys::<DiskIdentity>(in_order::<DiskIdentity>(self@.dom()), self@.dom()),
            forall|i: int|
                0 <= i < r@.len() ==> self@.contains_key((#[trigger] r@[i]).0@) && r@[i].1
                    == self@[r@[i].0@].variant_of(),
    {
        let mut r: Vec<(DiskIdentity, DiskVariant)> = Vec::new();
        let n = self.disks.len();
        let mut i: usize = 0;
        while i < n
            invariant
                i <= n == self.disks.keys().len(),
                r@.len() == i,
                forall|k: int|
                    0 <= k < i ==> (#[trigger] r@[k]).0@ == self.disks.keys()[k]
                        && self@.contains_key(r@[k].0@) && r@[k].1 == self@[r@[k].0@].variant_of(),
            decreases n - i,
        {
            r.push((self.disks.key_at(i).clone(), self.disks.value_at(i).variant()));
            i = i + 1;
        }
        assert(r@.map_values(|e: (DiskIdentity, DiskVariant)| e.0@) =~= self.disks.keys());
        r
    }

    /// Lists the disks that are in use, in the order of their identities.
    pub fn managed_disks(&self) -> (r: Vec<Disk>)
        ensures
            r@ == in_use(disks_in_order(self@)),
    {
        let mut r: Vec<Disk> = Vec::new();
        let n = self.disks.len();
        let ghost all = disks_in_order(self@);
        let mut i: usize = 0;
        while i < n
            invariant
                i <= n == self.disks.keys().len() == all.len(),
                forall|k: int| 0 <= k < n ==> #[trigger] all[k] == self@[self.disks.keys()[k]],
                r@ == in_use(all.take(i as int)),
            decreases n - i,
        {
            let entry = self.disks.value_at(i);
            proof {
                assert(all[i as int] == *entry);
                assert(all.take(i + 1).drop_last() =~= all.take(i as int));
                assert(all.take(i + 1).last() == *entry);
            }
            if let ManagedDisk::Managed { disk, .. } = entry {
                r.push(disk.clone());
            }
            i = i + 1;
        }
        assert(all.take(n as int) =~= all);
        r
    }

    /// Finds a disk.
    pub fn get_disk(&self, disk_identity: &DiskIdentity) -> (r: Result<&ManagedDisk, StorageError>)
        ensures
            match r {
                Ok(disk) => self@.contains_key(disk_identity@) && *disk == self@[disk_identity@],
                Err(e) => !self@.contains_key(disk_identity@) && e
                    == StorageError::PhysicalDiskNotFound,
            },
    {
        match self.disks.get(disk_identity) {
            Some(disk) => Ok(disk),
            None => Err(StorageError::PhysicalDiskNotFound),
        }
    }

    /// Adds a disk that was seen, unless a disk with its identity is known.
    pub fn insert_raw_disk(&mut self, disk: RawDisk) -> (r: AddDiskResult)
        ensures
            old(self)@.contains_key(disk.identity_of()@) ==> r == AddDiskResult::DiskAlreadyInserted
                && final(self)@ == old(self)@,
            !old(self)@.contains_key(disk.identity_of()@) ==> r == AddDiskResult::DiskInserted
                && final(self)@ == old(self)@.insert(
                disk.identity_of()@,
                ManagedDisk::Unmanaged(disk),
            ),
            listed_by_identity(old(self)@) ==> listed_by_identity(final(self)@),
    {
        let disk_id = disk.identity().clone();
        if self.disks.contains_key(&disk_id) {
            return AddDiskResult::DiskAlreadyInserted;
        }
        let _ = self.disks.insert(disk_id, ManagedDisk::Unmanaged(disk));
        AddDiskResult::DiskInserted
    }

    /// Adds a disk that is to be used, with its zpool, or replaces what was known of it.
    ///
    /// Nothing is changed where the same disk is in use, with a zpool of the same name and size.
    pub fn insert_managed_disk(&mut self, disk: Disk, pool: Pool) -> (r: AddDiskResult)
        ensures
            ({
                let id = disk.identity_of()@;
                let known = old(self)@.contains_key(id) && unchanged(old(self)@[id], disk, pool);
                &&& known ==> r == AddDiskResult::DiskAlreadyInserted && final(self)@ == old(self)@
                &&& !known ==> r == AddDiskResult::DiskInserted && final(self)@ == old(
                    self,
                )@.insert(id, ManagedDisk::Managed { disk, pool })
            }),
            listed_by_identity(old(self)@) ==> listed_by_identity(final(self)@),
    {
        let disk_id = disk.identity().clone();
        if let Some(entry) = self.disks.get(&disk_id) {
            if let ManagedDisk::Managed { disk: stored_disk, pool: stored_pool } = entry {
                if stored_disk.same(&disk) && stored_pool.info.size == pool.info.size
                    && stored_pool.name == pool.name {
                    return AddDiskResult::DiskAlreadyInserted;
                }
            }
        }
        let _ = self.disks.insert(disk_id, ManagedDisk::Managed { disk, pool });
        AddDiskResult::DiskInserted
    }

    /// Adds a disk for a test as one that is in use, unless a disk with its identity is known. Its
    /// zpool is made up, and says this of itself.
    pub fn insert_fake_disk(&mut self, disk: Disk, info: ZpoolInfo) -> (r: AddDiskResult)
        ensures
            ({
                let id = disk.identity_of()@;
                let pool = Pool { name: disk.zpool_of(), info, parent: disk.identity_of() };
                let known = old(self)@.contains_key(id);
                &&& known ==> r == AddDiskResult::DiskAlreadyInserted && final(self)@ == old(self)@
                &&& !known ==> r == AddDiskResult::DiskInserted && final(self)@ == old(
                    self,
                )@.insert(id, ManagedDisk::Managed { disk, pool })
            }),
            listed_by_identity(old(self)@) ==> listed_by_identity(final(self)@),
    {
        let disk_id = disk.identity().clone();
        let pool = Pool { name: *disk.zpool_name(), info, parent: disk_id.clone() };
        if self.disks.contains_key(&disk_id) {
            return AddDiskResult::DiskAlreadyInserted;
        }
        let _ = self.disks.insert(disk_id, ManagedDisk::Managed { disk, pool });
        AddDiskResult::DiskInserted
    }

    /// Removes a disk and its zpool, and says whether it did. A synthetic disk is never removed.
    pub fn remove_disk(&mut self, id: &DiskIdentity) -> (removed: bool)
        ensures
            removed == (old(self)@.contains_key(id@) && !old(self)@[id@].synthetic()),
            final(self)@ == (if removed {
                old(self)@.remove(id@)
            } else {
                old(self)@
            }),
            listed_by_identity(old(self)@) ==> listed_by_identity(final(self)@),
    {
        match self.disks.get(id) {
            None => {
                return false;
            },
            Some(entry) => {
                if entry.is_synthetic() {
                    return false;
                }
            },
        }
        let _ = self.disks.remove(id);
        true
    }

    /// The disk from which the system boots, with its zpool: the first of those that are in use. If
    /// there is none, it was not processed yet.
    pub fn boot_disk(&self) -> (r: Option<(DiskIdentity, ZpoolName)>)
        ensures
            match r {
                Some((id, pool)) => exists|disk: Disk|
                    first_boot_disk(disks_in_order(self@), 0) == Some(disk) && pool
                        == #[trigger] disk.zpool_of() && (listed_by_identity(self@) ==> id@
                        == disk.identity_of()@),
                None => first_boot_disk(disks_in_order(self@), 0) is None,
            },
    {
        let n = self.disks.len();
        let ghost all = disks_in_order(self@);
        let mut i: usize = 0;
        while i < n
            invariant
                i <= n == self.disks.keys().len() == all.len(),
                forall|k: int| 0 <= k < n ==> #[trigger] all[k] == self@[self.disks.keys()[k]],
                first_boot_disk(all, i as int) == first_boot_disk(all, 0),
                all == disks_in_order(self@),
            decreases n - i,
        {
            let entry = self.disks.value_at(i);
            assert(all[i as int] == *entry);
            if let ManagedDisk::Managed { disk, .. } = entry {
                if disk.is_boot_disk() {
                    let pool = *disk.zpool_name();
                    assert(pool == disk.zpool_of());
                    return Some((self.disks.key_at(i).clone(), pool));
                }
            }
            i = i + 1;
        }
        None
    }

    /// The zpools of the M.2 disks that are in use.
    pub fn all_m2_zpools(&self) -> (r: Vec<ZpoolName>)
        ensures
            r@ == zpools_of(disks_in_order(self@), DiskVariant::M2),
    {
        self.all_zpools(DiskVariant::M2)
    }

    /// The zpools of the U.2 disks that are in use.
    pub fn all_u2_zpools(&self) -> (r: Vec<ZpoolName>)
        ensures
            r@ == zpools_of(disks_in_order(self@), DiskVariant::U2),
    {
        self.all_zpools(DiskVariant::U2)
    }

    /// Where a dataset is mounted on each M.2 disk that is in use.
    pub fn all_m2_mountpoints(&self, dataset: &str) -> (r: Vec<String>)
        ensures
            r@.map_values(|s: String| s@) == zpools_of(
                disks_in_order(self@),
                DiskVariant::M2,
            ).map_values(|z: ZpoolName| z.mountpoint(dataset@)),
    {
        mountpoints(&self.all_m2_zpools(), dataset)
    }

    /// Where a dataset is mounted on each U.2 disk that is in use.
    pub fn all_u2_mountpoints(&self, dataset: &str) -> (r: Vec<String>)
        ensures
            r@.map_values(|s: String| s@) == zpools_of(
                disks_in_order(self@),
                DiskVariant::U2,
            ).map_values(|z: ZpoolName| z.mountpoint(dataset@)),
    {
        mountpoints(&self.all_u2_zpools(), dataset)
    }

    /// The zpools of all disks that are in use.
    pub fn get_all_zpools(&self) -> (r: Vec<(ZpoolName, DiskVariant)>)
        ensures
            r@ == zpools_with_variants(disks_in_order(self@)),
    {
        let mut r: Vec<(ZpoolName, DiskVariant)> = Vec::new();
        let n = self.disks.len();
        let ghost all = disks_in_order(self@);
        let mut i: usize = 0;
        while i < n
            invariant
                i <= n == self.disks.keys().len() == all.len(),
                forall|k: int| 0 <= k < n ==> #[trigger] all[k] == self@[self.disks.keys()[k]],
                r@ == zpools_with_variants(all.take(i as int)),
            decreases n - i,
        {
            let entry = self.disks.value_at(i);
            proof {
                assert(all[i as int] == *entry);
                assert(all.take(i + 1).drop_last() =~= all.take(i as int));
                assert(all.take(i + 1).last() == *entry);
            }
            if let ManagedDisk::Managed { disk, .. } = entry {
                r.push((*disk.zpool_name(), disk.variant()));
            }
            i = i + 1;
        }
        assert(all.take(n as int) =~= all);
        r
    }

    fn all_zpools(&self, variant: DiskVariant) -> (r: Vec<ZpoolName>)
        ensures
            r@ == zpools_of(disks_in_order(self@), variant),
    {
        let mut r: Vec<ZpoolName> = Vec::new();
        let n = self.disks.len();
        let ghost all = disks_in_order(self@);
        let mut i: usize = 0;
        while i < n
            invariant
                i <= n == self.disks.keys().len() == all.len(),
                forall|k: int| 0 <= k < n ==> #[trigger] all[k] == self@[self.disks.keys()[k]],
                r@ == zpools_of(all.take(i as int), variant),
            decreases n - i,
        {
            let entry = self.disks.value_at(i);
            proof {
                assert(all[i as int] == *entry);
                assert(all.take(i + 1).drop_last() =~= all.take(i as int));
                assert(all.take(i + 1).last() == *entry);
            }
            if let ManagedDisk::Managed { disk, .. } = entry {
                if disk.variant() == variant {
                    r.push(*disk.zpool_name());
                }
            }
            i = i + 1;
        }
        assert(all.take(n as int) =~= all);
        r
    }

    /// The directories for bundles of zones.
    pub fn all_zone_bundle_directories(&self) -> (r: Vec<String>)
        ensures
            r@.map_values(|s: String| s@) == zpools_of(
                disks_in_order(self@),
                DiskVariant::M2,
            ).map_values(
                |z: ZpoolName|
                    joined_path(joined_path(z.mountpoint("debug"@), "bundle"@), "zone"@),
            ),
    {
        let debug = self.all_m2_mountpoints("debug");
        let ghost pools = zpools_of(disks_in_order(self@), DiskVariant::M2);
        let ghost target = pools.map_values(
            |z: ZpoolName| joined_path(joined_path(z.mountpoint("debug"@), "bundle"@), "zone"@),
        );
        let mut r: Vec<String> = Vec::new();
        let mut i: usize = 0;
        assert(debug@.map_values(|s: String| s@).len() == debug@.len());
        while i < debug.len()
            invariant
                i <= debug@.len() == pools.len() == target.len(),
                debug@.map_values(|s: String| s@) == pools.map_values(
                    |z: ZpoolName| z.mountpoint("debug"@),
                ),
                target == pools.map_values(
                    |z: ZpoolName|
                        joined_path(joined_path(z.mountpoint("debug"@), "bundle"@), "zone"@),
                ),
                r@.len() == i,
                forall|k: int| 0 <= k < i ==> (#[trigger] r@[k])@ == target[k],
            decreases debug@.len() - i,
        {
            proof {
                assert(debug@.map_values(|s: String| s@)[i as int] == debug@[i as int]@);
            }
            let bundles = join_path(debug[i].as_str(), "bundle");
            r.push(join_path(bundles.as_str(), "zone"));
            i = i + 1;
        }
        assert(r@.map_values(|s: String| s@) =~= target);
        r
    }
}

fn mountpoints(pools: &Vec<ZpoolName>, dataset: &str) -> (r: Vec<String>)
    ensures
        r@.map_values(|s: String| s@) == pools@.map_values(
            |z: ZpoolName| z.mountpoint(dataset@),
        ),
{
    let mut r: Vec<String> = Vec::new();
    let mut i: usize = 0;
    while i < pools.len()
        invariant
            i <= pools@.len(),
            r@.len() == i,
            forall|k: int| 0 <= k < i ==> (#[trigger] r@[k])@ == pools@[k].mountpoint(dataset@),
        decreases pools@.len() - i,
    {
        r.push(pools[i].dataset_mountpoint(dataset));
        i = i + 1;
    }
    assert(r@.map_values(|s: String| s@) =~= pools@.map_values(
        |z: ZpoolName| z.mountpoint(dataset@),
    ));
    r
}

} // verus!
