//! Disks, real and synthetic.

use std::sync::Arc;

use vstd::prelude::*;

use crate::ids::{format_uuid, text_of_uuid, Uuid};
use crate::ordmap::Key;
use crate::storage::path::{file_name, file_name_of, join_path, joined_path};
use crate::text::{
    chars_of, has_prefix, joined, order_of, seq_lt_is_total, starts_with, str_eq, string_of,
    texts_lt, texts_lt_is_total, texts_lt_is_transitive, Order,
};

verus! {

/// What identifies a disk.
#[derive(Debug, PartialEq, Eq)]
pub struct DiskIdentity {
    pub vendor: String,
    pub serial: String,
    pub model: String,
}

/// What identifies a disk.
#[verifier::ext_equal]
pub ghost struct DiskIdentityView {
    pub vendor: Seq<char>,
    pub serial: Seq<char>,
    pub model: Seq<char>,
}

impl DiskIdentityView {
    /// The texts by which disks are ordered.
    pub open spec fn texts(self) -> Seq<Seq<char>> {
        seq![self.vendor, self.serial, self.model]
    }
}

impl View for DiskIdentity {
    type V = DiskIdentityView;

    open spec fn view(&self) -> DiskIdentityView {
        DiskIdentityView { vendor: self.vendor@, serial: self.serial@, model: self.model@ }
    }
}

impl Clone for DiskIdentity {
    fn clone(&self) -> (r: Self)
        ensures
            r == *self,
    {
        DiskIdentity {
            vendor: self.vendor.clone(),
            serial: self.serial.clone(),
            model: self.model.clone(),
        }
    }
}

impl Key for DiskIdentity {
    type Id = DiskIdentityView;

    open spec fn id(&self) -> DiskIdentityView {
        self@
    }

    open spec fn before(a: DiskIdentityView, b: DiskIdentityView) -> bool {
        texts_lt(a.texts(), b.texts())
    }

    proof fn order_is_total(a: DiskIdentityView, b: DiskIdentityView) {
        texts_lt_is_total(a.texts(), b.texts());
        if a != b && a.texts() == b.texts() {
            assert(a.texts()[0] == b.texts()[0]);
            assert(a.texts()[1] == b.texts()[1]);
            assert(a.texts()[2] == b.texts()[2]);
        }
    }

    proof fn order_is_transitive(a: DiskIdentityView, b: DiskIdentityView, c: DiskIdentityView) {
        texts_lt_is_transitive(a.texts(), b.texts(), c.texts());
    }

    fn order_against(&self, other: &DiskIdentity) -> (order: Order) {
        proof {
            let a = self@.texts();
            let b = other@.texts();
            reveal_with_fuel(texts_lt, 4);
            assert(a.drop_first() =~= seq![a[1], a[2]]);
            assert(b.drop_first() =~= seq![b[1], b[2]]);
            assert(a.drop_first().drop_first() =~= seq![a[2]]);
            assert(b.drop_first().drop_first() =~= seq![b[2]]);
            seq_lt_is_total(a[0], b[0]);
            seq_lt_is_total(a[1], b[1]);
            seq_lt_is_total(a[2], b[2]);
        }
        match order_of(self.vendor.as_str(), other.vendor.as_str()) {
            Order::Equal => match order_of(self.serial.as_str(), other.serial.as_str()) {
                Order::Equal => order_of(self.model.as_str(), other.model.as_str()),
                order => order,
            },
            order => order,
        }
    }
}

impl DiskIdentity {
    /// Whether two identities are the same.
    pub fn same(&self, other: &DiskIdentity) -> (yes: bool)
        ensures
            yes == (self@ == other@),
    {
        str_eq(self.vendor.as_str(), other.vendor.as_str()) && str_eq(
            self.serial.as_str(),
            other.serial.as_str(),
        ) && str_eq(self.model.as_str(), other.model.as_str())
    }
}

/// The form of a disk.
#[derive(Debug, Clone, Copy, PartialEq, Eq, Structural)]
pub enum DiskVariant {
    U2,
    M2,
}

impl DiskVariant {
    /// The name of the form.
    pub open spec fn text(self) -> Seq<char> {
        match self {
            DiskVariant::U2 => "U2"@,
            DiskVariant::M2 => "M2"@,
        }
    }

    fn name(self) -> (s: &'static str)
        ensures
            s@ == self.text(),
    {
        match self {
            DiskVariant::U2 => "U2",
            DiskVariant::M2 => "M2",
        }
    }
}

/// Whether a zpool is on a disk of the customer's data or on one of the system's.
#[derive(Debug, Clone, Copy, PartialEq, Eq, Structural)]
pub enum ZpoolKind {
    External,
    Internal,
}

/// The name of a zpool.
#[derive(Debug, Clone, Copy, PartialEq, Eq, Structural)]
pub struct ZpoolName {
    pub kind: ZpoolKind,
    pub id: Uuid,
}

impl ZpoolName {
    /// The name of a zpool on a U.2 disk.
    pub fn new_external(id: Uuid) -> (name: ZpoolName)
        ensures
            name == (ZpoolName { kind: ZpoolKind::External, id }),
    {
        ZpoolName { kind: ZpoolKind::External, id }
    }

    /// The name of a zpool on an M.2 disk.
    pub fn new_internal(id: Uuid) -> (name: ZpoolName)
        ensures
            name == (ZpoolName { kind: ZpoolKind::Internal, id }),
    {
        ZpoolName { kind: ZpoolKind::Internal, id }
    }

    /// The name as text.
    pub open spec fn text(self) -> Seq<char> {
        (match self.kind {
            ZpoolKind::External => "oxp_"@,
            ZpoolKind::Internal => "oxi_"@,
        }) + text_of_uuid(self.id)
    }

    /// The name as text.
    pub fn as_text(&self) -> (s: String)
        ensures
            s@ == self.text(),
    {
        let prefix = match self.kind {
            ZpoolKind::External => "oxp_",
            ZpoolKind::Internal => "oxi_",
        };
        joined(prefix, format_uuid(self.id).as_str())
    }

    /// Where a dataset of the zpool is mounted.
    pub open spec fn mountpoint(self, dataset: Seq<char>) -> Seq<char> {
        let pools = joined_path(
            "/pool"@,
            match self.kind {
                ZpoolKind::External => "ext"@,
                ZpoolKind::Internal => "int"@,
            },
        );
        joined_path(joined_path(pools, text_of_uuid(self.id)), dataset)
    }

    /// Where a dataset of the zpool is mounted.
    pub fn dataset_mountpoint(&self, dataset: &str) -> (path: String)
        ensures
            path@ == self.mountpoint(dataset@),
    {
        let pools = join_path(
            "/pool",
            match self.kind {
                ZpoolKind::External => "ext",
                ZpoolKind::Internal => "int",
            },
        );
        let pool = join_path(pools.as_str(), format_uuid(self.id).as_str());
        join_path(pool.as_str(), dataset)
    }
}

/// A disk that acts as one found by the hardware, and is backed by a file.
#[derive(Debug, PartialEq, Eq)]
pub struct RawSyntheticDisk {
    pub path: String,
    pub identity: DiskIdentity,
    pub variant: DiskVariant,
}

impl Clone for RawSyntheticDisk {
    fn clone(&self) -> (r: Self)
        ensures
            r == *self,
    {
        RawSyntheticDisk {
            path: self.path.clone(),
            identity: self.identity.clone(),
            variant: self.variant,
        }
    }
}

/// Why a file is no synthetic disk.
#[derive(Debug, PartialEq, Eq)]
pub enum SyntheticDiskError {
    MissingFileName,
    MissingSuffix,
    /// What stands before `.vdev` in the file's name does not say what the disk is.
    UnknownPrefix { file: String },
}

/// Why a file is no synthetic disk.
pub ghost enum SyntheticDiskErrorView {
    MissingFileName,
    MissingSuffix,
    UnknownPrefix { file: Seq<char> },
}

impl View for SyntheticDiskError {
    type V = SyntheticDiskErrorView;

    open spec fn view(&self) -> SyntheticDiskErrorView {
        match self {
            SyntheticDiskError::MissingFileName => SyntheticDiskErrorView::MissingFileName,
            SyntheticDiskError::MissingSuffix => SyntheticDiskErrorView::MissingSuffix,
            SyntheticDiskError::UnknownPrefix { file } => SyntheticDiskErrorView::UnknownPrefix {
                file: file@,
            },
        }
    }
}

impl SyntheticDiskError {
    /// What the error says.
    pub open spec fn text(self) -> Seq<char> {
        match self {
            SyntheticDiskError::MissingFileName => "Missing file name for synthetic disk"@,
            SyntheticDiskError::MissingSuffix => "Missing '.vdev' suffix for synthetic disk"@,
            SyntheticDiskError::UnknownPrefix { file } => "Unknown file prefix: "@ + file@
                + ". Try one of {m2_,u2_}"@,
        }
    }

    /// What the error says.
    pub fn message(&self) -> (s: String)
        ensures
            s@ == self.text(),
    {
        match self {
            SyntheticDiskError::MissingFileName => {
                "Missing file name for synthetic disk".to_owned()
            },
            SyntheticDiskError::MissingSuffix => {
                "Missing '.vdev' suffix for synthetic disk".to_owned()
            },
            SyntheticDiskError::UnknownPrefix { file } => {
                let mut s = joined("Unknown file prefix: ", file.as_str());
                s.append(". Try one of {m2_,u2_}");
                s
            },
        }
    }
}

/// `s` ends with `suffix`.
pub open spec fn has_suffix(s: Seq<char>, suffix: Seq<char>) -> bool {
    suffix.len() <= s.len() && s.skip(s.len() - suffix.len()) == suffix
}

/// What stands before `.vdev` in a file's name.
pub open spec fn stem(file: Seq<char>) -> Seq<char> {
    file.take(file.len() - ".vdev"@.len())
}

/// The form and the serial number that a file's name stands for.
pub open spec fn synthetic_disk(file: Option<Seq<char>>) -> Result<
    (DiskVariant, Seq<char>),
    SyntheticDiskErrorView,
> {
    match file {
        None => Err(SyntheticDiskErrorView::MissingFileName),
        Some(file) => if !has_suffix(file, ".vdev"@) {
            Err(SyntheticDiskErrorView::MissingSuffix)
        } else if has_prefix(stem(file), "m2_"@) {
            Ok((DiskVariant::M2, stem(file).skip("m2_"@.len() as int)))
        } else if has_prefix(stem(file), "u2_"@) {
            Ok((DiskVariant::U2, stem(file).skip("u2_"@.len() as int)))
        } else {
            Err(SyntheticDiskErrorView::UnknownPrefix { file: stem(file) })
        },
    }
}

/// The identity of a synthetic disk.
pub open spec fn synthetic_identity(variant: DiskVariant, serial: Seq<char>) -> DiskIdentityView {
    DiskIdentityView {
        vendor: "synthetic-vendor"@,
        serial: "synthetic-serial-"@ + serial,
        model: "synthetic-model-"@ + variant.text(),
    }
}

fn ends_with(chars: &Vec<char>, suffix: &Vec<char>) -> (yes: bool)
    ensures
        yes == has_suffix(chars@, suffix@),
{
    if suffix.len() > chars.len() {
        return false;
    }
    let start = chars.len() - suffix.len();
    let mut i: usize = 0;
    while i < suffix.len()
        invariant
            i <= suffix@.len() <= chars@.len() <= usize::MAX,
            start == chars@.len() - suffix@.len(),
            forall|k: int| 0 <= k < i ==> chars@[start + k] == suffix@[k],
        decreases suffix@.len() - i,
    {
        if chars[start + i] != suffix[i] {
            assert(chars@.skip(start as int)[i as int] != suffix@[i as int]);
            return false;
        }
        i = i + 1;
    }
    assert(chars@.skip(start as int) =~= suffix@);
    true
}

impl RawSyntheticDisk {
    /// The synthetic disk of a file at a path, by the file's name.
    pub fn from_file_name(path: &str, file: Option<&str>) -> (r: Result<
        RawSyntheticDisk,
        SyntheticDiskError,
    >)
        ensures
            ({
                let parsed = synthetic_disk(
                    match file {
                        Some(file) => Some(file@),
                        None => None,
                    },
                );
                match r {
                    Ok(disk) => parsed matches Ok((variant, serial)) && disk.path@ == path@
                        && disk.variant == variant && disk.identity@ == synthetic_identity(
                        variant,
                        serial,
                    ),
                    Err(e) => parsed == Err::<(DiskVariant, Seq<char>), SyntheticDiskErrorView>(e@),
                }
            }),
    {
        let file = match file {
            Some(file) => file,
            None => return Err(SyntheticDiskError::MissingFileName),
        };
        let chars = chars_of(file);
        let suffix = chars_of(".vdev");
        if !ends_with(&chars, &suffix) {
            return Err(SyntheticDiskError::MissingSuffix);
        }
        let end = chars.len() - suffix.len();
        let name = string_of(&chars, 0, end);
        assert(name@ =~= stem(file@));
        let prefix = chars_of("m2_");
        let (variant, start) = if starts_with(name.as_str(), "m2_") {
            (DiskVariant::M2, prefix.len())
        } else if starts_with(name.as_str(), "u2_") {
            proof {
                reveal_strlit("m2_");
                reveal_strlit("u2_");
            }
            (DiskVariant::U2, prefix.len())
        } else {
            return Err(SyntheticDiskError::UnknownPrefix { file: name });
        };
        let serial = string_of(&chars, start, end);
        assert(serial@ =~= stem(file@).skip(start as int));
        let identity = DiskIdentity {
            vendor: "synthetic-vendor".to_owned(),
            serial: joined("synthetic-serial-", serial.as_str()),
            model: joined("synthetic-model-", variant.name()),
        };
        Ok(RawSyntheticDisk { path: path.to_owned(), identity, variant })
    }

    /// The synthetic disk of the file at a path.
    pub fn new(vdev: &str) -> (r: Result<RawSyntheticDisk, SyntheticDiskError>)
        ensures
            ({
                let parsed = synthetic_disk(file_name_of(vdev@));
                match r {
                    Ok(disk) => parsed matches Ok((variant, serial)) && disk.path@ == vdev@
                        && disk.variant == variant && disk.identity@ == synthetic_identity(
                        variant,
                        serial,
                    ),
                    Err(e) => parsed == Err::<(DiskVariant, Seq<char>), SyntheticDiskErrorView>(e@),
                }
            }),
    {
        match file_name(vdev) {
            Some(name) => RawSyntheticDisk::from_file_name(vdev, Some(name.as_str())),
            None => RawSyntheticDisk::from_file_name(vdev, None),
        }
    }
}

/// A disk that the hardware found, and that nothing is known of yet.
#[derive(Debug, PartialEq, Eq)]
pub struct UnparsedDisk {
    pub devfs_path: String,
    pub dev_path: Option<String>,
    pub slot: i64,
    pub variant: DiskVariant,
    pub identity: DiskIdentity,
    pub is_boot_disk: bool,
}

impl Clone for UnparsedDisk {
    fn clone(&self) -> (r: Self)
        ensures
            r == *self,
    {
        UnparsedDisk {
            devfs_path: self.devfs_path.clone(),
            dev_path: match &self.dev_path {
                Some(p) => Some(p.clone()),
                None => None,
            },
            slot: self.slot,
            variant: self.variant,
            identity: self.identity.clone(),
            is_boot_disk: self.is_boot_disk,
        }
    }
}

/// A disk as it was found: by the hardware, or in a file.
#[derive(Debug, PartialEq, Eq)]
pub enum RawDisk {
    Real(UnparsedDisk),
    Synthetic(RawSyntheticDisk),
}

impl Clone for RawDisk {
    fn clone(&self) -> (r: Self)
        ensures
            r == *self,
    {
        match self {
            RawDisk::Real(disk) => RawDisk::Real(disk.clone()),
            RawDisk::Synthetic(disk) => RawDisk::Synthetic(disk.clone()),
        }
    }
}

impl RawDisk {
    /// The identity of the disk.
    pub open spec fn identity_of(self) -> DiskIdentity {
        match self {
            RawDisk::Real(disk) => disk.identity,
            RawDisk::Synthetic(disk) => disk.identity,
        }
    }

    /// The form of the disk.
    pub open spec fn variant_of(self) -> DiskVariant {
        match self {
            RawDisk::Real(disk) => disk.variant,
            RawDisk::Synthetic(disk) => disk.variant,
        }
    }

    /// The sled boots from this disk.
    pub open spec fn boots(self) -> bool {
        match self {
            RawDisk::Real(disk) => disk.is_boot_disk,
            RawDisk::Synthetic(disk) => disk.variant == DiskVariant::M2,
        }
    }

    /// Whether the system boots from the disk. Any synthetic M.2 counts as one that it boots from.
    pub fn is_boot_disk(&self) -> (yes: bool)
        ensures
            yes == (match *self {
                RawDisk::Real(disk) => disk.is_boot_disk,
                RawDisk::Synthetic(disk) => disk.variant == DiskVariant::M2,
            }),
            yes == self.boots(),
    {
        match self {
            RawDisk::Real(disk) => disk.is_boot_disk,
            RawDisk::Synthetic(disk) => disk.variant == DiskVariant::M2,
        }
    }

    /// The identity of the disk.
    pub fn identity(&self) -> (id: &DiskIdentity)
        ensures
            *id == self.identity_of(),
    {
        match self {
            RawDisk::Real(disk) => &disk.identity,
            RawDisk::Synthetic(disk) => &disk.identity,
        }
    }

    /// The form of the disk.
    pub fn variant(&self) -> (v: DiskVariant)
        ensures
            v == self.variant_of(),
    {
        match self {
            RawDisk::Real(disk) => disk.variant,
            RawDisk::Synthetic(disk) => disk.variant,
        }
    }

    /// Whether the disk is synthetic.
    pub fn is_synthetic(&self) -> (yes: bool)
        ensures
            yes == (self is Synthetic),
    {
        match self {
            RawDisk::Real(_) => false,
            RawDisk::Synthetic(_) => true,
        }
    }

    /// Whether the disk is real.
    pub fn is_real(&self) -> (yes: bool)
        ensures
            yes == (self is Real),
    {
        !self.is_synthetic()
    }

    /// The path of a real disk's device.
    pub fn devfs_path(&self) -> (path: &String)
        requires
            self is Real,
        ensures
            *path == self->Real_0.devfs_path,
    {
        match self {
            RawDisk::Real(disk) => &disk.devfs_path,
            RawDisk::Synthetic(disk) => &disk.path,
        }
    }
}

/// A part of a real disk.
#[derive(Debug, Clone, Copy, PartialEq, Eq, Structural)]
pub enum Partition {
    BootImage,
    Reserved,
    DumpDevice,
    ZfsPool,
}

/// A real disk with a zpool.
#[derive(Debug, PartialEq, Eq)]
pub struct PooledDisk {
    pub devfs_path: String,
    pub dev_path: Option<String>,
    pub slot: i64,
    pub variant: DiskVariant,
    pub identity: DiskIdentity,
    pub is_boot_disk: bool,
    /// How the disk is divided.
    pub partitions: Arc<Vec<Partition>>,
    pub zpool_name: ZpoolName,
}

impl Clone for PooledDisk {
    fn clone(&self) -> (r: Self)
        ensures
            r == *self,
    {
        PooledDisk {
            devfs_path: self.devfs_path.clone(),
            dev_path: match &self.dev_path {
                Some(p) => Some(p.clone()),
                None => None,
            },
            slot: self.slot,
            variant: self.variant,
            identity: self.identity.clone(),
            is_boot_disk: self.is_boot_disk,
            partitions: self.partitions.clone(),
            zpool_name: self.zpool_name,
        }
    }
}

/// A synthetic disk with a zpool.
#[derive(Debug, PartialEq, Eq)]
pub struct SyntheticDisk {
    pub raw: RawSyntheticDisk,
    pub zpool_name: ZpoolName,
}

impl Clone for SyntheticDisk {
    fn clone(&self) -> (r: Self)
        ensures
            r == *self,
    {
        SyntheticDisk { raw: self.raw.clone(), zpool_name: self.zpool_name }
    }
}

/// A disk with a zpool and datasets on it, ready to be used.
#[derive(Debug, PartialEq, Eq)]
pub enum Disk {
    Real(PooledDisk),
    Synthetic(SyntheticDisk),
}

impl Clone for Disk {
    fn clone(&self) -> (r: Self)
        ensures
            r == *self,
    {
        match self {
            Disk::Real(disk) => Disk::Real(disk.clone()),
            Disk::Synthetic(disk) => Disk::Synthetic(disk.clone()),
        }
    }
}

/// The two texts are the same, or both are missing.
pub open spec fn same_optional_text(a: Option<String>, b: Option<String>) -> bool {
    match (a, b) {
        (Some(x), Some(y)) => x@ == y@,
        (None, None) => true,
        _ => false,
    }
}

/// Whether two disks are divided alike.
fn same_partitions(a: &Vec<Partition>, b: &Vec<Partition>) -> (yes: bool)
    ensures
        yes == (a@ == b@),
{
    if a.len() != b.len() {
        return false;
    }
    let mut i: usize = 0;
    while i < a.len()
        invariant
            i <= a@.len() == b@.len(),
            forall|k: int| 0 <= k < i ==> a@[k] == b@[k],
        decreases a@.len() - i,
    {
        if a[i] != b[i] {
            return false;
        }
        i = i + 1;
    }
    assert(a@ =~= b@);
    true
}

/// A part of a disk whose device is to be found.
#[derive(Debug, PartialEq, Eq)]
pub struct PartitionLookup {
    /// The paths of the disk.
    pub devfs_path: String,
    pub dev_path: Option<String>,
    /// How the disk is divided.
    pub partitions: Arc<Vec<Partition>>,
    /// The part that is looked for.
    pub partition: Partition,
    /// Whether the raw device is meant.
    pub raw: bool,
}

/// What has to be done on the zpool of a disk before the disk is used.
#[derive(Debug, PartialEq, Eq)]
pub enum DiskStep {
    /// The datasets that each zpool has must exist.
    EnsureDatasets { zpool: ZpoolName, identity: DiskIdentity },
    /// The datasets must be encrypted.
    EnsureEncryption { zpool: ZpoolName },
}

impl Disk {
    /// A disk, with the zpool that was made on it. A real disk is divided into these parts.
    pub fn new(raw_disk: RawDisk, zpool_name: ZpoolName, partitions: Vec<Partition>) -> (disk: Disk)
        ensures
            raw_of(disk) == raw_disk,
            disk.zpool_of() == zpool_name,
            disk matches Disk::Real(disk) ==> disk.partitions@ == partitions@,
    {
        match raw_disk {
            RawDisk::Real(raw) => Disk::Real(
                PooledDisk {
                    devfs_path: raw.devfs_path,
                    dev_path: raw.dev_path,
                    slot: raw.slot,
                    variant: raw.variant,
                    identity: raw.identity,
                    is_boot_disk: raw.is_boot_disk,
                    partitions: Arc::new(partitions),
                    zpool_name,
                },
            ),
            RawDisk::Synthetic(raw) => Disk::Synthetic(SyntheticDisk { raw, zpool_name }),
        }
    }

    /// What has to be done on the zpool before the disk is used: only what is on a U.2 disk is
    /// encrypted.
    pub fn preparation(&self) -> (steps: Vec<DiskStep>)
        ensures
            steps@ == seq![
                DiskStep::EnsureDatasets { zpool: self.zpool_of(), identity: self.identity_of() },
            ] + (if self.variant_of() == DiskVariant::U2 {
                seq![DiskStep::EnsureEncryption { zpool: self.zpool_of() }]
            } else {
                Seq::empty()
            }),
    {
        let zpool = *self.zpool_name();
        let mut steps: Vec<DiskStep> = Vec::new();
        steps.push(DiskStep::EnsureDatasets { zpool, identity: self.identity().clone() });
        if self.variant() == DiskVariant::U2 {
            steps.push(DiskStep::EnsureEncryption { zpool });
        }
        steps
    }

    /// The identity of the disk.
    pub open spec fn identity_of(self) -> DiskIdentity {
        match self {
            Disk::Real(disk) => disk.identity,
            Disk::Synthetic(disk) => disk.raw.identity,
        }
    }

    /// The zpool of the disk.
    pub open spec fn zpool_of(self) -> ZpoolName {
        match self {
            Disk::Real(disk) => disk.zpool_name,
            Disk::Synthetic(disk) => disk.zpool_name,
        }
    }

    /// The form of the disk. That of a synthetic disk goes by its zpool.
    pub open spec fn variant_of(self) -> DiskVariant {
        match self {
            Disk::Real(disk) => disk.variant,
            Disk::Synthetic(disk) => match disk.zpool_name.kind {
                ZpoolKind::External => DiskVariant::U2,
                ZpoolKind::Internal => DiskVariant::M2,
            },
        }
    }

    /// The system boots from the disk. Any synthetic M.2 counts as one that it boots from.
    pub open spec fn boots(self) -> bool {
        match self {
            Disk::Real(disk) => disk.is_boot_disk,
            Disk::Synthetic(disk) => disk.raw.variant == DiskVariant::M2,
        }
    }

    /// The two disks are alike in everything.
    pub open spec fn same_as(self, other: Disk) -> bool {
        match (self, other) {
            (Disk::Real(a), Disk::Real(b)) => {
                &&& a.devfs_path@ == b.devfs_path@
                &&& same_optional_text(a.dev_path, b.dev_path)
                &&& a.slot == b.slot
                &&& a.variant == b.variant
                &&& a.identity@ == b.identity@
                &&& a.is_boot_disk == b.is_boot_disk
                &&& a.partitions@ == b.partitions@
                &&& a.zpool_name == b.zpool_name
            },
            (Disk::Synthetic(a), Disk::Synthetic(b)) => {
                &&& a.raw.path@ == b.raw.path@
                &&& a.raw.identity@ == b.raw.identity@
                &&& a.raw.variant == b.raw.variant
                &&& a.zpool_name == b.zpool_name
            },
            _ => false,
        }
    }

    /// Whether two disks are alike in everything.
    pub fn same(&self, other: &Disk) -> (yes: bool)
        ensures
            yes == self.same_as(*other),
    {
        match (self, other) {
            (Disk::Real(a), Disk::Real(b)) => {
                let dev_paths = match (&a.dev_path, &b.dev_path) {
                    (Some(x), Some(y)) => str_eq(x.as_str(), y.as_str()),
                    (None, None) => true,
                    _ => false,
                };
                dev_paths && str_eq(a.devfs_path.as_str(), b.devfs_path.as_str()) && a.slot
                    == b.slot && a.variant == b.variant && a.identity.same(&b.identity)
                    && a.is_boot_disk == b.is_boot_disk && same_partitions(
                    &a.partitions,
                    &b.partitions,
                ) && a.zpool_name == b.zpool_name
            },
            (Disk::Synthetic(a), Disk::Synthetic(b)) => {
                str_eq(a.raw.path.as_str(), b.raw.path.as_str()) && a.raw.identity.same(
                    &b.raw.identity,
                ) && a.raw.variant == b.raw.variant && a.zpool_name == b.zpool_name
            },
            _ => false,
        }
    }

    /// Whether the disk is synthetic.
    pub fn is_synthetic(&self) -> (yes: bool)
        ensures
            yes == (self is Synthetic),
    {
        match self {
            Disk::Real(_) => false,
            Disk::Synthetic(_) => true,
        }
    }

    /// Whether the disk is real.
    pub fn is_real(&self) -> (yes: bool)
        ensures
            yes == (self is Real),
    {
        !self.is_synthetic()
    }

    /// Whether the system boots from the disk.
    pub fn is_boot_disk(&self) -> (yes: bool)
        ensures
            yes == self.boots(),
    {
        match self {
            Disk::Real(disk) => disk.is_boot_disk,
            Disk::Synthetic(disk) => disk.raw.variant == DiskVariant::M2,
        }
    }

    /// The identity of the disk.
    pub fn identity(&self) -> (id: &DiskIdentity)
        ensures
            *id == self.identity_of(),
    {
        match self {
            Disk::Real(disk) => &disk.identity,
            Disk::Synthetic(disk) => &disk.raw.identity,
        }
    }

    /// The form of the disk.
    pub fn variant(&self) -> (v: DiskVariant)
        ensures
            v == self.variant_of(),
    {
        match self {
            Disk::Real(disk) => disk.variant,
            Disk::Synthetic(disk) => match disk.zpool_name.kind {
                ZpoolKind::External => DiskVariant::U2,
                ZpoolKind::Internal => DiskVariant::M2,
            },
        }
    }

    /// The path of a real disk's device.
    pub fn devfs_path(&self) -> (path: &String)
        requires
            self is Real,
        ensures
            *path == self->Real_0.devfs_path,
    {
        match self {
            Disk::Real(disk) => &disk.devfs_path,
            Disk::Synthetic(disk) => &disk.raw.path,
        }
    }

    /// The zpool of the disk.
    pub fn zpool_name(&self) -> (name: &ZpoolName)
        ensures
            *name == self.zpool_of(),
    {
        match self {
            Disk::Real(disk) => &disk.zpool_name,
            Disk::Synthetic(disk) => &disk.zpool_name,
        }
    }

    fn partition(&self, partition: Partition, raw: bool) -> (lookup: PartitionLookup)
        requires
            self is Real,
        ensures
            self matches Disk::Real(disk) && lookup == (PartitionLookup {
                devfs_path: disk.devfs_path,
                dev_path: disk.dev_path,
                partitions: disk.partitions,
                partition,
                raw,
            }),
    {
        match self {
            Disk::Real(disk) => PartitionLookup {
                devfs_path: disk.devfs_path.clone(),
                dev_path: match &disk.dev_path {
                    Some(p) => Some(p.clone()),
                    None => None,
                },
                partitions: disk.partitions.clone(),
                partition,
                raw,
            },
            Disk::Synthetic(disk) => PartitionLookup {
                devfs_path: disk.raw.path.clone(),
                dev_path: None,
                partitions: Arc::new(Vec::new()),
                partition,
                raw,
            },
        }
    }

    /// The part of a real disk that holds the boot image.
    pub fn boot_image_devfs_path(&self, raw: bool) -> (lookup: PartitionLookup)
        requires
            self is Real,
        ensures
            self matches Disk::Real(disk) && lookup == (PartitionLookup {
                devfs_path: disk.devfs_path,
                dev_path: disk.dev_path,
                partitions: disk.partitions,
                partition: Partition::BootImage,
                raw,
            }),
    {
        self.partition(Partition::BootImage, raw)
    }

    /// The part of a real disk that dumps are written to.
    pub fn dump_device_devfs_path(&self, raw: bool) -> (lookup: PartitionLookup)
        requires
            self is Real,
        ensures
            self matches Disk::Real(disk) && lookup == (PartitionLookup {
                devfs_path: disk.devfs_path,
                dev_path: disk.dev_path,
                partitions: disk.partitions,
                partition: Partition::DumpDevice,
                raw,
            }),
    {
        self.partition(Partition::DumpDevice, raw)
    }

    /// The slot of a real disk.
    pub fn slot(&self) -> (slot: i64)
        requires
            self is Real,
        ensures
            slot == self->Real_0.slot,
    {
        match self {
            Disk::Real(disk) => disk.slot,
            Disk::Synthetic(_) => 0,
        }
    }
}

/// The disk as it was found.
pub open spec fn raw_of(disk: Disk) -> RawDisk {
    match disk {
        Disk::Real(disk) => RawDisk::Real(
            UnparsedDisk {
                devfs_path: disk.devfs_path,
                dev_path: disk.dev_path,
                slot: disk.slot,
                variant: disk.variant,
                identity: disk.identity,
                is_boot_disk: disk.is_boot_disk,
            },
        ),
        Disk::Synthetic(disk) => RawDisk::Synthetic(disk.raw),
    }
}

impl vstd::std_specs::convert::FromSpecImpl<Disk> for RawDisk {
    open spec fn obeys_from_spec() -> bool {
        true
    }

    open spec fn from_spec(disk: Disk) -> RawDisk {
        raw_of(disk)
    }
}

impl From<Disk> for RawDisk {
    fn from(disk: Disk) -> (raw: RawDisk) {
        match disk {
            Disk::Real(disk) => RawDisk::Real(
                UnparsedDisk {
                    devfs_path: disk.devfs_path,
                    dev_path: disk.dev_path,
                    slot: disk.slot,
                    variant: disk.variant,
                    identity: disk.identity,
                    is_boot_disk: disk.is_boot_disk,
                },
            ),
            Disk::Synthetic(disk) => RawDisk::Synthetic(disk.raw),
        }
    }
}

/// Forgetting a disk's zpool keeps what the disk is.
pub proof fn raw_disk_is_the_same_disk(disk: Disk)
    ensures
        raw_of(disk).identity_of() == disk.identity_of(),
        raw_of(disk) is Synthetic <==> disk is Synthetic,
{
}

/// A disk that the control plane asks for.
#[derive(Debug, PartialEq, Eq)]
pub struct OmicronPhysicalDiskConfig {
    pub identity: DiskIdentity,
    pub id: Uuid,
    pub pool_id: Uuid,
}

/// The disks that the control plane asks for. The generation is the control plane's: a configuration
/// that is older than the present one is refused.
#[derive(Debug, PartialEq, Eq)]
pub struct OmicronPhysicalDisksConfig {
    pub generation: u64,
    pub disks: Vec<OmicronPhysicalDiskConfig>,
}

/// The two configurations ask for the same disks, in the same order.
pub open spec fn same_config(a: OmicronPhysicalDisksConfig, b: OmicronPhysicalDisksConfig) -> bool {
    &&& a.generation == b.generation
    &&& a.disks@.len() == b.disks@.len()
    &&& forall|i: int|
        #![trigger a.disks@[i]]
        #![trigger b.disks@[i]]
        0 <= i < a.disks@.len() ==> a.disks@[i].identity@ == b.disks@[i].identity@
            && a.disks@[i].id == b.disks@[i].id && a.disks@[i].pool_id == b.disks@[i].pool_id
}

impl OmicronPhysicalDisksConfig {
    /// The first configuration, which asks for no disk.
    pub fn new() -> (config: Self)
        ensures
            config.generation == 1,
            config.disks@.len() == 0,
    {
        OmicronPhysicalDisksConfig { generation: 1, disks: Vec::new() }
    }

    /// Whether the configuration is newer than another.
    pub fn is_newer_than(&self, other: &OmicronPhysicalDisksConfig) -> (yes: bool)
        ensures
            yes == (self.generation > other.generation),
    {
        self.generation > other.generation
    }

    /// Whether two configurations are the same.
    pub fn same(&self, other: &OmicronPhysicalDisksConfig) -> (yes: bool)
        ensures
            yes == same_config(*self, *other),
    {
        if self.generation != other.generation || self.disks.len() != other.disks.len() {
            return false;
        }
        let mut i: usize = 0;
        while i < self.disks.len()
            invariant
                i <= self.disks@.len() == other.disks@.len(),
                forall|k: int|
                    #![trigger self.disks@[k]]
                    #![trigger other.disks@[k]]
                    0 <= k < i ==> self.disks@[k].identity@ == other.disks@[k].identity@
                        && self.disks@[k].id == other.disks@[k].id && self.disks@[k].pool_id
                        == other.disks@[k].pool_id,
            decreases self.disks@.len() - i,
        {
            let a = &self.disks[i];
            let b = &other.disks[i];
            if !a.identity.same(&b.identity) || a.id != b.id || a.pool_id != b.pool_id {
                return false;
            }
            i = i + 1;
        }
        true
    }
}

} // verus!
