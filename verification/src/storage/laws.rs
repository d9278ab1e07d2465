//! What the storage of a sled promises: which zpools and disks are listed, how disks are told apart,
//! what their names and files stand for, and which disk is brought into use next.

use vstd::prelude::*;

use crate::ids::{text_of_uuid, Uuid};
use crate::ordmap::values_of_map;
use crate::storage::disk::{
    raw_of, same_config, stem, synthetic_disk, synthetic_identity, Disk, DiskIdentity, DiskIdentityView,
    DiskVariant, OmicronPhysicalDiskConfig, OmicronPhysicalDisksConfig, RawDisk, RawSyntheticDisk,
    SyntheticDiskErrorView, UnparsedDisk, ZpoolKind, ZpoolName,
};
use crate::storage::manager::{
    all_noted, dataset_id_decision, first_unused, m2_disks, next_disk, noted, on_disk_in_use,
    retained, DatasetIdAction, DatasetName, StorageManagerState, CAPACITY_LOG_THRESHOLD, QUEUE_SIZE,
};
use crate::storage::path::{file_name_of, joined_path, name_start};
use crate::storage::resources::{
    disks_in_order, first_boot_disk, in_use, unchanged, zpools_of, zpools_with_variants,
    ManagedDisk, Pool, StorageError,
};
use crate::storage::worker::MAX_BYTE_COUNT;
use crate::text::has_prefix;

verus! {

/// The disk is in use with this zpool, and has this form. That of a synthetic disk goes by its
/// zpool: one for the customer's data is on a U.2 disk.
pub open spec fn used_with(entry: ManagedDisk, zpool: ZpoolName, variant: DiskVariant) -> bool {
    match entry {
        ManagedDisk::Managed { disk: Disk::Real(disk), .. } => disk.zpool_name == zpool
            && disk.variant == variant,
        ManagedDisk::Managed { disk: Disk::Synthetic(disk), .. } => disk.zpool_name == zpool && (
        variant is U2 <==> zpool.kind is External),
        ManagedDisk::Unmanaged(_) => false,
    }
}

/// A zpool is among those of the U.2 disks if and only if a U.2 disk that is in use has it, and
/// among those of the M.2 disks if and only if an M.2 disk that is in use has it. The list of all
/// zpools has it with a form if and only if the list for that form has it.
pub proof fn zpools_are_those_of_the_disks_in_use(
    disks: Seq<ManagedDisk>,
    zpool: ZpoolName,
    variant: DiskVariant,
)
    ensures
        zpools_of(disks, variant).contains(zpool) <==> exists|i: int|
            0 <= i < disks.len() && used_with(#[trigger] disks[i], zpool, variant),
        zpools_with_variants(disks).contains((zpool, variant)) <==> exists|i: int|
            0 <= i < disks.len() && used_with(#[trigger] disks[i], zpool, variant),
    decreases disks.len(),
{
    if disks.len() > 0 {
        let rest = disks.drop_last();
        zpools_are_those_of_the_disks_in_use(rest, zpool, variant);
        assert(forall|i: int| 0 <= i < rest.len() ==> rest[i] == disks[i]);
        let last = disks[disks.len() - 1];
        let short = zpools_of(rest, variant);
        let all = zpools_of(disks, variant);
        let short_pairs = zpools_with_variants(rest);
        let all_pairs = zpools_with_variants(disks);
        if all.contains(zpool) {
            let i = choose|i: int| 0 <= i < all.len() && all[i] == zpool;
            if i < short.len() {
                assert(short[i] == zpool);
                let k = choose|k: int|
                    0 <= k < rest.len() && used_with(#[trigger] rest[k], zpool, variant);
                assert(used_with(disks[k], zpool, variant));
            } else {
                assert(used_with(last, zpool, variant));
            }
        }
        if all_pairs.contains((zpool, variant)) {
            let i = choose|i: int| 0 <= i < all_pairs.len() && all_pairs[i] == (zpool, variant);
            if i < short_pairs.len() {
                assert(short_pairs[i] == (zpool, variant));
                let k = choose|k: int|
                    0 <= k < rest.len() && used_with(#[trigger] rest[k], zpool, variant);
                assert(used_with(disks[k], zpool, variant));
            } else {
                assert(used_with(last, zpool, variant));
            }
        }
        if exists|i: int| 0 <= i < disks.len() && used_with(#[trigger] disks[i], zpool, variant) {
            let k = choose|k: int|
                0 <= k < disks.len() && used_with(#[trigger] disks[k], zpool, variant);
            if k < rest.len() {
                assert(used_with(rest[k], zpool, variant));
                let i = choose|i: int| 0 <= i < short.len() && short[i] == zpool;
                assert(all[i] == zpool);
                let j = choose|j: int|
                    0 <= j < short_pairs.len() && short_pairs[j] == (zpool, variant);
                assert(all_pairs[j] == (zpool, variant));
            } else {
                assert(all[all.len() - 1] == zpool);
                assert(all_pairs[all_pairs.len() - 1] == (zpool, variant));
            }
        }
    }
}

/// A sled lists a zpool for a form of disks if and only if it knows a disk of this form that is in
/// use and has the zpool, whatever the disk's identity.
pub proof fn zpools_are_those_of_the_known_disks(
    known: Map<DiskIdentityView, ManagedDisk>,
    zpool: ZpoolName,
    variant: DiskVariant,
)
    requires
        known.dom().finite(),
    ensures
        zpools_of(disks_in_order(known), variant).contains(zpool) <==> exists|id: DiskIdentityView|
            known.contains_key(id) && used_with(#[trigger] known[id], zpool, variant),
        zpools_with_variants(disks_in_order(known)).contains((zpool, variant)) <==> exists|
            id: DiskIdentityView,
        |
            known.contains_key(id) && used_with(#[trigger] known[id], zpool, variant),
{
    let disks = disks_in_order(known);
    values_of_map::<DiskIdentity, ManagedDisk>(known);
    zpools_are_those_of_the_disks_in_use(disks, zpool, variant);
    if exists|i: int| 0 <= i < disks.len() && used_with(#[trigger] disks[i], zpool, variant) {
        let i = choose|i: int|
            0 <= i < disks.len() && used_with(#[trigger] disks[i], zpool, variant);
        assert(known.contains_value(disks[i]));
        let id = choose|id: DiskIdentityView| known.contains_key(id) && known[id] == disks[i];
        assert(used_with(known[id], zpool, variant));
    }
    if exists|id: DiskIdentityView|
        known.contains_key(id) && used_with(#[trigger] known[id], zpool, variant) {
        let id = choose|id: DiskIdentityView|
            known.contains_key(id) && used_with(#[trigger] known[id], zpool, variant);
        let i = choose|i: int| 0 <= i < disks.len() && #[trigger] disks[i] == known[id];
        assert(used_with(disks[i], zpool, variant));
    }
}

/// The zpools of the U.2 disks and those of the M.2 disks are together as many as all zpools.
pub proof fn every_zpool_has_one_form(disks: Seq<ManagedDisk>)
    ensures
        zpools_of(disks, DiskVariant::U2).len() + zpools_of(disks, DiskVariant::M2).len()
            == zpools_with_variants(disks).len(),
        zpools_with_variants(disks).len() == in_use(disks).len(),
        in_use(disks).len() == disks.filter(|entry: ManagedDisk| entry is Managed).len(),
    decreases disks.len(),
{
    reveal(Seq::filter);
    if disks.len() > 0 {
        every_zpool_has_one_form(disks.drop_last());
    }
}

/// The disks that are in use are those that are managed, in the same order.
pub proof fn disks_in_use_are_the_managed_ones(disks: Seq<ManagedDisk>)
    ensures
        in_use(disks).map_values(|disk: Disk| Some(disk)) == disks.filter(
            |entry: ManagedDisk| entry is Managed,
        ).map_values(
            |entry: ManagedDisk|
                match entry {
                    ManagedDisk::Managed { disk, .. } => Some(disk),
                    ManagedDisk::Unmanaged(_) => None::<Disk>,
                },
        ),
    decreases disks.len(),
{
    reveal(Seq::filter);
    let managed = |entry: ManagedDisk| entry is Managed;
    let some = |disk: Disk| Some(disk);
    let disk_of = |entry: ManagedDisk|
        match entry {
            ManagedDisk::Managed { disk, .. } => Some(disk),
            ManagedDisk::Unmanaged(_) => None::<Disk>,
        };
    if disks.len() > 0 {
        let rest = disks.drop_last();
        disks_in_use_are_the_managed_ones(rest);
        if disks.last() is Managed {
            assert(disks.filter(managed) == rest.filter(managed).push(disks.last()));
            assert(disks.filter(managed).map_values(disk_of) =~= rest.filter(managed).map_values(
                disk_of,
            ).push(disk_of(disks.last())));
            let disk = disks.last()->disk;
            assert(in_use(disks).map_values(some) =~= in_use(rest).map_values(some).push(
                Some(disk),
            ));
        } else {
            assert(disks.filter(managed) == rest.filter(managed));
        }
    } else {
        assert(in_use(disks).map_values(some) =~= disks.filter(managed).map_values(disk_of));
    }
}

/// The zpools come in the order of the disks in use, one for each of them, and those of the disks of
/// one form come in the same order.
pub proof fn zpools_come_in_the_order_of_the_disks(disks: Seq<ManagedDisk>, variant: DiskVariant)
    ensures
        zpools_with_variants(disks) == in_use(disks).map_values(
            |disk: Disk| (disk.zpool_of(), disk.variant_of()),
        ),
        zpools_of(disks, variant) == zpools_with_variants(disks).filter(
            |z: (ZpoolName, DiskVariant)| z.1 == variant,
        ).map_values(|z: (ZpoolName, DiskVariant)| z.0),
    decreases disks.len(),
{
    reveal(Seq::filter);
    let pair = |disk: Disk| (disk.zpool_of(), disk.variant_of());
    let of_form = |z: (ZpoolName, DiskVariant)| z.1 == variant;
    let name = |z: (ZpoolName, DiskVariant)| z.0;
    let pairs = zpools_with_variants(disks);
    if disks.len() > 0 {
        let rest = disks.drop_last();
        zpools_come_in_the_order_of_the_disks(rest, variant);
        if let ManagedDisk::Managed { disk, .. } = disks.last() {
            assert(in_use(disks).map_values(pair) =~= in_use(rest).map_values(pair).push(
                pair(disk),
            ));
            assert(pairs.drop_last() =~= zpools_with_variants(rest));
            if disk.variant_of() == variant {
                assert(pairs.filter(of_form) == zpools_with_variants(rest).filter(of_form).push(
                    pairs.last(),
                ));
                assert(pairs.filter(of_form).map_values(name) =~= zpools_with_variants(rest).filter(
                    of_form,
                ).map_values(name).push(disk.zpool_of()));
            }
        }
    } else {
        assert(pairs =~= in_use(disks).map_values(pair));
        assert(zpools_of(disks, variant) =~= pairs.filter(of_form).map_values(name));
    }
}

/// The zpool of a dataset is at hand if and only if a disk that is in use has it.
pub proof fn datasets_need_a_disk_in_use(
    known: Map<DiskIdentityView, ManagedDisk>,
    pool: ZpoolName,
)
    requires
        known.dom().finite(),
    ensures
        on_disk_in_use(known, pool) <==> exists|id: DiskIdentityView|
            known.contains_key(id) && (match #[trigger] known[id] {
                ManagedDisk::Managed { disk: Disk::Real(disk), .. } => disk.zpool_name == pool,
                ManagedDisk::Managed { disk: Disk::Synthetic(disk), .. } => disk.zpool_name == pool,
                ManagedDisk::Unmanaged(_) => false,
            }),
{
    let disks = disks_in_order(known);
    values_of_map::<DiskIdentity, ManagedDisk>(known);
    if on_disk_in_use(known, pool) {
        let used = in_use(disks);
        let k = choose|k: int| 0 <= k < used.len() && (#[trigger] used[k]).zpool_of() == pool;
        let i = used_disk_is_known(disks, k);
        assert(known.contains_value(disks[i]));
        let id = choose|id: DiskIdentityView| known.contains_key(id) && known[id] == disks[i];
        assert(known[id] is Managed);
    }
    if exists|id: DiskIdentityView|
        known.contains_key(id) && (match #[trigger] known[id] {
            ManagedDisk::Managed { disk: Disk::Real(disk), .. } => disk.zpool_name == pool,
            ManagedDisk::Managed { disk: Disk::Synthetic(disk), .. } => disk.zpool_name == pool,
            ManagedDisk::Unmanaged(_) => false,
        }) {
        let id = choose|id: DiskIdentityView|
            known.contains_key(id) && (match #[trigger] known[id] {
                ManagedDisk::Managed { disk: Disk::Real(disk), .. } => disk.zpool_name == pool,
                ManagedDisk::Managed { disk: Disk::Synthetic(disk), .. } => disk.zpool_name == pool,
                ManagedDisk::Unmanaged(_) => false,
            });
        let i = choose|i: int| 0 <= i < disks.len() && #[trigger] disks[i] == known[id];
        let k = known_disk_is_used(disks, i);
        assert(in_use(disks)[k].zpool_of() == pool);
    }
}

proof fn used_disk_is_known(disks: Seq<ManagedDisk>, k: int) -> (i: int)
    requires
        0 <= k < in_use(disks).len(),
    ensures
        0 <= i < disks.len(),
        disks[i] matches ManagedDisk::Managed { disk, .. } && disk == in_use(disks)[k],
    decreases disks.len(),
{
    let rest = disks.drop_last();
    if k < in_use(rest).len() {
        let i = used_disk_is_known(rest, k);
        assert(rest[i] == disks[i]);
        i
    } else {
        disks.len() - 1
    }
}

proof fn known_disk_is_used(disks: Seq<ManagedDisk>, i: int) -> (k: int)
    requires
        0 <= i < disks.len(),
        disks[i] is Managed,
    ensures
        0 <= k < in_use(disks).len(),
        disks[i] matches ManagedDisk::Managed { disk, .. } && disk == in_use(disks)[k],
    decreases disks.len(),
{
    let rest = disks.drop_last();
    if i < rest.len() {
        known_disk_is_used(rest, i)
    } else {
        in_use(rest).len() as int
    }
}

/// The system boots from the disk: the hardware says so of a real disk, and a synthetic disk counts
/// as one if it is an M.2.
pub open spec fn used_to_boot(entry: ManagedDisk) -> bool {
    match entry {
        ManagedDisk::Managed { disk: Disk::Real(disk), .. } => disk.is_boot_disk,
        ManagedDisk::Managed { disk: Disk::Synthetic(disk), .. } => disk.raw.variant is M2,
        ManagedDisk::Unmanaged(_) => false,
    }
}

/// The boot disk is the first disk in use that the system boots from. There is none only where no
/// disk in use is one that it boots from.
pub proof fn boot_disk_is_the_first_that_boots(disks: Seq<ManagedDisk>, from: int)
    requires
        0 <= from,
    ensures
        match first_boot_disk(disks, from) {
            Some(found) => exists|i: int|
                from <= i < disks.len() && used_to_boot(#[trigger] disks[i]) && (
                disks[i] matches ManagedDisk::Managed { disk, .. } && disk == found) && forall|
                    j: int,
                |
                    from <= j < i ==> !used_to_boot(#[trigger] disks[j]),
            None => forall|i: int| from <= i < disks.len() ==> !used_to_boot(#[trigger] disks[i]),
        },
    decreases disks.len() - from,
{
    if from < disks.len() {
        boot_disk_is_the_first_that_boots(disks, from + 1);
        if used_to_boot(disks[from]) {
            assert(first_boot_disk(disks, from) == Some(disks[from]->disk));
        } else {
            assert(first_boot_disk(disks, from) == first_boot_disk(disks, from + 1));
            match first_boot_disk(disks, from + 1) {
                Some(found) => {
                    let i = choose|i: int|
                        from + 1 <= i < disks.len() && used_to_boot(#[trigger] disks[i]) && (
                        disks[i] matches ManagedDisk::Managed { disk, .. } && disk == found)
                            && forall|j: int|
                            from + 1 <= j < i ==> !used_to_boot(#[trigger] disks[j]);
                    assert(used_to_boot(disks[i]));
                    assert(forall|j: int| from <= j < i ==> !used_to_boot(#[trigger] disks[j]));
                },
                None => {},
            }
        }
    }
}

/// To use a disk again changes nothing if and only if it is in use, nothing about it changed, and
/// its zpool has the same name and size. What else the zpool says of itself does not matter.
pub proof fn only_a_change_is_taken_in(stored: ManagedDisk, disk: Disk, pool: Pool)
    ensures
        unchanged(stored, disk, pool) <==> (match (stored, disk) {
            (
                ManagedDisk::Managed { disk: Disk::Real(a), pool: known },
                Disk::Real(b),
            ) => known.info.size == pool.info.size && known.name == pool.name && a.zpool_name
                == b.zpool_name && a.slot == b.slot && a.variant == b.variant && a.is_boot_disk
                == b.is_boot_disk && a.identity.vendor@ == b.identity.vendor@
                && a.identity.serial@ == b.identity.serial@ && a.identity.model@
                == b.identity.model@ && a.devfs_path@ == b.devfs_path@ && a.partitions@
                == b.partitions@ && a.dev_path is Some == b.dev_path is Some && (a.dev_path is Some
                ==> a.dev_path->0@ == b.dev_path->0@),
            (
                ManagedDisk::Managed { disk: Disk::Synthetic(a), pool: known },
                Disk::Synthetic(b),
            ) => known.info.size == pool.info.size && known.name == pool.name && a.zpool_name
                == b.zpool_name && a.raw.variant == b.raw.variant && a.raw.path@ == b.raw.path@
                && a.raw.identity.vendor@ == b.raw.identity.vendor@ && a.raw.identity.serial@
                == b.raw.identity.serial@ && a.raw.identity.model@ == b.raw.identity.model@,
            _ => false,
        }),
        (ManagedDisk::Managed { disk, pool }) == stored ==> unchanged(stored, disk, pool),
{
}

/// A disk with a zpool is the disk that was found, with the same identity, and it boots if that
/// does.
pub proof fn disks_stay_what_was_found(disk: Disk)
    ensures
        raw_of(disk).identity_of() == disk.identity_of(),
        match (raw_of(disk), disk) {
            (RawDisk::Real(raw), Disk::Real(disk)) => raw.devfs_path == disk.devfs_path
                && raw.dev_path == disk.dev_path && raw.slot == disk.slot && raw.variant
                == disk.variant && raw.identity == disk.identity && raw.is_boot_disk
                == disk.is_boot_disk,
            (RawDisk::Synthetic(raw), Disk::Synthetic(disk)) => raw == disk.raw,
            _ => false,
        },
        match disk {
            Disk::Real(d) => disk.boots() == d.is_boot_disk && disk.variant_of() == d.variant
                && disk.zpool_of() == d.zpool_name && disk.identity_of() == d.identity,
            Disk::Synthetic(d) => disk.boots() == (d.raw.variant is M2) && disk.zpool_of()
                == d.zpool_name && disk.identity_of() == d.raw.identity && (disk.variant_of() is U2
                <==> d.zpool_name.kind is External),
        },
{
}

/// Whatever is known of a disk, in use or not, its identity and form are those of the disk itself.
pub proof fn known_disks_are_told_apart(entry: ManagedDisk)
    ensures
        match entry {
            ManagedDisk::Managed { disk: Disk::Real(d), .. } => entry.identity_of() == d.identity
                && entry.variant_of() == d.variant && !entry.synthetic(),
            ManagedDisk::Managed { disk: Disk::Synthetic(d), .. } => entry.identity_of()
                == d.raw.identity && (entry.variant_of() is U2 <==> d.zpool_name.kind is External)
                && entry.synthetic(),
            ManagedDisk::Unmanaged(RawDisk::Real(d)) => entry.identity_of() == d.identity
                && entry.variant_of() == d.variant && !entry.synthetic(),
            ManagedDisk::Unmanaged(RawDisk::Synthetic(d)) => entry.identity_of() == d.identity
                && entry.variant_of() == d.variant && entry.synthetic(),
        },
{
}

/// The name of a zpool says what the zpool is for, and ends with its id. Zpools for the customer's
/// data and for the system never have the same name.
pub proof fn zpool_names_say_what_they_are_for(id: Uuid, other: Uuid)
    ensures
        (ZpoolName { kind: ZpoolKind::External, id }).text() == "oxp_"@ + text_of_uuid(id),
        (ZpoolName { kind: ZpoolKind::Internal, id }).text() == "oxi_"@ + text_of_uuid(id),
        (ZpoolName { kind: ZpoolKind::External, id }).text() != (ZpoolName {
            kind: ZpoolKind::Internal,
            id: other,
        }).text(),
{
    reveal_strlit("oxp_");
    reveal_strlit("oxi_");
    let a = (ZpoolName { kind: ZpoolKind::External, id }).text();
    let b = (ZpoolName { kind: ZpoolKind::Internal, id: other }).text();
    assert(a[2] == 'p');
    assert(b[2] == 'i');
}

/// A dataset with a relative name is mounted below the zpool's own directory, which is below that of
/// its kind.
pub proof fn datasets_are_mounted_below_their_zpool(id: Uuid, dataset: Seq<char>)
    requires
        dataset.len() == 0 || dataset[0] != '/',
    ensures
        (ZpoolName { kind: ZpoolKind::External, id }).mountpoint(dataset) == "/pool/ext/"@
            + text_of_uuid(id) + "/"@ + dataset,
        (ZpoolName { kind: ZpoolKind::Internal, id }).mountpoint(dataset) == "/pool/int/"@
            + text_of_uuid(id) + "/"@ + dataset,
{
    reveal_strlit("/pool");
    reveal_strlit("ext");
    reveal_strlit("int");
    reveal_strlit("/pool/ext/");
    reveal_strlit("/pool/int/");
    reveal_strlit("/");
    let text = text_of_uuid(id);
    let ext = joined_path("/pool"@, "ext"@);
    let system = joined_path("/pool"@, "int"@);
    assert(text[0] != '/');
    assert(text[35] != '/');
    assert(ext.push('/') =~= "/pool/ext/"@);
    assert(system.push('/') =~= "/pool/int/"@);
    assert(joined_path(ext, text) =~= "/pool/ext/"@ + text);
    assert(joined_path(system, text) =~= "/pool/int/"@ + text);
    assert(joined_path(joined_path(ext, text), dataset) =~= "/pool/ext/"@ + text + "/"@ + dataset);
    assert(joined_path(joined_path(system, text), dataset) =~= "/pool/int/"@ + text + "/"@
        + dataset);
}

/// A path from the root is taken as it is. Any other path is put behind the base, with exactly one
/// slash between them where the base is not empty and does not end with one.
pub proof fn paths_are_put_behind_each_other(base: Seq<char>, part: Seq<char>)
    ensures
        joined_path(base, "/"@ + part) == "/"@ + part,
        part.len() == 0 || part[0] != '/' ==> joined_path(Seq::empty(), part) == part && joined_path(
            base + "/"@,
            part,
        ) == base + "/"@ + part && (base.len() > 0 && base.last() != '/' ==> joined_path(base, part)
            == base + "/"@ + part),
{
    reveal_strlit("/");
    assert(("/"@ + part)[0] == '/');
    assert((base + "/"@).last() == '/');
    assert(joined_path(Seq::empty(), part) =~= part || (part.len() > 0 && part[0] == '/'));
    assert(base.push('/') =~= base + "/"@);
}

/// The name of a file in a directory is found in its path, whatever the directory. Slashes and single
/// dots behind it count for nothing, and two dots are no name.
pub proof fn file_names_are_found(directory: Seq<char>, name: Seq<char>)
    requires
        name.len() > 0,
        forall|i: int| 0 <= i < name.len() ==> name[i] != '/',
        name != "."@,
        name != ".."@,
    ensures
        file_name_of(name) == Some(name),
        file_name_of(directory + "/"@ + name) == Some(name),
        file_name_of(directory + "/"@ + name + "/"@) == Some(name),
        file_name_of(directory + "/"@ + name + "/"@ + "."@) == Some(name),
        file_name_of(directory + "/"@ + ".."@) is None,
        file_name_of("/"@) is None,
{
    reveal_strlit("/");
    reveal_strlit(".");
    reveal_strlit("..");
    let root = directory + "/"@;
    let path = root + name;
    name_ends_the_path(Seq::empty(), name);
    assert(Seq::<char>::empty() + name =~= name);
    name_ends_the_path(root, name);
    let slashed = path + "/"@;
    assert(slashed.drop_last() =~= path);
    assert(slashed.last() == '/');
    name_ends_the_path(slashed, "."@);
    name_ends_the_path(root, ".."@);
    assert("/"@.drop_last() =~= Seq::empty());
    assert("/"@.last() == '/');
    assert(file_name_of(Seq::empty()) is None);
}

proof fn name_ends_the_path(root: Seq<char>, name: Seq<char>)
    requires
        root.len() == 0 || root.last() == '/',
        name.len() > 0,
        forall|i: int| 0 <= i < name.len() ==> name[i] != '/',
    ensures
        file_name_of(root + name) == (if name == "."@ {
            file_name_of(root)
        } else if name == ".."@ {
            None
        } else {
            Some(name)
        }),
{
    let path = root + name;
    name_follows_the_slash(root, name);
    assert(path.skip(root.len() as int) =~= name);
    assert(path.take(root.len() as int) =~= root);
    assert(path.last() == name.last());
}

proof fn name_follows_the_slash(root: Seq<char>, name: Seq<char>)
    requires
        root.len() == 0 || root.last() == '/',
        forall|i: int| 0 <= i < name.len() ==> name[i] != '/',
    ensures
        name_start(root + name) == root.len(),
    decreases name.len(),
{
    let path = root + name;
    if name.len() > 0 {
        name_follows_the_slash(root, name.drop_last());
        assert(path.drop_last() =~= root + name.drop_last());
        assert(path.last() == name.last());
    } else {
        assert(path =~= root);
    }
}

/// A file whose name is that of a form, a serial number and `.vdev` stands for a synthetic disk of
/// this form with this serial number, whatever the serial number is.
pub proof fn files_stand_for_synthetic_disks(serial: Seq<char>)
    ensures
        synthetic_disk(Some("m2_"@ + serial + ".vdev"@)) == Ok::<
            (DiskVariant, Seq<char>),
            SyntheticDiskErrorView,
        >((DiskVariant::M2, serial)),
        synthetic_disk(Some("u2_"@ + serial + ".vdev"@)) == Ok::<
            (DiskVariant, Seq<char>),
            SyntheticDiskErrorView,
        >((DiskVariant::U2, serial)),
{
    reveal_strlit("m2_");
    reveal_strlit("u2_");
    reveal_strlit(".vdev");
    let m2 = "m2_"@ + serial + ".vdev"@;
    let u2 = "u2_"@ + serial + ".vdev"@;
    assert(m2.skip(m2.len() - 5) =~= ".vdev"@);
    assert(u2.skip(u2.len() - 5) =~= ".vdev"@);
    assert(m2.take(m2.len() - 5) =~= "m2_"@ + serial);
    assert(u2.take(u2.len() - 5) =~= "u2_"@ + serial);
    assert(("m2_"@ + serial).take(3) =~= "m2_"@);
    assert(("u2_"@ + serial).take(3) =~= "u2_"@);
    assert(("u2_"@ + serial)[0] == 'u');
    assert("m2_"@[0] == 'm');
    assert(("m2_"@ + serial).skip(3) =~= serial);
    assert(("u2_"@ + serial).skip(3) =~= serial);
}

/// No other file stands for a synthetic disk, and what is wrong with it is told: it has no name, its
/// name does not end with `.vdev`, or what comes before that names no form.
pub proof fn other_files_are_refused(file: Seq<char>)
    ensures
        synthetic_disk(None) == Err::<(DiskVariant, Seq<char>), SyntheticDiskErrorView>(
            SyntheticDiskErrorView::MissingFileName,
        ),
        match synthetic_disk(Some(file)) {
            Ok((DiskVariant::M2, serial)) => file == "m2_"@ + serial + ".vdev"@,
            Ok((DiskVariant::U2, serial)) => file == "u2_"@ + serial + ".vdev"@,
            Err(SyntheticDiskErrorView::MissingFileName) => false,
            Err(SyntheticDiskErrorView::MissingSuffix) => forall|before: Seq<char>|
                file != #[trigger] (before + ".vdev"@),
            Err(SyntheticDiskErrorView::UnknownPrefix { file: before }) => file == before
                + ".vdev"@ && forall|serial: Seq<char>|
                before != #[trigger] ("m2_"@ + serial) && before != "u2_"@ + serial,
        },
{
    reveal_strlit("m2_");
    reveal_strlit("u2_");
    reveal_strlit(".vdev");
    let n = file.len() - 5;
    if n >= 0 && file.skip(n) == ".vdev"@ {
        let before = file.take(n);
        assert(file =~= before + ".vdev"@);
        assert(stem(file) == before);
        if has_prefix(before, "m2_"@) {
            assert(before =~= "m2_"@ + before.skip(3));
        } else if has_prefix(before, "u2_"@) {
            assert(before =~= "u2_"@ + before.skip(3));
        } else {
            assert forall|serial: Seq<char>|
                before != #[trigger] ("m2_"@ + serial) && before != "u2_"@ + serial by {
                assert(has_prefix("m2_"@ + serial, "m2_"@)) by {
                    assert(("m2_"@ + serial).take(3) =~= "m2_"@);
                }
                assert(has_prefix("u2_"@ + serial, "u2_"@)) by {
                    assert(("u2_"@ + serial).take(3) =~= "u2_"@);
                }
            }
        }
    } else {
        assert forall|before: Seq<char>| file != #[trigger] (before + ".vdev"@) by {
            let whole = before + ".vdev"@;
            assert(whole.skip(whole.len() - 5) =~= ".vdev"@);
        }
    }
}

/// Synthetic disks of different forms or with different serial numbers have different identities.
pub proof fn synthetic_disks_are_told_apart(
    variant: DiskVariant,
    serial: Seq<char>,
    other_variant: DiskVariant,
    other_serial: Seq<char>,
)
    requires
        variant != other_variant || serial != other_serial,
    ensures
        synthetic_identity(variant, serial) != synthetic_identity(other_variant, other_serial),
        synthetic_identity(DiskVariant::M2, serial) == (DiskIdentityView {
            vendor: "synthetic-vendor"@,
            serial: "synthetic-serial-"@ + serial,
            model: "synthetic-model-"@ + "M2"@,
        }),
        synthetic_identity(DiskVariant::U2, serial) == (DiskIdentityView {
            vendor: "synthetic-vendor"@,
            serial: "synthetic-serial-"@ + serial,
            model: "synthetic-model-"@ + "U2"@,
        }),
{
    reveal_strlit("M2");
    reveal_strlit("U2");
    let p = "synthetic-serial-"@;
    let q = "synthetic-model-"@;
    let n = p.len() as int;
    let m = q.len() as int;
    assert((p + serial).skip(n) =~= serial);
    assert((p + other_serial).skip(n) =~= other_serial);
    assert((q + variant.text()).skip(m) =~= variant.text());
    assert((q + other_variant.text()).skip(m) =~= other_variant.text());
    assert("M2"@[0] == 'M');
    assert("U2"@[0] == 'U');
}

/// The hardware has a disk with this identity.
pub open spec fn has_identity(disk: RawDisk, id: DiskIdentityView) -> bool {
    match disk {
        RawDisk::Real(disk) => disk.identity@ == id,
        RawDisk::Synthetic(disk) => disk.identity@ == id,
    }
}

/// A disk that is known stays known if and only if the hardware still has it or it is synthetic, and
/// nothing about it changes. None becomes known.
pub proof fn lost_disks_are_forgotten(
    known: Map<DiskIdentityView, ManagedDisk>,
    disks: Seq<RawDisk>,
    id: DiskIdentityView,
)
    ensures
        retained(known, disks).contains_key(id) <==> known.contains_key(id) && ((exists|i: int|
            0 <= i < disks.len() && has_identity(#[trigger] disks[i], id)) || known[id] matches
            ManagedDisk::Managed { disk: Disk::Synthetic(_), .. } || known[id] matches
            ManagedDisk::Unmanaged(RawDisk::Synthetic(_))),
        retained(known, disks).contains_key(id) ==> retained(known, disks)[id] == known[id],
{
    if exists|i: int| 0 <= i < disks.len() && has_identity(#[trigger] disks[i], id) {
        let i = choose|i: int| 0 <= i < disks.len() && has_identity(#[trigger] disks[i], id);
        assert(disks[i].identity_of()@ == id);
    }
    if exists|i: int| 0 <= i < disks.len() && (#[trigger] disks[i]).identity_of()@ == id {
        let i = choose|i: int| 0 <= i < disks.len() && (#[trigger] disks[i]).identity_of()@ == id;
        assert(has_identity(disks[i], id));
    }
}

/// A disk that becomes known is the first U.2 disk with its identity that the hardware has, and it
/// is not in use. M.2 disks do not become known this way.
pub proof fn new_disks_are_not_in_use(
    known: Map<DiskIdentityView, ManagedDisk>,
    disks: Seq<RawDisk>,
    id: DiskIdentityView,
)
    requires
        !known.contains_key(id),
        all_noted(known, disks).contains_key(id),
    ensures
        exists|i: int|
            0 <= i < disks.len() && has_identity(#[trigger] disks[i], id) && disks[i].variant_of()
                is U2 && all_noted(known, disks)[id] == ManagedDisk::Unmanaged(disks[i]) && forall|
                j: int,
            |
                0 <= j < i && has_identity(#[trigger] disks[j], id) ==> disks[j].variant_of() is M2,
    decreases disks.len(),
{
    let rest = disks.drop_last();
    let before = all_noted(known, rest);
    assert(forall|i: int| 0 <= i < rest.len() ==> rest[i] == disks[i]);
    if before.contains_key(id) {
        new_disks_are_not_in_use(known, rest, id);
        let i = choose|i: int|
            0 <= i < rest.len() && has_identity(#[trigger] rest[i], id) && rest[i].variant_of()
                is U2 && before[id] == ManagedDisk::Unmanaged(rest[i]) && forall|j: int|
                0 <= j < i && has_identity(#[trigger] rest[j], id) ==> rest[j].variant_of() is M2;
        assert(has_identity(disks[i], id));
        assert forall|j: int| 0 <= j < i && has_identity(#[trigger] disks[j], id) implies disks[j].variant_of() is M2 by {
            assert(rest[j] == disks[j]);
        }
    } else {
        let n = disks.len() - 1;
        assert(has_identity(disks[n], id));
        assert forall|j: int| 0 <= j < n && has_identity(#[trigger] disks[j], id) implies disks[j].variant_of() is M2 by {
            assert(rest[j] == disks[j]);
            unknown_disks_are_m2(known, rest, id, j);
        }
    }
}

proof fn unknown_disks_are_m2(
    known: Map<DiskIdentityView, ManagedDisk>,
    disks: Seq<RawDisk>,
    id: DiskIdentityView,
    j: int,
)
    requires
        !all_noted(known, disks).contains_key(id),
        0 <= j < disks.len(),
        has_identity(disks[j], id),
    ensures
        disks[j].variant_of() is M2,
    decreases disks.len(),
{
    let rest = disks.drop_last();
    if j < rest.len() {
        assert(rest[j] == disks[j]);
        unknown_disks_are_m2(known, rest, id, j);
    }
}

/// A U.2 disk that the hardware finds becomes known, and is not in use, unless it was known. An M.2
/// disk that it finds changes nothing.
pub proof fn a_found_disk_is_noted(known: Map<DiskIdentityView, ManagedDisk>, disk: RawDisk)
    ensures
        match disk {
            RawDisk::Real(d) => match d.variant {
                DiskVariant::M2 => noted(known, disk) == known,
                DiskVariant::U2 => noted(known, disk) == (if known.contains_key(d.identity@) {
                    known
                } else {
                    known.insert(d.identity@, ManagedDisk::Unmanaged(disk))
                }),
            },
            RawDisk::Synthetic(d) => match d.variant {
                DiskVariant::M2 => noted(known, disk) == known,
                DiskVariant::U2 => noted(known, disk) == (if known.contains_key(d.identity@) {
                    known
                } else {
                    known.insert(d.identity@, ManagedDisk::Unmanaged(disk))
                }),
            },
        },
{
}

/// The disks that have to be formatted first are the M.2 disks that the hardware has.
pub proof fn m2_disks_are_formatted(disks: Seq<RawDisk>, disk: RawDisk)
    ensures
        m2_disks(disks).contains(disk) <==> disks.contains(disk) && (match disk {
            RawDisk::Real(d) => d.variant is M2,
            RawDisk::Synthetic(d) => d.variant is M2,
        }),
    decreases disks.len(),
{
    reveal(Seq::filter);
    if disks.len() > 0 {
        let rest = disks.drop_last();
        m2_disks_are_formatted(rest, disk);
        let all = m2_disks(disks);
        let short = m2_disks(rest);
        if disks.last() == disk {
            assert(disks[disks.len() - 1] == disk);
            if disk.variant_of() is M2 {
                assert(all == short.push(disk));
                assert(all[all.len() - 1] == disk);
            }
        }
        if rest.contains(disk) {
            let i = choose|i: int| 0 <= i < rest.len() && rest[i] == disk;
            assert(disks[i] == disk);
        }
        if disks.contains(disk) && disks.last() != disk {
            let i = choose|i: int| 0 <= i < disks.len() && disks[i] == disk;
            assert(rest[i] == disk);
        }
        if short.contains(disk) {
            let i = choose|i: int| 0 <= i < short.len() && short[i] == disk;
            assert(all[i] == disk);
        }
        if all.contains(disk) && disks.last() != disk {
            let i = choose|i: int| 0 <= i < all.len() && all[i] == disk;
            assert(i < short.len() && short[i] == disk);
        }
    }
}

/// All disks of a configuration up to this place are in use.
pub open spec fn used_up_to(
    known: Map<DiskIdentityView, ManagedDisk>,
    config: OmicronPhysicalDisksConfig,
    from: int,
    to: int,
) -> bool {
    forall|i: int|
        from <= i < to ==> known.contains_key((#[trigger] config.disks@[i]).identity@)
            && known[config.disks@[i].identity@] is Managed
}

/// While keys can be had, the disk that is brought into use next is the first of the configuration
/// that is not in use. Where that disk is not known, the request fails for that. Nothing is left to
/// be done if and only if all disks are in use.
pub proof fn the_first_unused_disk_is_next(
    known: Map<DiskIdentityView, ManagedDisk>,
    config: OmicronPhysicalDisksConfig,
    from: int,
)
    requires
        0 <= from <= config.disks@.len(),
    ensures
        match next_disk(StorageManagerState::Normal, known, config, from) {
            Ok(None) => used_up_to(known, config, from, config.disks@.len() as int),
            Ok(Some(k)) => from <= k < config.disks@.len() && used_up_to(
                known,
                config,
                from,
                k as int,
            ) && known.contains_key(config.disks@[k as int].identity@)
                && known[config.disks@[k as int].identity@] is Unmanaged,
            Err(StorageError::PhysicalDiskNotFound) => exists|k: int|
                from <= k < config.disks@.len() && #[trigger] used_up_to(known, config, from, k)
                    && !known.contains_key(config.disks@[k].identity@),
            Err(_) => false,
        },
    decreases config.disks@.len() - from,
{
    if from < config.disks@.len() {
        assert(config.disks@.len() == config.disks.len());
        the_first_unused_disk_is_next(known, config, from + 1);
        let id = config.disks@[from].identity@;
        if !known.contains_key(id) {
            assert(used_up_to(known, config, from, from));
        } else if known[id] is Managed {
            match first_unused(known, config, from + 1) {
                Err(StorageError::PhysicalDiskNotFound) => {
                    let k = choose|k: int|
                        from + 1 <= k < config.disks@.len() && #[trigger] used_up_to(
                            known,
                            config,
                            from + 1,
                            k,
                        ) && !known.contains_key(config.disks@[k].identity@);
                    assert(used_up_to(known, config, from, k));
                },
                _ => {},
            }
        }
    }
}

/// While no keys can be had, no disk is brought into use.
pub proof fn no_disk_is_used_without_keys(
    state: StorageManagerState,
    known: Map<DiskIdentityView, ManagedDisk>,
    config: OmicronPhysicalDisksConfig,
    from: int,
)
    ensures
        state is WaitingForKeyManager || state is QueueingDisks ==> next_disk(
            state,
            known,
            config,
            from,
        ) == Err::<Option<usize>, StorageError>(StorageError::KeyManagerNotReady),
{
}

/// A dataset keeps the id that it has where that is the one that is wanted, and gets the wanted one
/// where it has none. Where it has another, nothing is done, and both are told.
pub proof fn datasets_keep_their_ids(id: Uuid, wanted: Uuid)
    ensures
        dataset_id_decision(None, wanted) == Ok::<DatasetIdAction, StorageError>(
            DatasetIdAction::Assign { id: wanted },
        ),
        dataset_id_decision(Some(wanted), wanted) == Ok::<DatasetIdAction, StorageError>(
            DatasetIdAction::Keep,
        ),
        id != wanted ==> dataset_id_decision(Some(id), wanted) == Err::<
            DatasetIdAction,
            StorageError,
        >(StorageError::UuidMismatch { old: id, new: wanted }),
{
}

/// Two configurations are the same if and only if neither the generation differs nor any disk, by
/// its identity, its id or the id of its zpool.
pub proof fn configurations_are_the_same_by_their_disks(
    a: OmicronPhysicalDisksConfig,
    b: OmicronPhysicalDisksConfig,
)
    ensures
        same_config(a, b) <==> a.generation == b.generation && a.disks@.map_values(
            |d: OmicronPhysicalDiskConfig| (d.identity@, d.id, d.pool_id),
        ) == b.disks@.map_values(|d: OmicronPhysicalDiskConfig| (d.identity@, d.id, d.pool_id)),
{
    let key = |d: OmicronPhysicalDiskConfig| (d.identity@, d.id, d.pool_id);
    let x = a.disks@.map_values(key);
    let y = b.disks@.map_values(key);
    if same_config(a, b) {
        assert forall|i: int| 0 <= i < x.len() implies x[i] == y[i] by {
            assert(a.disks@[i].identity@ == b.disks@[i].identity@);
        }
        assert(x =~= y);
    }
    if a.generation == b.generation && x == y {
        assert(a.disks@.len() == x.len() && b.disks@.len() == y.len());
        assert forall|i: int|
            #![trigger a.disks@[i]]
            #![trigger b.disks@[i]]
            0 <= i < a.disks@.len() implies a.disks@[i].identity@ == b.disks@[i].identity@
            && a.disks@[i].id == b.disks@[i].id && a.disks@[i].pool_id == b.disks@[i].pool_id by {
            assert(x[i] == y[i]);
        }
    }
}

/// A dataset is named below its zpool.
pub proof fn datasets_are_named_below_their_zpool(name: DatasetName)
    ensures
        name.text() == name.pool_name.text() + "/"@ + name.dataset@,
{
}

/// The numbers that bound what the manager does: 256 requests can wait, a change of their room by 10
/// is worth telling, and a zpool has a size that a signed number of 64 bits can hold.
pub proof fn storage_is_bounded()
    ensures
        QUEUE_SIZE == 256,
        CAPACITY_LOG_THRESHOLD == 10,
        MAX_BYTE_COUNT == i64::MAX,
{
}

/// A disk of the hardware boots if and only if the hardware says so, and one that stands for such a
/// disk if and only if it is an M.2.
pub proof fn disks_that_boot_are_known(found: UnparsedDisk, synthetic: RawSyntheticDisk)
    ensures
        RawDisk::Real(found).boots() <==> found.is_boot_disk,
        RawDisk::Synthetic(synthetic).boots() <==> synthetic.variant == DiskVariant::M2,
        synthetic.variant == DiskVariant::U2 ==> !RawDisk::Synthetic(synthetic).boots(),
{
}

} // verus!
