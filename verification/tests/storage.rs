//! Disks, zpools and datasets of a sled.

use omicron::storage::disk::{
    Disk, DiskIdentity, DiskStep, DiskVariant, OmicronPhysicalDiskConfig, OmicronPhysicalDisksConfig,
    Partition, PartitionLookup, PooledDisk, RawDisk, RawSyntheticDisk, SyntheticDisk,
    SyntheticDiskError, UnparsedDisk, ZpoolName,
};
use omicron::storage::manager::{
    check_dataset_id, check_generation, dataset_id_action, dataset_id_property, must_be_kept,
    CapacityChange, DatasetIdAction, DatasetName, Detected, StorageAction, StorageManager,
    StorageManagerData, StorageManagerState, StorageRequest,
};
use omicron::storage::resources::{
    AddDiskResult, ManagedDisk, Pool, StorageError, StorageResources, ZpoolInfo,
};
use omicron::storage::worker;
use omicron::storage::worker::{
    dataset_id, ensure_dataset_with_id, notifications, partitions, pool_size, setup_command_at,
    Command, DatasetId, DatasetKind, Notification, PartitionSetup, PoolInfo, Pools,
    PreparedDataset, Program, RunningZone, SetupAction, SetupEvent, SetupState, WorkerError,
};

use std::sync::Arc;

const ID: u128 = 0x6ba7b810_9dad_11d1_80b4_00c04fd430c8;
const ID_TEXT: &str = "6ba7b810-9dad-11d1-80b4-00c04fd430c8";

fn identity(serial: &str) -> DiskIdentity {
    DiskIdentity {
        vendor: "v".to_string(),
        serial: serial.to_string(),
        model: "m".to_string(),
    }
}

fn seen(serial: &str, variant: DiskVariant, is_boot_disk: bool) -> RawDisk {
    RawDisk::Real(UnparsedDisk {
        devfs_path: format!("/devices/{}", serial),
        dev_path: None,
        slot: 3,
        variant,
        identity: identity(serial),
        is_boot_disk,
    })
}

fn pooled(serial: &str, variant: DiskVariant, is_boot_disk: bool, zpool_name: ZpoolName) -> Disk {
    Disk::Real(PooledDisk {
        devfs_path: format!("/devices/{}", serial),
        dev_path: None,
        slot: 3,
        variant,
        identity: identity(serial),
        is_boot_disk,
        partitions: Arc::new(vec![Partition::BootImage, Partition::ZfsPool]),
        zpool_name,
    })
}

fn info() -> ZpoolInfo {
    ZpoolInfo { size: 10, allocated: 1, free: 9, online: true }
}

fn pool(serial: &str, name: ZpoolName) -> Pool {
    Pool { name, info: info(), parent: identity(serial) }
}

fn config(generation: u64, serials: &[&str]) -> OmicronPhysicalDisksConfig {
    let mut disks = Vec::new();
    for s in serials {
        disks.push(OmicronPhysicalDiskConfig { identity: identity(s), id: 1, pool_id: 2 });
    }
    OmicronPhysicalDisksConfig { generation, disks }
}

#[test]
fn synthetic_disks_are_named_by_their_files() {
    let disk = RawSyntheticDisk::new("/var/tmp/m2_0.vdev").unwrap();
    assert_eq!(disk.path, "/var/tmp/m2_0.vdev");
    assert_eq!(disk.variant, DiskVariant::M2);
    assert_eq!(disk.identity.vendor, "synthetic-vendor");
    assert_eq!(disk.identity.serial, "synthetic-serial-0");
    assert_eq!(disk.identity.model, "synthetic-model-M2");
    let disk = RawSyntheticDisk::new("u2_abc.vdev").unwrap();
    assert_eq!(disk.variant, DiskVariant::U2);
    assert_eq!(disk.identity.serial, "synthetic-serial-abc");
    let disk = RawSyntheticDisk::new("/var/tmp/m2_1.vdev/.//").unwrap();
    assert_eq!(disk.identity.serial, "synthetic-serial-1");
    assert_eq!(RawSyntheticDisk::new("/var/tmp/.."), Err(SyntheticDiskError::MissingFileName));
    assert_eq!(RawSyntheticDisk::new("/"), Err(SyntheticDiskError::MissingFileName));
    assert_eq!(RawSyntheticDisk::new("."), Err(SyntheticDiskError::MissingFileName));
    assert_eq!(RawSyntheticDisk::new(""), Err(SyntheticDiskError::MissingFileName));
    assert_eq!(
        RawSyntheticDisk::new("/var/tmp/m2_0.img"),
        Err(SyntheticDiskError::MissingSuffix)
    );
    assert_eq!(
        RawSyntheticDisk::new("/var/tmp/x2_0.vdev"),
        Err(SyntheticDiskError::UnknownPrefix { file: "x2_0".to_string() })
    );
    let message = |path: &str| RawSyntheticDisk::new(path).unwrap_err().message();
    assert_eq!(message("/"), "Missing file name for synthetic disk");
    assert_eq!(message("m2_0.img"), "Missing '.vdev' suffix for synthetic disk");
    assert_eq!(message("x2_0.vdev"), "Unknown file prefix: x2_0. Try one of {m2_,u2_}");
    assert_eq!(
        RawSyntheticDisk::from_file_name("p", None),
        Err(SyntheticDiskError::MissingFileName)
    );
}

#[test]
fn zpools_are_named_and_mounted() {
    let external = ZpoolName::new_external(ID);
    let internal = ZpoolName::new_internal(ID);
    assert_eq!(external.as_text(), format!("oxp_{}", ID_TEXT));
    assert_eq!(internal.as_text(), format!("oxi_{}", ID_TEXT));
    assert_eq!(external.dataset_mountpoint("crypt"), format!("/pool/ext/{}/crypt", ID_TEXT));
    assert_eq!(internal.dataset_mountpoint("debug"), format!("/pool/int/{}/debug", ID_TEXT));
    assert_eq!(internal.dataset_mountpoint("/debug"), "/debug");
    let name = DatasetName { pool_name: external, dataset: "crucible".to_string() };
    assert_eq!(name.full_name(), format!("oxp_{}/crucible", ID_TEXT));
    assert_eq!(*name.pool(), external);
}

#[test]
fn disks_that_are_divided_anew_are_replaced() {
    let name = ZpoolName::new_internal(1);
    let raw = || seen("a", DiskVariant::M2, true);
    let mut r = StorageResources::new();
    let first = Disk::new(raw(), name, vec![Partition::BootImage, Partition::ZfsPool]);
    let again = first.clone();
    let other = Disk::new(raw(), name, vec![Partition::DumpDevice, Partition::ZfsPool]);
    assert!(first.same(&again) && !first.same(&other));
    assert_eq!(r.insert_managed_disk(first, pool("a", name)), AddDiskResult::DiskInserted);
    assert_eq!(r.insert_managed_disk(again, pool("a", name)), AddDiskResult::DiskAlreadyInserted);
    assert_eq!(r.insert_managed_disk(other, pool("a", name)), AddDiskResult::DiskInserted);
    let kept = r.managed_disks();
    assert_eq!(
        kept[0].dump_device_devfs_path(true),
        PartitionLookup {
            devfs_path: "/devices/a".to_string(),
            dev_path: None,
            partitions: Arc::new(vec![Partition::DumpDevice, Partition::ZfsPool]),
            partition: Partition::DumpDevice,
            raw: true,
        }
    );
    assert_eq!(kept[0].boot_image_devfs_path(false).partition, Partition::BootImage);
}

#[test]
fn raw_disks_are_the_same_disks() {
    let disk = pooled("a", DiskVariant::U2, false, ZpoolName::new_external(1));
    assert_eq!(disk.slot(), 3);
    assert_eq!(disk.devfs_path(), "/devices/a");
    let raw = RawDisk::from(disk);
    assert_eq!(raw, seen("a", DiskVariant::U2, false));
    assert!(raw.is_real() && !raw.is_synthetic() && !raw.is_boot_disk());
    let synthetic = RawSyntheticDisk::new("/m2_7.vdev").unwrap();
    let disk = Disk::Synthetic(SyntheticDisk {
        raw: RawSyntheticDisk::new("/m2_7.vdev").unwrap(),
        zpool_name: ZpoolName::new_internal(1),
    });
    assert!(disk.is_synthetic());
    assert_eq!(RawDisk::from(disk), RawDisk::Synthetic(synthetic));
}

#[test]
fn disks_are_prepared() {
    let zpool = ZpoolName::new_external(5);
    let disk = Disk::new(seen("a", DiskVariant::U2, false), zpool, vec![Partition::BootImage, Partition::ZfsPool]);
    assert_eq!(disk, pooled("a", DiskVariant::U2, false, zpool));
    assert_eq!(
        disk.preparation(),
        vec![
            DiskStep::EnsureDatasets { zpool, identity: identity("a") },
            DiskStep::EnsureEncryption { zpool }
        ]
    );
    let zpool = ZpoolName::new_internal(5);
    let disk = Disk::new(seen("a", DiskVariant::M2, true), zpool, vec![Partition::BootImage]);
    assert_eq!(
        disk.preparation(),
        vec![DiskStep::EnsureDatasets { zpool, identity: identity("a") }]
    );
}

#[test]
fn disks_are_kept_and_found() {
    let mut r = StorageResources::new();
    assert_eq!(
        r.insert_raw_disk(seen("b", DiskVariant::U2, false)),
        AddDiskResult::DiskInserted
    );
    assert_eq!(
        r.insert_raw_disk(seen("b", DiskVariant::U2, false)),
        AddDiskResult::DiskAlreadyInserted
    );
    let boot = ZpoolName::new_internal(7);
    assert!(r
        .insert_managed_disk(pooled("a", DiskVariant::M2, true, boot), pool("a", boot))
        .disk_inserted());
    assert_eq!(
        r.insert_managed_disk(pooled("a", DiskVariant::M2, true, boot), pool("a", boot)),
        AddDiskResult::DiskAlreadyInserted
    );
    assert_eq!(
        r.all_disks(),
        vec![(identity("a"), DiskVariant::M2), (identity("b"), DiskVariant::U2)]
    );
    assert_eq!(r.managed_disks(), vec![pooled("a", DiskVariant::M2, true, boot)]);
    assert_eq!(r.boot_disk(), Some((identity("a"), boot)));
    assert_eq!(r.all_m2_zpools(), vec![boot]);
    assert_eq!(r.all_u2_zpools(), vec![]);
    assert_eq!(r.get_all_zpools(), vec![(boot, DiskVariant::M2)]);
    assert_eq!(
        r.all_zone_bundle_directories(),
        vec!["/pool/int/00000000-0000-0000-0000-000000000007/debug/bundle/zone".to_string()]
    );
    assert_eq!(r.all_u2_mountpoints("crypt"), Vec::<String>::new());
    assert_eq!(r.get_disk(&identity("z")), Err(StorageError::PhysicalDiskNotFound));
    assert!(matches!(r.get_disk(&identity("b")), Ok(ManagedDisk::Unmanaged(_))));
    assert!(r.remove_disk(&identity("b")));
    assert!(!r.remove_disk(&identity("b")));
    assert_eq!(r.all_disks().len(), 1);
}

#[test]
fn fake_disks_are_inserted_once() {
    let mut r = StorageResources::new();
    let disk = pooled("a", DiskVariant::U2, false, ZpoolName::new_external(1));
    let id = disk.identity().clone();
    assert_eq!(r.insert_fake_disk(disk.clone(), info()), AddDiskResult::DiskInserted);
    let stored = ManagedDisk::Managed { disk, pool: pool("a", ZpoolName::new_external(1)) };
    assert_eq!(r.get_disk(&id), Ok(&stored));
    // Not even a disk with another zpool replaces it.
    let other = pooled("a", DiskVariant::U2, false, ZpoolName::new_external(2));
    assert_eq!(r.insert_fake_disk(other, info()), AddDiskResult::DiskAlreadyInserted);
    assert_eq!(r.get_disk(&id), Ok(&stored));
    assert_eq!(r.all_disks().len(), 1);
}

#[test]
fn synthetic_disks_stay() {
    let mut r = StorageResources::new();
    let raw = RawDisk::Synthetic(RawSyntheticDisk::new("/m2_7.vdev").unwrap());
    let id = raw.identity().clone();
    assert!(r.insert_raw_disk(raw).disk_inserted());
    assert!(!r.remove_disk(&id));
    assert_eq!(r.all_disks().len(), 1);
}

#[test]
fn requests_are_handled() {
    let mut m = StorageManager::new();
    assert_eq!(m.state, StorageManagerState::WaitingForKeyManager);
    assert_eq!(
        m.handle(StorageRequest::GetManagerState),
        StorageAction::SendState {
            data: StorageManagerData { state: StorageManagerState::WaitingForKeyManager }
        }
    );
    assert_eq!(m.handle(StorageRequest::GetLatestResources), StorageAction::SendResources);
    // U.2 disks are only noted; M.2 disks are brought into use.
    assert_eq!(
        m.handle(StorageRequest::DetectedRawDisk(seen("u", DiskVariant::U2, false))),
        StorageAction::Finish
    );
    let sent = m.updates().unwrap();
    assert_eq!(sent.all_disks(), vec![(identity("u"), DiskVariant::U2)]);
    assert_eq!(m.updates(), None);
    assert_eq!(
        m.handle(StorageRequest::DetectedRawDisk(seen("m", DiskVariant::M2, true))),
        StorageAction::FormatM2 { disk: seen("m", DiskVariant::M2, true) }
    );
    let boot = ZpoolName::new_internal(7);
    assert_eq!(
        m.disk_ready(pooled("m", DiskVariant::M2, true, boot), pool("m", boot)),
        AddDiskResult::DiskInserted
    );
    assert_eq!(
        m.all_omicron_disk_ledgers(),
        vec!["/pool/int/00000000-0000-0000-0000-000000000007/config/omicron-physical-disks.json"
            .to_string()]
    );
    assert_eq!(
        m.handle(StorageRequest::DetectedRawDiskRemoval(seen("u", DiskVariant::U2, false))),
        StorageAction::Finish
    );
    assert!(m.updates().is_some());
    assert_eq!(
        m.handle(StorageRequest::DetectedRawDiskRemoval(seen("u", DiskVariant::U2, false))),
        StorageAction::Finish
    );
    assert_eq!(m.updates(), None);
    assert_eq!(m.resources.all_disks(), vec![(identity("m"), DiskVariant::M2)]);
    assert_eq!(m.handle(StorageRequest::KeyManagerReady), StorageAction::Finish);
    assert_eq!(m.updates(), None);
    assert_eq!(m.state, StorageManagerState::Normal);
}

#[test]
fn tracked_disks_are_those_of_the_hardware() {
    let mut m = StorageManager::new();
    assert!(matches!(
        m.detected_disk(seen("a", DiskVariant::U2, false)),
        Detected::Added(AddDiskResult::DiskInserted)
    ));
    assert!(matches!(
        m.detected_disk(seen("b", DiskVariant::M2, false)),
        Detected::Format(_)
    ));
    let now = vec![seen("b", DiskVariant::U2, false), seen("c", DiskVariant::U2, false)];
    m.updates();
    m.retain_disks(&now);
    assert!(m.changed);
    assert_eq!(m.resources.all_disks().len(), 0);
    m.updates();
    assert_eq!(m.add_disks(&now), vec![]);
    assert!(m.changed);
    assert_eq!(
        m.resources.all_disks(),
        vec![(identity("b"), DiskVariant::U2), (identity("c"), DiskVariant::U2)]
    );
    m.updates();
    m.retain_disks(&now);
    m.add_disks(&now);
    assert!(!m.changed);
}

#[test]
fn capacity_changes_are_noted() {
    let mut m = StorageManager::new();
    assert_eq!(m.note_capacity(256), None);
    assert_eq!(m.note_capacity(250), None);
    assert_eq!(
        m.note_capacity(240),
        Some(CapacityChange::Decreased { previous: 256, current: 240 })
    );
    assert_eq!(
        m.note_capacity(255),
        Some(CapacityChange::Increased { previous: 240, current: 255 })
    );
}

#[test]
fn disks_of_a_configuration_are_managed_in_order() {
    let mut m = StorageManager::new();
    let wanted = config(2, &["a", "b"]);
    assert_eq!(m.next_disk_to_manage(&wanted, 0), Err(StorageError::KeyManagerNotReady));
    m.handle(StorageRequest::KeyManagerReady);
    assert_eq!(
        m.next_disk_to_manage(&wanted, 0),
        Err(StorageError::PhysicalDiskNotFound)
    );
    m.detected_disk(seen("a", DiskVariant::U2, false));
    m.detected_disk(seen("b", DiskVariant::U2, false));
    assert_eq!(m.next_disk_to_manage(&wanted, 0), Ok(Some(0)));
    let a = ZpoolName::new_external(2);
    m.disk_ready(pooled("a", DiskVariant::U2, false, a), pool("a", a));
    assert_eq!(m.next_disk_to_manage(&wanted, 1), Ok(Some(1)));
    m.disk_ready(pooled("b", DiskVariant::U2, false, a), pool("b", a));
    assert_eq!(m.next_disk_to_manage(&wanted, 2), Ok(None));
}

#[test]
fn changes_by_a_configuration_are_sent() {
    let mut m = StorageManager::new();
    m.handle(StorageRequest::KeyManagerReady);
    m.detected_disk(seen("a", DiskVariant::U2, false));
    assert!(m.updates().unwrap().managed_disks().is_empty());
    let wanted = config(2, &["a"]);
    assert!(matches!(
        m.handle(StorageRequest::OmicronPhysicalDisksEnsure(config(2, &["a"]))),
        StorageAction::EnsureDisks { .. }
    ));
    assert_eq!(m.next_disk_to_manage(&wanted, 0), Ok(Some(0)));
    let a = ZpoolName::new_external(2);
    m.disk_ready(pooled("a", DiskVariant::U2, false, a), pool("a", a));
    assert_eq!(m.updates().unwrap().managed_disks().len(), 1);
    // The same disk again changes nothing.
    m.disk_ready(pooled("a", DiskVariant::U2, false, a), pool("a", a));
    assert_eq!(m.updates(), None);
}

#[test]
fn generations_only_grow() {
    assert_eq!(check_generation(1, None), Ok(()));
    assert_eq!(check_generation(2, Some(2)), Ok(()));
    assert_eq!(check_generation(3, Some(2)), Ok(()));
    assert_eq!(
        check_generation(1, Some(2)),
        Err(StorageError::PhysicalDiskConfigurationOutdated { requested: 1, current: 2 })
    );
    assert!(must_be_kept(&config(1, &["a"]), &config(1, &["b"])));
    assert!(!must_be_kept(&config(1, &["a"]), &config(1, &["a"])));
    let first = OmicronPhysicalDisksConfig::new();
    assert_eq!(first.disks.len(), 0);
    assert!(config(first.generation + 1, &[]).is_newer_than(&first));
    assert!(!first.is_newer_than(&first));
}

#[test]
fn datasets_keep_their_ids() {
    assert_eq!(dataset_id_action(Some(5), 5), Ok(DatasetIdAction::Keep));
    assert_eq!(
        dataset_id_action(Some(5), 6),
        Err(StorageError::UuidMismatch { old: 5, new: 6 })
    );
    assert_eq!(dataset_id_action(None, 6), Ok(DatasetIdAction::Assign { id: 6 }));
    assert_eq!(check_dataset_id(Some(ID_TEXT), ID), Ok(DatasetIdAction::Keep));
    assert_eq!(check_dataset_id(Some("-"), ID), Ok(DatasetIdAction::Assign { id: ID }));
    assert_eq!(check_dataset_id(None, ID), Ok(DatasetIdAction::Assign { id: ID }));
    assert_eq!(dataset_id_property(ID), ID_TEXT);
    assert_eq!(
        check_dataset_id(Some(dataset_id_property(9).as_str()), 9),
        Ok(DatasetIdAction::Keep)
    );
}

#[test]
fn datasets_are_made_on_known_zpools() {
    let mut m = StorageManager::new();
    let known = ZpoolName::new_external(2);
    let name = DatasetName { pool_name: known, dataset: "d".to_string() };
    assert_eq!(m.check_pool(&name), Err(StorageError::ZpoolNotFound { pool: known }));
    m.disk_ready(pooled("a", DiskVariant::U2, false, known), pool("a", known));
    assert_eq!(m.check_pool(&name), Ok(()));
}

fn pool_info(name: &str) -> PoolInfo {
    PoolInfo { name: name.to_string(), zpool: info() }
}

fn zone(name: &str) -> RunningZone {
    RunningZone { name: name.to_string(), address: "[fd00::1]:32221".to_string() }
}

#[test]
fn zpools_are_known_by_their_ids() {
    let pool = worker::Pool::new(pool_info(ID_TEXT)).unwrap();
    assert_eq!(pool.id(), ID);
    assert_eq!(worker::Pool::new(pool_info("rpool")), Err(WorkerError::Parse));
    let mut pool = worker::Pool::with_id(pool_info("rpool"), Some(3)).unwrap();
    assert_eq!(pool.id(), 3);
    assert_eq!(pool.get_zone(8), None);
    pool.add_zone(8, zone("z"));
    assert_eq!(pool.get_zone(8), Some(&zone("z")));
}

#[test]
fn zpools_are_noted_once() {
    let mut pools = Pools::new();
    assert_eq!(pools.upsert_zpool(ID_TEXT, pool_info(ID_TEXT)), Ok(true));
    assert_eq!(pools.upsert_zpool(ID_TEXT, pool_info(ID_TEXT)), Ok(false));
    assert_eq!(pools.upsert_zpool("rpool", pool_info("rpool")), Err(WorkerError::Parse));
    assert_eq!(pools.pools.len(), 1);
}

#[test]
fn dataset_ids_are_found_or_made() {
    assert_eq!(dataset_id(Some(4), 9), DatasetId::Found { id: 4 });
    assert_eq!(dataset_id(None, 9), DatasetId::Assigned { id: 9 });
    assert_eq!(ensure_dataset_with_id(Some(ID_TEXT)), DatasetId::Found { id: ID });
    let one = ensure_dataset_with_id(None);
    match one {
        DatasetId::Assigned { id } => {
            assert_eq!(((id >> 76) & 0xf, (id >> 62) & 3), (4, 2));
        }
        DatasetId::Found { .. } => panic!("no id was there"),
    }
    let other = ensure_dataset_with_id(Some("-"));
    assert!(matches!(one, DatasetId::Assigned { .. }));
    assert_ne!(one, other);
}

#[test]
fn zones_are_named_after_zpools() {
    let partition = partitions().remove(0);
    assert_eq!(partition.name, "cockroachdb");
    assert_eq!(partition.zone_prefix(), "oxz_cockroachdb_");
    assert_eq!(partition.zone_image(), "/opt/oxide/cockroachdb.tar.gz");
    let one = partition.zone_name(&worker::DatasetName::new("p", "cockroachdb"));
    let other = partition.zone_name(&worker::DatasetName::new("q", "cockroachdb"));
    assert_eq!(one, "oxz_cockroachdb_p");
    assert_ne!(one, other);
    assert_eq!(worker::DatasetName::new("p", "cockroachdb").full(), "p/cockroachdb");
}

#[test]
fn datasets_are_prepared_step_by_step() {
    let mut pool = worker::Pool::new(pool_info(ID_TEXT)).unwrap();
    let mut setup = PartitionSetup::new(&pool, partitions().remove(0));
    let dataset = format!("{}/cockroachdb", ID_TEXT);
    assert_eq!(
        setup.action(),
        SetupAction::EnsureFilesystem { dataset: dataset.clone(), mountpoint: "/data".to_string() }
    );
    // What does not belong to the step changes nothing.
    setup.advance(SetupEvent::CommandRan);
    assert_eq!(setup.state, SetupState::EnsuringFilesystem);
    setup.advance(SetupEvent::FilesystemReady);
    assert_eq!(setup.action(), SetupAction::ReadId { dataset: dataset.clone() });
    setup.advance(SetupEvent::IdRead(Some("-".to_string())));
    let id = match setup.state {
        SetupState::WritingId { id } => id,
        _ => unreachable!(),
    };
    assert_eq!(
        setup.action(),
        SetupAction::WriteId { dataset: dataset.clone(), text: dataset_id_property(id) }
    );
    setup.advance(SetupEvent::IdWritten);
    assert_eq!(
        setup.action(),
        SetupAction::FindZone { prefix: "oxz_cockroachdb_".to_string(), port: 32221 }
    );
    setup.advance(SetupEvent::ZoneNotRunning);
    assert!(matches!(setup.action(), SetupAction::InstallZone { .. }));
    setup.advance(SetupEvent::ZoneInstalled);
    assert!(matches!(setup.action(), SetupAction::BootZone { port: 32221, .. }));
    setup.advance(SetupEvent::ZoneRunning(zone("oxz_cockroachdb_p")));
    let mut commands = Vec::new();
    while let SetupAction::Run { zone_name, command } = setup.action() {
        assert_eq!(zone_name, "oxz_cockroachdb_p");
        commands.push(command);
        setup.advance(SetupEvent::CommandRan);
    }
    assert_eq!(commands.len(), 6);
    for i in 0..6 {
        assert_eq!(commands[i], setup_command_at("[fd00::1]:32221", "/data", i));
    }
    assert_eq!(
        commands[1],
        Command {
            program: Program::ConfigureService,
            args: vec![
                "-s".to_string(),
                "svc:system/illumos/cockroachdb".to_string(),
                "setprop".to_string(),
                "config/listen_addr=[fd00::1]:32221".to_string()
            ]
        }
    );
    assert_eq!(commands[5].program, Program::AdministerService);
    assert_eq!(setup.action(), SetupAction::Finish);
    let prepared = setup.finish(&mut pool).unwrap();
    assert_eq!(
        prepared,
        PreparedDataset {
            id,
            address: "[fd00::1]:32221".to_string(),
            kind: DatasetKind::Cockroach
        }
    );
    assert!(pool.get_zone(id).is_some());
}

#[test]
fn unfinished_datasets_are_not_announced() {
    let mut pool = worker::Pool::new(pool_info(ID_TEXT)).unwrap();
    let setup = PartitionSetup::new(&pool, partitions().remove(0));
    assert_eq!(setup.finish(&mut pool), None);
    assert_eq!(pool.zones.len(), 0);
}

#[test]
fn zpools_are_announced_before_datasets() {
    assert_eq!(pool_size(17), Ok(17));
    assert_eq!(pool_size(u64::MAX), Err(WorkerError::BadPoolSize { size: u64::MAX }));
    assert_eq!(
        WorkerError::BadPoolSize { size: u64::MAX }.message("too large"),
        "Error parsing pool size: too large"
    );
    assert_eq!(WorkerError::Parse.message("no name"), "Failed to parse as UUID: no name");
    let datasets = vec![PreparedDataset {
        id: 4,
        address: "a".to_string(),
        kind: DatasetKind::Crucible,
    }];
    assert_eq!(
        notifications(1, 2, 3, &datasets),
        vec![
            Notification::Zpool { sled_id: 1, pool_id: 2, size: 3 },
            Notification::Dataset {
                pool_id: 2,
                dataset_id: 4,
                address: "a".to_string(),
                kind: DatasetKind::Crucible
            }
        ]
    );
}
