//! The sled agent: its start, its errors and its answers.

use omicron::baseboard::Baseboard;
use omicron::http::HttpReply;
use omicron::inventory::types::{BaseboardId, SledRole, SocketAddrV6};
use omicron::sled_agent::agent::{
    load_services_result, notification_failure_level, omicron_zones_ensure, zone_bundle_maker,
    zones_list, zpools_get, AddSledError, BundleMaker, Hardware, InventoryError, LogLevel,
    NoSuchZone, RequestedZone, SledAgent, SledSearch, Zone, Zpool, ZonesStep,
};
use omicron::sled_agent::error::{
    BundleError, BundleFailure, Error, InstanceError, InstanceManagerError,
};
use omicron::sled_agent::startup::{
    after_step, plan_startup, producer_endpoint, reservoir_mode, AfterStep, Config,
    ProducerEndpoint, ProducerKind, ReservoirMode, StartRequest, StartupStep, StepOutcome,
};
use omicron::storage::disk::{Disk, DiskIdentity, DiskVariant, PooledDisk, ZpoolName};
use omicron::storage::manager::DatasetName;
use omicron::storage::resources::{Pool, StorageResources, ZpoolInfo};
use std::sync::Arc;

fn text(s: &str) -> String {
    s.to_string()
}

fn identity() -> DiskIdentity {
    DiskIdentity { vendor: text("v"), serial: text("s"), model: text("m") }
}

fn board(identifier: &str) -> Baseboard {
    Baseboard { identifier: text(identifier), model: text("gimlet"), revision: 6 }
}

fn address() -> SocketAddrV6 {
    SocketAddrV6 { ip: 0xfd00, port: 12345, flowinfo: 0, scope_id: 0 }
}

fn request() -> StartRequest {
    StartRequest { id: 1, rack_id: 2, sled_address: address() }
}

fn agent() -> SledAgent {
    SledAgent {
        start_request: request(),
        switch_zone_ip: 0xfd02,
    }
}

fn hardware(is_scrimlet: bool, ram: u64) -> Hardware {
    Hardware {
        is_scrimlet,
        baseboard: board("A"),
        online_processor_count: 128,
        usable_physical_ram_bytes: ram,
    }
}

#[test]
fn start_needs_a_boot_disk() {
    let config = Config {
        swap_device_size_gb: None,
        vmm_reservoir_percentage: None,
        vmm_reservoir_size_mb: None,
    };
    assert_eq!(plan_startup(&config, &request(), None), Err(Error::BootDiskNotFound));
    assert_eq!(Error::BootDiskNotFound.message(), "Could not find boot disk");
}

#[test]
fn start_is_planned() {
    let zpool = ZpoolName::new_internal(7);
    let config = Config {
        swap_device_size_gb: Some(256),
        vmm_reservoir_percentage: Some(80),
        vmm_reservoir_size_mb: None,
    };
    let steps = plan_startup(&config, &request(), Some((identity(), zpool))).unwrap();
    assert_eq!(
        steps,
        vec![
            StartupStep::EnsureSwapDevice { zpool, size_gb: 256 },
            StartupStep::EnsureBackingFs { zpool },
            StartupStep::EnsureContractReaper,
            StartupStep::EnsureEtherstub,
            StartupStep::EnsureEtherstubVnic,
            StartupStep::EnsureGlobalZoneAddress { address: 0xfd00 },
            StartupStep::InitializeXdeDriver,
            StartupStep::StartPortManager { address: 0xfd00 },
            StartupStep::AnnounceUnderlay { sled_id: 1 },
            StartupStep::StartInstanceManager,
            StartupStep::SetReservoir { mode: ReservoirMode::Percentage(80) },
            StartupStep::FetchNetworkConfig,
            StartupStep::StartServices { sled_id: 1, rack_id: 2, address: 0xfd00 },
            StartupStep::StartMetrics { sled_id: 1, rack_id: 2 },
            StartupStep::TrackLinks,
            StartupStep::RegisterProducer { id: 1, address: address() },
            StartupStep::NotifyNexus,
        ]
    );
    assert_eq!(steps[steps.len() - 1], StartupStep::NotifyNexus);
    assert_eq!(
        producer_endpoint(&request(), 30),
        ProducerEndpoint {
            id: 1,
            kind: ProducerKind::SledAgent,
            address: address(),
            base_route: text("/metrics/collect"),
            interval: 30,
        }
    );
}

#[test]
fn nothing_is_looked_at_without_a_boot_disk() {
    let config = Config {
        swap_device_size_gb: Some(0),
        vmm_reservoir_percentage: Some(80),
        vmm_reservoir_size_mb: Some(10),
    };
    assert_eq!(plan_startup(&config, &request(), None), Err(Error::BootDiskNotFound));
}

#[test]
fn reservoirs_of_size_zero_are_not_set() {
    let config = Config {
        swap_device_size_gb: None,
        vmm_reservoir_percentage: None,
        vmm_reservoir_size_mb: Some(0),
    };
    assert_eq!(reservoir_mode(&config), ReservoirMode::Size(0));
    let zpool = ZpoolName::new_internal(7);
    let steps = plan_startup(&config, &request(), Some((identity(), zpool))).unwrap();
    assert_eq!(steps.len(), 15);
    assert_eq!(steps[0], StartupStep::EnsureBackingFs { zpool });
    assert!(!steps.iter().any(|s| matches!(s, StartupStep::SetReservoir { .. })));
    let config = Config {
        swap_device_size_gb: None,
        vmm_reservoir_percentage: None,
        vmm_reservoir_size_mb: Some(2048),
    };
    assert_eq!(reservoir_mode(&config), ReservoirMode::Size(2048));
    let config = Config {
        swap_device_size_gb: None,
        vmm_reservoir_percentage: None,
        vmm_reservoir_size_mb: None,
    };
    assert_eq!(reservoir_mode(&config), ReservoirMode::Unused);
}

#[test]
fn failed_steps_end_the_start() {
    let failed = || StepOutcome::Failed { cause: text("why") };
    let zpool = ZpoolName::new_internal(7);
    assert_eq!(after_step(&StartupStep::EnsureEtherstub, StepOutcome::Done), AfterStep::Next);
    assert_eq!(after_step(&StartupStep::FetchNetworkConfig, failed()), AfterStep::Retry);
    assert_eq!(after_step(&StartupStep::TrackLinks, failed()), AfterStep::Next);
    let end = |step: StartupStep| match after_step(&step, failed()) {
        AfterStep::Fail { error } => error.message(),
        other => panic!("{:?}", other),
    };
    assert_eq!(
        end(StartupStep::EnsureSwapDevice { zpool, size_gb: 1 }),
        "Error setting up swap device: why"
    );
    assert_eq!(
        end(StartupStep::EnsureBackingFs { zpool }),
        "Error setting up backing filesystems: why"
    );
    assert_eq!(end(StartupStep::EnsureEtherstub), "Failed to acquire etherstub: why");
    assert_eq!(end(StartupStep::EnsureEtherstubVnic), "Failed to acquire etherstub VNIC: why");
    assert_eq!(
        end(StartupStep::EnsureGlobalZoneAddress { address: 1 }),
        "Failed to create Sled Subnet: why"
    );
    assert_eq!(end(StartupStep::InitializeXdeDriver), "Error managing guest networking: why");
    assert_eq!(end(StartupStep::StartInstanceManager), "Error managing instances: why");
    assert_eq!(
        end(StartupStep::StartServices { sled_id: 1, rack_id: 1, address: 1 }),
        "why"
    );
    assert_eq!(
        end(StartupStep::StartMetrics { sled_id: 1, rack_id: 1 }),
        "Metrics error: why"
    );
    assert_eq!(
        after_step(
            &StartupStep::InitializeXdeDriver,
            StepOutcome::UnderlayFailed { cause: text("why") }
        ),
        AfterStep::Fail { error: Error::Underlay { cause: text("why") } }
    );
}

#[test]
fn errors_have_texts() {
    let cause = || text("c");
    let all = vec![
        (Error::Config { cause: cause() }, "Configuration error: c"),
        (Error::Bootstrap { cause: cause() }, "Bootstrap error: c"),
        (Error::DeleteAddress { cause: cause() }, "Failed to remove Omicron address: c"),
        (Error::Underlay { cause: cause() }, "Failed to operate on underlay device: c"),
        (Error::FirewallRequest, "Failed to request firewall rules"),
        (Error::Storage { cause: cause() }, "Error managing storage: c"),
        (Error::Download { cause: cause() }, "Error updating: c"),
        (Error::Hardware { cause: cause() }, "Error monitoring hardware: c"),
        (Error::ResolveError { cause: cause() }, "Error resolving DNS name: c"),
        (Error::ZpoolList { cause: cause() }, "c"),
        (Error::EarlyNetworkError { cause: cause() }, "c"),
        (Error::Bootstore { cause: cause() }, "Bootstore Error: c"),
        (
            Error::EarlyNetworkDeserialize { cause: cause() },
            "Failed to deserialize early network config: c",
        ),
    ];
    for (error, expected) in all {
        assert_eq!(error.message(), expected);
        let reply = error.http_reply();
        assert_eq!(reply.status_code, 500);
        assert_eq!(reply.error_code, Some(text("Internal")));
        assert_eq!(reply.external_message, "Internal Server Error");
        assert_eq!(reply.internal_message, expected);
    }
}

fn propolis(status: Option<u16>) -> Error {
    Error::Instance {
        error: InstanceManagerError::Instance {
            error: InstanceError::Propolis { status, text: text("said") },
            text: text("outer"),
        },
    }
}

#[test]
fn what_propolis_says_is_handed_on() {
    let reply = propolis(Some(404)).http_reply();
    assert_eq!(reply.status_code, 404);
    assert_eq!(reply.external_message, "Not Found");
    assert_eq!(reply.internal_message, "Not Found");
    assert_eq!(reply.error_code, None);
    assert_eq!(propolis(Some(418)).http_reply().external_message, "I'm a teapot");
    let reply = propolis(Some(503)).http_reply();
    assert_eq!(reply.status_code, 503);
    assert_eq!(reply.external_message, "Service Unavailable");
    assert_eq!(reply.internal_message, "said");
    let reply = propolis(Some(500)).http_reply();
    assert_eq!((reply.status_code, reply.internal_message), (500, text("said")));
    let reply = propolis(None).http_reply();
    assert_eq!((reply.status_code, reply.internal_message), (500, text("said")));
    assert_eq!(propolis(None).message(), "Error managing instances: outer");
}

#[test]
fn transitions_and_other_failures_are_answered() {
    let given = HttpReply {
        status_code: 409,
        error_code: Some(text("x")),
        external_message: text("e"),
        internal_message: text("i"),
    };
    let error = Error::Instance {
        error: InstanceManagerError::Instance {
            error: InstanceError::Transition { reply: given.clone(), text: text("t") },
            text: text("outer"),
        },
    };
    assert_eq!(error.http_reply(), given);
    let error = Error::Instance { error: InstanceManagerError::Other { text: text("o") } };
    assert_eq!(error.http_reply().internal_message, "o");
    assert_eq!(error.message(), "Error managing instances: o");
}

#[test]
fn zone_bundle_failures_are_answered() {
    let reply = |failure: BundleFailure| {
        Error::ZoneBundle { bundle: BundleError { failure, text: text("b") } }.http_reply()
    };
    assert_eq!(reply(BundleFailure::NoStorage).status_code, 503);
    assert_eq!(reply(BundleFailure::Unavailable).status_code, 503);
    assert_eq!(reply(BundleFailure::NoSuchZone).status_code, 404);
    assert_eq!(reply(BundleFailure::NoSuchZone).external_message, "Not Found");
    assert_eq!(reply(BundleFailure::NoSuchZone).internal_message, "b");
    assert_eq!(reply(BundleFailure::InvalidStorageLimit).status_code, 400);
    assert_eq!(reply(BundleFailure::InvalidStorageLimit).external_message, "b");
    assert_eq!(reply(BundleFailure::InvalidCleanupPeriod).status_code, 400);
    let other = reply(BundleFailure::Other);
    assert_eq!(other.status_code, 500);
    assert_eq!(other.internal_message, "Zone bundle error: b");
}

#[test]
fn agents_say_what_they_are() {
    let a = agent();
    assert_eq!(a.id(), 1);
    assert_eq!(*a.start_request(), request());
    assert_eq!(a.get_role(&hardware(true, 1)), SledRole::Scrimlet);
    assert_eq!(a.get_role(&hardware(false, 1)), SledRole::Gimlet);
    let info = a.startup_info(&hardware(true, 1000), text("[fd00::1]:12345"), 400);
    assert_eq!(info.sa_address, "[fd00::1]:12345");
    assert_eq!(info.role, SledRole::Scrimlet);
    assert_eq!(info.usable_hardware_threads, 128);
    assert_eq!(info.usable_physical_ram, 1000);
    assert_eq!(info.reservoir_size, 400);
    let inventory = a.inventory(&hardware(false, 1000), 400).unwrap();
    assert_eq!(inventory.sled_id, 1);
    assert_eq!(inventory.sled_agent_address.port, 12345);
    assert_eq!(inventory.usable_physical_ram, 1000);
    assert_eq!(
        a.inventory(&hardware(false, u64::MAX), 400),
        Err(InventoryError::BadByteCount { bytes: u64::MAX })
    );
}

#[test]
fn notification_failures_are_logged_now_and_then() {
    assert_eq!(notification_failure_level(0, 0, 0), Some(LogLevel::Info));
    assert_eq!(notification_failure_level(1, 29, 0), None);
    assert_eq!(notification_failure_level(7, 30, 1), Some(LogLevel::Warn));
}

#[test]
fn the_first_failure_to_load_services_counts() {
    let fail = |s: &str| Err(Error::Services { cause: text(s) });
    assert_eq!(load_services_result(Ok(()), Ok(())), Ok(()));
    assert_eq!(load_services_result(fail("a"), fail("b")), fail("a"));
    assert_eq!(load_services_result(fail("a"), Ok(())), fail("a"));
    assert_eq!(load_services_result(Ok(()), fail("b")), fail("b"));
}

#[test]
fn zones_are_known_by_their_names() {
    assert_eq!(zone_bundle_maker("oxz_propolis-server_1"), Ok(BundleMaker::Instances));
    assert_eq!(zone_bundle_maker("oxz_nexus_1"), Ok(BundleMaker::Services));
    assert_eq!(zone_bundle_maker("global"), Err(NoSuchZone { name: text("global") }));
    let zones = vec![
        Zone { name: text("oxz_b"), running: true },
        Zone { name: text("oxz_c"), running: false },
        Zone { name: text("oxz_a"), running: true },
    ];
    assert_eq!(zones_list(&zones), vec![text("oxz_a"), text("oxz_b")]);
}

#[test]
fn zpools_are_listed() {
    let mut resources = StorageResources::new();
    let name = ZpoolName::new_external(9);
    let disk = Disk::Real(PooledDisk {
        devfs_path: text("/devices/s"),
        dev_path: None,
        slot: 1,
        variant: DiskVariant::U2,
        identity: identity(),
        is_boot_disk: false,
        partitions: Arc::new(vec![]),
        zpool_name: name,
    });
    let info = ZpoolInfo { size: 1, allocated: 0, free: 1, online: true };
    resources.insert_managed_disk(disk, Pool { name, info, parent: identity() });
    assert_eq!(zpools_get(&resources), vec![Zpool { id: 9, disk_type: DiskVariant::U2 }]);
}

#[test]
fn datasets_of_zones_come_first() {
    let dataset = || DatasetName {
        pool_name: ZpoolName::new_external(3),
        dataset: text("crucible"),
    };
    let zones = vec![
        RequestedZone { id: 5, dataset_name: None },
        RequestedZone { id: 6, dataset_name: Some(dataset()) },
    ];
    assert_eq!(
        omicron_zones_ensure(zones),
        vec![
            ZonesStep::UpsertFilesystem { dataset_id: 6, dataset_name: dataset() },
            ZonesStep::EnsureZones,
            ZonesStep::RequestFirewallUpdate
        ]
    );
}

fn wanted() -> BaseboardId {
    BaseboardId { part_number: text("gimlet"), serial_number: text("B") }
}

#[test]
fn sleds_are_searched_for_by_their_boards() {
    let mut search = SledSearch::new(wanted());
    assert!(!search.on_reply(1, None));
    assert!(!search.on_reply(2, Some(board("A"))));
    assert!(search.on_reply(3, Some(board("B"))));
    assert_eq!(search.finish(), Ok((3, board("B"))));
    let mut search = SledSearch::new(wanted());
    assert!(!search.on_reply(1, Some(board("A"))));
    assert_eq!(search.finish(), Err(AddSledError::NotFound { sled_id: wanted() }));
}
