//! How the sled agent starts.

use vstd::prelude::*;

use crate::ids::Uuid;
use crate::inventory::types::SocketAddrV6;
use crate::sled_agent::error::Error;
use crate::storage::disk::{DiskIdentity, ZpoolName};

verus! {

/// What is configured for the start.
#[derive(Debug, Clone, Copy, PartialEq, Eq, Structural)]
pub struct Config {
    pub swap_device_size_gb: Option<u32>,
    pub vmm_reservoir_percentage: Option<u8>,
    pub vmm_reservoir_size_mb: Option<u32>,
}

impl Config {
    /// A swap device, where there is one, has a size, and the reservoir is given in one way at most.
    pub open spec fn valid(self) -> bool {
        &&& self.swap_device_size_gb != Some(0u32)
        &&& !(self.vmm_reservoir_percentage is Some && self.vmm_reservoir_size_mb is Some)
    }
}

/// How much memory is set apart for virtual machines.
#[derive(Debug, Clone, Copy, PartialEq, Eq, Structural)]
pub enum ReservoirMode {
    Unused,
    Size(u32),
    Percentage(u8),
}

/// How much memory is set apart, where this is configured.
pub open spec fn reservoir_of(config: Config) -> ReservoirMode {
    match (config.vmm_reservoir_percentage, config.vmm_reservoir_size_mb) {
        (Some(p), _) => ReservoirMode::Percentage(p),
        (None, Some(mb)) => ReservoirMode::Size(mb),
        (None, None) => ReservoirMode::Unused,
    }
}

/// How much memory is set apart, where this is configured.
pub fn reservoir_mode(config: &Config) -> (mode: ReservoirMode)
    requires
        config.valid(),
    ensures
        mode == reservoir_of(*config),
{
    match (config.vmm_reservoir_percentage, config.vmm_reservoir_size_mb) {
        (Some(p), _) => ReservoirMode::Percentage(p),
        (None, Some(mb)) => ReservoirMode::Size(mb),
        (None, None) => ReservoirMode::Unused,
    }
}

/// A step of the start.
#[derive(Debug, Clone, Copy, PartialEq, Eq, Structural)]
pub enum StartupStep {
    /// A swap device of this size has to exist on the zpool of the boot disk.
    EnsureSwapDevice { zpool: ZpoolName, size_gb: u32 },
    /// The filesystems on the zpool of the boot disk have to be mounted.
    EnsureBackingFs { zpool: ZpoolName },
    /// Process contracts have to be reaped when they become empty.
    EnsureContractReaper,
    EnsureEtherstub,
    EnsureEtherstubVnic,
    /// The global zone has to have this address, under the name `sled6`.
    EnsureGlobalZoneAddress { address: u128 },
    /// The underlay devices have to be found, and handed to the kernel driver.
    InitializeXdeDriver,
    /// Ports are managed from here on, for this address.
    StartPortManager { address: u128 },
    /// The storage monitor has to be told that the underlay is there.
    AnnounceUnderlay { sled_id: Uuid },
    StartInstanceManager,
    /// The memory for virtual machines has to be set apart.
    SetReservoir { mode: ReservoirMode },
    /// The network configuration of the rack is needed.
    FetchNetworkConfig,
    /// The services have to be told that the agent has started.
    StartServices { sled_id: Uuid, rack_id: Uuid, address: u128 },
    StartMetrics { sled_id: Uuid, rack_id: Uuid },
    /// The physical links of the underlay have to be tracked, as far as they can be.
    TrackLinks,
    /// The agent has to be registered as a producer of metrics, in the background.
    RegisterProducer { id: Uuid, address: SocketAddrV6 },
    /// The control plane has to be told of the sled.
    NotifyNexus,
}

/// What a sled is started with.
#[derive(Debug, Clone, Copy, PartialEq, Eq, Structural)]
pub struct StartRequest {
    pub id: Uuid,
    pub rack_id: Uuid,
    /// The address and port of the agent on the underlay.
    pub sled_address: SocketAddrV6,
}

/// The steps that set up a swap device: none where none is configured.
pub open spec fn swap_steps(config: Config, zpool: ZpoolName) -> Seq<StartupStep> {
    match config.swap_device_size_gb {
        Some(size_gb) => seq![StartupStep::EnsureSwapDevice { zpool, size_gb }],
        None => Seq::empty(),
    }
}

/// The steps that set memory apart: none where the size is zero.
pub open spec fn reservoir_steps(config: Config) -> Seq<StartupStep> {
    let mode = reservoir_of(config);
    match mode {
        ReservoirMode::Unused | ReservoirMode::Size(0) | ReservoirMode::Percentage(0) => Seq::empty(),
        _ => seq![StartupStep::SetReservoir { mode }],
    }
}

/// The steps from the boot disk to the instances.
pub open spec fn system_steps(request: StartRequest, zpool: ZpoolName) -> Seq<StartupStep> {
    seq![
        StartupStep::EnsureBackingFs { zpool },
        StartupStep::EnsureContractReaper,
        StartupStep::EnsureEtherstub,
        StartupStep::EnsureEtherstubVnic,
        StartupStep::EnsureGlobalZoneAddress { address: request.sled_address.ip },
        StartupStep::InitializeXdeDriver,
        StartupStep::StartPortManager { address: request.sled_address.ip },
        StartupStep::AnnounceUnderlay { sled_id: request.id },
        StartupStep::StartInstanceManager,
    ]
}

/// The steps that bring the services up, and make the sled known.
pub open spec fn service_steps(request: StartRequest) -> Seq<StartupStep> {
    seq![
        StartupStep::FetchNetworkConfig,
        StartupStep::StartServices {
            sled_id: request.id,
            rack_id: request.rack_id,
            address: request.sled_address.ip,
        },
        StartupStep::StartMetrics { sled_id: request.id, rack_id: request.rack_id },
        StartupStep::TrackLinks,
        StartupStep::RegisterProducer { id: request.id, address: request.sled_address },
        StartupStep::NotifyNexus,
    ]
}

/// All the steps, in their order.
pub open spec fn startup_steps(
    config: Config,
    request: StartRequest,
    zpool: ZpoolName,
) -> Seq<StartupStep> {
    swap_steps(config, zpool) + system_steps(request, zpool) + reservoir_steps(config)
        + service_steps(request)
}

/// Plans the start of the agent. It needs a boot disk. The configuration counts only where there is
/// one.
pub fn plan_startup(
    config: &Config,
    request: &StartRequest,
    boot_disk: Option<(DiskIdentity, ZpoolName)>,
) -> (r: Result<Vec<StartupStep>, Error>)
    requires
        boot_disk is Some ==> config.valid(),
    ensures
        match (boot_disk, r) {
            (None, Err(e)) => e == Error::BootDiskNotFound,
            (Some(disk), Ok(steps)) => steps@ == startup_steps(*config, *request, disk.1),
            _ => false,
        },
{
    let zpool = match boot_disk {
        Some((_, zpool)) => zpool,
        None => {
            return Err(Error::BootDiskNotFound);
        },
    };
    let mut steps: Vec<StartupStep> = Vec::new();
    match config.swap_device_size_gb {
        Some(size_gb) => {
            steps.push(StartupStep::EnsureSwapDevice { zpool, size_gb });
        },
        None => {},
    }
    assert(steps@ =~= swap_steps(*config, zpool));
    steps.push(StartupStep::EnsureBackingFs { zpool });
    steps.push(StartupStep::EnsureContractReaper);
    steps.push(StartupStep::EnsureEtherstub);
    steps.push(StartupStep::EnsureEtherstubVnic);
    steps.push(StartupStep::EnsureGlobalZoneAddress { address: request.sled_address.ip });
    steps.push(StartupStep::InitializeXdeDriver);
    steps.push(StartupStep::StartPortManager { address: request.sled_address.ip });
    steps.push(StartupStep::AnnounceUnderlay { sled_id: request.id });
    steps.push(StartupStep::StartInstanceManager);
    assert(steps@ =~= swap_steps(*config, zpool) + system_steps(*request, zpool));
    let mode = reservoir_mode(config);
    match mode {
        ReservoirMode::Unused | ReservoirMode::Size(0) | ReservoirMode::Percentage(0) => {},
        _ => {
            steps.push(StartupStep::SetReservoir { mode });
        },
    }
    assert(steps@ =~= swap_steps(*config, zpool) + system_steps(*request, zpool)
        + reservoir_steps(*config));
    steps.push(StartupStep::FetchNetworkConfig);
    steps.push(
        StartupStep::StartServices {
            sled_id: request.id,
            rack_id: request.rack_id,
            address: request.sled_address.ip,
        },
    );
    steps.push(StartupStep::StartMetrics { sled_id: request.id, rack_id: request.rack_id });
    steps.push(StartupStep::TrackLinks);
    steps.push(StartupStep::RegisterProducer { id: request.id, address: request.sled_address });
    steps.push(StartupStep::NotifyNexus);
    assert(steps@ =~= startup_steps(*config, *request, zpool));
    Ok(steps)
}

/// What produces metrics.
#[derive(Debug, Clone, Copy, PartialEq, Eq, Structural)]
pub enum ProducerKind {
    SledAgent,
}

/// Where the metrics of a producer are collected, and how often.
#[derive(Debug, PartialEq, Eq)]
pub struct ProducerEndpoint {
    pub id: Uuid,
    pub kind: ProducerKind,
    pub address: SocketAddrV6,
    pub base_route: String,
    /// The time between two collections, in seconds.
    pub interval: u64,
}

/// Where the metrics of the agent are collected: at its own address and port, under the id of the
/// sled, each time that the interval has passed.
pub fn producer_endpoint(request: &StartRequest, interval: u64) -> (endpoint: ProducerEndpoint)
    ensures
        endpoint.id == request.id,
        endpoint.kind == ProducerKind::SledAgent,
        endpoint.address == request.sled_address,
        endpoint.base_route@ == "/metrics/collect"@,
        endpoint.interval == interval,
{
    ProducerEndpoint {
        id: request.id,
        kind: ProducerKind::SledAgent,
        address: request.sled_address,
        base_route: "/metrics/collect".to_owned(),
        interval,
    }
}

/// What came of a step.
#[derive(Debug, PartialEq, Eq)]
pub enum StepOutcome {
    Done,
    /// The step failed, with this text.
    Failed { cause: String },
    /// Devices of the underlay could not be used, with this text.
    UnderlayFailed { cause: String },
}

/// How the start goes on after a step.
#[derive(Debug, PartialEq, Eq)]
pub enum AfterStep {
    Next,
    /// The same step again, after a while.
    Retry,
    /// The start failed.
    Fail { error: Error },
}

/// How the start goes on after a step: the network configuration is asked for until it is there,
/// and a step that runs in the background fails nothing. Any other failure ends the start.
pub open spec fn after(step: StartupStep, outcome: StepOutcome) -> AfterStep {
    match outcome {
        StepOutcome::Done => AfterStep::Next,
        StepOutcome::UnderlayFailed { cause } => AfterStep::Fail {
            error: Error::Underlay { cause },
        },
        StepOutcome::Failed { cause } => match step {
            StartupStep::FetchNetworkConfig => AfterStep::Retry,
            StartupStep::TrackLinks
            | StartupStep::RegisterProducer { .. }
            | StartupStep::NotifyNexus
            | StartupStep::EnsureContractReaper
            | StartupStep::StartPortManager { .. }
            | StartupStep::AnnounceUnderlay { .. } => AfterStep::Next,
            StartupStep::EnsureSwapDevice { .. } => AfterStep::Fail {
                error: Error::SwapDevice { cause },
            },
            StartupStep::EnsureBackingFs { .. } => AfterStep::Fail {
                error: Error::BackingFs { cause },
            },
            StartupStep::EnsureEtherstub => AfterStep::Fail { error: Error::Etherstub { cause } },
            StartupStep::EnsureEtherstubVnic => AfterStep::Fail {
                error: Error::EtherstubVnic { cause },
            },
            StartupStep::EnsureGlobalZoneAddress { .. } => AfterStep::Fail {
                error: Error::SledSubnet { cause },
            },
            StartupStep::InitializeXdeDriver => AfterStep::Fail { error: Error::Opte { cause } },
            StartupStep::StartInstanceManager | StartupStep::SetReservoir { .. } => {
                AfterStep::Fail {
                    error: Error::Instance {
                        error: crate::sled_agent::error::InstanceManagerError::Other {
                            text: cause,
                        },
                    },
                }
            },
            StartupStep::StartServices { .. } => AfterStep::Fail {
                error: Error::Services { cause },
            },
            StartupStep::StartMetrics { .. } => AfterStep::Fail { error: Error::Metrics { cause } },
        },
    }
}

/// How the start goes on after a step. There has to be someone to whom the underlay is announced,
/// and a queue for what the control plane is told.
pub fn after_step(step: &StartupStep, outcome: StepOutcome) -> (next: AfterStep)
    requires
        outcome is Failed ==> step !is AnnounceUnderlay && step !is NotifyNexus,
    ensures
        next == after(*step, outcome),
{
    match outcome {
        StepOutcome::Done => AfterStep::Next,
        StepOutcome::UnderlayFailed { cause } => AfterStep::Fail {
            error: Error::Underlay { cause },
        },
        StepOutcome::Failed { cause } => match step {
            StartupStep::FetchNetworkConfig => AfterStep::Retry,
            StartupStep::TrackLinks
            | StartupStep::RegisterProducer { .. }
            | StartupStep::NotifyNexus
            | StartupStep::EnsureContractReaper
            | StartupStep::StartPortManager { .. }
            | StartupStep::AnnounceUnderlay { .. } => AfterStep::Next,
            StartupStep::EnsureSwapDevice { .. } => AfterStep::Fail {
                error: Error::SwapDevice { cause },
            },
            StartupStep::EnsureBackingFs { .. } => AfterStep::Fail {
                error: Error::BackingFs { cause },
            },
            StartupStep::EnsureEtherstub => AfterStep::Fail { error: Error::Etherstub { cause } },
            StartupStep::EnsureEtherstubVnic => AfterStep::Fail {
                error: Error::EtherstubVnic { cause },
            },
            StartupStep::EnsureGlobalZoneAddress { .. } => AfterStep::Fail {
                error: Error::SledSubnet { cause },
            },
            StartupStep::InitializeXdeDriver => AfterStep::Fail { error: Error::Opte { cause } },
            StartupStep::StartInstanceManager | StartupStep::SetReservoir { .. } => {
                AfterStep::Fail {
                    error: Error::Instance {
                        error: crate::sled_agent::error::InstanceManagerError::Other {
                            text: cause,
                        },
                    },
                }
            },
            StartupStep::StartServices { .. } => AfterStep::Fail {
                error: Error::Services { cause },
            },
            StartupStep::StartMetrics { .. } => AfterStep::Fail { error: Error::Metrics { cause } },
        },
    }
}

/// The control plane is told of the sled last, once all else is there, and exactly once.
pub proof fn nexus_is_notified_last(config: Config, request: StartRequest, zpool: ZpoolName, i: int)
    requires
        0 <= i < startup_steps(config, request, zpool).len(),
    ensures
        startup_steps(config, request, zpool)[i] == StartupStep::NotifyNexus <==> i == startup_steps(
            config,
            request,
            zpool,
        ).len() - 1,
{
}

} // verus!
