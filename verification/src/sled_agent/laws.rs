//! What the sled agent promises: what it says of its sled, which steps its start takes, how the
//! start goes on when a step fails, and how failures are answered.

use vstd::prelude::*;

use crate::baseboard::Baseboard;
use crate::http::{label_of, HttpReply};
use crate::inventory::types::BaseboardId;
use crate::sled_agent::agent::{
    dataset_steps, found_after, role_of, running_names, RequestedZone, Zone, ZonesStep,
};
use crate::sled_agent::error::{
    BundleError, BundleFailure, Error, InstanceError, InstanceManagerError,
};
use crate::sled_agent::startup::{
    after, reservoir_of, startup_steps, AfterStep, Config, ReservoirMode, StartRequest,
    StartupStep, StepOutcome,
};
use crate::storage::disk::ZpoolName;

verus! {

/// A sled is a scrimlet if and only if it has a switch, and a gimlet otherwise.
pub proof fn only_a_sled_with_a_switch_is_a_scrimlet(is_scrimlet: bool)
    ensures
        role_of(is_scrimlet) is Scrimlet <==> is_scrimlet,
        role_of(is_scrimlet) is Gimlet <==> !is_scrimlet,
{
}

/// The names that are listed are those of the zones that run, each zone once, in the order of the
/// zones.
pub proof fn only_running_zones_are_listed(zones: Seq<Zone>)
    ensures
        running_names(zones) == zones.filter(|zone: Zone| zone.running).map_values(
            |zone: Zone| zone.name@,
        ),
    decreases zones.len(),
{
    reveal(Seq::filter);
    let running = |zone: Zone| zone.running;
    let name = |zone: Zone| zone.name@;
    if zones.len() > 0 {
        let rest = zones.drop_last();
        only_running_zones_are_listed(rest);
        if zones.last().running {
            assert(zones.filter(running) == rest.filter(running).push(zones.last()));
            assert(zones.filter(running).map_values(name) =~= rest.filter(running).map_values(
                name,
            ).push(zones.last().name@));
        }
    } else {
        assert(running_names(zones) =~= zones.filter(running).map_values(name));
    }
}

/// A dataset is made for each zone that needs one, and for no other, with the id of the zone, in the
/// order of the zones.
pub proof fn zones_get_the_datasets_that_they_need(zones: Seq<RequestedZone>)
    ensures
        dataset_steps(zones) == zones.filter(
            |zone: RequestedZone| zone.dataset_name is Some,
        ).map_values(
            |zone: RequestedZone|
                (ZonesStep::UpsertFilesystem {
                    dataset_id: zone.id,
                    dataset_name: zone.dataset_name->0,
                }),
        ),
    decreases zones.len(),
{
    reveal(Seq::filter);
    let needs = |zone: RequestedZone| zone.dataset_name is Some;
    let step = |zone: RequestedZone|
        (ZonesStep::UpsertFilesystem { dataset_id: zone.id, dataset_name: zone.dataset_name->0 });
    if zones.len() > 0 {
        let rest = zones.drop_last();
        zones_get_the_datasets_that_they_need(rest);
        if zones.last().dataset_name is Some {
            assert(zones.filter(needs) == rest.filter(needs).push(zones.last()));
            assert(zones.filter(needs).map_values(step) =~= rest.filter(needs).map_values(
                step,
            ).push(step(zones.last())));
        }
    } else {
        assert(dataset_steps(zones) =~= zones.filter(needs).map_values(step));
    }
}

/// The sled that answered has the serial number and the part number that are looked for.
pub open spec fn has_board(reply: (u128, Option<Baseboard>), sled_id: BaseboardId) -> bool {
    reply.1 matches Some(board) && board.identifier@ == sled_id.serial_number@ && board.model@
        == sled_id.part_number@
}

/// A search finds the first sled that answered with the serial number and the part number that are
/// looked for, at the address from which it answered. It finds none only where none answered so.
pub proof fn the_first_matching_sled_is_found(
    sled_id: BaseboardId,
    replies: Seq<(u128, Option<Baseboard>)>,
)
    ensures
        match found_after(sled_id, replies) {
            Some((ip, board)) => exists|i: int|
                0 <= i < replies.len() && has_board(#[trigger] replies[i], sled_id) && replies[i]
                    == (ip, Some(board)) && forall|j: int|
                    0 <= j < i ==> !has_board(#[trigger] replies[j], sled_id),
            None => forall|i: int|
                0 <= i < replies.len() ==> !has_board(#[trigger] replies[i], sled_id),
        },
    decreases replies.len(),
{
    if replies.len() > 0 {
        let rest = replies.drop_last();
        let n = replies.len() - 1;
        the_first_matching_sled_is_found(sled_id, rest);
        assert(forall|i: int| 0 <= i < n ==> rest[i] == replies[i]);
        match found_after(sled_id, rest) {
            Some((ip, board)) => {
                let i = choose|i: int|
                    0 <= i < rest.len() && has_board(#[trigger] rest[i], sled_id) && rest[i] == (
                        ip,
                        Some(board),
                    ) && forall|j: int|
                        0 <= j < i ==> !has_board(#[trigger] rest[j], sled_id);
                assert(has_board(replies[i], sled_id));
                assert forall|j: int| 0 <= j < i implies !has_board(
                    #[trigger] replies[j],
                    sled_id,
                ) by {
                    assert(rest[j] == replies[j]);
                }
            },
            None => {
                assert forall|j: int| 0 <= j < n implies !has_board(
                    #[trigger] replies[j],
                    sled_id,
                ) by {
                    assert(rest[j] == replies[j]);
                }
                if has_board(replies[n], sled_id) {
                    assert(found_after(sled_id, replies) == Some((replies[n].0, replies[n].1->0)));
                }
            },
        }
    }
}

/// Memory is set apart by the percentage or by the size that is configured, and not at all where
/// neither is.
pub proof fn memory_is_set_apart_as_configured(config: Config, percentage: u8, size: u32)
    requires
        config.valid(),
    ensures
        config.vmm_reservoir_percentage == Some(percentage) ==> reservoir_of(config)
            == ReservoirMode::Percentage(percentage),
        config.vmm_reservoir_size_mb == Some(size) ==> reservoir_of(config) == ReservoirMode::Size(
            size,
        ),
        reservoir_of(config) is Unused <==> config.vmm_reservoir_percentage is None
            && config.vmm_reservoir_size_mb is None,
{
}

/// A swap device is made first, with the size that is configured, if and only if one is configured.
/// Memory is set apart, between the start of the instance manager and that of the services, if and
/// only if an amount other than zero is configured. All other steps are taken in every start.
pub proof fn starts_take_these_steps(config: Config, request: StartRequest, zpool: ZpoolName)
    requires
        config.valid(),
    ensures
        ({
            let address = request.sled_address.ip;
            let swap = match config.swap_device_size_gb {
                Some(size_gb) => seq![StartupStep::EnsureSwapDevice { zpool, size_gb }],
                None => seq![],
            };
            let memory = match (config.vmm_reservoir_percentage, config.vmm_reservoir_size_mb) {
                (Some(p), None) if p > 0 => seq![
                    StartupStep::SetReservoir { mode: ReservoirMode::Percentage(p) },
                ],
                (None, Some(mb)) if mb > 0 => seq![
                    StartupStep::SetReservoir { mode: ReservoirMode::Size(mb) },
                ],
                _ => seq![],
            };
            startup_steps(config, request, zpool) == swap + seq![
                StartupStep::EnsureBackingFs { zpool },
                StartupStep::EnsureContractReaper,
                StartupStep::EnsureEtherstub,
                StartupStep::EnsureEtherstubVnic,
                StartupStep::EnsureGlobalZoneAddress { address },
                StartupStep::InitializeXdeDriver,
                StartupStep::StartPortManager { address },
                StartupStep::AnnounceUnderlay { sled_id: request.id },
                StartupStep::StartInstanceManager,
            ] + memory + seq![
                StartupStep::FetchNetworkConfig,
                StartupStep::StartServices {
                    sled_id: request.id,
                    rack_id: request.rack_id,
                    address,
                },
                StartupStep::StartMetrics { sled_id: request.id, rack_id: request.rack_id },
                StartupStep::TrackLinks,
                StartupStep::RegisterProducer { id: request.id, address: request.sled_address },
                StartupStep::NotifyNexus,
            ]
        }),
{
}

/// A step that is done is followed by the next one.
pub proof fn done_steps_are_followed_by_the_next(step: StartupStep)
    ensures
        after(step, StepOutcome::Done) is Next,
{
}

/// The network configuration is asked for again until it is there, and nothing else is tried again.
pub proof fn only_the_network_configuration_is_asked_for_again(
    step: StartupStep,
    outcome: StepOutcome,
)
    ensures
        after(step, outcome) is Retry <==> step is FetchNetworkConfig && outcome is Failed,
{
}

/// Where devices of the underlay cannot be used the start fails, with the text of what failed.
pub proof fn a_start_needs_the_underlay(step: StartupStep, cause: String)
    ensures
        after(step, StepOutcome::UnderlayFailed { cause }) == (AfterStep::Fail {
            error: Error::Underlay { cause },
        }),
{
}

/// A step of the background fails nothing. Any other step that fails ends the start, and the error
/// says which part of the system failed, with its text.
pub proof fn failed_steps_end_the_start(step: StartupStep, cause: String)
    ensures
        ({
            let next = after(step, StepOutcome::Failed { cause });
            &&& step is TrackLinks || step is RegisterProducer || step is EnsureContractReaper
                || step is StartPortManager ==> next is Next
            &&& step is EnsureSwapDevice ==> next == (AfterStep::Fail {
                error: Error::SwapDevice { cause },
            })
            &&& step is EnsureBackingFs ==> next == (AfterStep::Fail {
                error: Error::BackingFs { cause },
            })
            &&& step is EnsureEtherstub ==> next == (AfterStep::Fail {
                error: Error::Etherstub { cause },
            })
            &&& step is EnsureEtherstubVnic ==> next == (AfterStep::Fail {
                error: Error::EtherstubVnic { cause },
            })
            &&& step is EnsureGlobalZoneAddress ==> next == (AfterStep::Fail {
                error: Error::SledSubnet { cause },
            })
            &&& step is InitializeXdeDriver ==> next == (AfterStep::Fail {
                error: Error::Opte { cause },
            })
            &&& step is StartInstanceManager || step is SetReservoir ==> next == (AfterStep::Fail {
                error: Error::Instance { error: InstanceManagerError::Other { text: cause } },
            })
            &&& step is StartServices ==> next == (AfterStep::Fail {
                error: Error::Services { cause },
            })
            &&& step is StartMetrics ==> next == (AfterStep::Fail {
                error: Error::Metrics { cause },
            })
        }),
{
}

/// The text behind which another part's text stands.
pub open spec fn told_behind(error: Error, introduction: Seq<char>, cause: String) -> bool {
    error.text_of() == introduction + cause@
}

/// The text of an error says what failed, and then what the failed part said of it.
pub proof fn errors_tell_their_causes(cause: String, failure: BundleFailure)
    ensures
        told_behind(Error::Config { cause }, "Configuration error: "@, cause),
        told_behind(Error::BackingFs { cause }, "Error setting up backing filesystems: "@, cause),
        told_behind(Error::SwapDevice { cause }, "Error setting up swap device: "@, cause),
        told_behind(Error::Etherstub { cause }, "Failed to acquire etherstub: "@, cause),
        told_behind(Error::EtherstubVnic { cause }, "Failed to acquire etherstub VNIC: "@, cause),
        told_behind(Error::Bootstrap { cause }, "Bootstrap error: "@, cause),
        told_behind(Error::DeleteAddress { cause }, "Failed to remove Omicron address: "@, cause),
        told_behind(Error::Underlay { cause }, "Failed to operate on underlay device: "@, cause),
        told_behind(Error::SledSubnet { cause }, "Failed to create Sled Subnet: "@, cause),
        told_behind(Error::Storage { cause }, "Error managing storage: "@, cause),
        told_behind(Error::Download { cause }, "Error updating: "@, cause),
        told_behind(Error::Opte { cause }, "Error managing guest networking: "@, cause),
        told_behind(Error::Hardware { cause }, "Error monitoring hardware: "@, cause),
        told_behind(Error::ResolveError { cause }, "Error resolving DNS name: "@, cause),
        told_behind(Error::Bootstore { cause }, "Bootstore Error: "@, cause),
        told_behind(
            Error::EarlyNetworkDeserialize { cause },
            "Failed to deserialize early network config: "@,
            cause,
        ),
        told_behind(Error::Metrics { cause }, "Metrics error: "@, cause),
        told_behind(
            Error::ZoneBundle { bundle: BundleError { failure, text: cause } },
            "Zone bundle error: "@,
            cause,
        ),
        told_behind(
            Error::Instance { error: InstanceManagerError::Other { text: cause } },
            "Error managing instances: "@,
            cause,
        ),
        Error::BootDiskNotFound.text_of() == "Could not find boot disk"@,
        Error::FirewallRequest.text_of() == "Failed to request firewall rules"@,
        (Error::Services { cause }).text_of() == cause@,
        (Error::ZpoolList { cause }).text_of() == cause@,
        (Error::EarlyNetworkError { cause }).text_of() == cause@,
{
}

/// The status that an error is answered with, and what the client and the log are told.
pub open spec fn answered(
    error: Error,
    status: u16,
    external_message: Seq<char>,
    internal_message: Seq<char>,
) -> bool {
    let reply = error.answer();
    &&& reply.status_code == status
    &&& reply.external_message == external_message
    &&& reply.internal_message == internal_message
    &&& reply.error_code == (if status == 500 {
        Some("Internal"@)
    } else {
        None
    })
}

/// An error with which Propolis answered.
pub open spec fn said_by_propolis(status: Option<u16>, said: String, text: String) -> Error {
    Error::Instance {
        error: InstanceManagerError::Instance {
            error: InstanceError::Propolis { status, text: said },
            text,
        },
    }
}

/// Where Propolis refused a request as the client's fault, its status is handed on. Where it is not
/// available, that is answered, and any other failure of it, or that it could not be asked, is an
/// internal error. The text of what failed goes to the log, and never to the client.
pub proof fn failures_of_propolis_are_answered(status: u16, said: String, text: String)
    ensures
        answered(said_by_propolis(None, said, text), 500, "Internal Server Error"@, said@),
        400 <= status < 500 ==> answered(
            said_by_propolis(Some(status), said, text),
            status,
            label_of(status),
            label_of(status),
        ),
        answered(said_by_propolis(Some(503), said, text), 503, "Service Unavailable"@, said@),
        (status < 400 || 500 <= status) && status != 503 ==> answered(
            said_by_propolis(Some(status), said, text),
            500,
            "Internal Server Error"@,
            said@,
        ),
{
}

/// An instance that cannot go to the state that was asked for is answered as the transition says.
/// Any other failure of an instance is an internal error.
pub proof fn failures_of_instances_are_answered(reply: HttpReply, said: String, text: String)
    ensures
        (Error::Instance {
            error: InstanceManagerError::Instance {
                error: InstanceError::Transition { reply, text: said },
                text,
            },
        }).answer() == reply@,
        answered(
            Error::Instance {
                error: InstanceManagerError::Instance {
                    error: InstanceError::Other { text: said },
                    text,
                },
            },
            500,
            "Internal Server Error"@,
            said@,
        ),
        answered(
            Error::Instance { error: InstanceManagerError::Other { text } },
            500,
            "Internal Server Error"@,
            text@,
        ),
{
}

/// What is wrong with a zone bundle decides how it is answered: storage that is missing or not at
/// hand may be there later, a zone that is missing is not found, and limits that are out of range
/// are the client's fault.
pub proof fn failures_of_bundles_are_answered(bundle: BundleError)
    ensures
        ({
            let error = Error::ZoneBundle { bundle };
            let text = bundle.text@;
            match bundle.failure {
                BundleFailure::NoStorage => answered(error, 503, "Service Unavailable"@, text),
                BundleFailure::Unavailable => answered(error, 503, "Service Unavailable"@, text),
                BundleFailure::NoSuchZone => answered(error, 404, "Not Found"@, text),
                BundleFailure::InvalidStorageLimit => answered(error, 400, text, text),
                BundleFailure::InvalidCleanupPeriod => answered(error, 400, text, text),
                BundleFailure::Other => answered(
                    error,
                    500,
                    "Internal Server Error"@,
                    "Zone bundle error: "@ + text,
                ),
            }
        }),
{
}

/// Every error but one that Propolis gave as the client's fault can be answered, and that one can
/// where its status is one of those with a label.
pub proof fn errors_can_be_answered(error: Error, status: u16, said: String, text: String)
    ensures
        error !is Instance ==> error.answerable(),
        said_by_propolis(None, said, text).answerable(),
        status < 400 || 500 <= status ==> said_by_propolis(Some(status), said, text).answerable(),
        400 <= status <= 418 || 421 <= status <= 424 || status == 426 || status == 428 || status
            == 429 || status == 431 || status == 451 ==> said_by_propolis(
            Some(status),
            said,
            text,
        ).answerable(),
{
}

} // verus!
