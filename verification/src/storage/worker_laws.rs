//! What the preparation of a dataset promises: which commands run in its zone, and how it goes on
//! from one state to the next.

use vstd::prelude::*;

use crate::ids::{uuid_of_text, Uuid};
use crate::storage::worker::{
    next_state, parsed_property, setup_command, CommandView, DatasetName, PartitionInfo, Program,
    RunningZone, SetupEvent, SetupState,
};

verus! {

/// The command line is this one.
pub open spec fn runs(command: CommandView, program: Program, args: Seq<Seq<char>>) -> bool {
    command.program == program && command.args == args
}

/// The service of the database is imported before anything is set, listens at the address of its
/// zone, stores its data in the directory of the dataset, knows no other node to join, and is
/// started only once what was set took effect.
pub proof fn the_database_is_configured_before_it_starts(
    address: Seq<char>,
    data_directory: Seq<char>,
)
    ensures
        runs(
            setup_command(address, data_directory, 0),
            Program::ConfigureService,
            seq!["import"@, "/var/svc/manifest/site/cockroachdb/manifest.xml"@],
        ),
        runs(
            setup_command(address, data_directory, 1),
            Program::ConfigureService,
            seq![
                "-s"@,
                "svc:system/illumos/cockroachdb"@,
                "setprop"@,
                "config/listen_addr="@ + address,
            ],
        ),
        runs(
            setup_command(address, data_directory, 2),
            Program::ConfigureService,
            seq![
                "-s"@,
                "svc:system/illumos/cockroachdb"@,
                "setprop"@,
                "config/store="@ + data_directory,
            ],
        ),
        runs(
            setup_command(address, data_directory, 3),
            Program::ConfigureService,
            seq![
                "-s"@,
                "svc:system/illumos/cockroachdb"@,
                "setprop"@,
                "config/join_addrs=unknown"@,
            ],
        ),
        runs(
            setup_command(address, data_directory, 4),
            Program::ConfigureService,
            seq!["-s"@, "svc:system/illumos/cockroachdb:default"@, "refresh"@],
        ),
        runs(
            setup_command(address, data_directory, 5),
            Program::AdministerService,
            seq!["enable"@, "-t"@, "svc:/system/illumos/cockroachdb:default"@],
        ),
{
}

/// The id that a state is about, once there is one.
pub open spec fn id_in(state: SetupState) -> Option<Uuid> {
    match state {
        SetupState::EnsuringFilesystem => None,
        SetupState::ReadingId => None,
        SetupState::WritingId { id } => Some(id),
        SetupState::FindingZone { id } => Some(id),
        SetupState::InstallingZone { id } => Some(id),
        SetupState::BootingZone { id } => Some(id),
        SetupState::Configuring { id, .. } => Some(id),
        SetupState::Finished { id, .. } => Some(id),
    }
}

/// Once a dataset has an id, it keeps it until it is ready, whatever happens.
pub proof fn datasets_stay_under_their_ids(
    state: SetupState,
    event: SetupEvent,
    parsed: Option<Uuid>,
    fresh: Uuid,
)
    ensures
        id_in(state) is Some ==> id_in(next_state(state, event, parsed, fresh)) == id_in(state),
        id_in(state) is None && id_in(next_state(state, event, parsed, fresh)) is Some
            ==> state is ReadingId && event is IdRead,
{
}

/// A dataset that has an id is looked up under it, and nothing is written. One that has none, or
/// whose property is no id, gets a new one, which is written before a zone is looked for.
pub proof fn only_missing_ids_are_written(text: String, fresh: Uuid, id: Uuid)
    ensures
        ({
            let event = SetupEvent::IdRead(Some(text));
            let next = next_state(SetupState::ReadingId, event, parsed_property(event), fresh);
            match uuid_of_text(text@) {
                Some(found) => next == (SetupState::FindingZone { id: found }),
                None => next == (SetupState::WritingId { id: fresh }),
            }
        }),
        ({
            let event = SetupEvent::IdRead(None);
            next_state(SetupState::ReadingId, event, parsed_property(event), fresh)
                == (SetupState::WritingId { id: fresh })
        }),
        next_state(SetupState::WritingId { id }, SetupEvent::IdWritten, None, fresh)
            == (SetupState::FindingZone { id }),
{
}

/// A dataset has to exist before its id is read.
pub proof fn ids_are_read_from_datasets_that_exist(
    event: SetupEvent,
    parsed: Option<Uuid>,
    fresh: Uuid,
)
    ensures
        next_state(SetupState::EnsuringFilesystem, event, parsed, fresh) == (
        if event is FilesystemReady {
            SetupState::ReadingId
        } else {
            SetupState::EnsuringFilesystem
        }),
{
}

/// A zone that runs is configured from the first command on. One that does not run is installed and
/// booted before that.
pub proof fn zones_run_before_they_are_configured(
    id: Uuid,
    zone: RunningZone,
    parsed: Option<Uuid>,
    fresh: Uuid,
)
    ensures
        next_state(
            SetupState::FindingZone { id },
            SetupEvent::ZoneRunning(zone),
            parsed,
            fresh,
        ) == (SetupState::Configuring { id, zone, next: 0 }),
        next_state(SetupState::FindingZone { id }, SetupEvent::ZoneNotRunning, parsed, fresh) == (
        SetupState::InstallingZone { id }),
        next_state(SetupState::InstallingZone { id }, SetupEvent::ZoneInstalled, parsed, fresh)
            == (SetupState::BootingZone { id }),
        next_state(
            SetupState::BootingZone { id },
            SetupEvent::ZoneRunning(zone),
            parsed,
            fresh,
        ) == (SetupState::Configuring { id, zone, next: 0 }),
{
}

/// Each command that ran brings the zone to the next one, and the sixth to the end.
pub proof fn a_zone_is_ready_after_its_last_command(
    id: Uuid,
    zone: RunningZone,
    next: usize,
    parsed: Option<Uuid>,
    fresh: Uuid,
)
    ensures
        next < 5 ==> next_state(
            SetupState::Configuring { id, zone, next },
            SetupEvent::CommandRan,
            parsed,
            fresh,
        ) == (SetupState::Configuring { id, zone, next: (next + 1) as usize }),
        next == 5 ==> next_state(
            SetupState::Configuring { id, zone, next },
            SetupEvent::CommandRan,
            parsed,
            fresh,
        ) == (SetupState::Finished { id, zone }),
{
}

/// An event that does not belong to a state changes nothing, and nothing follows the end.
pub proof fn other_events_change_nothing(
    state: SetupState,
    event: SetupEvent,
    parsed: Option<Uuid>,
    fresh: Uuid,
)
    requires
        match state {
            SetupState::EnsuringFilesystem => event !is FilesystemReady,
            SetupState::ReadingId => event !is IdRead,
            SetupState::WritingId { .. } => event !is IdWritten,
            SetupState::FindingZone { .. } => event !is ZoneRunning && event !is ZoneNotRunning,
            SetupState::InstallingZone { .. } => event !is ZoneInstalled,
            SetupState::BootingZone { .. } => event !is ZoneRunning,
            SetupState::Configuring { .. } => event !is CommandRan,
            SetupState::Finished { .. } => true,
        },
    ensures
        next_state(state, event, parsed, fresh) == state,
{
}

/// Datasets of a zpool are named below it. The zones for a dataset begin with its name, and run from
/// the image that has its name.
pub proof fn zones_are_named_for_their_datasets(name: DatasetName, partition: PartitionInfo)
    ensures
        name.text() == name.pool_name@ + "/"@ + name.dataset_name@,
        partition.prefix() == "oxz_"@ + partition.name@ + "_"@,
        partition.image() == "/opt/oxide/"@ + partition.name@ + ".tar.gz"@,
{
}

} // verus!
