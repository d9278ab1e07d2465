//! The worker that prepares the datasets of new zpools, and runs a zone for each of them.

use vstd::prelude::*;

use crate::ids::{
    format_uuid, is_random_id, parse_uuid, random_uuid, text_of_uuid, uuid_of_text, Uuid,
};
use crate::ordmap::OrdMap;
use crate::storage::resources::ZpoolInfo;
use crate::text::{joined, texts};

verus! {

/// The largest number of bytes that a byte count can hold.
pub const MAX_BYTE_COUNT: u64 = 0x7fff_ffff_ffff_ffff;

/// Why the worker failed. What the system says where one of its commands fails is not told apart
/// here.
#[derive(Debug, Clone, Copy, PartialEq, Eq, Structural)]
pub enum WorkerError {
    /// The name of a zpool is no UUID.
    Parse,
    /// A zpool has more bytes than can be counted.
    BadPoolSize { size: u64 },
}

impl WorkerError {
    /// What the error says, where this is what is wrong with the name or with the size.
    pub open spec fn text(self, cause: Seq<char>) -> Seq<char> {
        match self {
            WorkerError::Parse => "Failed to parse as UUID: "@ + cause,
            WorkerError::BadPoolSize { .. } => "Error parsing pool size: "@ + cause,
        }
    }

    /// What the error says, where this is what is wrong with the name or with the size.
    pub fn message(&self, cause: &str) -> (s: String)
        ensures
            s@ == self.text(cause@),
    {
        match self {
            WorkerError::Parse => joined("Failed to parse as UUID: ", cause),
            WorkerError::BadPoolSize { .. } => joined("Error parsing pool size: ", cause),
        }
    }
}

/// What a zpool says of itself, with its name.
#[derive(Debug, PartialEq, Eq)]
pub struct PoolInfo {
    pub name: String,
    pub zpool: ZpoolInfo,
}

impl Clone for PoolInfo {
    fn clone(&self) -> (r: Self)
        ensures
            r == *self,
    {
        PoolInfo { name: self.name.clone(), zpool: self.zpool }
    }
}

/// A zone that runs, and the address at which it serves.
#[derive(Debug, PartialEq, Eq)]
pub struct RunningZone {
    pub name: String,
    pub address: String,
}

impl Clone for RunningZone {
    fn clone(&self) -> (r: Self)
        ensures
            r == *self,
    {
        RunningZone { name: self.name.clone(), address: self.address.clone() }
    }
}

/// A zpool, with the zones that run on behalf of its datasets.
#[derive(Debug, PartialEq, Eq)]
pub struct Pool {
    pub id: Uuid,
    pub info: PoolInfo,
    pub zones: OrdMap<u128, RunningZone>,
}

impl Pool {
    /// A zpool whose name was parsed as an id. No zone runs for it.
    pub fn with_id(info: PoolInfo, id: Option<Uuid>) -> (r: Result<Pool, WorkerError>)
        ensures
            match (id, r) {
                (Some(id), Ok(pool)) => pool.id == id && pool.info == info && pool.zones@ == Map::<
                    u128,
                    RunningZone,
                >::empty(),
                (None, Err(e)) => e == WorkerError::Parse,
                _ => false,
            },
    {
        match id {
            Some(id) => Ok(Pool { id, info, zones: OrdMap::new() }),
            None => Err(WorkerError::Parse),
        }
    }

    /// A zpool, whose name has to be its id. No zone runs for it.
    pub fn new(info: PoolInfo) -> (r: Result<Pool, WorkerError>)
        ensures
            match (uuid_of_text(info.name@), r) {
                (Some(id), Ok(pool)) => pool.id == id && pool.info == info && pool.zones@ == Map::<
                    u128,
                    RunningZone,
                >::empty(),
                (None, Err(e)) => e == WorkerError::Parse,
                _ => false,
            },
    {
        let id = parse_uuid(info.name.as_str());
        Pool::with_id(info, id)
    }

    /// Notes the zone that runs on behalf of a dataset, in place of one that was noted before.
    pub fn add_zone(&mut self, id: Uuid, zone: RunningZone)
        ensures
            final(self).zones@ == old(self).zones@.insert(id, zone),
            final(self).id == old(self).id,
            final(self).info == old(self).info,
    {
        let _ = self.zones.insert(id, zone);
    }

    /// The zone that runs on behalf of a dataset.
    pub fn get_zone(&self, id: Uuid) -> (zone: Option<&RunningZone>)
        ensures
            match zone {
                Some(zone) => self.zones@.contains_key(id) && self.zones@[id] == *zone,
                None => !self.zones@.contains_key(id),
            },
    {
        self.zones.get(&id)
    }

    /// The id of the zpool.
    pub fn id(&self) -> (id: Uuid)
        ensures
            id == self.id,
    {
        self.id
    }
}

/// The name of a dataset.
#[derive(Debug, PartialEq, Eq)]
pub struct DatasetName {
    /// The name of the zpool that holds the dataset.
    pub pool_name: String,
    /// The name of the dataset within the zpool.
    pub dataset_name: String,
}

impl DatasetName {
    /// The whole name.
    pub open spec fn text(self) -> Seq<char> {
        self.pool_name@ + "/"@ + self.dataset_name@
    }

    /// The dataset of a zpool with the given name there.
    pub fn new(pool_name: &str, dataset_name: &str) -> (name: Self)
        ensures
            name.pool_name@ == pool_name@,
            name.dataset_name@ == dataset_name@,
    {
        DatasetName { pool_name: pool_name.to_owned(), dataset_name: dataset_name.to_owned() }
    }

    /// The whole name: that of the zpool, a slash, and that of the dataset.
    pub fn full(&self) -> (s: String)
        ensures
            s@ == self.text(),
    {
        let mut s = self.pool_name.as_str().to_owned();
        s.append("/");
        s.append(self.dataset_name.as_str());
        s
    }
}

/// What a dataset is for.
#[derive(Debug, Clone, Copy, PartialEq, Eq, Structural)]
pub enum DatasetKind {
    Crucible,
    Cockroach,
}

/// A dataset that is wanted on each zpool.
#[derive(Debug, PartialEq, Eq)]
pub struct PartitionInfo {
    pub name: String,
    pub data_directory: String,
    pub port: u16,
    pub kind: DatasetKind,
}

impl PartitionInfo {
    /// How the names of the zones for this dataset begin.
    pub open spec fn prefix(self) -> Seq<char> {
        "oxz_"@ + self.name@ + "_"@
    }

    /// The path of the image of the zones for this dataset.
    pub open spec fn image(self) -> Seq<char> {
        "/opt/oxide/"@ + self.name@ + ".tar.gz"@
    }

    /// How the names of the zones for this dataset begin.
    pub fn zone_prefix(&self) -> (s: String)
        ensures
            s@ == self.prefix(),
    {
        let mut s = "oxz_".to_owned();
        s.append(self.name.as_str());
        s.append("_");
        s
    }

    /// The name of the zone for this dataset on a zpool. It tells zpools apart, and stays the same
    /// when the sled restarts.
    pub fn zone_name(&self, dataset_name: &DatasetName) -> (s: String)
        ensures
            s@ == self.prefix() + dataset_name.pool_name@,
    {
        let mut s = self.zone_prefix();
        s.append(dataset_name.pool_name.as_str());
        s
    }

    /// The path of the image of the zones for this dataset.
    pub fn zone_image(&self) -> (s: String)
        ensures
            s@ == self.image(),
    {
        let mut s = "/opt/oxide/".to_owned();
        s.append(self.name.as_str());
        s.append(".tar.gz");
        s
    }
}

/// Zones for the same dataset on different zpools have different names.
pub proof fn zone_names_are_distinct(partition: PartitionInfo, pool: Seq<char>, other: Seq<char>)
    requires
        pool != other,
    ensures
        partition.prefix() + pool != partition.prefix() + other,
{
    let p = partition.prefix();
    if p + pool == p + other {
        assert((p + pool).skip(p.len() as int) =~= pool);
        assert((p + other).skip(p.len() as int) =~= other);
    }
}

/// The datasets that are wanted on each zpool.
pub fn partitions() -> (r: Vec<PartitionInfo>)
    ensures
        r@.len() == 1,
        r@[0].name@ == "cockroachdb"@,
        r@[0].data_directory@ == "/data"@,
        r@[0].port == 32221,
        r@[0].kind == DatasetKind::Cockroach,
{
    let mut r: Vec<PartitionInfo> = Vec::new();
    r.push(
        PartitionInfo {
            name: "cockroachdb".to_owned(),
            data_directory: "/data".to_owned(),
            port: 32221,
            kind: DatasetKind::Cockroach,
        },
    );
    r
}

/// The id of a dataset.
#[derive(Debug, Clone, Copy, PartialEq, Eq, Structural)]
pub enum DatasetId {
    /// The dataset had it.
    Found { id: Uuid },
    /// It is new, and has to be written to the dataset.
    Assigned { id: Uuid },
}

/// The id of a dataset that has this one, if it has one.
pub open spec fn id_for(found: Option<Uuid>, fresh: Uuid) -> DatasetId {
    match found {
        Some(id) => DatasetId::Found { id },
        None => DatasetId::Assigned { id: fresh },
    }
}

/// A dataset that has an id is found to have it, whatever new one is at hand. Only one that has none
/// is given the new one.
pub proof fn ids_of_datasets_are_not_replaced(id: Uuid, fresh: Uuid)
    ensures
        id_for(Some(id), fresh) == (DatasetId::Found { id }),
        id_for(None, fresh) == (DatasetId::Assigned { id: fresh }),
{
}

/// The id of a dataset, where `found` is the one that it has, if it has one, and `fresh` a new one.
pub fn dataset_id(found: Option<Uuid>, fresh: Uuid) -> (r: DatasetId)
    ensures
        r == (match found {
            Some(id) => DatasetId::Found { id },
            None => DatasetId::Assigned { id: fresh },
        }),
        r == id_for(found, fresh),
{
    match found {
        Some(id) => DatasetId::Found { id },
        None => DatasetId::Assigned { id: fresh },
    }
}

/// Makes sure that a dataset has an id, where this is its property, if it has one. A property that
/// is no id is replaced.
pub fn ensure_dataset_with_id(property: Option<&str>) -> (r: DatasetId)
    ensures
        ({
            let found = match property {
                Some(text) => uuid_of_text(text@),
                None => None,
            };
            match found {
                Some(id) => r == (DatasetId::Found { id }),
                None => r matches DatasetId::Assigned { id } && is_random_id(id),
            }
        }),
{
    let found = match property {
        Some(text) => parse_uuid(text),
        None => None,
    };
    match found {
        Some(id) => dataset_id(Some(id), id),
        None => dataset_id(None, random_uuid()),
    }
}

/// A program of the system.
#[derive(Debug, Clone, Copy, PartialEq, Eq, Structural)]
pub enum Program {
    /// `svccfg`
    ConfigureService,
    /// `svcadm`
    AdministerService,
}

/// A command to be run in a zone.
#[derive(Debug, PartialEq, Eq)]
pub struct Command {
    pub program: Program,
    pub args: Vec<String>,
}

/// The program of a command, and its arguments.
#[verifier::ext_equal]
pub ghost struct CommandView {
    pub program: Program,
    pub args: Seq<Seq<char>>,
}

impl View for Command {
    type V = CommandView;

    open spec fn view(&self) -> CommandView {
        CommandView { program: self.program, args: texts(self.args@) }
    }
}

/// The command that sets a property of the database's service.
pub open spec fn set_property(property: Seq<char>) -> CommandView {
    CommandView {
        program: Program::ConfigureService,
        args: seq!["-s"@, "svc:system/illumos/cockroachdb"@, "setprop"@, property],
    }
}

/// The number of commands that bring up the database in a new zone.
pub const SETUP_COMMANDS: usize = 6;

/// The commands that bring up the database in a zone, in their order: the service is imported, its
/// properties are set and take effect, and it is started.
pub open spec fn setup_command(address: Seq<char>, data_directory: Seq<char>, i: int) -> CommandView {
    if i == 0 {
        CommandView {
            program: Program::ConfigureService,
            args: seq!["import"@, "/var/svc/manifest/site/cockroachdb/manifest.xml"@],
        }
    } else if i == 1 {
        set_property("config/listen_addr="@ + address)
    } else if i == 2 {
        set_property("config/store="@ + data_directory)
    } else if i == 3 {
        set_property("config/join_addrs=unknown"@)
    } else if i == 4 {
        CommandView {
            program: Program::ConfigureService,
            args: seq!["-s"@, "svc:system/illumos/cockroachdb:default"@, "refresh"@],
        }
    } else {
        CommandView {
            program: Program::AdministerService,
            args: seq!["enable"@, "-t"@, "svc:/system/illumos/cockroachdb:default"@],
        }
    }
}

fn set_property_command(property: String) -> (c: Command)
    ensures
        c@ == set_property(property@),
{
    let mut args: Vec<String> = Vec::new();
    args.push("-s".to_owned());
    args.push("svc:system/illumos/cockroachdb".to_owned());
    args.push("setprop".to_owned());
    args.push(property);
    let c = Command { program: Program::ConfigureService, args };
    assert(c@.args =~= set_property(property@).args);
    c
}

fn property(name: &str, value: &str) -> (s: String)
    ensures
        s@ == name@ + value@,
{
    let mut s = name.to_owned();
    s.append(value);
    s
}

/// The command at a place in the order in which they are run.
pub fn setup_command_at(address: &str, data_directory: &str, i: usize) -> (c: Command)
    requires
        i < SETUP_COMMANDS,
    ensures
        c@ == setup_command(address@, data_directory@, i as int),
{
    let mut args: Vec<String> = Vec::new();
    if i == 0 {
        args.push("import".to_owned());
        args.push("/var/svc/manifest/site/cockroachdb/manifest.xml".to_owned());
        let c = Command { program: Program::ConfigureService, args };
        assert(c@.args =~= setup_command(address@, data_directory@, 0).args);
        c
    } else if i == 1 {
        set_property_command(property("config/listen_addr=", address))
    } else if i == 2 {
        set_property_command(property("config/store=", data_directory))
    } else if i == 3 {
        set_property_command("config/join_addrs=unknown".to_owned())
    } else if i == 4 {
        args.push("-s".to_owned());
        args.push("svc:system/illumos/cockroachdb:default".to_owned());
        args.push("refresh".to_owned());
        let c = Command { program: Program::ConfigureService, args };
        assert(c@.args =~= setup_command(address@, data_directory@, 4).args);
        c
    } else {
        args.push("enable".to_owned());
        args.push("-t".to_owned());
        args.push("svc:/system/illumos/cockroachdb:default".to_owned());
        let c = Command { program: Program::AdministerService, args };
        assert(c@.args =~= setup_command(address@, data_directory@, 5).args);
        c
    }
}

/// How far the preparation of a dataset is.
#[derive(Debug, PartialEq, Eq)]
pub enum SetupState {
    EnsuringFilesystem,
    ReadingId,
    WritingId { id: Uuid },
    FindingZone { id: Uuid },
    InstallingZone { id: Uuid },
    BootingZone { id: Uuid },
    /// The commands before the next one were run.
    Configuring { id: Uuid, zone: RunningZone, next: usize },
    Finished { id: Uuid, zone: RunningZone },
}

/// What is to be done next to prepare a dataset.
#[derive(Debug, PartialEq, Eq)]
pub enum SetupAction {
    /// The dataset has to exist, mounted there.
    EnsureFilesystem { dataset: String, mountpoint: String },
    /// The id that the dataset has is wanted.
    ReadId { dataset: String },
    /// The id has to be written to the dataset.
    WriteId { dataset: String, text: String },
    /// A running zone with a name that begins so is wanted.
    FindZone { prefix: String, port: u16 },
    /// A zone with a new control interface has to be installed.
    InstallZone { zone_name: String, image: String, dataset: String },
    /// The zone has to be booted.
    BootZone { zone_name: String, port: u16 },
    /// The command has to be run in the zone.
    Run { zone_name: String, command: Command },
    /// The dataset is ready.
    Finish,
}

/// What came of an action.
#[derive(Debug, PartialEq, Eq)]
pub enum SetupEvent {
    FilesystemReady,
    /// The property that holds the id, if it could be read.
    IdRead(Option<String>),
    IdWritten,
    ZoneRunning(RunningZone),
    ZoneNotRunning,
    ZoneInstalled,
    CommandRan,
}

/// The preparation of a dataset on a zpool.
#[derive(Debug, PartialEq, Eq)]
pub struct PartitionSetup {
    pub partition: PartitionInfo,
    pub dataset: DatasetName,
    pub state: SetupState,
}

/// The state after an event, where the dataset's property was parsed as `parsed`, and `fresh` is the
/// new id that it gets where it has none. An event that does not belong to the state changes
/// nothing.
pub open spec fn next_state(
    state: SetupState,
    event: SetupEvent,
    parsed: Option<Uuid>,
    fresh: Uuid,
) -> SetupState {
    match (state, event) {
        (SetupState::EnsuringFilesystem, SetupEvent::FilesystemReady) => SetupState::ReadingId,
        (SetupState::ReadingId, SetupEvent::IdRead(_)) => match parsed {
            Some(id) => SetupState::FindingZone { id },
            None => SetupState::WritingId { id: fresh },
        },
        (SetupState::WritingId { id }, SetupEvent::IdWritten) => SetupState::FindingZone { id },
        (SetupState::FindingZone { id }, SetupEvent::ZoneRunning(zone)) => SetupState::Configuring {
            id,
            zone,
            next: 0,
        },
        (SetupState::FindingZone { id }, SetupEvent::ZoneNotRunning) => SetupState::InstallingZone {
            id,
        },
        (SetupState::InstallingZone { id }, SetupEvent::ZoneInstalled) => SetupState::BootingZone {
            id,
        },
        (SetupState::BootingZone { id }, SetupEvent::ZoneRunning(zone)) => SetupState::Configuring {
            id,
            zone,
            next: 0,
        },
        (SetupState::Configuring { id, zone, next }, SetupEvent::CommandRan) => if next + 1
            < SETUP_COMMANDS {
            SetupState::Configuring { id, zone, next: (next + 1) as usize }
        } else {
            SetupState::Finished { id, zone }
        },
        _ => state,
    }
}

/// The id that a property stands for.
pub open spec fn parsed_property(event: SetupEvent) -> Option<Uuid> {
    match event {
        SetupEvent::IdRead(Some(text)) => uuid_of_text(text@),
        _ => None,
    }
}

impl PartitionSetup {
    /// The preparation is at a command that exists.
    pub open spec fn well_formed(self) -> bool {
        self.state matches SetupState::Configuring { next, .. } ==> next < SETUP_COMMANDS
    }

    /// Begins to prepare a dataset on a zpool.
    pub fn new(pool: &Pool, partition: PartitionInfo) -> (s: PartitionSetup)
        ensures
            s.well_formed(),
            s.partition == partition,
            s.dataset.pool_name@ == pool.info.name@,
            s.dataset.dataset_name@ == partition.name@,
            s.state == SetupState::EnsuringFilesystem,
    {
        let dataset = DatasetName::new(pool.info.name.as_str(), partition.name.as_str());
        PartitionSetup { partition, dataset, state: SetupState::EnsuringFilesystem }
    }

    /// What is to be done next.
    pub fn action(&self) -> (action: SetupAction)
        requires
            self.well_formed(),
        ensures
            match (self.state, action) {
                (
                    SetupState::EnsuringFilesystem,
                    SetupAction::EnsureFilesystem { dataset, mountpoint },
                ) => dataset@ == self.dataset.text() && mountpoint@ == "/data"@,
                (SetupState::ReadingId, SetupAction::ReadId { dataset }) => dataset@
                    == self.dataset.text(),
                (SetupState::WritingId { id }, SetupAction::WriteId { dataset, text }) => dataset@
                    == self.dataset.text() && text@ == text_of_uuid(id) && uuid_of_text(text@)
                    == Some(id),
                (SetupState::FindingZone { .. }, SetupAction::FindZone { prefix, port }) => prefix@
                    == self.partition.prefix() && port == self.partition.port,
                (
                    SetupState::InstallingZone { .. },
                    SetupAction::InstallZone { zone_name, image, dataset },
                ) => zone_name@ == self.partition.prefix() + self.dataset.pool_name@ && image@
                    == self.partition.image() && dataset@ == self.dataset.text(),
                (SetupState::BootingZone { .. }, SetupAction::BootZone { zone_name, port }) => {
                    &&& zone_name@ == self.partition.prefix() + self.dataset.pool_name@
                    &&& port == self.partition.port
                },
                (
                    SetupState::Configuring { zone, next, .. },
                    SetupAction::Run { zone_name, command },
                ) => zone_name == zone.name && command@ == setup_command(
                    zone.address@,
                    self.partition.data_directory@,
                    next as int,
                ),
                (SetupState::Finished { .. }, SetupAction::Finish) => true,
                _ => false,
            },
    {
        match &self.state {
            SetupState::EnsuringFilesystem => SetupAction::EnsureFilesystem {
                dataset: self.dataset.full(),
                mountpoint: "/data".to_owned(),
            },
            SetupState::ReadingId => SetupAction::ReadId { dataset: self.dataset.full() },
            SetupState::WritingId { id } => SetupAction::WriteId {
                dataset: self.dataset.full(),
                text: format_uuid(*id),
            },
            SetupState::FindingZone { .. } => SetupAction::FindZone {
                prefix: self.partition.zone_prefix(),
                port: self.partition.port,
            },
            SetupState::InstallingZone { .. } => SetupAction::InstallZone {
                zone_name: self.partition.zone_name(&self.dataset),
                image: self.partition.zone_image(),
                dataset: self.dataset.full(),
            },
            SetupState::BootingZone { .. } => SetupAction::BootZone {
                zone_name: self.partition.zone_name(&self.dataset),
                port: self.partition.port,
            },
            SetupState::Configuring { zone, next, .. } => SetupAction::Run {
                zone_name: zone.name.clone(),
                command: setup_command_at(
                    zone.address.as_str(),
                    self.partition.data_directory.as_str(),
                    *next,
                ),
            },
            SetupState::Finished { .. } => SetupAction::Finish,
        }
    }

    /// Goes on after an event. An event that does not belong to the state changes nothing.
    pub fn advance(&mut self, event: SetupEvent)
        requires
            old(self).well_formed(),
        ensures
            final(self).well_formed(),
            final(self).partition == old(self).partition,
            final(self).dataset == old(self).dataset,
            exists|fresh: Uuid|
                final(self).state == #[trigger] next_state(
                    old(self).state,
                    event,
                    parsed_property(event),
                    fresh,
                ),
            old(self).state is ReadingId ==> (final(self).state matches SetupState::WritingId { id }
                ==> is_random_id(id)),
    {
        let mut state = SetupState::EnsuringFilesystem;
        std::mem::swap(&mut state, &mut self.state);
        let ghost mut fresh: Uuid = 0;
        match (state, event) {
            (SetupState::EnsuringFilesystem, SetupEvent::FilesystemReady) => {
                self.state = SetupState::ReadingId;
            },
            (SetupState::ReadingId, SetupEvent::IdRead(property)) => {
                let id = match &property {
                    Some(text) => ensure_dataset_with_id(Some(text.as_str())),
                    None => ensure_dataset_with_id(None),
                };
                match id {
                    DatasetId::Found { id } => {
                        self.state = SetupState::FindingZone { id };
                    },
                    DatasetId::Assigned { id } => {
                        proof {
                            fresh = id;
                        }
                        self.state = SetupState::WritingId { id };
                    },
                }
            },
            (SetupState::WritingId { id }, SetupEvent::IdWritten) => {
                self.state = SetupState::FindingZone { id };
            },
            (SetupState::FindingZone { id }, SetupEvent::ZoneRunning(zone)) => {
                self.state = SetupState::Configuring { id, zone, next: 0 };
            },
            (SetupState::FindingZone { id }, SetupEvent::ZoneNotRunning) => {
                self.state = SetupState::InstallingZone { id };
            },
            (SetupState::InstallingZone { id }, SetupEvent::ZoneInstalled) => {
                self.state = SetupState::BootingZone { id };
            },
            (SetupState::BootingZone { id }, SetupEvent::ZoneRunning(zone)) => {
                self.state = SetupState::Configuring { id, zone, next: 0 };
            },
            (SetupState::Configuring { id, zone, next }, SetupEvent::CommandRan) => {
                if next + 1 < SETUP_COMMANDS {
                    self.state = SetupState::Configuring { id, zone, next: next + 1 };
                } else {
                    self.state = SetupState::Finished { id, zone };
                }
            },
            (state, _) => {
                self.state = state;
            },
        }
        assert(self.state == next_state(old(self).state, event, parsed_property(event), fresh));
    }

    /// Notes the zone of a dataset that is ready, and gives what the control plane is told of the
    /// dataset.
    pub fn finish(self, pool: &mut Pool) -> (r: Option<PreparedDataset>)
        ensures
            match (self.state, r) {
                (SetupState::Finished { id, zone }, Some(d)) => {
                    &&& d.id == id
                    &&& d.address == zone.address
                    &&& d.kind == self.partition.kind
                    &&& final(pool).zones@ == old(pool).zones@.insert(id, zone)
                    &&& final(pool).id == old(pool).id
                    &&& final(pool).info == old(pool).info
                },
                (SetupState::Finished { .. }, None) => false,
                (_, None) => *final(pool) == *old(pool),
                _ => false,
            },
    {
        match self.state {
            SetupState::Finished { id, zone } => {
                let address = zone.address.clone();
                pool.add_zone(id, zone);
                Some(PreparedDataset { id, address, kind: self.partition.kind })
            },
            _ => None,
        }
    }
}

/// A dataset that is ready.
#[derive(Debug, PartialEq, Eq)]
pub struct PreparedDataset {
    pub id: Uuid,
    pub address: String,
    pub kind: DatasetKind,
}

/// The state of a dataset in whose zone the commands from `next` on are to be run, after `n` of
/// them ran.
pub open spec fn after_commands(state: SetupState, n: nat) -> SetupState
    decreases n,
{
    if n == 0 {
        state
    } else {
        next_state(after_commands(state, (n - 1) as nat), SetupEvent::CommandRan, None, 0)
    }
}

/// A zone is ready once all commands ran in it, one after the other, each of them once.
pub proof fn all_commands_run_in_order(id: Uuid, zone: RunningZone, n: nat)
    requires
        n <= SETUP_COMMANDS,
    ensures
        after_commands(SetupState::Configuring { id, zone, next: 0 }, n) == (if n
            < SETUP_COMMANDS {
            SetupState::Configuring { id, zone, next: n as usize }
        } else {
            SetupState::Finished { id, zone }
        }),
    decreases n,
{
    if n > 0 {
        all_commands_run_in_order(id, zone, (n - 1) as nat);
    }
}

/// The size of a pool can be told as a count of bytes.
pub open spec fn can_be_told(size: u64) -> bool {
    size <= MAX_BYTE_COUNT
}

/// The size of a pool can be told if and only if it is one that a signed number holds.
pub proof fn sizes_of_pools_fit_a_signed_number(size: u64)
    ensures
        can_be_told(size) <==> size <= i64::MAX,
{
}

/// The size of a zpool, as the control plane counts it.
pub fn pool_size(size: u64) -> (r: Result<i64, WorkerError>)
    ensures
        match r {
            Ok(n) => size <= MAX_BYTE_COUNT && n == size,
            Err(e) => size > MAX_BYTE_COUNT && e == (WorkerError::BadPoolSize { size }),
        },
        r is Ok <==> can_be_told(size),
{
    if size <= MAX_BYTE_COUNT {
        Ok(size as i64)
    } else {
        Err(WorkerError::BadPoolSize { size })
    }
}

/// What the control plane is told.
#[derive(Debug, PartialEq, Eq)]
pub enum Notification {
    Zpool { sled_id: Uuid, pool_id: Uuid, size: i64 },
    Dataset { pool_id: Uuid, dataset_id: Uuid, address: String, kind: DatasetKind },
}

/// What the control plane is told of a zpool and its datasets, in this order: of the zpool first, so
/// that it knows the zpool when it is told of a dataset.
pub fn notifications(
    sled_id: Uuid,
    pool_id: Uuid,
    size: i64,
    datasets: &Vec<PreparedDataset>,
) -> (r: Vec<Notification>)
    ensures
        r@.len() == datasets@.len() + 1,
        r@[0] == (Notification::Zpool { sled_id, pool_id, size }),
        forall|i: int|
            0 <= i < datasets@.len() ==> #[trigger] r@[i + 1] == (Notification::Dataset {
                pool_id,
                dataset_id: datasets@[i].id,
                address: datasets@[i].address,
                kind: datasets@[i].kind,
            }),
{
    let mut r: Vec<Notification> = Vec::new();
    r.push(Notification::Zpool { sled_id, pool_id, size });
    let mut i: usize = 0;
    while i < datasets.len()
        invariant
            i <= datasets@.len(),
            r@.len() == i + 1,
            r@[0] == (Notification::Zpool { sled_id, pool_id, size }),
            forall|k: int|
                1 <= k < r@.len() ==> #[trigger] r@[k] == (Notification::Dataset {
                    pool_id,
                    dataset_id: datasets@[k - 1].id,
                    address: datasets@[k - 1].address,
                    kind: datasets@[k - 1].kind,
                }),
        decreases datasets@.len() - i,
    {
        r.push(
            Notification::Dataset {
                pool_id,
                dataset_id: datasets[i].id,
                address: datasets[i].address.clone(),
                kind: datasets[i].kind,
            },
        );
        i = i + 1;
    }
    r
}

/// The zpools of a sled, by their names.
#[derive(Debug, PartialEq, Eq)]
pub struct Pools {
    pub pools: OrdMap<String, Pool>,
}

impl Pools {
    /// No zpool.
    pub fn new() -> (p: Pools)
        ensures
            p.pools@ == Map::<Seq<char>, Pool>::empty(),
    {
        Pools { pools: OrdMap::new() }
    }

    /// Takes in what a zpool says of itself, and says whether the zpool is new. Of one that is not,
    /// only what it says of itself is replaced.
    pub fn upsert_zpool(&mut self, name: &str, info: PoolInfo) -> (r: Result<bool, WorkerError>)
        ensures
            match uuid_of_text(info.name@) {
                None => r == Err::<bool, WorkerError>(WorkerError::Parse) && final(self).pools@
                    == old(self).pools@,
                Some(id) => {
                    let before = old(self).pools@;
                    let known = before.contains_key(name@);
                    &&& r == Ok::<bool, WorkerError>(!known)
                    &&& final(self).pools@.dom() == before.dom().insert(name@)
                    &&& final(self).pools@.remove(name@) == before.remove(name@)
                    &&& ({
                        let pool = final(self).pools@[name@];
                        &&& pool.info == info
                        &&& if known {
                            pool.id == before[name@].id && pool.zones == before[name@].zones
                        } else {
                            pool.id == id && pool.zones@ == Map::<u128, RunningZone>::empty()
                        }
                    })
                },
            },
    {
        let pool = match Pool::new(info) {
            Ok(pool) => pool,
            Err(e) => {
                return Err(e);
            },
        };
        let key = name.to_owned();
        match self.pools.remove(&key) {
            Some(old_pool) => {
                let mut stored = old_pool;
                stored.info = pool.info;
                let _ = self.pools.insert(key, stored);
                Ok(false)
            },
            None => {
                let _ = self.pools.insert(key, pool);
                Ok(true)
            },
        }
    }
}

} // verus!
