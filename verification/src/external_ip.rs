//! External IP addresses of instances and services: how they are allocated, attached, detached and
//! deleted.

use vstd::prelude::*;

use crate::ids::{format_uuid, text_of_uuid, Uuid};
use crate::net::IpAddr;
use crate::time::Timestamp;

verus! {

/// The number of external addresses that an instance may have, besides the one for source NAT.
pub const MAX_EXTERNAL_IPS_PER_INSTANCE: u32 = 32;

/// The number of external addresses that an instance may have, with the one for source NAT.
pub const MAX_EXTERNAL_IPS_PLUS_SNAT: u32 = 33;

/// What an external address is for.
#[derive(Debug, Clone, Copy, PartialEq, Eq, Structural)]
pub enum IpKind {
    /// Source NAT.
    SNat,
    /// An address that lives as long as it is attached.
    Ephemeral,
    /// An address with a name, which can be moved between instances.
    Floating,
}

impl IpKind {
    /// The name of the kind in messages.
    pub open spec fn text(self) -> Seq<char> {
        match self {
            IpKind::SNat => "SNAT"@,
            IpKind::Ephemeral => "ephemeral"@,
            IpKind::Floating => "floating"@,
        }
    }

    /// The name of the kind in messages.
    pub fn name(self) -> (s: &'static str)
        ensures
            s@ == self.text(),
    {
        match self {
            IpKind::SNat => "SNAT",
            IpKind::Ephemeral => "ephemeral",
            IpKind::Floating => "floating",
        }
    }
}

/// Where an address is on its way to an instance or from it.
#[derive(Debug, Clone, Copy, PartialEq, Eq, Structural)]
pub enum IpAttachState {
    Detached,
    Attached,
    Detaching,
    Attaching,
}

impl IpAttachState {
    /// The name of the state in messages.
    pub open spec fn text(self) -> Seq<char> {
        match self {
            IpAttachState::Detached => "Detached"@,
            IpAttachState::Attached => "Attached"@,
            IpAttachState::Detaching => "Detaching"@,
            IpAttachState::Attaching => "Attaching"@,
        }
    }

    fn name(self) -> (s: &'static str)
        ensures
            s@ == self.text(),
    {
        match self {
            IpAttachState::Detached => "Detached",
            IpAttachState::Attached => "Attached",
            IpAttachState::Detaching => "Detaching",
            IpAttachState::Attaching => "Attaching",
        }
    }
}

/// What an instance is doing.
#[derive(Debug, Clone, Copy, PartialEq, Eq, Structural)]
pub enum InstanceState {
    Creating,
    Starting,
    Running,
    Stopping,
    Stopped,
    Rebooting,
    Migrating,
    Repairing,
    Failed,
    Destroyed,
}

impl InstanceState {
    /// The name of the state in messages.
    pub open spec fn text(self) -> Seq<char> {
        match self {
            InstanceState::Creating => "creating"@,
            InstanceState::Starting => "starting"@,
            InstanceState::Running => "running"@,
            InstanceState::Stopping => "stopping"@,
            InstanceState::Stopped => "stopped"@,
            InstanceState::Rebooting => "rebooting"@,
            InstanceState::Migrating => "migrating"@,
            InstanceState::Repairing => "repairing"@,
            InstanceState::Failed => "failed"@,
            InstanceState::Destroyed => "destroyed"@,
        }
    }

    fn name(self) -> (s: &'static str)
        ensures
            s@ == self.text(),
    {
        match self {
            InstanceState::Creating => "creating",
            InstanceState::Starting => "starting",
            InstanceState::Running => "running",
            InstanceState::Stopping => "stopping",
            InstanceState::Stopped => "stopped",
            InstanceState::Rebooting => "rebooting",
            InstanceState::Migrating => "migrating",
            InstanceState::Repairing => "repairing",
            InstanceState::Failed => "failed",
            InstanceState::Destroyed => "destroyed",
        }
    }

    /// Addresses can be attached and detached in this state.
    pub open spec fn safe_to_attach(self) -> bool {
        self == InstanceState::Stopped || self == InstanceState::Running
    }

    /// The state will change to one in which addresses can be attached and detached.
    pub open spec fn safe_transient(self) -> bool {
        match self {
            InstanceState::Starting
            | InstanceState::Stopping
            | InstanceState::Creating
            | InstanceState::Rebooting
            | InstanceState::Migrating => true,
            _ => false,
        }
    }

    fn is_safe_to_attach(self) -> (yes: bool)
        ensures
            yes == self.safe_to_attach(),
    {
        match self {
            InstanceState::Stopped | InstanceState::Running => true,
            _ => false,
        }
    }

    fn is_safe_transient(self) -> (yes: bool)
        ensures
            yes == self.safe_transient(),
    {
        match self {
            InstanceState::Starting
            | InstanceState::Stopping
            | InstanceState::Creating
            | InstanceState::Rebooting
            | InstanceState::Migrating => true,
            _ => false,
        }
    }
}

/// An external address, as it is kept.
#[derive(Debug, Clone, Copy, PartialEq, Eq, Structural)]
pub struct ExternalIp {
    pub id: Uuid,
    pub time_modified: Timestamp,
    pub time_deleted: Option<Timestamp>,
    pub ip_pool_id: Uuid,
    pub is_service: bool,
    pub parent_id: Option<Uuid>,
    pub kind: IpKind,
    pub ip: IpAddr,
    pub first_port: u16,
    pub last_port: u16,
    pub project_id: Option<Uuid>,
    pub state: IpAttachState,
}

/// What the parent of an address has to be.
#[derive(Debug, Clone, Copy, PartialEq, Eq, Structural)]
pub enum ParentFilter {
    Any,
    Missing,
    Is(Uuid),
}

/// What the kind of an address has to be.
#[derive(Debug, Clone, Copy, PartialEq, Eq, Structural)]
pub enum KindFilter {
    Any,
    Is(IpKind),
    IsNot(IpKind),
}

/// Which addresses are meant. Deleted addresses never are.
#[derive(Debug, Clone, Copy, PartialEq, Eq, Structural)]
pub struct IpFilter {
    pub id: Option<Uuid>,
    pub is_service: Option<bool>,
    pub parent: ParentFilter,
    pub kind: KindFilter,
    pub project_id: Option<Uuid>,
    pub state: Option<IpAttachState>,
}

impl IpFilter {
    /// The address is meant.
    pub open spec fn selects(self, ip: ExternalIp) -> bool {
        &&& ip.time_deleted is None
        &&& self.id matches Some(id) ==> ip.id == id
        &&& self.is_service matches Some(b) ==> ip.is_service == b
        &&& match self.parent {
            ParentFilter::Any => true,
            ParentFilter::Missing => ip.parent_id is None,
            ParentFilter::Is(id) => ip.parent_id == Some(id),
        }
        &&& match self.kind {
            KindFilter::Any => true,
            KindFilter::Is(kind) => ip.kind == kind,
            KindFilter::IsNot(kind) => ip.kind != kind,
        }
        &&& self.project_id matches Some(id) ==> ip.project_id == Some(id)
        &&& self.state matches Some(s) ==> ip.state == s
    }
}

/// What is set on an address.
#[derive(Debug, Clone, Copy, PartialEq, Eq, Structural)]
pub struct IpChange {
    /// The parent is set.
    pub parent_id: Option<Option<Uuid>>,
    /// The time of modification is set to the present.
    pub modified: bool,
    /// The address is deleted now.
    pub deleted: bool,
    pub state: Option<IpAttachState>,
}

impl IpChange {
    /// The address after the change.
    pub open spec fn result(self, ip: ExternalIp, now: Timestamp) -> ExternalIp {
        ExternalIp {
            parent_id: match self.parent_id {
                Some(p) => p,
                None => ip.parent_id,
            },
            time_modified: if self.modified { now } else { ip.time_modified },
            time_deleted: if self.deleted { Some(now) } else { ip.time_deleted },
            state: match self.state {
                Some(s) => s,
                None => ip.state,
            },
            ..ip
        }
    }
}

/// A change of all addresses that a filter selects.
#[derive(Debug, Clone, Copy, PartialEq, Eq, Structural)]
pub struct IpUpdate {
    pub filter: IpFilter,
    pub change: IpChange,
}

/// Why an operation on an external address failed.
#[derive(Debug, PartialEq, Eq)]
pub enum IpError {
    InstanceNotFound { id: Uuid },
    FloatingIpNotFound { id: Uuid },
    PoolNotFound { id: Uuid },
    EphemeralIpLost,
    AttachedToAnother { kind: IpKind },
    AttachMidOperation { kind: IpKind },
    AttachWhileMigrating { kind: IpKind },
    AttachWhileChanging { kind: IpKind },
    TooManyAddresses,
    AttachFailed { kind: IpKind },
    AttachInState { kind: IpKind, state: InstanceState },
    NotAttachedToTarget { kind: IpKind },
    DetachMidOperation { kind: IpKind },
    DetachWhileMigrating { kind: IpKind },
    DetachWhileChanging { kind: IpKind },
    DetachFailed { kind: IpKind },
    DetachInState { kind: IpKind, state: InstanceState },
    FloatingAttachNone,
    FloatingDetachNone,
    EphemeralLookupFailed,
    FloatingIpInUse,
    NotATransition { from: IpAttachState },
    CompleteSnat,
    ConcurrentInstanceDelete,
    Unreachable,
    AddressNotAvailable,
    NoAddressAvailable,
    /// A floating address of the same name exists.
    NameConflict { name: String },
    /// The database failed, and the request can be tried again. What the database said is not kept.
    Retryable,
    /// The database failed. What it said is not kept.
    Database,
}

impl Clone for IpError {
    fn clone(&self) -> (r: Self)
        ensures
            r == *self,
    {
        match self {
            IpError::InstanceNotFound { id } => IpError::InstanceNotFound { id: *id },
            IpError::FloatingIpNotFound { id } => IpError::FloatingIpNotFound { id: *id },
            IpError::PoolNotFound { id } => IpError::PoolNotFound { id: *id },
            IpError::EphemeralIpLost => IpError::EphemeralIpLost,
            IpError::AttachedToAnother { kind } => IpError::AttachedToAnother { kind: *kind },
            IpError::AttachMidOperation { kind } => IpError::AttachMidOperation { kind: *kind },
            IpError::AttachWhileMigrating { kind } => IpError::AttachWhileMigrating { kind: *kind },
            IpError::AttachWhileChanging { kind } => IpError::AttachWhileChanging { kind: *kind },
            IpError::TooManyAddresses => IpError::TooManyAddresses,
            IpError::AttachFailed { kind } => IpError::AttachFailed { kind: *kind },
            IpError::AttachInState { kind, state } => IpError::AttachInState { kind: *kind, state: *state },
            IpError::NotAttachedToTarget { kind } => IpError::NotAttachedToTarget { kind: *kind },
            IpError::DetachMidOperation { kind } => IpError::DetachMidOperation { kind: *kind },
            IpError::DetachWhileMigrating { kind } => IpError::DetachWhileMigrating { kind: *kind },
            IpError::DetachWhileChanging { kind } => IpError::DetachWhileChanging { kind: *kind },
            IpError::DetachFailed { kind } => IpError::DetachFailed { kind: *kind },
            IpError::DetachInState { kind, state } => IpError::DetachInState { kind: *kind, state: *state },
            IpError::FloatingAttachNone => IpError::FloatingAttachNone,
            IpError::FloatingDetachNone => IpError::FloatingDetachNone,
            IpError::EphemeralLookupFailed => IpError::EphemeralLookupFailed,
            IpError::FloatingIpInUse => IpError::FloatingIpInUse,
            IpError::NotATransition { from } => IpError::NotATransition { from: *from },
            IpError::CompleteSnat => IpError::CompleteSnat,
            IpError::ConcurrentInstanceDelete => IpError::ConcurrentInstanceDelete,
            IpError::Unreachable => IpError::Unreachable,
            IpError::AddressNotAvailable => IpError::AddressNotAvailable,
            IpError::NoAddressAvailable => IpError::NoAddressAvailable,
            IpError::NameConflict { name } => IpError::NameConflict { name: name.clone() },
            IpError::Retryable => IpError::Retryable,
            IpError::Database => IpError::Database,
        }
    }
}

/// The class of an error.
#[derive(Debug, Clone, Copy, PartialEq, Eq, Structural)]
pub enum ErrorClass {
    NotFound,
    InvalidRequest,
    Unavailable,
    Internal,
    InsufficientCapacity,
    Conflict,
    Outside,
}

impl IpError {
    /// The class of the error.
    pub open spec fn class_of(self) -> ErrorClass {
        match self {
            IpError::InstanceNotFound { .. }
            | IpError::FloatingIpNotFound { .. }
            | IpError::PoolNotFound { .. } => ErrorClass::NotFound,
            IpError::AttachedToAnother { .. }
            | IpError::TooManyAddresses
            | IpError::AttachInState { .. }
            | IpError::NotAttachedToTarget { .. }
            | IpError::DetachInState { .. }
            | IpError::FloatingIpInUse
            | IpError::AddressNotAvailable => ErrorClass::InvalidRequest,
            IpError::AttachMidOperation { .. }
            | IpError::AttachWhileMigrating { .. }
            | IpError::AttachWhileChanging { .. }
            | IpError::DetachMidOperation { .. }
            | IpError::DetachWhileMigrating { .. }
            | IpError::DetachWhileChanging { .. } => ErrorClass::Unavailable,
            IpError::NoAddressAvailable => ErrorClass::InsufficientCapacity,
            IpError::NameConflict { .. } => ErrorClass::Conflict,
            IpError::Retryable | IpError::Database => ErrorClass::Outside,
            _ => ErrorClass::Internal,
        }
    }

    /// The class of the error.
    pub fn class(&self) -> (c: ErrorClass)
        ensures
            c == self.class_of(),
    {
        match self {
            IpError::InstanceNotFound { .. }
            | IpError::FloatingIpNotFound { .. }
            | IpError::PoolNotFound { .. } => ErrorClass::NotFound,
            IpError::AttachedToAnother { .. }
            | IpError::TooManyAddresses
            | IpError::AttachInState { .. }
            | IpError::NotAttachedToTarget { .. }
            | IpError::DetachInState { .. }
            | IpError::FloatingIpInUse
            | IpError::AddressNotAvailable => ErrorClass::InvalidRequest,
            IpError::AttachMidOperation { .. }
            | IpError::AttachWhileMigrating { .. }
            | IpError::AttachWhileChanging { .. }
            | IpError::DetachMidOperation { .. }
            | IpError::DetachWhileMigrating { .. }
            | IpError::DetachWhileChanging { .. } => ErrorClass::Unavailable,
            IpError::NoAddressAvailable => ErrorClass::InsufficientCapacity,
            IpError::NameConflict { .. } => ErrorClass::Conflict,
            IpError::Retryable | IpError::Database => ErrorClass::Outside,
            _ => ErrorClass::Internal,
        }
    }

    /// What the error says.
    pub open spec fn text(self) -> Seq<char> {
        match self {
            IpError::InstanceNotFound { id } => "not found: instance with id \""@ + text_of_uuid(id)
                + "\""@,
            IpError::FloatingIpNotFound { id } => "not found: floating-ip with id \""@
                + text_of_uuid(id) + "\""@,
            IpError::PoolNotFound { id } => "not found: ip-pool with id \""@ + text_of_uuid(id)
                + "\""@,
            IpError::EphemeralIpLost => "call-scoped ephemeral IP was lost"@,
            IpError::AttachedToAnother { kind } => kind.text()
                + " IP cannot be attached to one instance while still attached to another"@,
            IpError::AttachMidOperation { kind } => "tried to attach "@ + kind.text()
                + " IP mid-attach/detach: attach will be safe to retry once operation on same IP resource completes"@,
            IpError::AttachWhileMigrating { kind } => "tried to attach "@ + kind.text()
                + " IP while instance was migrating: detach will be safe to retry once migrate completes"@,
            IpError::AttachWhileChanging { kind } => "tried to attach "@ + kind.text()
                + " IP while instance was changing state: attach will be safe to retry once start/stop completes"@,
            IpError::TooManyAddresses
                => "an instance may not have more than 32 external IP addresses"@,
            IpError::AttachFailed { kind } => "failed to attach "@ + kind.text() + " IP"@,
            IpError::AttachInState { kind, state } => "cannot attach "@ + kind.text()
                + " IP to instance in "@ + state.text() + " state"@,
            IpError::NotAttachedToTarget { kind } => kind.text()
                + " IP is not attached to the target instance"@,
            IpError::DetachMidOperation { kind } => "tried to detach "@ + kind.text()
                + " IP mid-attach/detach: detach will be safe to retry once operation on same IP resource completes"@,
            IpError::DetachWhileMigrating { kind } => "tried to detach "@ + kind.text()
                + " IP while instance was migrating: detach will be safe to retry once migrate completes"@,
            IpError::DetachWhileChanging { kind } => "tried to attach "@ + kind.text()
                + " IP while instance was changing state: detach will be safe to retry once start/stop completes"@,
            IpError::DetachFailed { kind } => "failed to detach "@ + kind.text() + " IP"@,
            IpError::DetachInState { kind, state } => "cannot detach "@ + kind.text()
                + " IP from instance in "@ + state.text() + " state"@,
            IpError::FloatingAttachNone
                => "floating IP should never return `None` from begin_attach"@,
            IpError::FloatingDetachNone
                => "floating IP should never return `None` from begin_detach"@,
            IpError::EphemeralLookupFailed
                => "failed to lookup current ephemeral IP for idempotent attach"@,
            IpError::FloatingIpInUse
                => "Floating IP cannot be deleted while attached to an instance"@,
            IpError::NotATransition { from } => from.text()
                + " is not a valid transition state for attach/detach"@,
            IpError::CompleteSnat
                => "SNAT should not be removed via `external_ip_complete_op`, use `deallocate_external_ip`"@,
            IpError::ConcurrentInstanceDelete => "unwinding due to concurrent instance delete"@,
            IpError::Unreachable => "unreachable"@,
            IpError::AddressNotAvailable => "Requested external IP address not available"@,
            IpError::NoAddressAvailable => "No external IP addresses available"@,
            IpError::NameConflict { name } => "already exists: floating-ip \""@ + name@ + "\""@,
            IpError::Retryable => "retryable database error"@,
            IpError::Database => "database error"@,
        }
    }

    /// What the error says.
    pub fn message(&self) -> (s: String)
        ensures
            s@ == self.text(),
    {
        match self {
            IpError::InstanceNotFound { id } => {
                let mut s = "not found: instance with id \"".to_owned();
                s.append(format_uuid(*id).as_str());
                s.append("\"");
                s
            },
            IpError::FloatingIpNotFound { id } => {
                let mut s = "not found: floating-ip with id \"".to_owned();
                s.append(format_uuid(*id).as_str());
                s.append("\"");
                s
            },
            IpError::PoolNotFound { id } => {
                let mut s = "not found: ip-pool with id \"".to_owned();
                s.append(format_uuid(*id).as_str());
                s.append("\"");
                s
            },
            IpError::EphemeralIpLost => "call-scoped ephemeral IP was lost".to_owned(),
            IpError::AttachedToAnother { kind } => followed(
                *kind,
                " IP cannot be attached to one instance while still attached to another",
            ),
            IpError::AttachMidOperation { kind } => around(
                "tried to attach ",
                *kind,
                " IP mid-attach/detach: attach will be safe to retry once operation on same IP resource completes",
            ),
            IpError::AttachWhileMigrating { kind } => around(
                "tried to attach ",
                *kind,
                " IP while instance was migrating: detach will be safe to retry once migrate completes",
            ),
            IpError::AttachWhileChanging { kind } => around(
                "tried to attach ",
                *kind,
                " IP while instance was changing state: attach will be safe to retry once start/stop completes",
            ),
            IpError::TooManyAddresses
                => "an instance may not have more than 32 external IP addresses".to_owned(),
            IpError::AttachFailed { kind } => around(
                "failed to attach ",
                *kind, " IP"),
            IpError::AttachInState { kind, state } => {
                let mut s = around(
                "cannot attach ",
                *kind, " IP to instance in ");
                s.append(state.name());
                s.append(" state");
                s
            },
            IpError::NotAttachedToTarget { kind } => followed(
                *kind,
                " IP is not attached to the target instance",
            ),
            IpError::DetachMidOperation { kind } => around(
                "tried to detach ",
                *kind,
                " IP mid-attach/detach: detach will be safe to retry once operation on same IP resource completes",
            ),
            IpError::DetachWhileMigrating { kind } => around(
                "tried to detach ",
                *kind,
                " IP while instance was migrating: detach will be safe to retry once migrate completes",
            ),
            IpError::DetachWhileChanging { kind } => around(
                "tried to attach ",
                *kind,
                " IP while instance was changing state: detach will be safe to retry once start/stop completes",
            ),
            IpError::DetachFailed { kind } => around(
                "failed to detach ",
                *kind, " IP"),
            IpError::DetachInState { kind, state } => {
                let mut s = around(
                "cannot detach ",
                *kind, " IP from instance in ");
                s.append(state.name());
                s.append(" state");
                s
            },
            IpError::FloatingAttachNone
                => "floating IP should never return `None` from begin_attach".to_owned(),
            IpError::FloatingDetachNone
                => "floating IP should never return `None` from begin_detach".to_owned(),
            IpError::EphemeralLookupFailed
                => "failed to lookup current ephemeral IP for idempotent attach".to_owned(),
            IpError::FloatingIpInUse
                => "Floating IP cannot be deleted while attached to an instance".to_owned(),
            IpError::NotATransition { from } => {
                let mut s = from.name().to_owned();
                s.append(" is not a valid transition state for attach/detach");
                s
            },
            IpError::CompleteSnat
                => "SNAT should not be removed via `external_ip_complete_op`, use `deallocate_external_ip`".to_owned(),
            IpError::ConcurrentInstanceDelete
                => "unwinding due to concurrent instance delete".to_owned(),
            IpError::Unreachable => "unreachable".to_owned(),
            IpError::AddressNotAvailable
                => "Requested external IP address not available".to_owned(),
            IpError::NoAddressAvailable => "No external IP addresses available".to_owned(),
            IpError::NameConflict { name } => {
                let mut s = "already exists: floating-ip \"".to_owned();
                s.append(name.as_str());
                s.append("\"");
                s
            },
            IpError::Retryable => "retryable database error".to_owned(),
            IpError::Database => "database error".to_owned(),
        }
    }
}

/// A text around the name of a kind.
fn around(before: &str, kind: IpKind, after: &str) -> (s: String)
    ensures
        s@ == before@ + kind.text() + after@,
{
    let mut s = before.to_owned();
    s.append(kind.name());
    s.append(after);
    s
}

/// A text behind the name of a kind.
fn followed(kind: IpKind, after: &str) -> (s: String)
    ensures
        s@ == kind.text() + after@,
{
    let mut s = kind.name().to_owned();
    s.append(after);
    s
}

/// What is known of an instance while addresses are attached to it.
#[derive(Debug, Clone, Copy, PartialEq, Eq, Structural)]
pub struct InstanceRuntime {
    pub state: InstanceState,
    pub migration_id: Option<Uuid>,
}

/// The states in which an instance has to be.
pub open spec fn safe_states(creating_instance: bool) -> Seq<InstanceState> {
    if creating_instance {
        seq![InstanceState::Stopped, InstanceState::Running, InstanceState::Creating]
    } else {
        seq![InstanceState::Stopped, InstanceState::Running]
    }
}

/// Lists the states in which an instance has to be.
pub fn list_safe_states(creating_instance: bool) -> (states: Vec<InstanceState>)
    ensures
        states@ == safe_states(creating_instance),
{
    let mut states: Vec<InstanceState> = Vec::new();
    states.push(InstanceState::Stopped);
    states.push(InstanceState::Running);
    if creating_instance {
        states.push(InstanceState::Creating);
    }
    assert(states@ =~= safe_states(creating_instance));
    states
}

/// A change of an address together with a check of its instance. It is made where the instance is
/// in one of the safe states and does not migrate, the address is selected, and the instance has
/// fewer addresses than the limit, if there is one.
#[derive(Debug, Clone, Copy, PartialEq, Eq, Structural)]
pub struct GuardedUpdate {
    pub instance_id: Uuid,
    pub creating_instance: bool,
    pub max_attached: Option<u32>,
    pub update: IpUpdate,
}

impl GuardedUpdate {
    /// The instance is in a state in which the change can be made.
    pub open spec fn instance_is_safe(self, instance: InstanceRuntime) -> bool {
        safe_states(self.creating_instance).contains(instance.state) && instance.migration_id is None
    }
}

/// What came of an attempt to attach an address.
#[derive(Debug, Clone, Copy, PartialEq, Eq, Structural)]
pub enum AttachOutcome {
    /// The address was changed, to this.
    Updated { resource: ExternalIp },
    CollectionNotFound,
    ResourceNotFound,
    /// Nothing was changed.
    NoUpdate { attached_count: i64, resource: ExternalIp, collection: InstanceRuntime },
    DatabaseError { unique_violation: bool },
}

/// What came of an attempt to detach an address.
#[derive(Debug, Clone, Copy, PartialEq, Eq, Structural)]
pub enum DetachOutcome {
    /// The address was changed, to this.
    Updated { resource: ExternalIp },
    CollectionNotFound,
    ResourceNotFound,
    /// Nothing was changed.
    NoUpdate { resource: ExternalIp, collection: InstanceRuntime },
    DatabaseError,
}

/// An address and whether there is more to be done with it, if there is an address.
pub type Begun = Option<(ExternalIp, bool)>;

/// The change that moves an address of a kind from detached to attaching.
pub open spec fn attach_query(
    ip_id: Uuid,
    instance_id: Uuid,
    kind: IpKind,
    creating_instance: bool,
) -> GuardedUpdate {
    GuardedUpdate {
        instance_id,
        creating_instance,
        max_attached: Some(MAX_EXTERNAL_IPS_PLUS_SNAT),
        update: IpUpdate {
            filter: IpFilter {
                id: Some(ip_id),
                is_service: None,
                parent: ParentFilter::Missing,
                kind: KindFilter::Is(kind),
                project_id: None,
                state: Some(IpAttachState::Detached),
            },
            change: IpChange {
                parent_id: Some(Some(instance_id)),
                modified: true,
                deleted: false,
                state: Some(IpAttachState::Attaching),
            },
        },
    }
}

/// Starts to attach an address: gives the change that moves it from detached to attaching, where
/// the instance is in a valid state and does not have too many addresses.
pub fn begin_attach_ip(
    ip_id: Uuid,
    instance_id: Uuid,
    kind: IpKind,
    creating_instance: bool,
) -> (query: GuardedUpdate)
    ensures
        query == attach_query(ip_id, instance_id, kind, creating_instance),
{
    GuardedUpdate {
        instance_id,
        creating_instance,
        max_attached: Some(MAX_EXTERNAL_IPS_PLUS_SNAT),
        update: IpUpdate {
            filter: IpFilter {
                id: Some(ip_id),
                is_service: None,
                parent: ParentFilter::Missing,
                kind: KindFilter::Is(kind),
                project_id: None,
                state: Some(IpAttachState::Detached),
            },
            change: IpChange {
                parent_id: Some(Some(instance_id)),
                modified: true,
                deleted: false,
                state: Some(IpAttachState::Attaching),
            },
        },
    }
}

/// Why an address that is not on its way was not attached.
pub open spec fn attach_refusal(
    kind: IpKind,
    instance: InstanceRuntime,
    attached_count: int,
) -> IpError {
    if instance.migration_id is Some {
        IpError::AttachWhileMigrating { kind }
    } else if instance.state.safe_transient() {
        IpError::AttachWhileChanging { kind }
    } else if !instance.state.safe_to_attach() {
        IpError::AttachInState { kind, state: instance.state }
    } else if attached_count >= MAX_EXTERNAL_IPS_PLUS_SNAT {
        IpError::TooManyAddresses
    } else {
        IpError::AttachFailed { kind }
    }
}

/// What an attempt to attach an address comes to.
pub open spec fn attach_result(
    outcome: AttachOutcome,
    ip_id: Uuid,
    instance_id: Uuid,
    kind: IpKind,
) -> Result<Begun, IpError> {
    match outcome {
        AttachOutcome::Updated { resource } => Ok(Some((resource, true))),
        AttachOutcome::CollectionNotFound => Err(IpError::InstanceNotFound { id: instance_id }),
        AttachOutcome::ResourceNotFound => if kind == IpKind::Ephemeral {
            Err(IpError::EphemeralIpLost)
        } else {
            Err(IpError::FloatingIpNotFound { id: ip_id })
        },
        AttachOutcome::NoUpdate { attached_count, resource, collection } => {
            let same = resource.parent_id == Some(instance_id);
            match resource.state {
                IpAttachState::Attaching if same => Ok(Some((resource, true))),
                IpAttachState::Attached if same => Ok(Some((resource, false))),
                IpAttachState::Attached => Err(IpError::AttachedToAnother { kind }),
                IpAttachState::Attaching | IpAttachState::Detaching => Err(
                    IpError::AttachMidOperation { kind },
                ),
                IpAttachState::Detached => Err(
                    attach_refusal(kind, collection, attached_count as int),
                ),
            }
        },
        AttachOutcome::DatabaseError { unique_violation } => if unique_violation && kind
            == IpKind::Ephemeral {
            Ok(None)
        } else {
            Err(IpError::Database)
        },
    }
}

/// What an attempt to attach an address comes to: the address, and whether the attachment still has
/// to be completed (`true`) or was complete before (`false`). There is no address only where the
/// instance has an ephemeral address already.
pub fn finish_attach_ip(
    outcome: &AttachOutcome,
    ip_id: Uuid,
    instance_id: Uuid,
    kind: IpKind,
) -> (r: Result<Begun, IpError>)
    ensures
        r == attach_result(*outcome, ip_id, instance_id, kind),
{
    match outcome {
        AttachOutcome::Updated { resource } => Ok(Some((*resource, true))),
        AttachOutcome::CollectionNotFound => Err(IpError::InstanceNotFound { id: instance_id }),
        AttachOutcome::ResourceNotFound => Err(
            if kind == IpKind::Ephemeral {
                IpError::EphemeralIpLost
            } else {
                IpError::FloatingIpNotFound { id: ip_id }
            },
        ),
        AttachOutcome::NoUpdate { attached_count, resource, collection } => {
            let same = match resource.parent_id {
                Some(parent) => parent == instance_id,
                None => false,
            };
            match resource.state {
                IpAttachState::Attaching if same => {
                    return Ok(Some((*resource, true)));
                },
                IpAttachState::Attached if same => {
                    return Ok(Some((*resource, false)));
                },
                IpAttachState::Attached => {
                    return Err(IpError::AttachedToAnother { kind });
                },
                IpAttachState::Attaching | IpAttachState::Detaching => {
                    return Err(IpError::AttachMidOperation { kind });
                },
                IpAttachState::Detached => {},
            }
            if collection.migration_id.is_some() {
                return Err(IpError::AttachWhileMigrating { kind });
            }
            let state = collection.state;
            Err(
                if state.is_safe_transient() {
                    IpError::AttachWhileChanging { kind }
                } else if state.is_safe_to_attach() {
                    if *attached_count >= MAX_EXTERNAL_IPS_PLUS_SNAT as i64 {
                        IpError::TooManyAddresses
                    } else {
                        IpError::AttachFailed { kind }
                    }
                } else {
                    IpError::AttachInState { kind, state }
                },
            )
        },
        AttachOutcome::DatabaseError { unique_violation } => if *unique_violation && kind
            == IpKind::Ephemeral {
            Ok(None)
        } else {
            Err(IpError::Database)
        },
    }
}

/// The change that moves an address of a kind from attached to detaching.
pub open spec fn detach_query(
    ip_id: Uuid,
    instance_id: Uuid,
    kind: IpKind,
    creating_instance: bool,
) -> GuardedUpdate {
    GuardedUpdate {
        instance_id,
        creating_instance,
        max_attached: None,
        update: IpUpdate {
            filter: IpFilter {
                id: Some(ip_id),
                is_service: None,
                parent: ParentFilter::Is(instance_id),
                kind: KindFilter::Is(kind),
                project_id: None,
                state: Some(IpAttachState::Attached),
            },
            change: IpChange {
                parent_id: None,
                modified: true,
                deleted: false,
                state: Some(IpAttachState::Detaching),
            },
        },
    }
}

/// Starts to detach an address: gives the change that moves it from attached to detaching, where
/// the instance is in a valid state. Only an address of the instance is detached from it.
pub fn begin_detach_ip(
    ip_id: Uuid,
    instance_id: Uuid,
    kind: IpKind,
    creating_instance: bool,
) -> (query: GuardedUpdate)
    ensures
        query == detach_query(ip_id, instance_id, kind, creating_instance),
{
    GuardedUpdate {
        instance_id,
        creating_instance,
        max_attached: None,
        update: IpUpdate {
            filter: IpFilter {
                id: Some(ip_id),
                is_service: None,
                parent: ParentFilter::Is(instance_id),
                kind: KindFilter::Is(kind),
                project_id: None,
                state: Some(IpAttachState::Attached),
            },
            change: IpChange {
                parent_id: None,
                modified: true,
                deleted: false,
                state: Some(IpAttachState::Detaching),
            },
        },
    }
}

/// Why an address of the instance was not detached.
pub open spec fn detach_refusal(kind: IpKind, instance: InstanceRuntime) -> IpError {
    if instance.migration_id is Some {
        IpError::DetachWhileMigrating { kind }
    } else if instance.state.safe_transient() {
        IpError::DetachWhileChanging { kind }
    } else if instance.state.safe_to_attach() {
        IpError::DetachFailed { kind }
    } else {
        IpError::DetachInState { kind, state: instance.state }
    }
}

/// What an attempt to detach an address comes to.
pub open spec fn detach_result(
    outcome: DetachOutcome,
    ip_id: Uuid,
    instance_id: Uuid,
    kind: IpKind,
) -> Result<Begun, IpError> {
    match outcome {
        DetachOutcome::Updated { resource } => Ok(Some((resource, true))),
        DetachOutcome::CollectionNotFound => Err(IpError::InstanceNotFound { id: instance_id }),
        DetachOutcome::ResourceNotFound => if kind == IpKind::Ephemeral {
            Ok(None)
        } else {
            Err(IpError::FloatingIpNotFound { id: ip_id })
        },
        DetachOutcome::NoUpdate { resource, collection } => {
            let same = resource.parent_id == Some(instance_id);
            match resource.state {
                IpAttachState::Detached => Ok(Some((resource, false))),
                IpAttachState::Detaching if same => Ok(Some((resource, true))),
                IpAttachState::Attached if !same => Err(IpError::NotAttachedToTarget { kind }),
                IpAttachState::Attaching | IpAttachState::Detaching => Err(
                    IpError::DetachMidOperation { kind },
                ),
                IpAttachState::Attached => Err(detach_refusal(kind, collection)),
            }
        },
        DetachOutcome::DatabaseError => Err(IpError::Database),
    }
}

/// What an attempt to detach an address comes to: the address, and whether the detachment still has
/// to be completed (`true`) or was complete before (`false`). There is no address only where an
/// ephemeral address was gone.
pub fn finish_detach_ip(
    outcome: &DetachOutcome,
    ip_id: Uuid,
    instance_id: Uuid,
    kind: IpKind,
) -> (r: Result<Begun, IpError>)
    ensures
        r == detach_result(*outcome, ip_id, instance_id, kind),
{
    match outcome {
        DetachOutcome::Updated { resource } => Ok(Some((*resource, true))),
        DetachOutcome::CollectionNotFound => Err(IpError::InstanceNotFound { id: instance_id }),
        DetachOutcome::ResourceNotFound => if kind == IpKind::Ephemeral {
            Ok(None)
        } else {
            Err(IpError::FloatingIpNotFound { id: ip_id })
        },
        DetachOutcome::NoUpdate { resource, collection } => {
            let same = match resource.parent_id {
                Some(parent) => parent == instance_id,
                None => false,
            };
            match resource.state {
                IpAttachState::Detached => {
                    return Ok(Some((*resource, false)));
                },
                IpAttachState::Detaching if same => {
                    return Ok(Some((*resource, true)));
                },
                IpAttachState::Attached if !same => {
                    return Err(IpError::NotAttachedToTarget { kind });
                },
                IpAttachState::Attaching | IpAttachState::Detaching => {
                    return Err(IpError::DetachMidOperation { kind });
                },
                IpAttachState::Attached => {},
            }
            if collection.migration_id.is_some() {
                return Err(IpError::DetachWhileMigrating { kind });
            }
            let state = collection.state;
            Err(
                if state.is_safe_transient() {
                    IpError::DetachWhileChanging { kind }
                } else if state.is_safe_to_attach() {
                    IpError::DetachFailed { kind }
                } else {
                    IpError::DetachInState { kind, state }
                },
            )
        },
        DetachOutcome::DatabaseError => Err(IpError::Database),
    }
}

/// Starts to take an ephemeral address from an instance: gives the change that moves it from attached
/// to detaching.
pub fn begin_deallocate_ephemeral_ip(ip_id: Uuid, instance_id: Uuid) -> (query: GuardedUpdate)
    ensures
        query == detach_query(ip_id, instance_id, IpKind::Ephemeral, false),
{
    begin_detach_ip(ip_id, instance_id, IpKind::Ephemeral, false)
}

/// What taking an ephemeral address from an instance comes to: the address, unless it was gone.
pub fn ephemeral_ip_deallocated(
    outcome: &DetachOutcome,
    ip_id: Uuid,
    instance_id: Uuid,
) -> (r: Result<Option<ExternalIp>, IpError>)
    ensures
        r == (match detach_result(*outcome, ip_id, instance_id, IpKind::Ephemeral) {
            Ok(Some((ip, _))) => Ok::<Option<ExternalIp>, IpError>(Some(ip)),
            Ok(None) => Ok::<Option<ExternalIp>, IpError>(None),
            Err(e) => Err::<Option<ExternalIp>, IpError>(e),
        }),
{
    match finish_detach_ip(outcome, ip_id, instance_id, IpKind::Ephemeral) {
        Ok(Some((ip, _))) => Ok(Some(ip)),
        Ok(None) => Ok(None),
        Err(e) => Err(e),
    }
}

/// What beginning to attach or detach an address comes to, where one has to be found.
pub open spec fn begun_for(begun: Result<Begun, IpError>, missing: IpError) -> Result<
    (ExternalIp, bool),
    IpError,
> {
    match begun {
        Ok(Some(v)) => Ok(v),
        Ok(None) => Err(missing),
        Err(e) => Err(e),
    }
}

/// What attaching a floating address comes to: there always is one.
pub fn floating_ip_attached(begun: &Result<Begun, IpError>) -> (r: Result<
    (ExternalIp, bool),
    IpError,
>)
    ensures
        r == (match *begun {
            Ok(Some(v)) => Ok::<(ExternalIp, bool), IpError>(v),
            Ok(None) => Err::<(ExternalIp, bool), IpError>(IpError::FloatingAttachNone),
            Err(e) => Err::<(ExternalIp, bool), IpError>(e),
        }),
        r == begun_for(*begun, IpError::FloatingAttachNone),
{
    match begun {
        Ok(Some(v)) => Ok(*v),
        Ok(None) => Err(IpError::FloatingAttachNone),
        Err(e) => Err(e.clone()),
    }
}

/// What detaching a floating address comes to: there always is one.
pub fn floating_ip_detached(begun: &Result<Begun, IpError>) -> (r: Result<
    (ExternalIp, bool),
    IpError,
>)
    ensures
        r == (match *begun {
            Ok(Some(v)) => Ok::<(ExternalIp, bool), IpError>(v),
            Ok(None) => Err::<(ExternalIp, bool), IpError>(IpError::FloatingDetachNone),
            Err(e) => Err::<(ExternalIp, bool), IpError>(e),
        }),
        r == begun_for(*begun, IpError::FloatingDetachNone),
{
    match begun {
        Ok(Some(v)) => Ok(*v),
        Ok(None) => Err(IpError::FloatingDetachNone),
        Err(e) => Err(e.clone()),
    }
}

/// How an address is brought to the end of its way.
#[derive(Debug, Clone, Copy, PartialEq, Eq, Structural)]
pub enum Completion {
    /// The change is made where it applies.
    Plain(IpUpdate),
    /// The change is made where it applies, and where it does not, what was found decides.
    Checked(IpUpdate),
}

/// The address, while it is in a state.
pub open spec fn in_state(ip_id: Uuid, state: IpAttachState) -> IpFilter {
    IpFilter {
        id: Some(ip_id),
        is_service: None,
        parent: ParentFilter::Any,
        kind: KindFilter::Any,
        project_id: None,
        state: Some(state),
    }
}

/// How an address is brought from an expected state to a target state.
pub open spec fn completion(
    ip_id: Uuid,
    ip_kind: IpKind,
    expected_state: IpAttachState,
    target_state: IpAttachState,
) -> Result<Completion, IpError> {
    let filter = in_state(ip_id, expected_state);
    if expected_state == IpAttachState::Attached || expected_state == IpAttachState::Detached {
        Err(IpError::NotATransition { from: expected_state })
    } else if ip_kind == IpKind::SNat {
        Err(IpError::CompleteSnat)
    } else if target_state == IpAttachState::Detached {
        // The parent goes, and an ephemeral address goes with it.
        Ok(
            Completion::Plain(
                IpUpdate {
                    filter,
                    change: IpChange {
                        parent_id: Some(None),
                        modified: true,
                        deleted: ip_kind == IpKind::Ephemeral,
                        state: Some(target_state),
                    },
                },
            ),
        )
    } else if target_state == IpAttachState::Attached {
        let update = IpUpdate {
            filter,
            change: IpChange {
                parent_id: None,
                modified: true,
                deleted: false,
                state: Some(target_state),
            },
        };
        if expected_state == IpAttachState::Attaching {
            Ok(Completion::Checked(update))
        } else {
            Ok(Completion::Plain(update))
        }
    } else {
        Err(IpError::Unreachable)
    }
}

/// Moves an address from a state in which it is on its way to the state where it is meant to end.
///
/// Completing an attachment is checked, so that it fails where the instance was deleted meanwhile.
/// Completing a detachment, and unwinding a detachment that failed, is not.
pub fn external_ip_complete_op(
    ip_id: Uuid,
    ip_kind: IpKind,
    expected_state: IpAttachState,
    target_state: IpAttachState,
) -> (r: Result<Completion, IpError>)
    ensures
        r == completion(ip_id, ip_kind, expected_state, target_state),
{
    match expected_state {
        IpAttachState::Attached | IpAttachState::Detached => {
            return Err(IpError::NotATransition { from: expected_state });
        },
        _ => {},
    }
    let filter = IpFilter {
        id: Some(ip_id),
        is_service: None,
        parent: ParentFilter::Any,
        kind: KindFilter::Any,
        project_id: None,
        state: Some(expected_state),
    };
    match (ip_kind, expected_state, target_state) {
        (IpKind::SNat, _, _) => Err(IpError::CompleteSnat),
        (IpKind::Ephemeral, _, IpAttachState::Detached) => Ok(
            Completion::Plain(
                IpUpdate {
                    filter,
                    change: IpChange {
                        parent_id: Some(None),
                        modified: true,
                        deleted: true,
                        state: Some(target_state),
                    },
                },
            ),
        ),
        (IpKind::Floating, _, IpAttachState::Detached) => Ok(
            Completion::Plain(
                IpUpdate {
                    filter,
                    change: IpChange {
                        parent_id: Some(None),
                        modified: true,
                        deleted: false,
                        state: Some(target_state),
                    },
                },
            ),
        ),
        (_, IpAttachState::Attaching, IpAttachState::Attached) => Ok(
            Completion::Checked(
                IpUpdate {
                    filter,
                    change: IpChange {
                        parent_id: None,
                        modified: true,
                        deleted: false,
                        state: Some(target_state),
                    },
                },
            ),
        ),
        (_, _, IpAttachState::Attached) => Ok(
            Completion::Plain(
                IpUpdate {
                    filter,
                    change: IpChange {
                        parent_id: None,
                        modified: true,
                        deleted: false,
                        state: Some(target_state),
                    },
                },
            ),
        ),
        _ => Err(IpError::Unreachable),
    }
}

/// What came of a checked change of one address.
#[derive(Debug, Clone, Copy, PartialEq, Eq, Structural)]
pub enum CheckedUpdate {
    Updated,
    /// The address is there, and was not changed.
    NotUpdatedButExists { found: ExternalIp },
}

/// The number of addresses that a checked completion changed, unless it came too late.
pub open spec fn completed_count(outcome: CheckedUpdate) -> Result<usize, IpError> {
    match outcome {
        CheckedUpdate::Updated => Ok(1),
        CheckedUpdate::NotUpdatedButExists { found } => if found.state == IpAttachState::Detached
            || found.time_deleted is Some {
            Err(IpError::ConcurrentInstanceDelete)
        } else {
            Ok(0)
        },
    }
}

/// The number of addresses that a checked completion changed.
pub fn attached_count_of(outcome: &CheckedUpdate) -> (r: Result<usize, IpError>)
    ensures
        r == (match *outcome {
            CheckedUpdate::Updated => Ok::<usize, IpError>(1),
            CheckedUpdate::NotUpdatedButExists { found } => if found.state
                == IpAttachState::Detached || found.time_deleted is Some {
                Err::<usize, IpError>(IpError::ConcurrentInstanceDelete)
            } else {
                Ok::<usize, IpError>(0)
            },
        }),
        r == completed_count(*outcome),
{
    match outcome {
        CheckedUpdate::Updated => Ok(1),
        CheckedUpdate::NotUpdatedButExists { found } => if found.state == IpAttachState::Detached
            || found.time_deleted.is_some() {
            Err(IpError::ConcurrentInstanceDelete)
        } else {
            Ok(0)
        },
    }
}

/// Deletes an address altogether. This is for source NAT, and for ephemeral addresses that were
/// never attached.
pub fn deallocate_external_ip(ip_id: Uuid) -> (update: IpUpdate)
    ensures
        forall|ip: ExternalIp| #[trigger]
            update.filter.selects(ip) <==> ip.id == ip_id && ip.time_deleted is None,
        forall|ip: ExternalIp, now: Timestamp| #[trigger]
            update.change.result(ip, now) == (ExternalIp { time_deleted: Some(now), ..ip }),
{
    IpUpdate {
        filter: IpFilter {
            id: Some(ip_id),
            is_service: None,
            parent: ParentFilter::Any,
            kind: KindFilter::Any,
            project_id: None,
            state: None,
        },
        change: IpChange { parent_id: None, modified: false, deleted: true, state: None },
    }
}

/// Whether an address was deleted just now (`true`) or before (`false`).
pub fn was_deallocated(outcome: &CheckedUpdate) -> (yes: bool)
    ensures
        yes == (outcome is Updated),
{
    match outcome {
        CheckedUpdate::Updated => true,
        CheckedUpdate::NotUpdatedButExists { .. } => false,
    }
}

/// Deletes all addresses of an instance that do not float.
pub fn deallocate_external_ip_by_instance_id(instance_id: Uuid) -> (update: IpUpdate)
    ensures
        forall|ip: ExternalIp| #[trigger]
            update.filter.selects(ip) <==> ip.time_deleted is None && !ip.is_service && ip.parent_id
                == Some(instance_id) && ip.kind != IpKind::Floating,
        forall|ip: ExternalIp, now: Timestamp| #[trigger]
            update.change.result(ip, now) == (ExternalIp {
                time_deleted: Some(now),
                state: IpAttachState::Detached,
                ..ip
            }),
{
    IpUpdate {
        filter: IpFilter {
            id: None,
            is_service: Some(false),
            parent: ParentFilter::Is(instance_id),
            kind: KindFilter::IsNot(IpKind::Floating),
            project_id: None,
            state: None,
        },
        change: IpChange {
            parent_id: None,
            modified: false,
            deleted: true,
            state: Some(IpAttachState::Detached),
        },
    }
}

/// Detaches all floating addresses from an instance, whatever state they are in.
pub fn detach_floating_ips_by_instance_id(instance_id: Uuid) -> (update: IpUpdate)
    ensures
        forall|ip: ExternalIp| #[trigger]
            update.filter.selects(ip) <==> ip.time_deleted is None && !ip.is_service && ip.parent_id
                == Some(instance_id) && ip.kind == IpKind::Floating,
        forall|ip: ExternalIp, now: Timestamp| #[trigger]
            update.change.result(ip, now) == (ExternalIp {
                time_modified: now,
                parent_id: None,
                state: IpAttachState::Detached,
                ..ip
            }),
{
    IpUpdate {
        filter: IpFilter {
            id: None,
            is_service: Some(false),
            parent: ParentFilter::Is(instance_id),
            kind: KindFilter::Is(IpKind::Floating),
            project_id: None,
            state: None,
        },
        change: IpChange {
            parent_id: Some(None),
            modified: true,
            deleted: false,
            state: Some(IpAttachState::Detached),
        },
    }
}

/// Deletes a floating address, if it is not in use.
pub fn floating_ip_delete(ip_id: Uuid) -> (update: IpUpdate)
    ensures
        forall|ip: ExternalIp| #[trigger]
            update.filter.selects(ip) <==> ip.id == ip_id && ip.time_deleted is None
                && ip.parent_id is None && ip.state == IpAttachState::Detached,
        forall|ip: ExternalIp, now: Timestamp| #[trigger]
            update.change.result(ip, now) == (ExternalIp { time_deleted: Some(now), ..ip }),
{
    IpUpdate {
        filter: IpFilter {
            id: Some(ip_id),
            is_service: None,
            parent: ParentFilter::Missing,
            kind: KindFilter::Any,
            project_id: None,
            state: Some(IpAttachState::Detached),
        },
        change: IpChange { parent_id: None, modified: false, deleted: true, state: None },
    }
}

/// The floating address that was to be deleted is deleted now, or was before.
pub open spec fn counts_as_deleted(outcome: CheckedUpdate) -> bool {
    match outcome {
        CheckedUpdate::Updated => true,
        CheckedUpdate::NotUpdatedButExists { found } => found.parent_id is None,
    }
}

/// What deleting a floating address comes to. One that was deleted before counts as deleted.
pub fn floating_ip_deleted(outcome: &CheckedUpdate) -> (r: Result<(), IpError>)
    ensures
        r == (match *outcome {
            CheckedUpdate::NotUpdatedButExists { found } if found.parent_id is Some => Err::<
                (),
                IpError,
            >(IpError::FloatingIpInUse),
            _ => Ok::<(), IpError>(()),
        }),
        r is Ok <==> counts_as_deleted(*outcome),
{
    match outcome {
        CheckedUpdate::NotUpdatedButExists { found } => if found.parent_id.is_some() {
            Err(IpError::FloatingIpInUse)
        } else {
            Ok(())
        },
        CheckedUpdate::Updated => Ok(()),
    }
}

/// Selects the addresses of a service.
pub fn service_lookup_external_ips(service_id: Uuid) -> (filter: IpFilter)
    ensures
        forall|ip: ExternalIp| #[trigger]
            filter.selects(ip) <==> ip.time_deleted is None && ip.is_service && ip.parent_id
                == Some(service_id),
{
    IpFilter {
        id: None,
        is_service: Some(true),
        parent: ParentFilter::Is(service_id),
        kind: KindFilter::Any,
        project_id: None,
        state: None,
    }
}

/// Selects the addresses of an instance.
pub fn instance_lookup_external_ips(instance_id: Uuid) -> (filter: IpFilter)
    ensures
        forall|ip: ExternalIp| #[trigger]
            filter.selects(ip) <==> ip.time_deleted is None && !ip.is_service && ip.parent_id
                == Some(instance_id),
{
    IpFilter {
        id: None,
        is_service: Some(false),
        parent: ParentFilter::Is(instance_id),
        kind: KindFilter::Any,
        project_id: None,
        state: None,
    }
}

/// Selects the floating addresses of a project.
pub fn floating_ips_list(project_id: Uuid) -> (filter: IpFilter)
    ensures
        forall|ip: ExternalIp| #[trigger]
            filter.selects(ip) <==> ip.time_deleted is None && ip.kind == IpKind::Floating
                && ip.project_id == Some(project_id),
{
    IpFilter {
        id: None,
        is_service: None,
        parent: ParentFilter::Any,
        kind: KindFilter::Is(IpKind::Floating),
        project_id: Some(project_id),
        state: None,
    }
}

/// The ephemeral address among those of an instance: the first, if there is one.
pub fn instance_lookup_ephemeral_ip(ips: &Vec<ExternalIp>) -> (ip: Option<ExternalIp>)
    ensures
        match ip {
            Some(ip) => exists|k: int|
                0 <= k < ips@.len() && #[trigger] ips@[k] == ip && ip.kind == IpKind::Ephemeral
                    && forall|j: int|
                    0 <= j < k ==> (#[trigger] ips@[j]).kind != IpKind::Ephemeral,
            None => forall|j: int|
                0 <= j < ips@.len() ==> (#[trigger] ips@[j]).kind != IpKind::Ephemeral,
        },
{
    let mut i: usize = 0;
    while i < ips.len()
        invariant
            i <= ips@.len(),
            forall|j: int| 0 <= j < i ==> (#[trigger] ips@[j]).kind != IpKind::Ephemeral,
        decreases ips@.len() - i,
    {
        if ips[i].kind == IpKind::Ephemeral {
            assert(ips@[i as int].kind == IpKind::Ephemeral);
            return Some(ips[i]);
        }
        i = i + 1;
    }
    None
}

/// The pool that an address is allocated from.
#[derive(Debug, Clone, Copy, PartialEq, Eq, Structural)]
pub enum PoolLookup {
    /// The pool that was asked for. It has to be linked to the silo.
    Given { id: Uuid },
    /// The default pool of the silo.
    Default,
}

/// Which pool has to be looked up.
pub fn pool_to_look_up(requested: Option<Uuid>) -> (lookup: PoolLookup)
    ensures
        lookup == (match requested {
            Some(id) => PoolLookup::Given { id },
            None => PoolLookup::Default,
        }),
{
    match requested {
        Some(id) => PoolLookup::Given { id },
        None => PoolLookup::Default,
    }
}

/// The pool that an address is allocated from, if it can be.
pub open spec fn pool_of(lookup: PoolLookup, found: Result<Uuid, IpError>, linked: bool) -> Result<
    Uuid,
    IpError,
> {
    match (found, lookup) {
        (Err(e), _) => Err(e),
        (Ok(_), PoolLookup::Given { id }) if !linked => Err(IpError::PoolNotFound { id }),
        (Ok(pool), _) => Ok(pool),
    }
}

/// The pool that an address is allocated from, where `found` is the one that was looked up, and
/// `linked` says whether it is linked to the silo. A pool that was asked for and is not linked is as
/// good as missing.
pub fn chosen_pool(lookup: PoolLookup, found: Result<Uuid, IpError>, linked: bool) -> (r: Result<
    Uuid,
    IpError,
>)
    ensures
        r == (match (found, lookup) {
            (Err(e), _) => Err::<Uuid, IpError>(e),
            (Ok(_), PoolLookup::Given { id }) if !linked => Err::<Uuid, IpError>(
                IpError::PoolNotFound { id },
            ),
            (Ok(pool), _) => Ok::<Uuid, IpError>(pool),
        }),
        r == pool_of(lookup, found, linked),
{
    match (found, lookup) {
        (Err(e), _) => Err(e),
        (Ok(_), PoolLookup::Given { id }) if !linked => Err(IpError::PoolNotFound { id }),
        (Ok(pool), _) => Ok(pool),
    }
}

/// Why no address was allocated.
#[derive(Debug, Clone, Copy, PartialEq, Eq, Structural)]
pub enum AllocationFailure {
    /// The query for the next address found none.
    NotFound,
    UniqueViolation { retryable: bool },
    Other { retryable: bool },
}

/// The error for a failure to allocate an address.
pub open spec fn failed_allocation(
    failure: AllocationFailure,
    name: Option<String>,
    explicit_ip: bool,
) -> IpError {
    match failure {
        AllocationFailure::NotFound => if explicit_ip {
            IpError::AddressNotAvailable
        } else {
            IpError::NoAddressAvailable
        },
        AllocationFailure::UniqueViolation { retryable } => match name {
            Some(name) => IpError::NameConflict { name },
            None => if retryable {
                IpError::Retryable
            } else {
                IpError::Database
            },
        },
        AllocationFailure::Other { retryable } => if retryable {
            IpError::Retryable
        } else {
            IpError::Database
        },
    }
}

/// The error for a failure to allocate an address, where it was asked for with a name, or
/// explicitly. Where the name is taken, the error says which name that is.
pub fn allocation_error(
    failure: AllocationFailure,
    name: Option<String>,
    explicit_ip: bool,
) -> (e: IpError)
    ensures
        e == (match failure {
            AllocationFailure::NotFound => if explicit_ip {
                IpError::AddressNotAvailable
            } else {
                IpError::NoAddressAvailable
            },
            AllocationFailure::UniqueViolation { retryable } => match name {
                Some(name) => IpError::NameConflict { name },
                None => if retryable {
                    IpError::Retryable
                } else {
                    IpError::Database
                },
            },
            AllocationFailure::Other { retryable } => if retryable {
                IpError::Retryable
            } else {
                IpError::Database
            },
        }),
        e == failed_allocation(failure, name, explicit_ip),
{
    match failure {
        AllocationFailure::NotFound => if explicit_ip {
            IpError::AddressNotAvailable
        } else {
            IpError::NoAddressAvailable
        },
        AllocationFailure::UniqueViolation { retryable } => match name {
            Some(name) => IpError::NameConflict { name },
            None => if retryable {
                IpError::Retryable
            } else {
                IpError::Database
            },
        },
        AllocationFailure::Other { retryable } => if retryable {
            IpError::Retryable
        } else {
            IpError::Database
        },
    }
}

/// What an address to be allocated is to be.
#[derive(Debug, PartialEq, Eq)]
pub struct IncompleteExternalIp {
    pub id: Uuid,
    pub name: Option<String>,
    pub description: Option<String>,
    pub kind: IpKind,
    pub is_service: bool,
    pub parent_id: Option<Uuid>,
    pub pool_id: Uuid,
    pub project_id: Option<Uuid>,
    pub explicit_ip: Option<IpAddr>,
    pub explicit_port_range: Option<(u16, u16)>,
    pub state: IpAttachState,
}

impl IncompleteExternalIp {
    /// The record for the translated addresses of an instance.
    pub open spec fn instance_source_nat(id: Uuid, instance_id: Uuid, pool_id: Uuid) -> IncompleteExternalIp {
        IncompleteExternalIp {
            id,
            name: None,
            description: None,
            kind: IpKind::SNat,
            is_service: false,
            parent_id: Some(instance_id),
            pool_id,
            project_id: None,
            explicit_ip: None,
            explicit_port_range: None,
            state: IpAttachState::Attached,
        }
    }

    /// An address for source NAT of an instance.
    pub fn for_instance_source_nat(id: Uuid, instance_id: Uuid, pool_id: Uuid) -> (r: Self)
        ensures
            r == (IncompleteExternalIp {
                id,
                name: None,
                description: None,
                kind: IpKind::SNat,
                is_service: false,
                parent_id: Some(instance_id),
                pool_id,
                project_id: None,
                explicit_ip: None,
                explicit_port_range: None,
                state: IpAttachState::Attached,
            }),
            r == IncompleteExternalIp::instance_source_nat(id, instance_id, pool_id),
    {
        IncompleteExternalIp {
            id,
            name: None,
            description: None,
            kind: IpKind::SNat,
            is_service: false,
            parent_id: Some(instance_id),
            pool_id,
            project_id: None,
            explicit_ip: None,
            explicit_port_range: None,
            state: IpAttachState::Attached,
        }
    }

    /// The record for an ephemeral address.
    pub open spec fn ephemeral(id: Uuid, pool_id: Uuid) -> IncompleteExternalIp {
        IncompleteExternalIp {
            id,
            name: None,
            description: None,
            kind: IpKind::Ephemeral,
            is_service: false,
            parent_id: None,
            pool_id,
            project_id: None,
            explicit_ip: None,
            explicit_port_range: None,
            state: IpAttachState::Detached,
        }
    }

    /// An ephemeral address, which is not attached yet.
    pub fn for_ephemeral(id: Uuid, pool_id: Uuid) -> (r: Self)
        ensures
            r == (IncompleteExternalIp {
                id,
                name: None,
                description: None,
                kind: IpKind::Ephemeral,
                is_service: false,
                parent_id: None,
                pool_id,
                project_id: None,
                explicit_ip: None,
                explicit_port_range: None,
                state: IpAttachState::Detached,
            }),
            r == IncompleteExternalIp::ephemeral(id, pool_id),
    {
        IncompleteExternalIp {
            id,
            name: None,
            description: None,
            kind: IpKind::Ephemeral,
            is_service: false,
            parent_id: None,
            pool_id,
            project_id: None,
            explicit_ip: None,
            explicit_port_range: None,
            state: IpAttachState::Detached,
        }
    }

    /// The record for a floating address of a project.
    pub open spec fn floating(
        id: Uuid,
        name: String,
        description: String,
        project_id: Uuid,
        explicit_ip: Option<IpAddr>,
        pool_id: Uuid,
    ) -> IncompleteExternalIp {
        IncompleteExternalIp {
            id,
            name: Some(name),
            description: Some(description),
            kind: IpKind::Floating,
            is_service: false,
            parent_id: None,
            pool_id,
            project_id: Some(project_id),
            explicit_ip,
            explicit_port_range: None,
            state: IpAttachState::Detached,
        }
    }

    /// A floating address of a project: the given one, or any.
    pub fn for_floating(
        id: Uuid,
        name: String,
        description: String,
        project_id: Uuid,
        explicit_ip: Option<IpAddr>,
        pool_id: Uuid,
    ) -> (r: Self)
        ensures
            r == (IncompleteExternalIp {
                id,
                name: Some(name),
                description: Some(description),
                kind: IpKind::Floating,
                is_service: false,
                parent_id: None,
                pool_id,
                project_id: Some(project_id),
                explicit_ip,
                explicit_port_range: None,
                state: IpAttachState::Detached,
            }),
            r == IncompleteExternalIp::floating(id, name, description, project_id, explicit_ip, pool_id),
    {
        IncompleteExternalIp {
            id,
            name: Some(name),
            description: Some(description),
            kind: IpKind::Floating,
            is_service: false,
            parent_id: None,
            pool_id,
            project_id: Some(project_id),
            explicit_ip,
            explicit_port_range: None,
            state: IpAttachState::Detached,
        }
    }

    /// The record for an address of a service.
    pub open spec fn service(
        id: Uuid,
        name: String,
        description: String,
        service_id: Uuid,
        explicit_ip: Option<IpAddr>,
        pool_id: Uuid,
    ) -> IncompleteExternalIp {
        IncompleteExternalIp {
            id,
            name: Some(name),
            description: Some(description),
            kind: IpKind::Floating,
            is_service: true,
            parent_id: Some(service_id),
            pool_id,
            project_id: None,
            explicit_ip,
            explicit_port_range: None,
            state: IpAttachState::Attached,
        }
    }

    /// An address of a service: the given one, or any.
    pub fn for_service(
        id: Uuid,
        name: String,
        description: String,
        service_id: Uuid,
        explicit_ip: Option<IpAddr>,
        pool_id: Uuid,
    ) -> (r: Self)
        ensures
            r == (IncompleteExternalIp {
                id,
                name: Some(name),
                description: Some(description),
                kind: IpKind::Floating,
                is_service: true,
                parent_id: Some(service_id),
                pool_id,
                project_id: None,
                explicit_ip,
                explicit_port_range: None,
                state: IpAttachState::Attached,
            }),
            r == IncompleteExternalIp::service(id, name, description, service_id, explicit_ip, pool_id),
    {
        IncompleteExternalIp {
            id,
            name: Some(name),
            description: Some(description),
            kind: IpKind::Floating,
            is_service: true,
            parent_id: Some(service_id),
            pool_id,
            project_id: None,
            explicit_ip,
            explicit_port_range: None,
            state: IpAttachState::Attached,
        }
    }

    /// The record for the translated addresses of a service.
    pub open spec fn service_source_nat(
        id: Uuid,
        service_id: Uuid,
        explicit: Option<(IpAddr, (u16, u16))>,
        pool_id: Uuid,
    ) -> IncompleteExternalIp {
        IncompleteExternalIp {
            id,
            name: None,
            description: None,
            kind: IpKind::SNat,
            is_service: true,
            parent_id: Some(service_id),
            pool_id,
            project_id: None,
            explicit_ip: match explicit {
                Some((ip, _)) => Some(ip),
                None => None,
            },
            explicit_port_range: match explicit {
                Some((_, ports)) => Some(ports),
                None => None,
            },
            state: IpAttachState::Attached,
        }
    }

    /// An address for source NAT of a service: any, or the given one with the given ports.
    pub fn for_service_snat(
        id: Uuid,
        service_id: Uuid,
        explicit: Option<(IpAddr, (u16, u16))>,
        pool_id: Uuid,
    ) -> (r: Self)
        ensures
            r == (IncompleteExternalIp {
                id,
                name: None,
                description: None,
                kind: IpKind::SNat,
                is_service: true,
                parent_id: Some(service_id),
                pool_id,
                project_id: None,
                explicit_ip: match explicit {
                    Some((ip, _)) => Some(ip),
                    None => None,
                },
                explicit_port_range: match explicit {
                    Some((_, ports)) => Some(ports),
                    None => None,
                },
                state: IpAttachState::Attached,
            }),
            r == IncompleteExternalIp::service_source_nat(id, service_id, explicit, pool_id),
    {
        let (explicit_ip, explicit_port_range) = match explicit {
            Some((ip, ports)) => (Some(ip), Some(ports)),
            None => (None, None),
        };
        IncompleteExternalIp {
            id,
            name: None,
            description: None,
            kind: IpKind::SNat,
            is_service: true,
            parent_id: Some(service_id),
            pool_id,
            project_id: None,
            explicit_ip,
            explicit_port_range,
            state: IpAttachState::Attached,
        }
    }
}

/// How far the allocation of an ephemeral address for an instance has come.
///
/// The address is created unbound, and then bound: an instance has at most one ephemeral address,
/// and a limited number of addresses. Where it was not bound it is deleted again.
#[derive(Debug, PartialEq, Eq)]
pub enum EphemeralAllocation {
    /// A new address is being allocated.
    Allocating,
    /// None was allocated: the one that the instance has is being looked up.
    Falling { error: IpError },
    /// The new address is being attached.
    Attaching { ip: ExternalIp },
    /// The new address is being deleted, because it could not be attached.
    Undoing { error: IpError },
    /// The new address is being deleted, because the instance has one.
    Replacing,
    /// The address that the instance has is being looked up.
    LookingUp,
}

impl Clone for EphemeralAllocation {
    fn clone(&self) -> (r: Self)
        ensures
            r == *self,
    {
        match self {
            EphemeralAllocation::Allocating => EphemeralAllocation::Allocating,
            EphemeralAllocation::Falling { error } => EphemeralAllocation::Falling {
                error: error.clone(),
            },
            EphemeralAllocation::Attaching { ip } => EphemeralAllocation::Attaching { ip: *ip },
            EphemeralAllocation::Undoing { error } => EphemeralAllocation::Undoing {
                error: error.clone(),
            },
            EphemeralAllocation::Replacing => EphemeralAllocation::Replacing,
            EphemeralAllocation::LookingUp => EphemeralAllocation::LookingUp,
        }
    }
}

/// What is to be done next for an ephemeral address.
#[derive(Debug, PartialEq, Eq)]
pub enum EphemeralAction {
    LookUp,
    BeginAttach { ip_id: Uuid },
    Deallocate { ip_id: Uuid },
    /// Nothing: this is the address, and whether its attachment has to be completed.
    Done { ip: ExternalIp, do_saga: bool },
    Fail { error: IpError },
}

/// What came of the last action for an ephemeral address.
#[derive(Debug, PartialEq, Eq)]
pub enum EphemeralEvent {
    Allocated(Result<ExternalIp, IpError>),
    LookedUp(Result<Option<ExternalIp>, IpError>),
    Attached(Result<Begun, IpError>),
    Deallocated(Result<bool, IpError>),
}

/// The address that an instance has, and whether its attachment has to be completed.
pub open spec fn present(ip: ExternalIp) -> EphemeralAction {
    EphemeralAction::Done { ip, do_saga: ip.state != IpAttachState::Attached }
}

impl EphemeralAllocation {
    /// The event is one that can come now.
    pub open spec fn expects(self, event: EphemeralEvent) -> bool {
        match self {
            EphemeralAllocation::Allocating => event is Allocated,
            EphemeralAllocation::Falling { .. } | EphemeralAllocation::LookingUp
                => event is LookedUp,
            EphemeralAllocation::Attaching { .. } => event is Attached,
            EphemeralAllocation::Undoing { .. } | EphemeralAllocation::Replacing
                => event is Deallocated,
        }
    }

    /// What is to be done after an event, and how far the allocation has come then.
    pub open spec fn next(self, event: EphemeralEvent) -> (EphemeralAllocation, EphemeralAction) {
        match (self, event) {
            (EphemeralAllocation::Allocating, EphemeralEvent::Allocated(Ok(ip))) => (
                EphemeralAllocation::Attaching { ip },
                EphemeralAction::BeginAttach { ip_id: ip.id },
            ),
            (EphemeralAllocation::Allocating, EphemeralEvent::Allocated(Err(error))) => (
                EphemeralAllocation::Falling { error },
                EphemeralAction::LookUp,
            ),
            (EphemeralAllocation::Falling { error }, EphemeralEvent::LookedUp(found)) => (
                self,
                match found {
                    Ok(Some(ip)) => present(ip),
                    Ok(None) => EphemeralAction::Fail { error },
                    Err(error) => EphemeralAction::Fail { error },
                },
            ),
            (EphemeralAllocation::Attaching { ip }, EphemeralEvent::Attached(begun)) => match begun {
                Ok(Some((ip, do_saga))) => (self, EphemeralAction::Done { ip, do_saga }),
                Ok(None) => (
                    EphemeralAllocation::Replacing,
                    EphemeralAction::Deallocate { ip_id: ip.id },
                ),
                Err(error) => (
                    EphemeralAllocation::Undoing { error },
                    EphemeralAction::Deallocate { ip_id: ip.id },
                ),
            },
            (EphemeralAllocation::Undoing { error }, EphemeralEvent::Deallocated(done)) => (
                self,
                match done {
                    Ok(_) => EphemeralAction::Fail { error },
                    Err(error) => EphemeralAction::Fail { error },
                },
            ),
            (EphemeralAllocation::Replacing, EphemeralEvent::Deallocated(Ok(_))) => (
                EphemeralAllocation::LookingUp,
                EphemeralAction::LookUp,
            ),
            (EphemeralAllocation::Replacing, EphemeralEvent::Deallocated(Err(error))) => (
                self,
                EphemeralAction::Fail { error },
            ),
            (EphemeralAllocation::LookingUp, EphemeralEvent::LookedUp(found)) => (
                self,
                match found {
                    Ok(Some(ip)) => present(ip),
                    Ok(None) => EphemeralAction::Fail { error: IpError::EphemeralLookupFailed },
                    Err(error) => EphemeralAction::Fail { error },
                },
            ),
            _ => (self, EphemeralAction::Fail { error: IpError::Unreachable }),
        }
    }

    /// Takes in what came of the last action, and gives the next one.
    pub fn step(&mut self, event: EphemeralEvent) -> (action: EphemeralAction)
        requires
            old(self).expects(event),
        ensures
            (*final(self), action) == old(self).next(event),
    {
        match (self.clone(), event) {
            (EphemeralAllocation::Allocating, EphemeralEvent::Allocated(Ok(ip))) => {
                *self = EphemeralAllocation::Attaching { ip };
                EphemeralAction::BeginAttach { ip_id: ip.id }
            },
            (EphemeralAllocation::Allocating, EphemeralEvent::Allocated(Err(error))) => {
                *self = EphemeralAllocation::Falling { error };
                EphemeralAction::LookUp
            },
            (EphemeralAllocation::Falling { error }, EphemeralEvent::LookedUp(found)) => match found {
                Ok(Some(ip)) => EphemeralAction::Done {
                    ip,
                    do_saga: ip.state != IpAttachState::Attached,
                },
                Ok(None) => EphemeralAction::Fail { error },
                Err(error) => EphemeralAction::Fail { error },
            },
            (EphemeralAllocation::Attaching { ip }, EphemeralEvent::Attached(begun)) => match begun {
                Ok(Some((ip, do_saga))) => EphemeralAction::Done { ip, do_saga },
                Ok(None) => {
                    *self = EphemeralAllocation::Replacing;
                    EphemeralAction::Deallocate { ip_id: ip.id }
                },
                Err(error) => {
                    *self = EphemeralAllocation::Undoing { error };
                    EphemeralAction::Deallocate { ip_id: ip.id }
                },
            },
            (EphemeralAllocation::Undoing { error }, EphemeralEvent::Deallocated(done)) => match done {
                Ok(_) => EphemeralAction::Fail { error },
                Err(error) => EphemeralAction::Fail { error },
            },
            (EphemeralAllocation::Replacing, EphemeralEvent::Deallocated(Ok(_))) => {
                *self = EphemeralAllocation::LookingUp;
                EphemeralAction::LookUp
            },
            (EphemeralAllocation::Replacing, EphemeralEvent::Deallocated(Err(error))) => {
                EphemeralAction::Fail { error }
            },
            (EphemeralAllocation::LookingUp, EphemeralEvent::LookedUp(found)) => match found {
                Ok(Some(ip)) => EphemeralAction::Done {
                    ip,
                    do_saga: ip.state != IpAttachState::Attached,
                },
                Ok(None) => EphemeralAction::Fail { error: IpError::EphemeralLookupFailed },
                Err(error) => EphemeralAction::Fail { error },
            },
            _ => EphemeralAction::Fail { error: IpError::Unreachable },
        }
    }
}

/// A new ephemeral address that is not attached is deleted, before anything else is done.
pub proof fn unattached_address_is_deleted(ip: ExternalIp, begun: Result<Begun, IpError>)
    ensures
        (EphemeralAllocation::Attaching { ip }).next(EphemeralEvent::Attached(begun)).1 == (
        match begun {
            Ok(Some((ip, do_saga))) => EphemeralAction::Done { ip, do_saga },
            _ => EphemeralAction::Deallocate { ip_id: ip.id },
        }),
{
}

/// What attaching comes to, where the instance is there, as the database makes the change.
pub open spec fn attach_effect(
    query: GuardedUpdate,
    instance: InstanceRuntime,
    ip: Option<ExternalIp>,
    attached_count: i64,
    now: Timestamp,
) -> AttachOutcome {
    match ip {
        None => AttachOutcome::ResourceNotFound,
        Some(ip) => if query.instance_is_safe(instance) && query.update.filter.selects(ip) && (
        query.max_attached matches Some(max) ==> attached_count < max) {
            AttachOutcome::Updated { resource: query.update.change.result(ip, now) }
        } else {
            AttachOutcome::NoUpdate { attached_count, resource: ip, collection: instance }
        },
    }
}

/// What detaching comes to, where the instance is there, as the database makes the change.
pub open spec fn detach_effect(
    query: GuardedUpdate,
    instance: InstanceRuntime,
    ip: Option<ExternalIp>,
    now: Timestamp,
) -> DetachOutcome {
    match ip {
        None => DetachOutcome::ResourceNotFound,
        Some(ip) => if query.instance_is_safe(instance) && query.update.filter.selects(ip) {
            DetachOutcome::Updated { resource: query.update.change.result(ip, now) }
        } else {
            DetachOutcome::NoUpdate { resource: ip, collection: instance }
        },
    }
}

/// The address after a completion, if the completion applies to it.
pub open spec fn completed(c: Completion, ip: ExternalIp, now: Timestamp) -> Option<ExternalIp> {
    let update = match c {
        Completion::Plain(update) => update,
        Completion::Checked(update) => update,
    };
    if update.filter.selects(ip) {
        Some(update.change.result(ip, now))
    } else {
        None
    }
}

/// The address is free to be attached.
pub open spec fn free(ip: ExternalIp, kind: IpKind) -> bool {
    ip.kind == kind && ip.state == IpAttachState::Detached && ip.parent_id is None
        && ip.time_deleted is None
}

/// Attaching a free address to a safe instance with room for it makes it attaching, and completing
/// that makes it attached.
pub proof fn free_address_is_attached(
    ip: ExternalIp,
    instance_id: Uuid,
    instance: InstanceRuntime,
    creating: bool,
    count: i64,
    t1: Timestamp,
    t2: Timestamp,
)
    requires
        ip.kind != IpKind::SNat,
        free(ip, ip.kind),
        safe_states(creating).contains(instance.state),
        instance.migration_id is None,
        count < MAX_EXTERNAL_IPS_PLUS_SNAT,
    ensures
        ({
            let query = attach_query(ip.id, instance_id, ip.kind, creating);
            let outcome = attach_effect(query, instance, Some(ip), count, t1);
            let attaching = ExternalIp {
                parent_id: Some(instance_id),
                time_modified: t1,
                state: IpAttachState::Attaching,
                ..ip
            };
            &&& attach_result(outcome, ip.id, instance_id, ip.kind) == Ok::<Begun, IpError>(
                Some((attaching, true)),
            )
            &&& completion(ip.id, ip.kind, IpAttachState::Attaching, IpAttachState::Attached)
                matches Ok(c) && completed(c, attaching, t2) == Some(
                ExternalIp { time_modified: t2, state: IpAttachState::Attached, ..attaching },
            )
        }),
{
}

/// Attaching is idempotent: an address that is attached to the instance, or on its way to it, is
/// given back as it is, and only one that is on its way has still to be completed.
pub proof fn attaching_is_idempotent(
    ip: ExternalIp,
    instance_id: Uuid,
    instance: InstanceRuntime,
    creating: bool,
    count: i64,
    now: Timestamp,
)
    requires
        ip.parent_id == Some(instance_id),
        ip.state == IpAttachState::Attaching || ip.state == IpAttachState::Attached,
    ensures
        attach_result(
            attach_effect(
                attach_query(ip.id, instance_id, ip.kind, creating),
                instance,
                Some(ip),
                count,
                now,
            ),
            ip.id,
            instance_id,
            ip.kind,
        ) == Ok::<Begun, IpError>(Some((ip, ip.state == IpAttachState::Attaching))),
{
}

/// No instance gets an address of another: attaching an address that is attached elsewhere, or on
/// its way, fails.
pub proof fn attached_address_is_not_taken(
    ip: ExternalIp,
    instance_id: Uuid,
    instance: InstanceRuntime,
    creating: bool,
    count: i64,
    now: Timestamp,
)
    requires
        ip.parent_id != Some(instance_id),
        ip.state != IpAttachState::Detached,
    ensures
        attach_result(
            attach_effect(
                attach_query(ip.id, instance_id, ip.kind, creating),
                instance,
                Some(ip),
                count,
                now,
            ),
            ip.id,
            instance_id,
            ip.kind,
        ) == Err::<Begun, IpError>(
            if ip.state == IpAttachState::Attached {
                IpError::AttachedToAnother { kind: ip.kind }
            } else {
                IpError::AttachMidOperation { kind: ip.kind }
            },
        ),
{
}

/// Detaching an attached address from a safe instance makes it detaching. Completing that makes a
/// floating address free again, and deletes an ephemeral one.
pub proof fn attached_address_is_detached(
    ip: ExternalIp,
    instance_id: Uuid,
    instance: InstanceRuntime,
    creating: bool,
    t1: Timestamp,
    t2: Timestamp,
)
    requires
        ip.kind != IpKind::SNat,
        ip.state == IpAttachState::Attached,
        ip.parent_id == Some(instance_id),
        ip.time_deleted is None,
        safe_states(creating).contains(instance.state),
        instance.migration_id is None,
    ensures
        ({
            let query = detach_query(ip.id, instance_id, ip.kind, creating);
            let outcome = detach_effect(query, instance, Some(ip), t1);
            let detaching = ExternalIp {
                time_modified: t1,
                state: IpAttachState::Detaching,
                ..ip
            };
            &&& detach_result(outcome, ip.id, instance_id, ip.kind) == Ok::<Begun, IpError>(
                Some((detaching, true)),
            )
            &&& completion(ip.id, ip.kind, IpAttachState::Detaching, IpAttachState::Detached)
                matches Ok(c)
            &&& completed(c, detaching, t2) matches Some(after)
            &&& ip.kind == IpKind::Floating ==> free(after, IpKind::Floating)
            &&& ip.kind == IpKind::Ephemeral ==> after.time_deleted == Some(t2)
        }),
{
}

/// Detaching is idempotent: an address that is detached, or on its way from the instance, is given
/// back as it is, and only one that is on its way has still to be completed.
pub proof fn detaching_is_idempotent(
    ip: ExternalIp,
    instance_id: Uuid,
    instance: InstanceRuntime,
    creating: bool,
    now: Timestamp,
)
    requires
        ip.state == IpAttachState::Detached || (ip.state == IpAttachState::Detaching && ip.parent_id
            == Some(instance_id)),
    ensures
        detach_result(
            detach_effect(
                detach_query(ip.id, instance_id, ip.kind, creating),
                instance,
                Some(ip),
                now,
            ),
            ip.id,
            instance_id,
            ip.kind,
        ) == Ok::<Begun, IpError>(Some((ip, ip.state == IpAttachState::Detaching))),
{
}

/// A completion changes an address once: it does not apply to what it made of the address.
pub proof fn completion_applies_once(
    ip: ExternalIp,
    kind: IpKind,
    expected: IpAttachState,
    target: IpAttachState,
    t1: Timestamp,
    t2: Timestamp,
)
    requires
        completion(ip.id, kind, expected, target) is Ok,
        completed(completion(ip.id, kind, expected, target)->Ok_0, ip, t1) is Some,
    ensures
        ({
            let c = completion(ip.id, kind, expected, target)->Ok_0;
            completed(c, completed(c, ip, t1)->0, t2) is None
        }),
{
}

} // verus!
