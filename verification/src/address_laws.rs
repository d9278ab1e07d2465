//! What holds of external addresses, whatever is done with them.

use vstd::prelude::*;

use crate::external_ip::{
    attach_effect, attach_query, attach_result, begun_for, completed, completed_count, completion,
    counts_as_deleted, detach_effect, detach_query, detach_result, failed_allocation, pool_of,
    safe_states, AllocationFailure, AttachOutcome, Begun, CheckedUpdate, Completion, DetachOutcome,
    EphemeralAction, EphemeralAllocation, EphemeralEvent, ErrorClass, ExternalIp,
    IncompleteExternalIp, InstanceRuntime, InstanceState, IpAttachState, IpChange, IpError,
    IpFilter, IpKind, KindFilter, ParentFilter, PoolLookup,
};
use crate::ids::Uuid;
use crate::time::Timestamp;
use crate::net::IpAddr;

verus! {

/// The two addresses differ at most in their parent, their state and their times.
pub open spec fn same_address(a: ExternalIp, b: ExternalIp) -> bool {
    &&& a.id == b.id
    &&& a.ip_pool_id == b.ip_pool_id
    &&& a.is_service == b.is_service
    &&& a.kind == b.kind
    &&& a.ip == b.ip
    &&& a.first_port == b.first_port
    &&& a.last_port == b.last_port
    &&& a.project_id == b.project_id
}

/// An address on its way can be brought to either end, whichever way it was going. It is then in the
/// state where it was meant to end. An address that ends attached keeps its parent, and one that ends
/// detached has none. A floating address is never deleted by this, so one that ends detached is free
/// again; an ephemeral one is deleted exactly where it ends detached.
pub proof fn completions_end_as_they_are_meant_to(
    ip_id: Uuid,
    kind: IpKind,
    expected: IpAttachState,
    target: IpAttachState,
    ip: ExternalIp,
    now: Timestamp,
)
    ensures
        completion(ip_id, kind, expected, target) is Ok <==> {
            &&& kind == IpKind::Ephemeral || kind == IpKind::Floating
            &&& expected == IpAttachState::Attaching || expected == IpAttachState::Detaching
            &&& target == IpAttachState::Attached || target == IpAttachState::Detached
        },
        completion(ip_id, kind, expected, target) matches Ok(c) ==> {
            &&& completed(c, ip, now) is Some <==> ip.id == ip_id && ip.state == expected
                && ip.time_deleted is None
            &&& completed(c, ip, now) matches Some(after) ==> {
                &&& same_address(ip, after)
                &&& after.state == target
                &&& after.time_modified == now
                &&& target == IpAttachState::Attached ==> after.parent_id == ip.parent_id
                    && after.time_deleted is None
                &&& target == IpAttachState::Detached ==> after.parent_id is None
                &&& kind == IpKind::Floating ==> after.time_deleted is None
                &&& kind == IpKind::Ephemeral && target == IpAttachState::Detached
                    ==> after.time_deleted == Some(now)
            }
            &&& c is Checked <==> expected == IpAttachState::Attaching && target
                == IpAttachState::Attached
        },
{
}

/// Why an address cannot be brought to its end.
pub proof fn completions_fail_only_for_cause(
    ip_id: Uuid,
    kind: IpKind,
    expected: IpAttachState,
    target: IpAttachState,
)
    ensures
        completion(ip_id, kind, expected, target) matches Err(e) ==> match e {
            IpError::NotATransition { from } => from == expected && (from == IpAttachState::Attached
                || from == IpAttachState::Detached),
            IpError::CompleteSnat => kind == IpKind::SNat,
            IpError::Unreachable => target == IpAttachState::Attaching || target
                == IpAttachState::Detaching,
            _ => false,
        },
        expected == IpAttachState::Attached || expected == IpAttachState::Detached ==> (completion(
            ip_id,
            kind,
            expected,
            target,
        ) matches Err(e) && e is NotATransition),
        kind == IpKind::SNat ==> completion(ip_id, kind, expected, target) is Err,
{
}

/// The instance can be given addresses, or be freed of them: it is stopped or running, or is being
/// created by the one who asks, and it does not migrate.
pub open spec fn is_settled(instance: InstanceRuntime, creating: bool) -> bool {
    &&& instance.migration_id is None
    &&& instance.state == InstanceState::Stopped || instance.state == InstanceState::Running || (
    creating && instance.state == InstanceState::Creating)
}

proof fn settled_is_safe(instance: InstanceRuntime, creating: bool)
    ensures
        safe_states(creating).contains(instance.state) && instance.migration_id is None
            <==> is_settled(instance, creating),
{
    let s = safe_states(creating);
    assert(s[0] == InstanceState::Stopped);
    assert(s[1] == InstanceState::Running);
    if creating {
        assert(s[2] == InstanceState::Creating);
    }
    if s.contains(instance.state) {
        let k = s.index_of(instance.state);
        assert(s[k] == instance.state);
    }
}

/// An address is attached, or found attached, exactly where it is free and there is room for it on a
/// settled instance, or where it belongs to the instance already. What is given back belongs to the
/// instance, and its attachment has to be completed exactly where it is on its way. An address that
/// is not given back stays as it is.
pub proof fn attaching_gives_addresses_of_the_instance(
    ip: ExternalIp,
    ip_id: Uuid,
    instance_id: Uuid,
    kind: IpKind,
    instance: InstanceRuntime,
    creating: bool,
    count: i64,
    now: Timestamp,
)
    ensures
        ({
            let query = attach_query(ip_id, instance_id, kind, creating);
            let outcome = attach_effect(query, instance, Some(ip), count, now);
            let r = attach_result(outcome, ip_id, instance_id, kind);
            let is_free = ip.id == ip_id && ip.kind == kind && ip.time_deleted is None
                && ip.parent_id is None && ip.state == IpAttachState::Detached;
            let is_here = ip.parent_id == Some(instance_id) && (ip.state == IpAttachState::Attached
                || ip.state == IpAttachState::Attaching);
            &&& r is Ok <==> is_here || (is_free && is_settled(instance, creating) && count < 33)
            &&& outcome is Updated <==> is_free && is_settled(instance, creating) && count < 33
            &&& r matches Ok(v) ==> {
                &&& v matches Some((got, more))
                &&& same_address(ip, got)
                &&& got.time_deleted == ip.time_deleted
                &&& got.parent_id == Some(instance_id)
                &&& got.state == IpAttachState::Attached || got.state == IpAttachState::Attaching
                &&& more <==> got.state == IpAttachState::Attaching
                &&& is_here ==> got == ip
                &&& is_free ==> got.time_modified == now && more
            }
        }),
{
    settled_is_safe(instance, creating);
}

/// Why an address was not attached.
pub proof fn attaching_fails_only_for_cause(
    ip: ExternalIp,
    ip_id: Uuid,
    instance_id: Uuid,
    kind: IpKind,
    instance: InstanceRuntime,
    creating: bool,
    count: i64,
    now: Timestamp,
)
    ensures
        ({
            let query = attach_query(ip_id, instance_id, kind, creating);
            let outcome = attach_effect(query, instance, Some(ip), count, now);
            attach_result(outcome, ip_id, instance_id, kind) matches Err(e) ==> {
                &&& e is AttachedToAnother <==> ip.state == IpAttachState::Attached
                &&& e is AttachMidOperation <==> ip.state == IpAttachState::Attaching || ip.state
                    == IpAttachState::Detaching
                &&& ip.state == IpAttachState::Detached ==> {
                    &&& e is AttachWhileMigrating <==> instance.migration_id is Some
                    &&& e is AttachWhileChanging <==> instance.migration_id is None && (
                    instance.state == InstanceState::Starting || instance.state
                        == InstanceState::Stopping || instance.state == InstanceState::Creating
                        || instance.state == InstanceState::Rebooting || instance.state
                        == InstanceState::Migrating)
                    &&& e is AttachInState <==> instance.migration_id is None && (instance.state
                        == InstanceState::Repairing || instance.state == InstanceState::Failed
                        || instance.state == InstanceState::Destroyed)
                    &&& e is TooManyAddresses <==> instance.migration_id is None && (instance.state
                        == InstanceState::Stopped || instance.state == InstanceState::Running)
                        && count >= 33
                    &&& e is AttachFailed <==> instance.migration_id is None && (instance.state
                        == InstanceState::Stopped || instance.state == InstanceState::Running)
                        && count < 33
                }
                &&& e matches IpError::AttachInState { state, .. } ==> state == instance.state
                &&& match e {
                    IpError::AttachedToAnother { kind: k } => k == kind,
                    IpError::AttachMidOperation { kind: k } => k == kind,
                    IpError::AttachWhileMigrating { kind: k } => k == kind,
                    IpError::AttachWhileChanging { kind: k } => k == kind,
                    IpError::AttachInState { kind: k, .. } => k == kind,
                    IpError::AttachFailed { kind: k } => k == kind,
                    IpError::TooManyAddresses => true,
                    _ => false,
                }
            }
        }),
{
    settled_is_safe(instance, creating);
}

/// An address is detached, or found detached, exactly where it is attached to the instance and the
/// instance is settled, or where it is on its way from the instance, or detached already. What is
/// given back is on its way exactly where the detachment has to be completed. No other instance loses
/// an address.
pub proof fn detaching_takes_only_addresses_of_the_instance(
    ip: ExternalIp,
    ip_id: Uuid,
    instance_id: Uuid,
    kind: IpKind,
    instance: InstanceRuntime,
    creating: bool,
    now: Timestamp,
)
    ensures
        ({
            let query = detach_query(ip_id, instance_id, kind, creating);
            let outcome = detach_effect(query, instance, Some(ip), now);
            let r = detach_result(outcome, ip_id, instance_id, kind);
            let is_attached = ip.id == ip_id && ip.kind == kind && ip.time_deleted is None
                && ip.parent_id == Some(instance_id) && ip.state == IpAttachState::Attached;
            let is_gone = ip.state == IpAttachState::Detached || (ip.state
                == IpAttachState::Detaching && ip.parent_id == Some(instance_id));
            &&& r is Ok <==> is_gone || (is_attached && is_settled(instance, creating))
            &&& outcome is Updated <==> is_attached && is_settled(instance, creating)
            &&& r matches Ok(v) ==> {
                &&& v matches Some((got, more))
                &&& same_address(ip, got)
                &&& got.time_deleted == ip.time_deleted
                &&& got.parent_id == ip.parent_id
                &&& got.state == IpAttachState::Detached || got.state == IpAttachState::Detaching
                &&& more <==> got.state == IpAttachState::Detaching
                &&& is_gone ==> got == ip
                &&& is_attached ==> got.time_modified == now && more
            }
        }),
{
    settled_is_safe(instance, creating);
}

/// Why an address was not detached.
pub proof fn detaching_fails_only_for_cause(
    ip: ExternalIp,
    ip_id: Uuid,
    instance_id: Uuid,
    kind: IpKind,
    instance: InstanceRuntime,
    creating: bool,
    now: Timestamp,
)
    ensures
        ({
            let query = detach_query(ip_id, instance_id, kind, creating);
            let outcome = detach_effect(query, instance, Some(ip), now);
            detach_result(outcome, ip_id, instance_id, kind) matches Err(e) ==> {
                let here = ip.parent_id == Some(instance_id);
                &&& e is NotAttachedToTarget <==> ip.state == IpAttachState::Attached && !here
                &&& e is DetachMidOperation <==> ip.state == IpAttachState::Attaching || ip.state
                    == IpAttachState::Detaching
                &&& ip.state == IpAttachState::Attached && here ==> {
                    &&& e is DetachWhileMigrating <==> instance.migration_id is Some
                    &&& e is DetachWhileChanging <==> instance.migration_id is None && (
                    instance.state == InstanceState::Starting || instance.state
                        == InstanceState::Stopping || instance.state == InstanceState::Creating
                        || instance.state == InstanceState::Rebooting || instance.state
                        == InstanceState::Migrating)
                    &&& e is DetachInState <==> instance.migration_id is None && (instance.state
                        == InstanceState::Repairing || instance.state == InstanceState::Failed
                        || instance.state == InstanceState::Destroyed)
                    &&& e is DetachFailed <==> instance.migration_id is None && (instance.state
                        == InstanceState::Stopped || instance.state == InstanceState::Running)
                }
                &&& e matches IpError::DetachInState { state, .. } ==> state == instance.state
                &&& match e {
                    IpError::NotAttachedToTarget { kind: k } => k == kind,
                    IpError::DetachMidOperation { kind: k } => k == kind,
                    IpError::DetachWhileMigrating { kind: k } => k == kind,
                    IpError::DetachWhileChanging { kind: k } => k == kind,
                    IpError::DetachInState { kind: k, .. } => k == kind,
                    IpError::DetachFailed { kind: k } => k == kind,
                    _ => false,
                }
            }
        }),
{
    settled_is_safe(instance, creating);
}

/// What is missing decides what attaching and detaching say of it: the instance is looked for by its
/// id, and the address by its own. A missing ephemeral address counts as detached, and where an
/// instance has an ephemeral address already, no other is given.
pub proof fn missing_things_are_told_apart(
    ip_id: Uuid,
    instance_id: Uuid,
    kind: IpKind,
    unique_violation: bool,
)
    ensures
        attach_result(AttachOutcome::CollectionNotFound, ip_id, instance_id, kind) == Err::<
            Begun,
            IpError,
        >(IpError::InstanceNotFound { id: instance_id }),
        detach_result(DetachOutcome::CollectionNotFound, ip_id, instance_id, kind) == Err::<
            Begun,
            IpError,
        >(IpError::InstanceNotFound { id: instance_id }),
        kind != IpKind::Ephemeral ==> attach_result(
            AttachOutcome::ResourceNotFound,
            ip_id,
            instance_id,
            kind,
        ) == Err::<Begun, IpError>(IpError::FloatingIpNotFound { id: ip_id }),
        kind != IpKind::Ephemeral ==> detach_result(
            DetachOutcome::ResourceNotFound,
            ip_id,
            instance_id,
            kind,
        ) == Err::<Begun, IpError>(IpError::FloatingIpNotFound { id: ip_id }),
        kind == IpKind::Ephemeral ==> attach_result(
            AttachOutcome::ResourceNotFound,
            ip_id,
            instance_id,
            kind,
        ) is Err,
        kind == IpKind::Ephemeral ==> detach_result(
            DetachOutcome::ResourceNotFound,
            ip_id,
            instance_id,
            kind,
        ) == Ok::<Begun, IpError>(None),
        ({
            let r = attach_result(
                AttachOutcome::DatabaseError { unique_violation },
                ip_id,
                instance_id,
                kind,
            );
            &&& r == Ok::<Begun, IpError>(None) <==> unique_violation && kind == IpKind::Ephemeral
            &&& r is Err <==> !(unique_violation && kind == IpKind::Ephemeral)
        }),
        detach_result(DetachOutcome::DatabaseError, ip_id, instance_id, kind) is Err,
{
}

/// Attaching a free address and giving the attachment up again makes a floating address free again,
/// and deletes an ephemeral one.
pub proof fn attachments_can_be_given_up(
    ip: ExternalIp,
    instance_id: Uuid,
    instance: InstanceRuntime,
    creating: bool,
    count: i64,
    t1: Timestamp,
    t2: Timestamp,
)
    requires
        ip.kind == IpKind::Ephemeral || ip.kind == IpKind::Floating,
        ip.state == IpAttachState::Detached,
        ip.parent_id is None,
        ip.time_deleted is None,
        is_settled(instance, creating),
        count < 33,
    ensures
        ({
            let query = attach_query(ip.id, instance_id, ip.kind, creating);
            let outcome = attach_effect(query, instance, Some(ip), count, t1);
            &&& attach_result(outcome, ip.id, instance_id, ip.kind) matches Ok(Some((attaching, _)))
            &&& completion(ip.id, ip.kind, IpAttachState::Attaching, IpAttachState::Detached)
                matches Ok(c)
            &&& completed(c, attaching, t2) matches Some(after)
            &&& ip.kind == IpKind::Floating ==> after == (ExternalIp { time_modified: t2, ..ip })
            &&& ip.kind == IpKind::Ephemeral ==> after.time_deleted == Some(t2)
        }),
{
    settled_is_safe(instance, creating);
}

/// Giving up the detachment of an address leaves it attached as it was.
pub proof fn detachments_can_be_given_up(
    ip: ExternalIp,
    instance_id: Uuid,
    instance: InstanceRuntime,
    creating: bool,
    t1: Timestamp,
    t2: Timestamp,
)
    requires
        ip.kind == IpKind::Ephemeral || ip.kind == IpKind::Floating,
        ip.state == IpAttachState::Attached,
        ip.parent_id == Some(instance_id),
        ip.time_deleted is None,
        is_settled(instance, creating),
    ensures
        ({
            let query = detach_query(ip.id, instance_id, ip.kind, creating);
            let outcome = detach_effect(query, instance, Some(ip), t1);
            &&& detach_result(outcome, ip.id, instance_id, ip.kind) matches Ok(Some((detaching, _)))
            &&& completion(ip.id, ip.kind, IpAttachState::Detaching, IpAttachState::Attached)
                matches Ok(c)
            &&& completed(c, detaching, t2) == Some(ExternalIp { time_modified: t2, ..ip })
        }),
{
    settled_is_safe(instance, creating);
}

/// A filter means exactly the addresses that are not deleted and have all that it asks for.
pub proof fn filters_select_what_they_ask_for(filter: IpFilter, ip: ExternalIp)
    ensures
        filter.selects(ip) ==> ip.time_deleted is None,
        filter.selects(ip) && filter.id is Some ==> filter.id == Some(ip.id),
        filter.selects(ip) && filter.is_service is Some ==> filter.is_service == Some(
            ip.is_service,
        ),
        filter.selects(ip) && filter.project_id is Some ==> filter.project_id == ip.project_id,
        filter.selects(ip) && filter.state is Some ==> filter.state == Some(ip.state),
        filter.selects(ip) && filter.parent == ParentFilter::Missing ==> ip.parent_id is None,
        filter.selects(ip) && filter.parent is Is ==> ip.parent_id == Some(filter.parent->Is_0),
        filter.selects(ip) && filter.kind is Is ==> ip.kind == filter.kind->Is_0,
        filter.selects(ip) && filter.kind is IsNot ==> ip.kind != filter.kind->IsNot_0,
        ip.time_deleted is None ==> (IpFilter {
            id: Some(ip.id),
            is_service: Some(ip.is_service),
            parent: match ip.parent_id {
                Some(p) => ParentFilter::Is(p),
                None => ParentFilter::Missing,
            },
            kind: KindFilter::Is(ip.kind),
            project_id: ip.project_id,
            state: Some(ip.state),
        }).selects(ip),
        ip.time_deleted is None ==> (IpFilter {
            id: None,
            is_service: None,
            parent: ParentFilter::Any,
            kind: KindFilter::Any,
            project_id: None,
            state: None,
        }).selects(ip),
{
}

/// An ephemeral address is given to an instance only where it was attached, or found: the address is
/// the one that was attached or found, and its attachment has to be completed exactly where that was
/// said, or where it was found not to be attached.
pub proof fn ephemeral_addresses_are_attached_or_found(
    state: EphemeralAllocation,
    event: EphemeralEvent,
)
    requires
        state.expects(event),
    ensures
        state.next(event).1 matches EphemeralAction::Done { ip, do_saga } ==> match event {
            EphemeralEvent::Attached(begun) => begun == Ok::<Begun, IpError>(Some((ip, do_saga))),
            EphemeralEvent::LookedUp(found) => found == Ok::<Option<ExternalIp>, IpError>(Some(ip))
                && (do_saga <==> ip.state != IpAttachState::Attached),
            _ => false,
        },
        event matches EphemeralEvent::Attached(Ok(Some(got))) ==> state.next(event).1
            == (EphemeralAction::Done { ip: got.0, do_saga: got.1 }),
        event matches EphemeralEvent::LookedUp(Ok(Some(ip))) ==> state.next(event).1 is Done,
        state.next(event).1 is BeginAttach <==> (event matches EphemeralEvent::Allocated(Ok(_))),
        event matches EphemeralEvent::Allocated(Ok(ip)) ==> state.next(event) == (
            EphemeralAllocation::Attaching { ip },
            EphemeralAction::BeginAttach { ip_id: ip.id },
        ),
        state.next(event).1 is Deallocate <==> event is Attached && !(event matches
            EphemeralEvent::Attached(Ok(Some(_)))),
        state.next(event).1 matches EphemeralAction::Deallocate { ip_id } ==> ip_id
            == state->Attaching_ip.id,
{
}

/// An allocation that fails tells the first thing that went wrong, unless the attempt to make up for
/// it goes wrong itself.
pub proof fn failed_allocations_tell_the_first_error(
    error: IpError,
    ip: ExternalIp,
    done: bool,
    later: IpError,
)
    ensures
        ({
            let start = EphemeralAllocation::Allocating;
            let (falling, action) = start.next(
                EphemeralEvent::Allocated(Err::<ExternalIp, IpError>(error)),
            );
            &&& action == EphemeralAction::LookUp
            &&& falling.next(EphemeralEvent::LookedUp(Ok::<Option<ExternalIp>, IpError>(None))).1
                == (EphemeralAction::Fail { error })
            &&& falling.next(EphemeralEvent::LookedUp(Err::<Option<ExternalIp>, IpError>(later))).1
                == (EphemeralAction::Fail { error: later })
            &&& falling.next(EphemeralEvent::LookedUp(Ok::<Option<ExternalIp>, IpError>(Some(ip)))).1
                is Done
        }),
        ({
            let (undoing, action) = (EphemeralAllocation::Attaching { ip }).next(
                EphemeralEvent::Attached(Err::<Begun, IpError>(error)),
            );
            &&& action == (EphemeralAction::Deallocate { ip_id: ip.id })
            &&& undoing.next(EphemeralEvent::Deallocated(Ok::<bool, IpError>(done))).1 == (
            EphemeralAction::Fail { error })
            &&& undoing.next(EphemeralEvent::Deallocated(Err::<bool, IpError>(later))).1 == (
            EphemeralAction::Fail { error: later })
        }),
{
}

/// Where an instance has an ephemeral address already, the new one is deleted, and the one that it
/// has is looked up and given.
pub proof fn present_address_replaces_the_new_one(ip: ExternalIp, found: ExternalIp, done: bool)
    ensures
        ({
            let (replacing, a) = (EphemeralAllocation::Attaching { ip }).next(
                EphemeralEvent::Attached(Ok::<Begun, IpError>(None)),
            );
            let (looking, b) = replacing.next(
                EphemeralEvent::Deallocated(Ok::<bool, IpError>(done)),
            );
            let (_, c) = looking.next(
                EphemeralEvent::LookedUp(Ok::<Option<ExternalIp>, IpError>(Some(found))),
            );
            let (_, d) = looking.next(
                EphemeralEvent::LookedUp(Ok::<Option<ExternalIp>, IpError>(None)),
            );
            &&& a == (EphemeralAction::Deallocate { ip_id: ip.id })
            &&& b == EphemeralAction::LookUp
            &&& c == (EphemeralAction::Done {
                ip: found,
                do_saga: found.state != IpAttachState::Attached,
            })
            &&& d is Fail
        }),
{
}

/// The class of an error says whose fault it is: what is missing is not found, what can be tried
/// again is unavailable, what was asked for wrongly is invalid, and what should not have happened is
/// internal.
pub proof fn errors_are_classed_by_fault(kind: IpKind, state: InstanceState, id: Uuid)
    ensures
        (IpError::InstanceNotFound { id }).class_of() == ErrorClass::NotFound,
        (IpError::FloatingIpNotFound { id }).class_of() == ErrorClass::NotFound,
        (IpError::PoolNotFound { id }).class_of() == ErrorClass::NotFound,
        (IpError::AttachMidOperation { kind }).class_of() == ErrorClass::Unavailable,
        (IpError::AttachWhileMigrating { kind }).class_of() == ErrorClass::Unavailable,
        (IpError::AttachWhileChanging { kind }).class_of() == ErrorClass::Unavailable,
        (IpError::DetachMidOperation { kind }).class_of() == ErrorClass::Unavailable,
        (IpError::DetachWhileMigrating { kind }).class_of() == ErrorClass::Unavailable,
        (IpError::DetachWhileChanging { kind }).class_of() == ErrorClass::Unavailable,
        (IpError::AttachedToAnother { kind }).class_of() == ErrorClass::InvalidRequest,
        (IpError::AttachInState { kind, state }).class_of() == ErrorClass::InvalidRequest,
        (IpError::DetachInState { kind, state }).class_of() == ErrorClass::InvalidRequest,
        (IpError::NotAttachedToTarget { kind }).class_of() == ErrorClass::InvalidRequest,
        IpError::TooManyAddresses.class_of() == ErrorClass::InvalidRequest,
        IpError::FloatingIpInUse.class_of() == ErrorClass::InvalidRequest,
        IpError::AddressNotAvailable.class_of() == ErrorClass::InvalidRequest,
        IpError::NoAddressAvailable.class_of() == ErrorClass::InsufficientCapacity,
        (IpError::AttachFailed { kind }).class_of() == ErrorClass::Internal,
        (IpError::DetachFailed { kind }).class_of() == ErrorClass::Internal,
        IpError::EphemeralIpLost.class_of() == ErrorClass::Internal,
        IpError::EphemeralLookupFailed.class_of() == ErrorClass::Internal,
        IpError::FloatingAttachNone.class_of() == ErrorClass::Internal,
        IpError::FloatingDetachNone.class_of() == ErrorClass::Internal,
        IpError::CompleteSnat.class_of() == ErrorClass::Internal,
        IpError::ConcurrentInstanceDelete.class_of() == ErrorClass::Internal,
        IpError::Unreachable.class_of() == ErrorClass::Internal,
        forall|from: IpAttachState| #[trigger]
            (IpError::NotATransition { from }).class_of() == ErrorClass::Internal,
        forall|name: String| #[trigger]
            (IpError::NameConflict { name }).class_of() == ErrorClass::Conflict,
        IpError::Retryable.class_of() == ErrorClass::Outside,
        IpError::Database.class_of() == ErrorClass::Outside,
{
}

/// A filter means an address if and only if that is not deleted and agrees with each thing that the
/// filter asks for.
pub proof fn filters_ask_for_each_thing_by_itself(filter: IpFilter, ip: ExternalIp)
    ensures
        filter.selects(ip) <==> ip.time_deleted is None && (filter.id is None || filter.id == Some(
            ip.id,
        )) && (filter.is_service is None || filter.is_service == Some(ip.is_service)) && (
        filter.project_id is None || filter.project_id == ip.project_id) && (filter.state is None
            || filter.state == Some(ip.state)) && (filter.parent is Any || (filter.parent is Missing
            && ip.parent_id is None) || (filter.parent is Is && ip.parent_id == Some(
            filter.parent->Is_0,
        ))) && (filter.kind is Any || (filter.kind is Is && ip.kind == filter.kind->Is_0) || (
        filter.kind is IsNot && ip.kind != filter.kind->IsNot_0)),
{
}

/// A change of an address sets what it names, and nothing else.
pub proof fn changes_of_addresses_set_what_they_name(
    change: IpChange,
    ip: ExternalIp,
    now: Timestamp,
)
    ensures
        ({
            let after = change.result(ip, now);
            &&& same_address(ip, after)
            &&& change.parent_id is None ==> after.parent_id == ip.parent_id
            &&& change.parent_id matches Some(parent) ==> after.parent_id == parent
            &&& change.state is None ==> after.state == ip.state
            &&& change.state matches Some(state) ==> after.state == state
            &&& after.time_modified == (if change.modified {
                now
            } else {
                ip.time_modified
            })
            &&& !change.deleted ==> after.time_deleted == ip.time_deleted
            &&& change.deleted ==> after.time_deleted == Some(now)
        }),
{
}

/// A checked completion changes one address, or none where it was made before. It fails if and only
/// if the address was found detached or deleted meanwhile.
pub proof fn completions_that_come_too_late_fail(outcome: CheckedUpdate, found: ExternalIp)
    ensures
        completed_count(CheckedUpdate::Updated) == Ok::<usize, IpError>(1),
        completed_count(outcome) matches Ok(n) ==> n <= 1 && (n == 1 <==> outcome is Updated),
        completed_count(CheckedUpdate::NotUpdatedButExists { found }) is Err <==> found.state
            == IpAttachState::Detached || found.time_deleted is Some,
        completed_count(outcome) is Err ==> completed_count(outcome)->Err_0
            == IpError::ConcurrentInstanceDelete,
{
}

/// Deleting a floating address fails if and only if something has the address.
pub proof fn only_addresses_in_use_stay(outcome: CheckedUpdate)
    ensures
        !counts_as_deleted(outcome) <==> (outcome matches CheckedUpdate::NotUpdatedButExists {
            found,
        } && found.parent_id is Some),
{
}

/// An address is taken from the pool that was looked up. One that was asked for has to be linked to
/// the silo, and is not found else. The default pool need not be asked whether it is linked.
pub proof fn addresses_come_from_linked_pools(id: Uuid, pool: Uuid, error: IpError, linked: bool)
    ensures
        pool_of(PoolLookup::Given { id }, Ok(pool), true) == Ok::<Uuid, IpError>(pool),
        pool_of(PoolLookup::Given { id }, Ok(pool), false) == Err::<Uuid, IpError>(
            IpError::PoolNotFound { id },
        ),
        pool_of(PoolLookup::Default, Ok(pool), linked) == Ok::<Uuid, IpError>(pool),
        pool_of(PoolLookup::Given { id }, Err(error), linked) == Err::<Uuid, IpError>(error),
        pool_of(PoolLookup::Default, Err(error), linked) == Err::<Uuid, IpError>(error),
{
}

/// Where no address is left, that is told, or that the one that was asked for is not to be had. A
/// name that is taken is told with the name. All else is left to the database, and can be tried again
/// where the database says so.
pub proof fn failed_allocations_tell_their_cause(
    name: Option<String>,
    taken: String,
    explicit_ip: bool,
    retryable: bool,
)
    ensures
        failed_allocation(AllocationFailure::NotFound, name, true) == IpError::AddressNotAvailable,
        failed_allocation(AllocationFailure::NotFound, name, false) == IpError::NoAddressAvailable,
        failed_allocation(
            AllocationFailure::UniqueViolation { retryable },
            Some(taken),
            explicit_ip,
        ) == (IpError::NameConflict { name: taken }),
        failed_allocation(AllocationFailure::UniqueViolation { retryable }, None, explicit_ip)
            == failed_allocation(AllocationFailure::Other { retryable }, name, explicit_ip),
        failed_allocation(AllocationFailure::Other { retryable: true }, name, explicit_ip)
            == IpError::Retryable,
        failed_allocation(AllocationFailure::Other { retryable: false }, name, explicit_ip)
            == IpError::Database,
{
}

/// What was begun is handed on, and so is the error where it could not be. Where no address was
/// found to begin with, the error says so.
pub proof fn what_was_begun_is_handed_on(found: (ExternalIp, bool), error: IpError, missing: IpError)
    ensures
        begun_for(Ok(Some(found)), missing) == Ok::<(ExternalIp, bool), IpError>(found),
        begun_for(Ok(None), missing) == Err::<(ExternalIp, bool), IpError>(missing),
        begun_for(Err(error), missing) == Err::<(ExternalIp, bool), IpError>(error),
{
}

/// A new address has the id and the pool that it is asked for with. It begins attached if and only
/// if it has an owner from the start. Only those of services are marked as such. Floating addresses
/// and no others have a name, and only those that are not of a service have a project. A range of
/// ports is asked for only with an address to translate to.
pub proof fn new_addresses_begin_as_their_kind_needs(
    id: Uuid,
    pool: Uuid,
    owner: Uuid,
    name: String,
    description: String,
    ip: Option<IpAddr>,
    explicit: Option<(IpAddr, (u16, u16))>,
)
    ensures
        ({
            let ephemeral = IncompleteExternalIp::ephemeral(id, pool);
            let floating = IncompleteExternalIp::floating(id, name, description, owner, ip, pool);
            let instance = IncompleteExternalIp::instance_source_nat(id, owner, pool);
            let service = IncompleteExternalIp::service(id, name, description, owner, ip, pool);
            let translated = IncompleteExternalIp::service_source_nat(id, owner, explicit, pool);
            let all = seq![ephemeral, floating, instance, service, translated];
            &&& forall|i: int|
                0 <= i < 5 ==> {
                    let record = #[trigger] all[i];
                    &&& record.id == id && record.pool_id == pool
                    &&& record.parent_id is Some <==> record.state == IpAttachState::Attached
                    &&& record.parent_id is None <==> record.state == IpAttachState::Detached
                    &&& record.parent_id is Some ==> record.parent_id == Some(owner)
                    &&& record.is_service <==> i >= 3
                    &&& record.name is Some <==> record.kind == IpKind::Floating
                    &&& record.name is Some ==> record.name == Some(name) && record.description
                        == Some(description)
                    &&& record.name is None ==> record.description is None
                    &&& record.explicit_port_range is Some ==> record.explicit_ip is Some
                        && record.kind == IpKind::SNat
                    &&& record.project_id == (if record.kind == IpKind::Floating
                        && !record.is_service {
                        Some(owner)
                    } else {
                        None
                    })
                }
            &&& ephemeral.kind == IpKind::Ephemeral && ephemeral.parent_id is None
                && ephemeral.explicit_ip is None
            &&& floating.kind == IpKind::Floating && floating.parent_id is None
                && floating.explicit_ip == ip
            &&& instance.kind == IpKind::SNat && instance.parent_id is Some && instance.explicit_ip
                is None
            &&& service.kind == IpKind::Floating && service.parent_id is Some
                && service.explicit_ip == ip
            &&& translated.kind == IpKind::SNat && translated.parent_id is Some
            &&& explicit is None ==> translated.explicit_ip is None
            &&& explicit matches Some((to, ports)) ==> translated.explicit_ip == Some(to)
                && translated.explicit_port_range == Some(ports)
        }),
{
}

} // verus!
