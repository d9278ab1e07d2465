//! External addresses: attaching, detaching, allocating and deleting them.

use omicron::external_ip::{
    allocation_error, attached_count_of, begin_attach_ip, begin_deallocate_ephemeral_ip,
    begin_detach_ip, chosen_pool, deallocate_external_ip,
    deallocate_external_ip_by_instance_id, detach_floating_ips_by_instance_id,
    ephemeral_ip_deallocated, external_ip_complete_op, finish_attach_ip, finish_detach_ip, floating_ip_attached,
    floating_ip_delete, floating_ip_deleted, floating_ip_detached, floating_ips_list, instance_lookup_ephemeral_ip,
    instance_lookup_external_ips, list_safe_states, pool_to_look_up, service_lookup_external_ips, was_deallocated,
    AllocationFailure, AttachOutcome, CheckedUpdate, Completion, DetachOutcome, EphemeralAction,
    EphemeralAllocation, EphemeralEvent, ErrorClass, ExternalIp, IncompleteExternalIp,
    InstanceRuntime, InstanceState, IpAttachState, IpError, IpKind, KindFilter, ParentFilter,
    PoolLookup,
};
use omicron::net::IpAddr;
use omicron::time::Timestamp;

const IP: u128 = 0x6ba7b810_9dad_11d1_80b4_00c04fd430c8;
const INSTANCE: u128 = 7;

fn ip(kind: IpKind, state: IpAttachState, parent_id: Option<u128>) -> ExternalIp {
    ExternalIp {
        id: IP,
        time_modified: Timestamp { secs: 1, nanos: 2 },
        time_deleted: None,
        ip_pool_id: 3,
        is_service: false,
        parent_id,
        kind,
        ip: IpAddr::V4(0x0a00_0001),
        first_port: 0,
        last_port: u16::MAX,
        project_id: Some(4),
        state,
    }
}

fn runtime(state: InstanceState) -> InstanceRuntime {
    InstanceRuntime { state, migration_id: None }
}

#[test]
fn addresses_are_attached_where_they_are_free() {
    let query = begin_attach_ip(IP, INSTANCE, IpKind::Floating, false);
    assert_eq!(query.instance_id, INSTANCE);
    assert_eq!(query.max_attached, Some(33));
    assert_eq!(query.update.filter.id, Some(IP));
    assert_eq!(query.update.filter.parent, ParentFilter::Missing);
    assert_eq!(query.update.filter.kind, KindFilter::Is(IpKind::Floating));
    assert_eq!(query.update.filter.state, Some(IpAttachState::Detached));
    assert_eq!(query.update.change.parent_id, Some(Some(INSTANCE)));
    assert_eq!(query.update.change.state, Some(IpAttachState::Attaching));
    assert_eq!(list_safe_states(false), vec![InstanceState::Stopped, InstanceState::Running]);
    assert_eq!(
        list_safe_states(true),
        vec![InstanceState::Stopped, InstanceState::Running, InstanceState::Creating]
    );
}

fn attach(outcome: AttachOutcome, kind: IpKind) -> Result<Option<(ExternalIp, bool)>, IpError> {
    finish_attach_ip(&outcome, IP, INSTANCE, kind)
}

fn not_attached(resource: ExternalIp, count: i64, instance: InstanceRuntime) -> AttachOutcome {
    AttachOutcome::NoUpdate { attached_count: count, resource, collection: instance }
}

#[test]
fn attaching_is_idempotent() {
    let kind = IpKind::Floating;
    let attaching = ip(kind, IpAttachState::Attaching, Some(INSTANCE));
    assert_eq!(
        attach(AttachOutcome::Updated { resource: attaching }, kind),
        Ok(Some((attaching, true)))
    );
    assert_eq!(
        attach(not_attached(attaching, 1, runtime(InstanceState::Running)), kind),
        Ok(Some((attaching, true)))
    );
    let attached = ip(kind, IpAttachState::Attached, Some(INSTANCE));
    assert_eq!(
        attach(not_attached(attached, 1, runtime(InstanceState::Running)), kind),
        Ok(Some((attached, false)))
    );
}

#[test]
fn attaching_can_be_refused() {
    let kind = IpKind::Floating;
    let running = runtime(InstanceState::Running);
    let free = ip(kind, IpAttachState::Detached, None);
    let error = |outcome| attach(outcome, kind).unwrap_err();
    assert_eq!(
        error(AttachOutcome::CollectionNotFound),
        IpError::InstanceNotFound { id: INSTANCE }
    );
    assert_eq!(
        error(AttachOutcome::ResourceNotFound),
        IpError::FloatingIpNotFound { id: IP }
    );
    assert_eq!(
        attach(AttachOutcome::ResourceNotFound, IpKind::Ephemeral),
        Err(IpError::EphemeralIpLost)
    );
    let elsewhere = ip(kind, IpAttachState::Attached, Some(8));
    assert_eq!(error(not_attached(elsewhere, 1, running)), IpError::AttachedToAnother { kind });
    let leaving = ip(kind, IpAttachState::Detaching, Some(INSTANCE));
    assert_eq!(error(not_attached(leaving, 1, running)), IpError::AttachMidOperation { kind });
    let migrating = InstanceRuntime { state: InstanceState::Running, migration_id: Some(1) };
    assert_eq!(error(not_attached(free, 1, migrating)), IpError::AttachWhileMigrating { kind });
    assert_eq!(
        error(not_attached(free, 1, runtime(InstanceState::Stopping))),
        IpError::AttachWhileChanging { kind }
    );
    assert_eq!(
        error(not_attached(free, 1, runtime(InstanceState::Destroyed))),
        IpError::AttachInState { kind, state: InstanceState::Destroyed }
    );
    assert_eq!(error(not_attached(free, 33, running)), IpError::TooManyAddresses);
    assert_eq!(error(not_attached(free, 1, running)), IpError::AttachFailed { kind });
    assert_eq!(
        error(AttachOutcome::DatabaseError { unique_violation: true }),
        IpError::Database
    );
    // An instance with an ephemeral address gets no second one.
    assert_eq!(
        attach(AttachOutcome::DatabaseError { unique_violation: true }, IpKind::Ephemeral),
        Ok(None)
    );
    assert_eq!(
        attach(AttachOutcome::DatabaseError { unique_violation: false }, IpKind::Ephemeral),
        Err(IpError::Database)
    );
}

#[test]
fn addresses_are_detached_from_their_instance() {
    let query = begin_detach_ip(IP, INSTANCE, IpKind::Ephemeral, true);
    assert_eq!(query.update.filter.parent, ParentFilter::Is(INSTANCE));
    assert_eq!(query.update.filter.state, Some(IpAttachState::Attached));
    assert_eq!(query.update.change.state, Some(IpAttachState::Detaching));
    assert_eq!(query.max_attached, None);
    assert!(query.creating_instance);
}

fn detach(outcome: DetachOutcome, kind: IpKind) -> Result<Option<(ExternalIp, bool)>, IpError> {
    finish_detach_ip(&outcome, IP, INSTANCE, kind)
}

#[test]
fn detaching_is_idempotent_and_can_be_refused() {
    let kind = IpKind::Floating;
    let leaving = ip(kind, IpAttachState::Detaching, Some(INSTANCE));
    let running = runtime(InstanceState::Running);
    assert_eq!(
        detach(DetachOutcome::Updated { resource: leaving }, kind),
        Ok(Some((leaving, true)))
    );
    assert_eq!(
        detach(DetachOutcome::NoUpdate { resource: leaving, collection: running }, kind),
        Ok(Some((leaving, true)))
    );
    let error = |resource, collection| {
        detach(DetachOutcome::NoUpdate { resource, collection }, kind).unwrap_err()
    };
    let elsewhere = ip(kind, IpAttachState::Attached, Some(8));
    assert_eq!(error(elsewhere, running), IpError::NotAttachedToTarget { kind });
    let coming = ip(kind, IpAttachState::Attaching, Some(INSTANCE));
    assert_eq!(error(coming, running), IpError::DetachMidOperation { kind });
    let attached = ip(kind, IpAttachState::Attached, Some(INSTANCE));
    let migrating = InstanceRuntime { state: InstanceState::Running, migration_id: Some(1) };
    assert_eq!(error(attached, migrating), IpError::DetachWhileMigrating { kind });
    assert_eq!(
        error(attached, runtime(InstanceState::Starting)),
        IpError::DetachWhileChanging { kind }
    );
    assert_eq!(error(attached, running), IpError::DetachFailed { kind });
    assert_eq!(
        error(attached, runtime(InstanceState::Failed)),
        IpError::DetachInState { kind, state: InstanceState::Failed }
    );
    assert_eq!(
        detach(DetachOutcome::CollectionNotFound, kind),
        Err(IpError::InstanceNotFound { id: INSTANCE })
    );
    assert_eq!(detach(DetachOutcome::DatabaseError, kind), Err(IpError::Database));
}

#[test]
fn floating_addresses_are_never_missing() {
    let found = ip(IpKind::Floating, IpAttachState::Attached, Some(INSTANCE));
    assert_eq!(floating_ip_attached(&Ok(Some((found, true)))), Ok((found, true)));
    assert_eq!(floating_ip_attached(&Ok(None)), Err(IpError::FloatingAttachNone));
    assert_eq!(floating_ip_detached(&Ok(None)), Err(IpError::FloatingDetachNone));
    assert_eq!(floating_ip_detached(&Err(IpError::Database)), Err(IpError::Database));
}

#[test]
fn operations_are_completed() {
    let complete =
        |kind, from, to| external_ip_complete_op(IP, kind, from, to);
    match complete(IpKind::Floating, IpAttachState::Attaching, IpAttachState::Attached) {
        Ok(Completion::Checked(update)) => {
            assert_eq!(update.filter.state, Some(IpAttachState::Attaching));
            assert_eq!(update.change.state, Some(IpAttachState::Attached));
            assert_eq!(update.change.parent_id, None);
        }
        other => panic!("{:?}", other),
    }
    match complete(IpKind::Ephemeral, IpAttachState::Detaching, IpAttachState::Detached) {
        Ok(Completion::Plain(update)) => {
            assert_eq!(update.change.parent_id, Some(None));
            assert!(update.change.deleted);
        }
        other => panic!("{:?}", other),
    }
    match complete(IpKind::Floating, IpAttachState::Detaching, IpAttachState::Detached) {
        Ok(Completion::Plain(update)) => assert!(!update.change.deleted),
        other => panic!("{:?}", other),
    }
    assert_eq!(
        complete(IpKind::Floating, IpAttachState::Attached, IpAttachState::Detached),
        Err(IpError::NotATransition { from: IpAttachState::Attached })
    );
    assert_eq!(
        complete(IpKind::SNat, IpAttachState::Attaching, IpAttachState::Attached),
        Err(IpError::CompleteSnat)
    );
    assert_eq!(
        complete(IpKind::Floating, IpAttachState::Attaching, IpAttachState::Attaching),
        Err(IpError::Unreachable)
    );
}

#[test]
fn completions_count_once() {
    assert_eq!(attached_count_of(&CheckedUpdate::Updated), Ok(1));
    let mut found = ip(IpKind::Floating, IpAttachState::Attached, Some(INSTANCE));
    assert_eq!(attached_count_of(&CheckedUpdate::NotUpdatedButExists { found }), Ok(0));
    found.time_deleted = Some(Timestamp { secs: 2, nanos: 0 });
    assert_eq!(
        attached_count_of(&CheckedUpdate::NotUpdatedButExists { found }),
        Err(IpError::ConcurrentInstanceDelete)
    );
}

#[test]
fn addresses_are_deleted() {
    let update = deallocate_external_ip(IP);
    assert_eq!(update.filter.id, Some(IP));
    assert!(update.change.deleted);
    assert!(was_deallocated(&CheckedUpdate::Updated));
    let found = ip(IpKind::Floating, IpAttachState::Attached, Some(INSTANCE));
    assert!(!was_deallocated(&CheckedUpdate::NotUpdatedButExists { found }));
    let update = deallocate_external_ip_by_instance_id(INSTANCE);
    assert_eq!(update.filter.parent, ParentFilter::Is(INSTANCE));
    assert_eq!(update.filter.kind, KindFilter::IsNot(IpKind::Floating));
    assert!(update.change.deleted);
    let update = detach_floating_ips_by_instance_id(INSTANCE);
    assert_eq!(update.filter.kind, KindFilter::Is(IpKind::Floating));
    assert_eq!(update.change.parent_id, Some(None));
    assert_eq!(update.change.state, Some(IpAttachState::Detached));
    assert!(!update.change.deleted);
    let update = floating_ip_delete(IP);
    assert_eq!(update.filter.parent, ParentFilter::Missing);
    assert!(update.change.deleted);
    assert_eq!(floating_ip_deleted(&CheckedUpdate::Updated), Ok(()));
    assert_eq!(
        floating_ip_deleted(&CheckedUpdate::NotUpdatedButExists { found }),
        Err(IpError::FloatingIpInUse)
    );
}

#[test]
fn addresses_are_looked_up() {
    let filter = service_lookup_external_ips(9);
    assert_eq!((filter.is_service, filter.parent), (Some(true), ParentFilter::Is(9)));
    let filter = instance_lookup_external_ips(INSTANCE);
    assert_eq!((filter.is_service, filter.parent), (Some(false), ParentFilter::Is(INSTANCE)));
    let filter = floating_ips_list(4);
    assert_eq!((filter.project_id, filter.kind), (Some(4), KindFilter::Is(IpKind::Floating)));
    let floating = ip(IpKind::Floating, IpAttachState::Attached, Some(INSTANCE));
    let ephemeral = ip(IpKind::Ephemeral, IpAttachState::Attached, Some(INSTANCE));
    assert_eq!(instance_lookup_ephemeral_ip(&vec![floating, ephemeral]), Some(ephemeral));
    assert_eq!(instance_lookup_ephemeral_ip(&vec![floating]), None);
}

#[test]
fn allocations_can_fail() {
    assert_eq!(
        allocation_error(AllocationFailure::NotFound, None, true),
        IpError::AddressNotAvailable
    );
    assert_eq!(
        allocation_error(AllocationFailure::NotFound, None, false),
        IpError::NoAddressAvailable
    );
    assert_eq!(
        allocation_error(
            AllocationFailure::UniqueViolation { retryable: false },
            Some("mine".to_string()),
            false
        )
        .message(),
        "already exists: floating-ip \"mine\""
    );
    assert_eq!(
        allocation_error(AllocationFailure::UniqueViolation { retryable: false }, None, false),
        IpError::Database
    );
    assert_eq!(
        allocation_error(AllocationFailure::Other { retryable: true }, None, false),
        IpError::Retryable
    );
    assert_eq!(
        allocation_error(AllocationFailure::Other { retryable: false }, None, false),
        IpError::Database
    );
}

#[test]
fn addresses_are_asked_for() {
    let snat = IncompleteExternalIp::for_instance_source_nat(1, INSTANCE, 3);
    assert_eq!((snat.kind, snat.parent_id, snat.pool_id), (IpKind::SNat, Some(INSTANCE), 3));
    assert_eq!(snat.state, IpAttachState::Attached);
    let ephemeral = IncompleteExternalIp::for_ephemeral(1, 3);
    assert_eq!((ephemeral.kind, ephemeral.parent_id), (IpKind::Ephemeral, None));
    assert_eq!(ephemeral.state, IpAttachState::Detached);
    let floating = IncompleteExternalIp::for_floating(
        1,
        "n".to_string(),
        "d".to_string(),
        4,
        Some(IpAddr::V4(5)),
        3,
    );
    assert_eq!(floating.project_id, Some(4));
    assert_eq!(floating.explicit_ip, Some(IpAddr::V4(5)));
    assert_eq!(floating.name, Some("n".to_string()));
    let service =
        IncompleteExternalIp::for_service(1, "n".to_string(), "d".to_string(), 9, None, 3);
    assert!(service.is_service);
    assert_eq!((service.kind, service.parent_id), (IpKind::Floating, Some(9)));
    let snat = IncompleteExternalIp::for_service_snat(1, 9, Some((IpAddr::V4(5), (0, 16383))), 3);
    assert!(snat.is_service);
    assert_eq!(snat.explicit_port_range, Some((0, 16383)));
}

#[test]
fn ephemeral_addresses_are_allocated_and_attached() {
    let new = ip(IpKind::Ephemeral, IpAttachState::Detached, None);
    let attaching = ip(IpKind::Ephemeral, IpAttachState::Attaching, Some(INSTANCE));
    let mut a = EphemeralAllocation::Allocating;
    assert_eq!(
        a.step(EphemeralEvent::Allocated(Ok(new))),
        EphemeralAction::BeginAttach { ip_id: IP }
    );
    assert_eq!(
        a.step(EphemeralEvent::Attached(Ok(Some((attaching, true))))),
        EphemeralAction::Done { ip: attaching, do_saga: true }
    );
}

#[test]
fn unattached_addresses_are_deleted() {
    let new = ip(IpKind::Ephemeral, IpAttachState::Detached, None);
    let old = ip(IpKind::Ephemeral, IpAttachState::Attached, Some(INSTANCE));
    let mut a = EphemeralAllocation::Allocating;
    a.step(EphemeralEvent::Allocated(Ok(new)));
    assert_eq!(
        a.step(EphemeralEvent::Attached(Err(IpError::TooManyAddresses))),
        EphemeralAction::Deallocate { ip_id: IP }
    );
    assert_eq!(
        a.step(EphemeralEvent::Deallocated(Ok(true))),
        EphemeralAction::Fail { error: IpError::TooManyAddresses }
    );
    // The instance has one already: that one is taken.
    let mut a = EphemeralAllocation::Allocating;
    a.step(EphemeralEvent::Allocated(Ok(new)));
    assert_eq!(
        a.step(EphemeralEvent::Attached(Ok(None))),
        EphemeralAction::Deallocate { ip_id: IP }
    );
    assert_eq!(a.step(EphemeralEvent::Deallocated(Ok(true))), EphemeralAction::LookUp);
    assert_eq!(
        a.step(EphemeralEvent::LookedUp(Ok(Some(old)))),
        EphemeralAction::Done { ip: old, do_saga: false }
    );
    let mut a = EphemeralAllocation::LookingUp;
    assert_eq!(
        a.step(EphemeralEvent::LookedUp(Ok(None))),
        EphemeralAction::Fail { error: IpError::EphemeralLookupFailed }
    );
}

#[test]
fn exhausted_pools_leave_the_address_that_is_there() {
    let old = ip(IpKind::Ephemeral, IpAttachState::Attaching, Some(INSTANCE));
    let mut a = EphemeralAllocation::Allocating;
    assert_eq!(
        a.step(EphemeralEvent::Allocated(Err(IpError::NoAddressAvailable))),
        EphemeralAction::LookUp
    );
    assert_eq!(
        a.step(EphemeralEvent::LookedUp(Ok(Some(old)))),
        EphemeralAction::Done { ip: old, do_saga: true }
    );
    let mut a = EphemeralAllocation::Allocating;
    a.step(EphemeralEvent::Allocated(Err(IpError::NoAddressAvailable)));
    assert_eq!(
        a.step(EphemeralEvent::LookedUp(Ok(None))),
        EphemeralAction::Fail { error: IpError::NoAddressAvailable }
    );
}

#[test]
fn errors_are_told() {
    let kind = IpKind::Floating;
    assert_eq!(
        IpError::FloatingIpNotFound { id: IP }.message(),
        "not found: floating-ip with id \"6ba7b810-9dad-11d1-80b4-00c04fd430c8\""
    );
    assert_eq!(IpError::FloatingIpNotFound { id: IP }.class(), ErrorClass::NotFound);
    assert_eq!(
        IpError::AttachedToAnother { kind }.message(),
        "floating IP cannot be attached to one instance while still attached to another"
    );
    assert_eq!(
        IpError::AttachInState { kind, state: InstanceState::Failed }.message(),
        "cannot attach floating IP to instance in failed state"
    );
    assert_eq!(
        IpError::TooManyAddresses.message(),
        "an instance may not have more than 32 external IP addresses"
    );
    assert_eq!(IpError::TooManyAddresses.class(), ErrorClass::InvalidRequest);
    assert_eq!(
        IpError::AttachMidOperation { kind }.message(),
        "tried to attach floating IP mid-attach/detach: attach will be safe to retry once \
         operation on same IP resource completes"
    );
    assert_eq!(IpError::AttachMidOperation { kind }.class(), ErrorClass::Unavailable);
    assert_eq!(
        IpError::FloatingIpInUse.message(),
        "Floating IP cannot be deleted while attached to an instance"
    );
    assert_eq!(
        IpError::NoAddressAvailable.message(),
        "No external IP addresses available"
    );
    assert_eq!(IpError::NoAddressAvailable.class(), ErrorClass::InsufficientCapacity);
    assert_eq!(
        IpError::NotATransition { from: IpAttachState::Attached }.message(),
        "Attached is not a valid transition state for attach/detach"
    );
}

#[test]
fn ephemeral_addresses_are_taken_away() {
    let query = begin_deallocate_ephemeral_ip(IP, INSTANCE);
    assert_eq!(query, begin_detach_ip(IP, INSTANCE, IpKind::Ephemeral, false));
    let leaving = ip(IpKind::Ephemeral, IpAttachState::Detaching, Some(INSTANCE));
    assert_eq!(
        ephemeral_ip_deallocated(&DetachOutcome::Updated { resource: leaving }, IP, INSTANCE),
        Ok(Some(leaving))
    );
    assert_eq!(
        ephemeral_ip_deallocated(&DetachOutcome::ResourceNotFound, IP, INSTANCE),
        Ok(None)
    );
    assert_eq!(
        ephemeral_ip_deallocated(&DetachOutcome::DatabaseError, IP, INSTANCE),
        Err(IpError::Database)
    );
}

#[test]
fn pools_have_to_be_linked() {
    let given = pool_to_look_up(Some(IP));
    assert_eq!(given, PoolLookup::Given { id: IP });
    assert_eq!(pool_to_look_up(None), PoolLookup::Default);
    assert_eq!(chosen_pool(given, Ok(IP), true), Ok(IP));
    assert_eq!(chosen_pool(given, Ok(IP), false), Err(IpError::PoolNotFound { id: IP }));
    assert_eq!(chosen_pool(PoolLookup::Default, Ok(4), false), Ok(4));
    assert_eq!(chosen_pool(given, Err(IpError::Database), true), Err(IpError::Database));
    assert_eq!(
        IpError::PoolNotFound { id: IP }.message(),
        "not found: ip-pool with id \"6ba7b810-9dad-11d1-80b4-00c04fd430c8\""
    );
}
