//! The placement of services on the sleds of a rack.

use omicron::services::{
    service_upsert, service_upsert_error, DnsAllocation, RackAllocation, Service, ServiceChange,
    ServiceError, ServiceKind, StoreError, StoreFailure,
};

#[test]
fn rack_services_are_spread() {
    let there = Service::new(50, 1, 7, ServiceKind::Nexus);
    let sleds = vec![(1, Some(there)), (2, None), (3, None)];
    let mut a = RackAllocation::new(&sleds, ServiceKind::Nexus, 3);
    let mut placed = Vec::new();
    while let Some(sled) = a.next_sled().unwrap() {
        let service = a.service_for(sled, 0xfd00 + sled);
        assert_eq!(service.sled_id, sled);
        assert_eq!(service.ip, 0xfd00 + sled);
        assert_eq!(service.kind, ServiceKind::Nexus);
        placed.push(sled);
        a.stored(service);
    }
    placed.sort();
    assert_eq!(placed, vec![2, 3]);
    assert_eq!(a.services.len(), 3);
    assert_eq!(a.services[0], there);
}

#[test]
fn racks_can_be_too_small() {
    let sleds = vec![(1, None)];
    let mut a = RackAllocation::new(&sleds, ServiceKind::Oximeter, 2);
    let sled = a.next_sled().unwrap().unwrap();
    let service = a.service_for(sled, 1);
    a.stored(service);
    assert_eq!(a.next_sled(), Err(ServiceError::NotEnoughSleds));
    assert_eq!(
        ServiceError::NotEnoughSleds.message(),
        "Not enough sleds for service allocation"
    );
}

#[test]
fn new_services_have_new_ids() {
    let sleds = vec![(1, None), (2, None)];
    let a = RackAllocation::new(&sleds, ServiceKind::Oximeter, 2);
    let id = a.service_for(1, 1).id;
    assert_eq!(((id >> 76) & 0xf, (id >> 62) & 3), (4, 2));
    assert_ne!(a.service_for(1, 1).id, id);
}

#[test]
fn dns_services_use_what_was_free() {
    let there = Service::new(50, 1, 11, ServiceKind::InternalDNS);
    let mut a = DnsAllocation::new(vec![there], &vec![11, 12, 13], &vec![1, 2, 3], 2);
    let (sled, address) = a.next_place().unwrap().unwrap();
    assert_ne!(sled, 1);
    assert_ne!(address, 11);
    let service = a.service_for(sled, address);
    assert_eq!(service.kind, ServiceKind::InternalDNS);
    a.stored(service);
    assert_eq!(a.next_place(), Ok(None));
    assert_eq!(a.services.len(), 2);
}

#[test]
fn dns_services_are_spread() {
    let mut a = DnsAllocation::new(vec![], &vec![11, 12, 13], &vec![1, 2, 3], 3);
    while let Some((sled, address)) = a.next_place().unwrap() {
        let service = a.service_for(sled, address);
        a.stored(service);
    }
    let places: Vec<_> = a.services.iter().map(|s| (s.sled_id, s.ip)).collect();
    assert_eq!(places, vec![(1, 11), (2, 12), (3, 13)]);
}

#[test]
fn dns_services_need_sleds_and_addresses() {
    let a = DnsAllocation::new(vec![], &vec![11, 12], &vec![], 1);
    assert_eq!(a.next_place(), Err(ServiceError::NotEnoughSleds));
    let a = DnsAllocation::new(vec![], &vec![], &vec![1], 1);
    assert_eq!(a.next_place(), Err(ServiceError::NotEnoughIps));
    assert_eq!(
        ServiceError::NotEnoughIps.message(),
        "Not enough IP addresses for service allocation"
    );
}

#[test]
fn stored_service_is_kept() {
    let service = Service::new(0x10, 0x20, 7, ServiceKind::Nexus);
    let upsert = service_upsert(service);
    assert_eq!(upsert.service, service);
    assert_eq!(
        upsert.on_conflict,
        ServiceChange {
            modified: true,
            sled_id: Some(0x20),
            ip: Some(7),
            kind: Some(ServiceKind::Nexus),
        }
    );
}

#[test]
fn failures_to_store_are_told() {
    let service = Service::new(0x10, 0x20, 7, ServiceKind::Nexus);
    assert_eq!(
        service_upsert_error(&service, StoreFailure::CollectionNotFound),
        StoreError::SledNotFound { sled_id: 0x20 }
    );
    assert_eq!(
        service_upsert_error(&service, StoreFailure::DatabaseError),
        StoreError::ServiceConflict {
            service_id: "00000000-0000-0000-0000-000000000010".to_string()
        }
    );
}
