//! What the placement of services promises: which services there are, which sleds and addresses are
//! free, and what is kept of a service.

use vstd::prelude::*;

use crate::ids::Uuid;
use crate::services::{
    address_in_use, free_sleds, services_of, sled_in_use, upsert_of, usable_addresses,
    usable_sleds, DnsAllocation, RackAllocation, Service, ServiceChange, ServiceError,
    SledAndService, StoredService,
};
use crate::time::Timestamp;

verus! {

/// The services that there are, are those of the sleds that have one, and the sleds that may get one
/// are those that have none, both in the order of the sleds. Each sled counts for exactly one of
/// the two.
pub proof fn sleds_have_a_service_or_are_free(sleds: Seq<SledAndService>)
    ensures
        services_of(sleds) == sleds.filter(|s: SledAndService| s.1 is Some).map_values(
            |s: SledAndService| s.1->0,
        ),
        free_sleds(sleds) == sleds.filter(|s: SledAndService| s.1 is None).map_values(
            |s: SledAndService| s.0,
        ),
        services_of(sleds).len() + free_sleds(sleds).len() == sleds.len(),
    decreases sleds.len(),
{
    reveal(Seq::filter);
    let has = |s: SledAndService| s.1 is Some;
    let lacks = |s: SledAndService| s.1 is None;
    let service = |s: SledAndService| s.1->0;
    let sled = |s: SledAndService| s.0;
    if sleds.len() > 0 {
        let rest = sleds.drop_last();
        let last = sleds.last();
        sleds_have_a_service_or_are_free(rest);
        if last.1 is Some {
            assert(sleds.filter(has) == rest.filter(has).push(last));
            assert(sleds.filter(has).map_values(service) =~= rest.filter(has).map_values(
                service,
            ).push(last.1->0));
            assert(sleds.filter(lacks) == rest.filter(lacks));
        } else {
            assert(sleds.filter(lacks) == rest.filter(lacks).push(last));
            assert(sleds.filter(lacks).map_values(sled) =~= rest.filter(lacks).map_values(
                sled,
            ).push(last.0));
            assert(sleds.filter(has) == rest.filter(has));
        }
    } else {
        assert(services_of(sleds) =~= sleds.filter(has).map_values(service));
        assert(free_sleds(sleds) =~= sleds.filter(lacks).map_values(sled));
    }
}

/// An address may be used if and only if it is one of those that are reserved and no service has
/// it.
pub proof fn usable_addresses_are_reserved_and_free(
    services: Seq<Service>,
    addresses: Seq<u128>,
    address: u128,
)
    ensures
        usable_addresses(services, addresses).contains(address) <==> addresses.contains(address)
            && !services.map_values(|s: Service| s.ip).contains(address),
{
    let free = |a: u128| !address_in_use(services, a);
    kept_items(addresses, free, address);
    let ips = services.map_values(|s: Service| s.ip);
    if address_in_use(services, address) {
        let i = choose|i: int| 0 <= i < services.len() && (#[trigger] services[i]).ip == address;
        assert(ips[i] == address);
    }
    if ips.contains(address) {
        let i = choose|i: int| 0 <= i < ips.len() && ips[i] == address;
        assert(services[i].ip == address);
    }
}

/// A sled may get a service if and only if it is one of those that may and no service is on it.
pub proof fn usable_sleds_are_targets_and_free(
    services: Seq<Service>,
    sleds: Seq<Uuid>,
    sled_id: Uuid,
)
    ensures
        usable_sleds(services, sleds).contains(sled_id) <==> sleds.contains(sled_id)
            && !services.map_values(|s: Service| s.sled_id).contains(sled_id),
{
    let free = |s: Uuid| !sled_in_use(services, s);
    kept_items(sleds, free, sled_id);
    let ids = services.map_values(|s: Service| s.sled_id);
    if sled_in_use(services, sled_id) {
        let i = choose|i: int|
            0 <= i < services.len() && (#[trigger] services[i]).sled_id == sled_id;
        assert(ids[i] == sled_id);
    }
    if ids.contains(sled_id) {
        let i = choose|i: int| 0 <= i < ids.len() && ids[i] == sled_id;
        assert(services[i].sled_id == sled_id);
    }
}

proof fn kept_items(s: Seq<u128>, keep: spec_fn(u128) -> bool, item: u128)
    ensures
        s.filter(keep).contains(item) <==> s.contains(item) && keep(item),
{
    if s.filter(keep).contains(item) {
        s.lemma_filter_contains_rev(keep, item);
        let i = choose|i: int| 0 <= i < s.filter(keep).len() && s.filter(keep)[i] == item;
        s.lemma_filter_pred(keep, i);
    }
    if s.contains(item) && keep(item) {
        let i = choose|i: int| 0 <= i < s.len() && s[i] == item;
        s.lemma_filter_contains(keep, i);
    }
}

/// Sleds and addresses that may be used keep their order.
pub proof fn usable_ones_keep_their_order(services: Seq<Service>, sleds: Seq<Uuid>, last: Uuid)
    ensures
        usable_sleds(services, sleds.push(last)) == (if services.map_values(
            |s: Service| s.sled_id,
        ).contains(last) {
            usable_sleds(services, sleds)
        } else {
            usable_sleds(services, sleds).push(last)
        }),
        usable_addresses(services, sleds.push(last)) == (if services.map_values(
            |s: Service| s.ip,
        ).contains(last) {
            usable_addresses(services, sleds)
        } else {
            usable_addresses(services, sleds).push(last)
        }),
{
    reveal(Seq::filter);
    assert(sleds.push(last).drop_last() =~= sleds);
    let ids = services.map_values(|s: Service| s.sled_id);
    let ips = services.map_values(|s: Service| s.ip);
    if sled_in_use(services, last) {
        let i = choose|i: int| 0 <= i < services.len() && (#[trigger] services[i]).sled_id == last;
        assert(ids[i] == last);
    }
    if ids.contains(last) {
        let i = choose|i: int| 0 <= i < ids.len() && ids[i] == last;
        assert(services[i].sled_id == last);
    }
    if address_in_use(services, last) {
        let i = choose|i: int| 0 <= i < services.len() && (#[trigger] services[i]).ip == last;
        assert(ips[i] == last);
    }
    if ips.contains(last) {
        let i = choose|i: int| 0 <= i < ips.len() && ips[i] == last;
        assert(services[i].ip == last);
    }
}

/// A service that is not kept yet is created and modified now.
pub proof fn new_services_are_created_now(
    table: Map<Uuid, StoredService>,
    service: Service,
    now: Timestamp,
)
    requires
        !table.contains_key(service.id),
    ensures
        upsert_of(service).stored(table, now) == table.insert(
            service.id,
            StoredService { service, time_created: now, time_modified: now },
        ),
{
}

/// A service that is kept already keeps its id and the time at which it was created. Its sled, its
/// address and its kind become the given ones, and it is modified now.
pub proof fn kept_services_are_updated(
    table: Map<Uuid, StoredService>,
    service: Service,
    now: Timestamp,
)
    requires
        table.contains_key(service.id),
    ensures
        ({
            let after = upsert_of(service).stored(table, now);
            let row = after[service.id];
            &&& after.dom() == table.dom()
            &&& after.remove(service.id) == table.remove(service.id)
            &&& row.service.id == table[service.id].service.id
            &&& row.service.sled_id == service.sled_id
            &&& row.service.ip == service.ip
            &&& row.service.kind == service.kind
            &&& row.time_created == table[service.id].time_created
            &&& row.time_modified == now
        }),
{
    let after = upsert_of(service).stored(table, now);
    assert(after.dom() =~= table.dom());
    assert(after.remove(service.id) =~= table.remove(service.id));
}

/// A change sets what it names and nothing else.
pub proof fn changes_set_what_they_name(change: ServiceChange, row: StoredService, now: Timestamp)
    ensures
        ({
            let after = change.result(row, now);
            &&& after.service.id == row.service.id
            &&& after.time_created == row.time_created
            &&& change.sled_id is None ==> after.service.sled_id == row.service.sled_id
            &&& change.ip is None ==> after.service.ip == row.service.ip
            &&& change.kind is None ==> after.service.kind == row.service.kind
            &&& !change.modified ==> after.time_modified == row.time_modified
            &&& change.sled_id is Some ==> change.sled_id == Some(after.service.sled_id)
            &&& change.ip is Some ==> change.ip == Some(after.service.ip)
            &&& change.kind is Some ==> change.kind == Some(after.service.kind)
            &&& change.modified ==> after.time_modified == now
        }),
{
}

/// The two reasons for which a service cannot be placed are told apart.
pub proof fn reasons_are_told_apart()
    ensures
        ServiceError::NotEnoughSleds.text() == "Not enough sleds for service allocation"@,
        ServiceError::NotEnoughIps.text() == "Not enough IP addresses for service allocation"@,
{
}

/// A service goes to the first free sled that did not get it yet, for as long as too few sleds run
/// it. It is done if and only if as many run it as there have to be, and it fails if and only if
/// too few do and no free sled is left.
pub proof fn services_go_to_free_sleds_until_there_are_enough(a: RackAllocation)
    requires
        a.well_formed(),
    ensures
        ({
            let running = a.services@.len();
            let left = a.targets@.skip(a.placed as int);
            &&& a.next() == Ok::<Option<Uuid>, ServiceError>(None) <==> running >= a.redundancy
            &&& a.next() is Err <==> running < a.redundancy && left.len() == 0
            &&& running < a.redundancy && left.len() > 0 ==> a.next() == Ok::<
                Option<Uuid>,
                ServiceError,
            >(Some(left[0]))
            &&& a.next() is Err ==> a.next()->Err_0 == ServiceError::NotEnoughSleds
        }),
{
}

/// The DNS service goes to the first free sled and the first free address that it did not get yet,
/// for as long as too few sleds run it. Where sleds or addresses are missing it fails, and the sleds
/// are named where both are.
pub proof fn dns_services_go_to_free_sleds_and_addresses(a: DnsAllocation)
    requires
        a.well_formed(),
    ensures
        ({
            let running = a.services@.len();
            let sleds = a.targets@.skip(a.placed as int);
            let addresses = a.addresses@.skip(a.placed as int);
            &&& a.next() == Ok::<Option<(Uuid, u128)>, ServiceError>(None) <==> running
                >= a.redundancy
            &&& running < a.redundancy && sleds.len() > 0 && addresses.len() > 0 ==> a.next()
                == Ok::<Option<(Uuid, u128)>, ServiceError>(Some((sleds[0], addresses[0])))
            &&& running < a.redundancy && sleds.len() == 0 ==> a.next() == Err::<
                Option<(Uuid, u128)>,
                ServiceError,
            >(ServiceError::NotEnoughSleds)
            &&& running < a.redundancy && sleds.len() > 0 && addresses.len() == 0 ==> a.next()
                == Err::<Option<(Uuid, u128)>, ServiceError>(ServiceError::NotEnoughIps)
        }),
{
}

} // verus!
