//! On which sleds a service runs.

use vstd::prelude::*;

use crate::ids::{format_uuid, is_random_id, random_uuid, text_of_uuid, Uuid};
use crate::time::Timestamp;

verus! {

/// What a service is.
#[derive(Debug, Clone, Copy, PartialEq, Eq, Structural)]
pub enum ServiceKind {
    InternalDNS,
    Nexus,
    Oximeter,
}

/// A service on a sled, with its IPv6 address.
#[derive(Debug, Clone, Copy, PartialEq, Eq, Structural)]
pub struct Service {
    pub id: Uuid,
    pub sled_id: Uuid,
    pub ip: u128,
    pub kind: ServiceKind,
}

impl Service {
    /// A service with the given id.
    pub fn new(id: Uuid, sled_id: Uuid, ip: u128, kind: ServiceKind) -> (service: Service)
        ensures
            service == (Service { id, sled_id, ip, kind }),
    {
        Service { id, sled_id, ip, kind }
    }
}

/// Why a service could not be placed on enough sleds.
#[derive(Debug, Clone, Copy, PartialEq, Eq, Structural)]
pub enum ServiceError {
    NotEnoughSleds,
    NotEnoughIps,
}

impl ServiceError {
    /// What is said of the error.
    pub open spec fn text(self) -> Seq<char> {
        match self {
            ServiceError::NotEnoughSleds => "Not enough sleds for service allocation"@,
            ServiceError::NotEnoughIps => "Not enough IP addresses for service allocation"@,
        }
    }

    /// What is said of the error.
    pub fn message(&self) -> (s: String)
        ensures
            s@ == self.text(),
    {
        match self {
            ServiceError::NotEnoughSleds => "Not enough sleds for service allocation".to_owned(),
            ServiceError::NotEnoughIps => {
                "Not enough IP addresses for service allocation".to_owned()
            },
        }
    }
}

/// A service, as it is kept.
#[derive(Debug, Clone, Copy, PartialEq, Eq, Structural)]
pub struct StoredService {
    pub service: Service,
    pub time_created: Timestamp,
    pub time_modified: Timestamp,
}

/// What is set on a service.
#[derive(Debug, Clone, Copy, PartialEq, Eq, Structural)]
pub struct ServiceChange {
    /// The time of modification is set to the present.
    pub modified: bool,
    pub sled_id: Option<Uuid>,
    pub ip: Option<u128>,
    pub kind: Option<ServiceKind>,
}

impl ServiceChange {
    /// The service after the change.
    pub open spec fn result(self, row: StoredService, now: Timestamp) -> StoredService {
        StoredService {
            service: Service {
                id: row.service.id,
                sled_id: match self.sled_id {
                    Some(sled_id) => sled_id,
                    None => row.service.sled_id,
                },
                ip: match self.ip {
                    Some(ip) => ip,
                    None => row.service.ip,
                },
                kind: match self.kind {
                    Some(kind) => kind,
                    None => row.service.kind,
                },
            },
            time_created: row.time_created,
            time_modified: if self.modified {
                now
            } else {
                row.time_modified
            },
        }
    }
}

/// A service to be stored, and the change of the one that is kept under its id, if there is one.
#[derive(Debug, Clone, Copy, PartialEq, Eq, Structural)]
pub struct ServiceUpsert {
    pub service: Service,
    pub on_conflict: ServiceChange,
}

impl ServiceUpsert {
    /// The services, by their ids, after it was stored.
    pub open spec fn stored(
        self,
        table: Map<Uuid, StoredService>,
        now: Timestamp,
    ) -> Map<Uuid, StoredService> {
        let id = self.service.id;
        if table.contains_key(id) {
            table.insert(id, self.on_conflict.result(table[id], now))
        } else {
            table.insert(
                id,
                StoredService { service: self.service, time_created: now, time_modified: now },
            )
        }
    }
}

/// Stores a service. One that is kept under the same id is put on the sled, at the address, and of
/// the kind that are given; it keeps the time at which it was created.
pub fn service_upsert(service: Service) -> (upsert: ServiceUpsert)
    ensures
        upsert.service == service,
        forall|row: StoredService, now: Timestamp| #[trigger]
            upsert.on_conflict.result(row, now) == (StoredService {
                service: Service { id: row.service.id, ..service },
                time_created: row.time_created,
                time_modified: now,
            }),
        upsert == upsert_of(service),
{
    ServiceUpsert {
        service,
        on_conflict: ServiceChange {
            modified: true,
            sled_id: Some(service.sled_id),
            ip: Some(service.ip),
            kind: Some(service.kind),
        },
    }
}

/// How a service is stored.
pub open spec fn upsert_of(service: Service) -> ServiceUpsert {
    ServiceUpsert {
        service,
        on_conflict: ServiceChange {
            modified: true,
            sled_id: Some(service.sled_id),
            ip: Some(service.ip),
            kind: Some(service.kind),
        },
    }
}

/// A service that was stored is kept as it was given, whatever was kept under its id, and other
/// services are left alone. To store it again changes only the time of its modification.
pub proof fn stored_service_is_kept(
    table: Map<Uuid, StoredService>,
    service: Service,
    now: Timestamp,
    later: Timestamp,
)
    requires
        forall|id: Uuid| #[trigger] table.contains_key(id) ==> table[id].service.id == id,
    ensures
        ({
            let once = upsert_of(service).stored(table, now);
            let twice = upsert_of(service).stored(once, later);
            &&& once.contains_key(service.id) && once[service.id].service == service
            &&& once.remove(service.id) == table.remove(service.id)
            &&& twice == once.insert(
                service.id,
                StoredService { time_modified: later, ..once[service.id] },
            )
        }),
{
    let once = upsert_of(service).stored(table, now);
    assert(once.remove(service.id) =~= table.remove(service.id));
}

/// Why a service could not be stored.
#[derive(Debug, Clone, Copy, PartialEq, Eq, Structural)]
pub enum StoreFailure {
    /// The sled of the service does not exist.
    CollectionNotFound,
    /// The database refused it.
    DatabaseError,
}

/// What is answered where a service could not be stored.
#[derive(Debug, PartialEq, Eq)]
pub enum StoreError {
    /// There is no sled with this id.
    SledNotFound { sled_id: Uuid },
    /// The service with this id could not be created.
    ServiceConflict { service_id: String },
}

/// What is answered where a service could not be stored.
pub fn service_upsert_error(service: &Service, failure: StoreFailure) -> (e: StoreError)
    ensures
        match (failure, e) {
            (StoreFailure::CollectionNotFound, StoreError::SledNotFound { sled_id }) => sled_id
                == service.sled_id,
            (StoreFailure::DatabaseError, StoreError::ServiceConflict { service_id }) => service_id@
                == text_of_uuid(service.id),
            _ => false,
        },
{
    match failure {
        StoreFailure::CollectionNotFound => StoreError::SledNotFound { sled_id: service.sled_id },
        StoreFailure::DatabaseError => StoreError::ServiceConflict {
            service_id: format_uuid(service.id),
        },
    }
}

/// A sled of the rack, with the service that is asked for where it runs there.
pub type SledAndService = (Uuid, Option<Service>);

/// The services among the sleds that have one.
pub open spec fn services_of(sleds: Seq<SledAndService>) -> Seq<Service>
    decreases sleds.len(),
{
    if sleds.len() == 0 {
        Seq::empty()
    } else {
        match sleds.last().1 {
            Some(service) => services_of(sleds.drop_last()).push(service),
            None => services_of(sleds.drop_last()),
        }
    }
}

/// The sleds that have no service.
pub open spec fn free_sleds(sleds: Seq<SledAndService>) -> Seq<Uuid>
    decreases sleds.len(),
{
    if sleds.len() == 0 {
        Seq::empty()
    } else {
        match sleds.last().1 {
            Some(_) => free_sleds(sleds.drop_last()),
            None => free_sleds(sleds.drop_last()).push(sleds.last().0),
        }
    }
}

/// The placement of a service on the sleds of a rack, until enough of them run it.
pub struct RackAllocation {
    /// The services that there were, and then those that were placed.
    pub services: Vec<Service>,
    /// The number of services that there were.
    pub found: Ghost<nat>,
    /// The sleds that had no service, in the order in which they get one.
    pub targets: Vec<Uuid>,
    /// The number of sleds that got one.
    pub placed: usize,
    pub kind: ServiceKind,
    pub redundancy: u32,
}

impl RackAllocation {
    /// The services that were placed are on the first of the sleds that had none, in their order.
    pub open spec fn well_formed(self) -> bool {
        &&& self.placed <= self.targets@.len()
        &&& self.services@.len() == self.found@ + self.placed
        &&& forall|i: int|
            0 <= i < self.placed ==> (#[trigger] self.services@[self.found@ + i]).sled_id
                == self.targets@[i]
        &&& forall|i: int|
            0 <= i < self.placed ==> (#[trigger] self.services@[self.found@ + i]).kind == self.kind
    }

    /// Begins to place a service, where these are the sleds of the rack.
    pub fn new(sleds: &Vec<SledAndService>, kind: ServiceKind, redundancy: u32) -> (a: Self)
        ensures
            a.well_formed(),
            a.services@ == services_of(sleds@),
            a.found@ == a.services@.len(),
            a.targets@ == free_sleds(sleds@),
            a.placed == 0,
            a.kind == kind,
            a.redundancy == redundancy,
    {
        let mut services: Vec<Service> = Vec::new();
        let mut targets: Vec<Uuid> = Vec::new();
        let mut i: usize = 0;
        assert(sleds@.take(0) =~= Seq::empty());
        while i < sleds.len()
            invariant
                i <= sleds@.len(),
                services@ == services_of(sleds@.take(i as int)),
                targets@ == free_sleds(sleds@.take(i as int)),
            decreases sleds@.len() - i,
        {
            assert(sleds@.take(i + 1).drop_last() =~= sleds@.take(i as int));
            match sleds[i].1 {
                Some(service) => {
                    services.push(service);
                },
                None => {
                    targets.push(sleds[i].0);
                },
            }
            i = i + 1;
        }
        assert(sleds@.take(i as int) =~= sleds@);
        let found = Ghost(services@.len());
        RackAllocation { services, found, targets, placed: 0, kind, redundancy }
    }

    /// The sled that gets the service next, if one does.
    pub open spec fn next(self) -> Result<Option<Uuid>, ServiceError> {
        if self.services@.len() >= self.redundancy {
            Ok(None)
        } else if self.placed < self.targets@.len() {
            Ok(Some(self.targets@[self.placed as int]))
        } else {
            Err(ServiceError::NotEnoughSleds)
        }
    }

    /// The sled that gets the service next, or nothing where enough sleds run it.
    pub fn next_sled(&self) -> (r: Result<Option<Uuid>, ServiceError>)
        requires
            self.well_formed(),
        ensures
            r == (if self.services@.len() >= self.redundancy {
                Ok::<Option<Uuid>, ServiceError>(None)
            } else if self.placed < self.targets@.len() {
                Ok::<Option<Uuid>, ServiceError>(Some(self.targets@[self.placed as int]))
            } else {
                Err::<Option<Uuid>, ServiceError>(ServiceError::NotEnoughSleds)
            }),
            r is Err ==> self.found@ + self.targets@.len() < self.redundancy,
            self.found@ + self.targets@.len() >= self.redundancy ==> r is Ok,
            r == self.next(),
    {
        if self.services.len() as u64 >= self.redundancy as u64 {
            Ok(None)
        } else if self.placed < self.targets.len() {
            Ok(Some(self.targets[self.placed]))
        } else {
            Err(ServiceError::NotEnoughSleds)
        }
    }

    /// The service to be stored for a sled, at an address of that sled. Its id is new.
    pub fn service_for(&self, sled_id: Uuid, address: u128) -> (service: Service)
        ensures
            is_random_id(service.id),
            service.sled_id == sled_id,
            service.ip == address,
            service.kind == self.kind,
    {
        Service::new(random_uuid(), sled_id, address, self.kind)
    }

    /// Takes in a service that was stored for the next sled.
    pub fn stored(&mut self, service: Service)
        requires
            old(self).well_formed(),
            old(self).placed < old(self).targets@.len(),
            service.sled_id == old(self).targets@[old(self).placed as int],
            service.kind == old(self).kind,
        ensures
            final(self).well_formed(),
            final(self).services@ == old(self).services@.push(service),
            final(self).placed == old(self).placed + 1,
            final(self).targets == old(self).targets,
            final(self).found == old(self).found,
            final(self).kind == old(self).kind,
            final(self).redundancy == old(self).redundancy,
    {
        let ghost before = *self;
        assert(self.placed < self.targets.len());
        self.services.push(service);
        self.placed = self.placed + 1;
        proof {
            assert forall|i: int| 0 <= i < self.placed implies (
            #[trigger] self.services@[self.found@ + i]).sled_id == self.targets@[i]
                && self.services@[self.found@ + i].kind == self.kind by {
                if i < before.placed {
                    assert(self.services@[self.found@ + i] == before.services@[before.found@ + i]);
                }
            }
        }
    }
}

/// The services that were placed run on sleds that had none before, each on a sled of its own.
pub proof fn rack_services_are_spread(sleds: Seq<SledAndService>, a: RackAllocation, i: int, j: int)
    requires
        a.well_formed(),
        a.targets@ == free_sleds(sleds),
        forall|k: int, l: int|
            0 <= k < l < sleds.len() ==> (#[trigger] sleds[k]).0 != (#[trigger] sleds[l]).0,
        0 <= i < j < a.placed,
    ensures
        a.services@[a.found@ + i].sled_id != a.services@[a.found@ + j].sled_id,
        exists|k: int|
            0 <= k < sleds.len() && #[trigger] sleds[k] == (
                a.services@[a.found@ + i].sled_id,
                None::<Service>,
            ),
        exists|k: int|
            0 <= k < sleds.len() && #[trigger] sleds[k] == (
                a.services@[a.found@ + j].sled_id,
                None::<Service>,
            ),
{
    let (x, y) = free_sleds_come_in_order(sleds, i, j);
    assert(sleds[x] == (a.services@[a.found@ + i].sled_id, None::<Service>));
    assert(sleds[y] == (a.services@[a.found@ + j].sled_id, None::<Service>));
}

proof fn free_sleds_come_in_order(sleds: Seq<SledAndService>, i: int, j: int) -> (r: (int, int))
    requires
        0 <= i < j < free_sleds(sleds).len(),
    ensures
        0 <= r.0 < r.1 < sleds.len(),
        sleds[r.0] == (free_sleds(sleds)[i], None::<Service>),
        sleds[r.1] == (free_sleds(sleds)[j], None::<Service>),
    decreases sleds.len(),
{
    let rest = sleds.drop_last();
    if j < free_sleds(rest).len() {
        let r = free_sleds_come_in_order(rest, i, j);
        assert(rest[r.0] == sleds[r.0] && rest[r.1] == sleds[r.1]);
        r
    } else {
        let x = a_free_sled_comes(rest, i);
        assert(rest[x] == sleds[x]);
        (x, sleds.len() - 1)
    }
}

proof fn a_free_sled_comes(sleds: Seq<SledAndService>, i: int) -> (r: int)
    requires
        0 <= i < free_sleds(sleds).len(),
    ensures
        0 <= r < sleds.len(),
        sleds[r] == (free_sleds(sleds)[i], None::<Service>),
    decreases sleds.len(),
{
    let rest = sleds.drop_last();
    if i < free_sleds(rest).len() {
        let r = a_free_sled_comes(rest, i);
        assert(rest[r] == sleds[r]);
        r
    } else {
        sleds.len() - 1
    }
}

/// One of the services has the address.
pub open spec fn address_in_use(services: Seq<Service>, address: u128) -> bool {
    exists|i: int| 0 <= i < services.len() && (#[trigger] services[i]).ip == address
}

/// One of the services is on the sled.
pub open spec fn sled_in_use(services: Seq<Service>, sled_id: Uuid) -> bool {
    exists|i: int| 0 <= i < services.len() && (#[trigger] services[i]).sled_id == sled_id
}

fn uses_address(services: &Vec<Service>, address: u128) -> (yes: bool)
    ensures
        yes == address_in_use(services@, address),
{
    let mut i: usize = 0;
    while i < services.len()
        invariant
            i <= services@.len(),
            forall|k: int| 0 <= k < i ==> (#[trigger] services@[k]).ip != address,
        decreases services@.len() - i,
    {
        if services[i].ip == address {
            assert(services@[i as int].ip == address);
            return true;
        }
        i = i + 1;
    }
    false
}

fn uses_sled(services: &Vec<Service>, sled_id: Uuid) -> (yes: bool)
    ensures
        yes == sled_in_use(services@, sled_id),
{
    let mut i: usize = 0;
    while i < services.len()
        invariant
            i <= services@.len(),
            forall|k: int| 0 <= k < i ==> (#[trigger] services@[k]).sled_id != sled_id,
        decreases services@.len() - i,
    {
        if services[i].sled_id == sled_id {
            assert(services@[i as int].sled_id == sled_id);
            return true;
        }
        i = i + 1;
    }
    false
}

/// The addresses that no service has.
pub open spec fn usable_addresses(services: Seq<Service>, addresses: Seq<u128>) -> Seq<u128> {
    addresses.filter(|address: u128| !address_in_use(services, address))
}

/// The sleds on which no service runs.
pub open spec fn usable_sleds(services: Seq<Service>, sleds: Seq<Uuid>) -> Seq<Uuid> {
    sleds.filter(|sled_id: Uuid| !sled_in_use(services, sled_id))
}

/// The placement of the internal DNS service, each at an address that is reserved for it, until
/// enough sleds run it.
pub struct DnsAllocation {
    /// The services that there were, and then those that were placed.
    pub services: Vec<Service>,
    /// The number of services that there were.
    pub found: Ghost<nat>,
    /// The sleds that get the service, in their order.
    pub targets: Vec<Uuid>,
    /// The addresses that they get it at, in their order.
    pub addresses: Vec<u128>,
    /// The number of sleds that got it.
    pub placed: usize,
    pub redundancy: u32,
}

impl DnsAllocation {
    /// The services that were placed are on the first of the sleds, at the first of the addresses,
    /// in their order.
    pub open spec fn well_formed(self) -> bool {
        &&& self.placed <= self.targets@.len()
        &&& self.placed <= self.addresses@.len()
        &&& self.services@.len() == self.found@ + self.placed
        &&& forall|i: int|
            0 <= i < self.placed ==> (#[trigger] self.services@[self.found@ + i]).sled_id
                == self.targets@[i]
        &&& forall|i: int|
            0 <= i < self.placed ==> (#[trigger] self.services@[self.found@ + i]).ip
                == self.addresses@[i]
    }

    /// Begins to place the service, where these are the DNS services that there are, the addresses
    /// that are reserved for them, and the sleds that may get one.
    pub fn new(
        services: Vec<Service>,
        dns_addresses: &Vec<u128>,
        sleds: &Vec<Uuid>,
        redundancy: u32,
    ) -> (a: Self)
        ensures
            a.well_formed(),
            a.services == services,
            a.found@ == services@.len(),
            a.addresses@ == usable_addresses(services@, dns_addresses@),
            a.targets@ == usable_sleds(services@, sleds@),
            a.placed == 0,
            a.redundancy == redundancy,
    {
        let mut addresses: Vec<u128> = Vec::new();
        let mut targets: Vec<Uuid> = Vec::new();
        let ghost free_address = |address: u128| !address_in_use(services@, address);
        let ghost free_sled = |sled_id: Uuid| !sled_in_use(services@, sled_id);
        let mut i: usize = 0;
        proof {
            reveal(Seq::filter);
            assert(dns_addresses@.take(0) =~= Seq::empty());
            assert(sleds@.take(0) =~= Seq::empty());
        }
        while i < dns_addresses.len()
            invariant
                i <= dns_addresses@.len(),
                free_address == (|address: u128| !address_in_use(services@, address)),
                addresses@ == dns_addresses@.take(i as int).filter(free_address),
            decreases dns_addresses@.len() - i,
        {
            proof {
                reveal(Seq::filter);
                assert(dns_addresses@.take(i + 1).drop_last() =~= dns_addresses@.take(i as int));
            }
            if !uses_address(&services, dns_addresses[i]) {
                addresses.push(dns_addresses[i]);
            }
            i = i + 1;
        }
        assert(dns_addresses@.take(i as int) =~= dns_addresses@);
        i = 0;
        while i < sleds.len()
            invariant
                i <= sleds@.len(),
                free_sled == (|sled_id: Uuid| !sled_in_use(services@, sled_id)),
                targets@ == sleds@.take(i as int).filter(free_sled),
            decreases sleds@.len() - i,
        {
            proof {
                reveal(Seq::filter);
                assert(sleds@.take(i + 1).drop_last() =~= sleds@.take(i as int));
            }
            if !uses_sled(&services, sleds[i]) {
                targets.push(sleds[i]);
            }
            i = i + 1;
        }
        assert(sleds@.take(i as int) =~= sleds@);
        let found = Ghost(services@.len());
        DnsAllocation { services, found, targets, addresses, placed: 0, redundancy }
    }

    /// The sled that gets the service next, and the address there, if one does.
    pub open spec fn next(self) -> Result<Option<(Uuid, u128)>, ServiceError> {
        if self.services@.len() >= self.redundancy {
            Ok(None)
        } else if self.placed >= self.targets@.len() {
            Err(ServiceError::NotEnoughSleds)
        } else if self.placed >= self.addresses@.len() {
            Err(ServiceError::NotEnoughIps)
        } else {
            Ok(Some((self.targets@[self.placed as int], self.addresses@[self.placed as int])))
        }
    }

    /// The sled that gets the service next, and the address there, or nothing where enough sleds run
    /// it. Where both sleds and addresses ran out, the sleds are named.
    pub fn next_place(&self) -> (r: Result<Option<(Uuid, u128)>, ServiceError>)
        requires
            self.well_formed(),
        ensures
            r == (if self.services@.len() >= self.redundancy {
                Ok::<Option<(Uuid, u128)>, ServiceError>(None)
            } else if self.placed >= self.targets@.len() {
                Err::<Option<(Uuid, u128)>, ServiceError>(ServiceError::NotEnoughSleds)
            } else if self.placed >= self.addresses@.len() {
                Err::<Option<(Uuid, u128)>, ServiceError>(ServiceError::NotEnoughIps)
            } else {
                Ok::<Option<(Uuid, u128)>, ServiceError>(
                    Some((self.targets@[self.placed as int], self.addresses@[self.placed as int])),
                )
            }),
            r == self.next(),
    {
        if self.services.len() as u64 >= self.redundancy as u64 {
            Ok(None)
        } else if self.placed >= self.targets.len() {
            Err(ServiceError::NotEnoughSleds)
        } else if self.placed >= self.addresses.len() {
            Err(ServiceError::NotEnoughIps)
        } else {
            Ok(Some((self.targets[self.placed], self.addresses[self.placed])))
        }
    }

    /// The service to be stored for a sled and an address. Its id is new.
    pub fn service_for(&self, sled_id: Uuid, address: u128) -> (service: Service)
        ensures
            is_random_id(service.id),
            service.sled_id == sled_id,
            service.ip == address,
            service.kind == ServiceKind::InternalDNS,
    {
        Service::new(random_uuid(), sled_id, address, ServiceKind::InternalDNS)
    }

    /// Takes in a service that was stored for the next sled.
    pub fn stored(&mut self, service: Service)
        requires
            old(self).well_formed(),
            old(self).placed < old(self).targets@.len(),
            old(self).placed < old(self).addresses@.len(),
            service.sled_id == old(self).targets@[old(self).placed as int],
            service.ip == old(self).addresses@[old(self).placed as int],
        ensures
            final(self).well_formed(),
            final(self).services@ == old(self).services@.push(service),
            final(self).placed == old(self).placed + 1,
            final(self).targets == old(self).targets,
            final(self).addresses == old(self).addresses,
            final(self).found == old(self).found,
            final(self).redundancy == old(self).redundancy,
    {
        let ghost before = *self;
        assert(self.placed < self.targets.len());
        self.services.push(service);
        self.placed = self.placed + 1;
        proof {
            assert forall|i: int| 0 <= i < self.placed implies (
            #[trigger] self.services@[self.found@ + i]).sled_id == self.targets@[i]
                && self.services@[self.found@ + i].ip == self.addresses@[i] by {
                if i < before.placed {
                    assert(self.services@[self.found@ + i] == before.services@[before.found@ + i]);
                }
            }
        }
    }
}

/// A DNS service that was placed is on a sled that ran none before, at a reserved address that none
/// had before.
pub proof fn dns_services_use_what_was_free(
    found: Seq<Service>,
    dns_addresses: Seq<u128>,
    sleds: Seq<Uuid>,
    a: DnsAllocation,
    i: int,
)
    requires
        a.well_formed(),
        a.addresses@ == usable_addresses(found, dns_addresses),
        a.targets@ == usable_sleds(found, sleds),
        0 <= i < a.placed,
    ensures
        dns_addresses.contains(a.services@[a.found@ + i].ip),
        !address_in_use(found, a.services@[a.found@ + i].ip),
        sleds.contains(a.services@[a.found@ + i].sled_id),
        !sled_in_use(found, a.services@[a.found@ + i].sled_id),
{
    let free_address = |address: u128| !address_in_use(found, address);
    let free_sled = |sled_id: Uuid| !sled_in_use(found, sled_id);
    dns_addresses.lemma_filter_contains_rev(free_address, a.addresses@[i]);
    dns_addresses.lemma_filter_pred(free_address, i);
    sleds.lemma_filter_contains_rev(free_sled, a.targets@[i]);
    sleds.lemma_filter_pred(free_sled, i);
    assert(free_address(a.addresses@[i]));
    assert(free_sled(a.targets@[i]));
}

/// No two DNS services that were placed share a sled or an address, where the sleds are distinct and
/// the reserved addresses are.
pub proof fn dns_services_are_spread(
    found: Seq<Service>,
    dns_addresses: Seq<u128>,
    sleds: Seq<Uuid>,
    a: DnsAllocation,
    i: int,
    j: int,
)
    requires
        a.well_formed(),
        a.addresses@ == usable_addresses(found, dns_addresses),
        a.targets@ == usable_sleds(found, sleds),
        dns_addresses.no_duplicates(),
        sleds.no_duplicates(),
        0 <= i < j < a.placed,
    ensures
        a.services@[a.found@ + i].ip != a.services@[a.found@ + j].ip,
        a.services@[a.found@ + i].sled_id != a.services@[a.found@ + j].sled_id,
{
    filter_keeps_distinct(dns_addresses, |address: u128| !address_in_use(found, address));
    filter_keeps_distinct(sleds, |sled_id: Uuid| !sled_in_use(found, sled_id));
}

proof fn filter_keeps_distinct(s: Seq<u128>, keep: spec_fn(u128) -> bool)
    requires
        s.no_duplicates(),
    ensures
        s.filter(keep).no_duplicates(),
    decreases s.len(),
{
    reveal(Seq::filter);
    if s.len() > 0 {
        let rest = s.drop_last();
        filter_keeps_distinct(rest, keep);
        assert(!rest.contains(s.last()));
        if rest.filter(keep).contains(s.last()) {
            rest.lemma_filter_contains_rev(keep, s.last());
        }
    }
}

} // verus!
