//! Virtual links and ports.

use omicron::link::{InvalidLinkKind, Link, LinkKind, VnicAllocator};
use omicron::net::IpAddr;
use omicron::port::{Gateway, Port, PortType, Teardown, TeardownStep, Vni};

#[test]
fn test_allocate() {
    let (allocator, mut counter) = VnicAllocator::new("Foo", "mystub");
    assert_eq!("oxFoo0", allocator.next(&mut counter));
    assert_eq!("oxFoo1", allocator.next(&mut counter));
    assert_eq!("oxFoo2", allocator.next(&mut counter));
}

#[test]
fn test_allocate_within_scopes() {
    let (allocator, mut counter) = VnicAllocator::new("Foo", "mystub");
    assert_eq!("oxFoo0", allocator.next(&mut counter));
    let allocator = allocator.new_superscope("Baz");
    assert_eq!("oxBazFoo1", allocator.next(&mut counter));
}

#[test]
fn control_names_are_apart() {
    let (allocator, mut counter) = VnicAllocator::new("Foo", "mystub");
    let mac = macaddr::MacAddr6::new(1, 2, 3, 4, 5, 6);
    let request = allocator.new_control(&mut counter, Some(mac));
    assert_eq!(request.name, "oxControlFoo0");
    assert_eq!(request.mac, Some(mac));
    assert_eq!(request.kind, LinkKind::OxideControlVnic);
    assert_eq!(request.mtu, 9000);
    assert_eq!(allocator.next(&mut counter), "oxFoo1");
    let link = request.created();
    assert_eq!(link.name(), "oxControlFoo0");
    assert_eq!(link.kind(), LinkKind::OxideControlVnic);
    let bootstrap = allocator.new_bootstrap(&mut counter);
    assert_eq!(bootstrap.name, "oxFoo2");
    assert_eq!(bootstrap.kind, LinkKind::OxideBootstrapVnic);
    assert_eq!(bootstrap.mac, None);
}

#[test]
fn names_never_repeat() {
    let (allocator, mut counter) = VnicAllocator::new("Foo", "mystub");
    let copy = allocator.clone();
    let wider = allocator.new_superscope("Baz");
    let mut names = vec![];
    for _ in 0..20 {
        names.push(allocator.next(&mut counter));
        names.push(copy.next(&mut counter));
        names.push(wider.next(&mut counter));
        names.push(wider.new_control(&mut counter, None).name);
    }
    assert_eq!(names[5], "oxFoo5");
    assert_eq!(names[6], "oxBazFoo6");
    assert_eq!(names[7], "oxControlBazFoo7");
    assert_eq!(allocator.next_id(&mut counter), 80);
    names.sort();
    names.dedup();
    assert_eq!(names.len(), 80);
}

#[test]
fn links_have_the_kind_of_their_names() {
    assert_eq!(LinkKind::from_name("oxFoo0"), Some(LinkKind::OxideControlVnic));
    assert_eq!(LinkKind::from_name("vopte0"), Some(LinkKind::GuestVnic));
    assert_eq!(LinkKind::from_name("net0"), None);
    let (allocator, _) = VnicAllocator::new("Foo", "mystub");
    let link = allocator.wrap_existing("vopte3").unwrap();
    assert_eq!(link.kind(), LinkKind::GuestVnic);
    let refused = allocator.wrap_existing("net0").unwrap_err();
    assert_eq!(refused, InvalidLinkKind("net0".to_string()));
    assert_eq!(
        refused.message(),
        "VNIC with name 'net0' is not valid for sled agent management"
    );
}

#[test]
fn links_are_deleted_once() {
    let (allocator, mut counter) = VnicAllocator::new("Foo", "mystub");
    let mut link = allocator.new_control(&mut counter, None).created();
    assert_eq!(link.delete(), Some("oxControlFoo0"));
    assert_eq!(link.destruction(), Some("oxControlFoo0"));
    link.mark_deleted();
    assert_eq!(link.delete(), None);
    // What goes out of scope is destroyed all the same.
    assert_eq!(link.destruction(), Some("oxControlFoo0"));
    let physical = Link::wrap_physical("net0");
    assert_eq!(physical.kind(), LinkKind::Physical);
    assert_eq!(physical.delete(), None);
    assert_eq!(physical.destruction(), None);
}

fn port() -> Port {
    let mac = macaddr::MacAddr6::new(1, 2, 3, 4, 5, 6);
    Port::new(
        "opte0".to_string(),
        PortType::Guest { id: 9 },
        IpAddr::V4(0x0a00_0001),
        mac,
        2,
        Vni { number: 100 },
        Gateway { mac, ip: IpAddr::V4(0x0a00_0002) },
        "vopte0".to_string(),
    )
}

#[test]
fn ports_keep_what_they_are_made_of() {
    let p = port();
    assert_eq!(p.name(), "opte0");
    assert_eq!(p.ip(), IpAddr::V4(0x0a00_0001));
    assert_eq!(p.mac(), macaddr::MacAddr6::new(1, 2, 3, 4, 5, 6));
    assert_eq!(p.slot(), 2);
    assert_eq!(p.vni(), Vni { number: 100 });
    assert_eq!(p.gateway().ip, IpAddr::V4(0x0a00_0002));
    assert_eq!(p.vnic_name(), "vopte0");
    assert_eq!(p.key(), (PortType::Guest { id: 9 }, 2));
    assert_eq!(p.key().0.id(), 9);
    assert_eq!(PortType::Service { id: 4 }.id(), 4);
}

#[test]
fn ports_are_taken_down_in_order() {
    let p = port();
    assert_eq!(p.teardown(None), Teardown::DeleteVnic { name: "vopte0" });
    assert_eq!(
        p.teardown(Some((TeardownStep::DeleteVnic, false))),
        Teardown::WarnVnicAndDeviceRemain
    );
    assert_eq!(p.teardown(Some((TeardownStep::DeleteVnic, true))), Teardown::OpenSwitch);
    assert_eq!(
        p.teardown(Some((TeardownStep::OpenSwitch, false))),
        Teardown::WarnDeviceRemains
    );
    assert_eq!(
        p.teardown(Some((TeardownStep::OpenSwitch, true))),
        Teardown::DeleteDevice { name: "opte0" }
    );
    assert_eq!(
        p.teardown(Some((TeardownStep::DeleteDevice, false))),
        Teardown::WarnDeviceRemains
    );
    assert_eq!(p.teardown(Some((TeardownStep::DeleteDevice, true))), Teardown::Done);
}
