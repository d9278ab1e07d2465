//! A port on the virtual switch.

use vstd::prelude::*;

use crate::ids::Uuid;
use crate::net::IpAddr;

verus! {

/// What a port is attached to.
#[derive(Debug, Clone, Copy, PartialEq, Eq, PartialOrd, Ord, Structural)]
pub enum PortType {
    /// A guest instance.
    Guest { id: Uuid },
    /// A service zone.
    Service { id: Uuid },
}

impl PortType {
    /// The id of what the port is attached to.
    pub fn id(&self) -> (id: Uuid)
        ensures
            id == (match *self {
                PortType::Guest { id } => id,
                PortType::Service { id } => id,
            }),
    {
        match self {
            PortType::Guest { id } => *id,
            PortType::Service { id } => *id,
        }
    }
}

/// What identifies a port: its type, with its id, and its slot.
pub type PortKey = (PortType, u8);

/// The virtual network of a port.
#[derive(Debug, Clone, Copy, PartialEq, Eq, Structural)]
pub struct Vni {
    pub number: u32,
}

/// The virtual gateway of a port.
#[derive(Clone, Copy)]
pub struct Gateway {
    pub mac: macaddr::MacAddr6,
    pub ip: IpAddr,
}

/// A port on the virtual switch.
pub struct Port {
    /// The name of the port on the switch.
    pub name: String,
    pub port_type: PortType,
    /// The address within the subnet of the VPC.
    pub ip: IpAddr,
    /// The hardware address within the VPC.
    pub mac: macaddr::MacAddr6,
    /// The index of the port among those of the same instance or zone.
    pub slot: u8,
    pub vni: Vni,
    pub gateway: Gateway,
    /// The name of the virtual link over the port.
    pub vnic: String,
}

impl Port {
    /// A port with these properties.
    pub fn new(
        name: String,
        port_type: PortType,
        ip: IpAddr,
        mac: macaddr::MacAddr6,
        slot: u8,
        vni: Vni,
        gateway: Gateway,
        vnic: String,
    ) -> (port: Port)
        ensures
            port == (Port { name, port_type, ip, mac, slot, vni, gateway, vnic }),
    {
        Port { name, port_type, ip, mac, slot, vni, gateway, vnic }
    }

    /// What identifies the port.
    pub fn key(&self) -> (key: PortKey)
        ensures
            key == (self.port_type, self.slot),
    {
        (self.port_type, self.slot)
    }

    /// The name of the port on the switch.
    pub fn name(&self) -> (name: &str)
        ensures
            name@ == self.name@,
    {
        self.name.as_str()
    }

    /// The address within the subnet of the VPC.
    pub fn ip(&self) -> (ip: IpAddr)
        ensures
            ip == self.ip,
    {
        self.ip
    }

    /// The hardware address within the VPC.
    pub fn mac(&self) -> (mac: macaddr::MacAddr6)
        ensures
            mac == self.mac,
    {
        self.mac
    }

    /// The virtual network.
    pub fn vni(&self) -> (vni: Vni)
        ensures
            vni == self.vni,
    {
        self.vni
    }

    /// The virtual gateway.
    pub fn gateway(&self) -> (gateway: Gateway)
        ensures
            gateway == self.gateway,
    {
        self.gateway
    }

    /// The name of the virtual link over the port.
    pub fn vnic_name(&self) -> (name: &str)
        ensures
            name@ == self.vnic@,
    {
        self.vnic.as_str()
    }

    /// The index of the port among those of the same instance or zone.
    pub fn slot(&self) -> (slot: u8)
        ensures
            slot == self.slot,
    {
        self.slot
    }

    /// What is to be done next to take the port down, after the last step was `last`, and succeeded
    /// or did not. The device cannot be deleted while the virtual link is there.
    pub fn teardown(&self, last: Option<(TeardownStep, bool)>) -> (next: Teardown<'_>)
        ensures
            match (last, next) {
                (None, Teardown::DeleteVnic { name }) => name@ == self.vnic@,
                (Some((TeardownStep::DeleteVnic, true)), Teardown::OpenSwitch) => true,
                (Some((TeardownStep::DeleteVnic, false)), Teardown::WarnVnicAndDeviceRemain) => {
                    true
                },
                (Some((TeardownStep::OpenSwitch, true)), Teardown::DeleteDevice { name }) => name@
                    == self.name@,
                (Some((TeardownStep::DeleteDevice, true)), Teardown::Done) => true,
                (
                    Some((TeardownStep::OpenSwitch | TeardownStep::DeleteDevice, false)),
                    Teardown::WarnDeviceRemains,
                ) => true,
                _ => false,
            },
            comes_next(self.vnic@, self.name@, last, next),
    {
        match last {
            None => Teardown::DeleteVnic { name: self.vnic.as_str() },
            Some((TeardownStep::DeleteVnic, true)) => Teardown::OpenSwitch,
            Some((TeardownStep::DeleteVnic, false)) => Teardown::WarnVnicAndDeviceRemain,
            Some((TeardownStep::OpenSwitch, true)) => Teardown::DeleteDevice {
                name: self.name.as_str(),
            },
            Some((TeardownStep::DeleteDevice, true)) => Teardown::Done,
            Some((_, false)) => Teardown::WarnDeviceRemains,
        }
    }
}

/// A step of taking a port down.
#[derive(Debug, Clone, Copy, PartialEq, Eq, Structural)]
pub enum TeardownStep {
    DeleteVnic,
    OpenSwitch,
    DeleteDevice,
}

/// What is to be done next to take a port down.
#[derive(Debug, PartialEq, Eq)]
pub enum Teardown<'a> {
    DeleteVnic { name: &'a str },
    OpenSwitch,
    DeleteDevice { name: &'a str },
    Done,
    /// Neither the virtual link nor the device was deleted.
    WarnVnicAndDeviceRemain,
    /// The virtual link was deleted, and the device was not.
    WarnDeviceRemains,
}

/// This is to be done next to take down the port with these names of its virtual link and device.
pub open spec fn comes_next(
    vnic: Seq<char>,
    device: Seq<char>,
    last: Option<(TeardownStep, bool)>,
    next: Teardown,
) -> bool {
    match (last, next) {
        (None, Teardown::DeleteVnic { name }) => name@ == vnic,
        (Some((TeardownStep::DeleteVnic, true)), Teardown::OpenSwitch) => true,
        (Some((TeardownStep::DeleteVnic, false)), Teardown::WarnVnicAndDeviceRemain) => true,
        (Some((TeardownStep::OpenSwitch, true)), Teardown::DeleteDevice { name }) => name@ == device,
        (Some((TeardownStep::DeleteDevice, true)), Teardown::Done) => true,
        (
            Some((TeardownStep::OpenSwitch | TeardownStep::DeleteDevice, false)),
            Teardown::WarnDeviceRemains,
        ) => true,
        _ => false,
    }
}

/// The virtual link goes first, and the device only after it, once the switch is open. After a step
/// that fails nothing more is done: it is warned of what remains, which is the device, and the
/// virtual link too where that is what could not be deleted. Only where nothing remains is it done.
pub proof fn ports_are_taken_down_link_first(
    vnic: Seq<char>,
    device: Seq<char>,
    last: Option<(TeardownStep, bool)>,
    next: Teardown,
)
    requires
        comes_next(vnic, device, last, next),
    ensures
        next is DeleteVnic <==> last is None,
        next matches Teardown::DeleteVnic { name } ==> name@ == vnic,
        next is OpenSwitch <==> last == Some((TeardownStep::DeleteVnic, true)),
        next is DeleteDevice <==> last == Some((TeardownStep::OpenSwitch, true)),
        next matches Teardown::DeleteDevice { name } ==> name@ == device,
        next is Done <==> last == Some((TeardownStep::DeleteDevice, true)),
        next is WarnVnicAndDeviceRemain || next is WarnDeviceRemains <==> (last matches Some(
            (_, worked),
        ) && !worked),
        next is WarnVnicAndDeviceRemain ==> last == Some((TeardownStep::DeleteVnic, false)),
        last == Some((TeardownStep::DeleteVnic, false)) ==> next is WarnVnicAndDeviceRemain,
{
}

} // verus!
