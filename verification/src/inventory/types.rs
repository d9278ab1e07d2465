//! What an inventory collection holds.

use std::sync::Arc;

use vstd::prelude::*;

use crate::ids::Uuid;
use crate::ordmap::{Key, OrdMap};
use crate::text::{
    order_of, seq_lt, seq_lt_is_total, seq_lt_is_transitive, texts_lt, texts_lt_is_total,
    texts_lt_is_transitive, Order,
};
use crate::time::Timestamp;

verus! {

/// What identifies a piece of hardware.
#[derive(Debug, PartialEq, Eq)]
pub struct BaseboardId {
    pub part_number: String,
    /// Unique among those with the part number.
    pub serial_number: String,
}

/// What identifies a piece of hardware.
#[verifier::ext_equal]
pub ghost struct BaseboardIdView {
    pub part_number: Seq<char>,
    pub serial_number: Seq<char>,
}

impl BaseboardIdView {
    /// The texts by which hardware is ordered.
    pub open spec fn texts(self) -> Seq<Seq<char>> {
        seq![self.part_number, self.serial_number]
    }
}

impl View for BaseboardId {
    type V = BaseboardIdView;

    open spec fn view(&self) -> BaseboardIdView {
        BaseboardIdView {
            part_number: self.part_number@,
            serial_number: self.serial_number@,
        }
    }
}

impl Clone for BaseboardId {
    fn clone(&self) -> (r: Self)
        ensures
            r == *self,
    {
        BaseboardId {
            part_number: self.part_number.clone(),
            serial_number: self.serial_number.clone(),
        }
    }
}

impl Key for BaseboardId {
    type Id = BaseboardIdView;

    open spec fn id(&self) -> BaseboardIdView {
        self@
    }

    open spec fn before(a: BaseboardIdView, b: BaseboardIdView) -> bool {
        texts_lt(a.texts(), b.texts())
    }

    proof fn order_is_total(a: BaseboardIdView, b: BaseboardIdView) {
        texts_lt_is_total(a.texts(), b.texts());
        if a != b && a.texts() == b.texts() {
            assert(a.texts()[0] == b.texts()[0]);
            assert(a.texts()[1] == b.texts()[1]);
        }
    }

    proof fn order_is_transitive(a: BaseboardIdView, b: BaseboardIdView, c: BaseboardIdView) {
        texts_lt_is_transitive(a.texts(), b.texts(), c.texts());
    }

    fn order_against(&self, other: &BaseboardId) -> (order: Order) {
        proof {
            let a = self@.texts();
            let b = other@.texts();
            reveal_with_fuel(texts_lt, 3);
            assert(a.drop_first() =~= seq![self@.serial_number]);
            assert(b.drop_first() =~= seq![other@.serial_number]);
            seq_lt_is_total(self@.part_number, other@.part_number);
            seq_lt_is_total(self@.serial_number, other@.serial_number);
        }
        match order_of(self.part_number.as_str(), other.part_number.as_str()) {
            Order::Equal => order_of(self.serial_number.as_str(), other.serial_number.as_str()),
            order => order,
        }
    }
}

/// What a firmware image says of itself.
#[derive(Debug, PartialEq, Eq)]
pub struct Caboose {
    pub board: String,
    pub git_commit: String,
    pub name: String,
    pub version: String,
}

/// What a firmware image says of itself.
#[verifier::ext_equal]
pub ghost struct CabooseView {
    pub board: Seq<char>,
    pub git_commit: Seq<char>,
    pub name: Seq<char>,
    pub version: Seq<char>,
}

impl CabooseView {
    /// The texts by which images are ordered.
    pub open spec fn texts(self) -> Seq<Seq<char>> {
        seq![self.board, self.git_commit, self.name, self.version]
    }
}

impl View for Caboose {
    type V = CabooseView;

    open spec fn view(&self) -> CabooseView {
        CabooseView {
            board: self.board@,
            git_commit: self.git_commit@,
            name: self.name@,
            version: self.version@,
        }
    }
}

impl Clone for Caboose {
    fn clone(&self) -> (r: Self)
        ensures
            r == *self,
    {
        Caboose {
            board: self.board.clone(),
            git_commit: self.git_commit.clone(),
            name: self.name.clone(),
            version: self.version.clone(),
        }
    }
}

impl Key for Caboose {
    type Id = CabooseView;

    open spec fn id(&self) -> CabooseView {
        self@
    }

    open spec fn before(a: CabooseView, b: CabooseView) -> bool {
        texts_lt(a.texts(), b.texts())
    }

    proof fn order_is_total(a: CabooseView, b: CabooseView) {
        texts_lt_is_total(a.texts(), b.texts());
        if a != b && a.texts() == b.texts() {
            assert(a.texts()[0] == b.texts()[0]);
            assert(a.texts()[1] == b.texts()[1]);
            assert(a.texts()[2] == b.texts()[2]);
            assert(a.texts()[3] == b.texts()[3]);
        }
    }

    proof fn order_is_transitive(a: CabooseView, b: CabooseView, c: CabooseView) {
        texts_lt_is_transitive(a.texts(), b.texts(), c.texts());
    }

    fn order_against(&self, other: &Caboose) -> (order: Order) {
        proof {
            let a = self@.texts();
            let b = other@.texts();
            reveal_with_fuel(texts_lt, 5);
            assert(a.drop_first() =~= seq![a[1], a[2], a[3]]);
            assert(b.drop_first() =~= seq![b[1], b[2], b[3]]);
            assert(a.drop_first().drop_first() =~= seq![a[2], a[3]]);
            assert(b.drop_first().drop_first() =~= seq![b[2], b[3]]);
            assert(a.drop_first().drop_first().drop_first() =~= seq![a[3]]);
            assert(b.drop_first().drop_first().drop_first() =~= seq![b[3]]);
            seq_lt_is_total(a[0], b[0]);
            seq_lt_is_total(a[1], b[1]);
            seq_lt_is_total(a[2], b[2]);
            seq_lt_is_total(a[3], b[3]);
        }
        match order_of(self.board.as_str(), other.board.as_str()) {
            Order::Equal => match order_of(self.git_commit.as_str(), other.git_commit.as_str()) {
                Order::Equal => match order_of(self.name.as_str(), other.name.as_str()) {
                    Order::Equal => order_of(self.version.as_str(), other.version.as_str()),
                    order => order,
                },
                order => order,
            },
            order => order,
        }
    }
}

/// A page of configuration of a root of trust.
#[derive(Debug, PartialEq, Eq)]
pub struct RotPage {
    pub data_base64: String,
}

impl View for RotPage {
    type V = Seq<char>;

    open spec fn view(&self) -> Seq<char> {
        self.data_base64@
    }
}

impl Clone for RotPage {
    fn clone(&self) -> (r: Self)
        ensures
            r == *self,
    {
        RotPage { data_base64: self.data_base64.clone() }
    }
}

impl Key for RotPage {
    type Id = Seq<char>;

    open spec fn id(&self) -> Seq<char> {
        self@
    }

    open spec fn before(a: Seq<char>, b: Seq<char>) -> bool {
        seq_lt(a, b)
    }

    proof fn order_is_total(a: Seq<char>, b: Seq<char>) {
        seq_lt_is_total(a, b);
    }

    proof fn order_is_transitive(a: Seq<char>, b: Seq<char>, c: Seq<char>) {
        seq_lt_is_transitive(a, b, c);
    }

    fn order_against(&self, other: &RotPage) -> (order: Order) {
        proof {
            seq_lt_is_total(self@, other@);
        }
        order_of(self.data_base64.as_str(), other.data_base64.as_str())
    }
}

/// The place of a firmware image.
#[derive(Debug, Clone, Copy, PartialEq, Eq, Structural)]
pub enum CabooseWhich {
    SpSlot0,
    SpSlot1,
    RotSlotA,
    RotSlotB,
}

impl CabooseWhich {
    /// The name of the place.
    pub open spec fn text(self) -> Seq<char> {
        match self {
            CabooseWhich::SpSlot0 => "SpSlot0"@,
            CabooseWhich::SpSlot1 => "SpSlot1"@,
            CabooseWhich::RotSlotA => "RotSlotA"@,
            CabooseWhich::RotSlotB => "RotSlotB"@,
        }
    }

    /// The name of the place.
    pub fn name(self) -> (s: &'static str)
        ensures
            s@ == self.text(),
    {
        match self {
            CabooseWhich::SpSlot0 => "SpSlot0",
            CabooseWhich::SpSlot1 => "SpSlot1",
            CabooseWhich::RotSlotA => "RotSlotA",
            CabooseWhich::RotSlotB => "RotSlotB",
        }
    }
}

/// The place of a page of a root of trust.
#[derive(Debug, Clone, Copy, PartialEq, Eq, Structural)]
pub enum RotPageWhich {
    Cmpa,
    CfpaActive,
    CfpaInactive,
    CfpaScratch,
}

impl RotPageWhich {
    /// The name of the place.
    pub open spec fn text(self) -> Seq<char> {
        match self {
            RotPageWhich::Cmpa => "Cmpa"@,
            RotPageWhich::CfpaActive => "CfpaActive"@,
            RotPageWhich::CfpaInactive => "CfpaInactive"@,
            RotPageWhich::CfpaScratch => "CfpaScratch"@,
        }
    }

    /// The name of the place.
    pub fn name(self) -> (s: &'static str)
        ensures
            s@ == self.text(),
    {
        match self {
            RotPageWhich::Cmpa => "Cmpa",
            RotPageWhich::CfpaActive => "CfpaActive",
            RotPageWhich::CfpaInactive => "CfpaInactive",
            RotPageWhich::CfpaScratch => "CfpaScratch",
        }
    }
}

/// A place on a piece of hardware, where the place is given by its rank among the places.
#[verifier::ext_equal]
pub ghost struct PlaceView {
    pub which: int,
    pub baseboard: BaseboardIdView,
}

/// One place comes before another: by its rank first, and by the hardware then.
pub open spec fn place_before(a: PlaceView, b: PlaceView) -> bool {
    a.which < b.which || (a.which == b.which && BaseboardId::before(a.baseboard, b.baseboard))
}

impl CabooseWhich {
    /// The rank of the place.
    pub open spec fn rank(self) -> int {
        match self {
            CabooseWhich::SpSlot0 => 0,
            CabooseWhich::SpSlot1 => 1,
            CabooseWhich::RotSlotA => 2,
            CabooseWhich::RotSlotB => 3,
        }
    }

    fn rank_of(self) -> (n: u8)
        ensures
            n == self.rank(),
    {
        match self {
            CabooseWhich::SpSlot0 => 0,
            CabooseWhich::SpSlot1 => 1,
            CabooseWhich::RotSlotA => 2,
            CabooseWhich::RotSlotB => 3,
        }
    }
}

impl RotPageWhich {
    /// The rank of the place.
    pub open spec fn rank(self) -> int {
        match self {
            RotPageWhich::Cmpa => 0,
            RotPageWhich::CfpaActive => 1,
            RotPageWhich::CfpaInactive => 2,
            RotPageWhich::CfpaScratch => 3,
        }
    }

    fn rank_of(self) -> (n: u8)
        ensures
            n == self.rank(),
    {
        match self {
            RotPageWhich::Cmpa => 0,
            RotPageWhich::CfpaActive => 1,
            RotPageWhich::CfpaInactive => 2,
            RotPageWhich::CfpaScratch => 3,
        }
    }
}

fn order_places(
    a_which: u8,
    a: &BaseboardId,
    b_which: u8,
    b: &BaseboardId,
) -> (order: Order)
    ensures
        ({
            let x = PlaceView { which: a_which as int, baseboard: a@ };
            let y = PlaceView { which: b_which as int, baseboard: b@ };
            match order {
                Order::Less => place_before(x, y),
                Order::Equal => x == y,
                Order::Greater => place_before(y, x),
            }
        }),
{
    if a_which < b_which {
        Order::Less
    } else if a_which > b_which {
        Order::Greater
    } else {
        a.order_against(b)
    }
}

proof fn places_are_total(a: PlaceView, b: PlaceView)
    ensures
        a == b ==> !place_before(a, b),
        a != b ==> (place_before(a, b) <==> !place_before(b, a)),
{
    BaseboardId::order_is_total(a.baseboard, b.baseboard);
}

proof fn places_are_transitive(a: PlaceView, b: PlaceView, c: PlaceView)
    requires
        place_before(a, b),
        place_before(b, c),
    ensures
        place_before(a, c),
{
    if a.which == b.which && b.which == c.which {
        BaseboardId::order_is_transitive(a.baseboard, b.baseboard, c.baseboard);
    }
}

/// A place of a firmware image on a piece of hardware.
#[derive(Debug, PartialEq, Eq)]
pub struct CaboosePlace {
    pub which: CabooseWhich,
    pub baseboard: BaseboardId,
}

impl View for CaboosePlace {
    type V = PlaceView;

    open spec fn view(&self) -> PlaceView {
        PlaceView { which: self.which.rank(), baseboard: self.baseboard@ }
    }
}

impl Key for CaboosePlace {
    type Id = PlaceView;

    open spec fn id(&self) -> PlaceView {
        self@
    }

    open spec fn before(a: PlaceView, b: PlaceView) -> bool {
        place_before(a, b)
    }

    proof fn order_is_total(a: PlaceView, b: PlaceView) {
        places_are_total(a, b);
    }

    proof fn order_is_transitive(a: PlaceView, b: PlaceView, c: PlaceView) {
        places_are_transitive(a, b, c);
    }

    fn order_against(&self, other: &CaboosePlace) -> (order: Order) {
        order_places(
            self.which.rank_of(),
            &self.baseboard,
            other.which.rank_of(),
            &other.baseboard,
        )
    }
}

/// A place of a page of a root of trust on a piece of hardware.
#[derive(Debug, PartialEq, Eq)]
pub struct RotPagePlace {
    pub which: RotPageWhich,
    pub baseboard: BaseboardId,
}

impl View for RotPagePlace {
    type V = PlaceView;

    open spec fn view(&self) -> PlaceView {
        PlaceView { which: self.which.rank(), baseboard: self.baseboard@ }
    }
}

impl Key for RotPagePlace {
    type Id = PlaceView;

    open spec fn id(&self) -> PlaceView {
        self@
    }

    open spec fn before(a: PlaceView, b: PlaceView) -> bool {
        place_before(a, b)
    }

    proof fn order_is_total(a: PlaceView, b: PlaceView) {
        places_are_total(a, b);
    }

    proof fn order_is_transitive(a: PlaceView, b: PlaceView, c: PlaceView) {
        places_are_transitive(a, b, c);
    }

    fn order_against(&self, other: &RotPagePlace) -> (order: Order) {
        order_places(
            self.which.rank_of(),
            &self.baseboard,
            other.which.rank_of(),
            &other.baseboard,
        )
    }
}

/// The kind of hardware that a service processor controls.
#[derive(Debug, Clone, Copy, PartialEq, Eq, Structural)]
pub enum SpType {
    Sled,
    Switch,
    Power,
}

/// A power state.
#[derive(Debug, Clone, Copy, PartialEq, Eq, Structural)]
pub enum PowerState {
    A0,
    A1,
    A2,
}

/// A slot of a root of trust.
#[derive(Debug, Clone, Copy, PartialEq, Eq, Structural)]
pub enum RotSlot {
    A,
    B,
}

/// A service processor, as it was found.
#[derive(Debug, PartialEq, Eq)]
pub struct ServiceProcessor {
    pub time_collected: Timestamp,
    pub source: String,
    pub sp_type: SpType,
    pub sp_slot: u16,
    pub baseboard_revision: u32,
    pub hubris_archive: String,
    pub power_state: PowerState,
}

impl Clone for ServiceProcessor {
    fn clone(&self) -> (r: Self)
        ensures
            r == *self,
    {
        ServiceProcessor {
            time_collected: self.time_collected,
            source: self.source.clone(),
            sp_type: self.sp_type,
            sp_slot: self.sp_slot,
            baseboard_revision: self.baseboard_revision,
            hubris_archive: self.hubris_archive.clone(),
            power_state: self.power_state,
        }
    }
}

/// A root of trust, as it was found.
#[derive(Debug, PartialEq, Eq)]
pub struct RotState {
    pub time_collected: Timestamp,
    pub source: String,
    pub active_slot: RotSlot,
    pub persistent_boot_preference: RotSlot,
    pub pending_persistent_boot_preference: Option<RotSlot>,
    pub transient_boot_preference: Option<RotSlot>,
    pub slot_a_sha3_256_digest: Option<String>,
    pub slot_b_sha3_256_digest: Option<String>,
}

pub(crate) fn clone_text(s: &Option<String>) -> (r: Option<String>)
    ensures
        r == *s,
{
    match s {
        Some(s) => Some(s.clone()),
        None => None,
    }
}

impl Clone for RotState {
    fn clone(&self) -> (r: Self)
        ensures
            r == *self,
    {
        RotState {
            time_collected: self.time_collected,
            source: self.source.clone(),
            active_slot: self.active_slot,
            persistent_boot_preference: self.persistent_boot_preference,
            pending_persistent_boot_preference: self.pending_persistent_boot_preference,
            transient_boot_preference: self.transient_boot_preference,
            slot_a_sha3_256_digest: clone_text(&self.slot_a_sha3_256_digest),
            slot_b_sha3_256_digest: clone_text(&self.slot_b_sha3_256_digest),
        }
    }
}

/// A firmware image, as it was found.
#[derive(Debug, PartialEq, Eq)]
pub struct CabooseFound {
    pub time_collected: Timestamp,
    pub source: String,
    pub caboose: Caboose,
}

/// A firmware image, as it was found.
#[verifier::ext_equal]
pub ghost struct CabooseFoundView {
    pub time_collected: Timestamp,
    pub source: String,
    pub caboose: CabooseView,
}

impl View for CabooseFound {
    type V = CabooseFoundView;

    open spec fn view(&self) -> CabooseFoundView {
        CabooseFoundView {
            time_collected: self.time_collected,
            source: self.source,
            caboose: self.caboose@,
        }
    }
}

/// A page of a root of trust, as it was found.
#[derive(Debug, PartialEq, Eq)]
pub struct RotPageFound {
    pub time_collected: Timestamp,
    pub source: String,
    pub page: RotPage,
}

/// A page of a root of trust, as it was found.
#[verifier::ext_equal]
pub ghost struct RotPageFoundView {
    pub time_collected: Timestamp,
    pub source: String,
    pub page: Seq<char>,
}

impl View for RotPageFound {
    type V = RotPageFoundView;

    open spec fn view(&self) -> RotPageFoundView {
        RotPageFoundView {
            time_collected: self.time_collected,
            source: self.source,
            page: self.page@,
        }
    }
}

/// The role of a sled in the rack.
#[derive(Debug, Clone, Copy, PartialEq, Eq, Structural)]
pub enum SledRole {
    Gimlet,
    Scrimlet,
}

/// The address of a socket.
#[derive(Debug, Clone, Copy, PartialEq, Eq, Structural)]
pub struct SocketAddrV6 {
    pub ip: u128,
    pub port: u16,
    pub flowinfo: u32,
    pub scope_id: u32,
}

/// A sled agent, as it was found.
#[derive(Debug, PartialEq, Eq)]
pub struct SledAgent {
    pub time_collected: Timestamp,
    pub source: String,
    pub sled_id: Uuid,
    pub baseboard_id: Option<BaseboardId>,
    pub sled_agent_address: SocketAddrV6,
    pub sled_role: SledRole,
    pub usable_hardware_threads: u32,
    pub usable_physical_ram: u64,
    pub reservoir_size: u64,
}

/// A sled agent, as it was found.
#[verifier::ext_equal]
pub ghost struct SledAgentView {
    pub time_collected: Timestamp,
    pub source: String,
    pub sled_id: Uuid,
    pub baseboard_id: Option<BaseboardIdView>,
    pub sled_agent_address: SocketAddrV6,
    pub sled_role: SledRole,
    pub usable_hardware_threads: u32,
    pub usable_physical_ram: u64,
    pub reservoir_size: u64,
}

impl View for SledAgent {
    type V = SledAgentView;

    open spec fn view(&self) -> SledAgentView {
        SledAgentView {
            time_collected: self.time_collected,
            source: self.source,
            sled_id: self.sled_id,
            baseboard_id: match self.baseboard_id {
                Some(b) => Some(b@),
                None => None,
            },
            sled_agent_address: self.sled_agent_address,
            sled_role: self.sled_role,
            usable_hardware_threads: self.usable_hardware_threads,
            usable_physical_ram: self.usable_physical_ram,
            reservoir_size: self.reservoir_size,
        }
    }
}

/// The service that a zone runs.
#[derive(Debug, Clone, Copy, PartialEq, Eq, Structural)]
pub enum ZoneType {
    BoundaryNtp,
    Clickhouse,
    ClickhouseKeeper,
    CockroachDb,
    Crucible,
    CruciblePantry,
    ExternalDns,
    InternalDns,
    InternalNtp,
    Nexus,
    Oximeter,
}

/// The network interface of a zone.
#[derive(Debug, PartialEq, Eq)]
pub struct ZoneNic {
    pub id: Uuid,
    pub name: String,
    pub ip: crate::net::IpAddr,
    pub mac: u64,
    pub subnet: String,
    pub vni: u32,
    pub is_primary: bool,
    pub slot: u8,
}

impl Clone for ZoneNic {
    fn clone(&self) -> (r: Self)
        ensures
            r == *self,
    {
        ZoneNic {
            id: self.id,
            name: self.name.clone(),
            ip: self.ip,
            mac: self.mac,
            subnet: self.subnet.clone(),
            vni: self.vni,
            is_primary: self.is_primary,
            slot: self.slot,
        }
    }
}

/// An address and the port of a service.
#[derive(Debug, Clone, Copy, PartialEq, Eq, Structural)]
pub struct ServiceAddress {
    pub ip: crate::net::IpAddr,
    pub port: u16,
}

/// An address and its ports that a zone uses for source NAT.
#[derive(Debug, Clone, Copy, PartialEq, Eq, Structural)]
pub struct SourceNatConfig {
    pub ip: crate::net::IpAddr,
    pub first_port: u16,
    pub last_port: u16,
}

/// What is configured for the service of a zone, as far as the service has it.
#[derive(Debug, PartialEq, Eq)]
pub struct ZoneDetails {
    pub service_address: Option<ServiceAddress>,
    pub dns_address: Option<ServiceAddress>,
    /// The address of the service in the global zone, and its place among such addresses.
    pub gz_address: Option<(u128, u32)>,
    pub ntp_servers: Vec<String>,
    pub dns_servers: Vec<crate::net::IpAddr>,
    pub domain: Option<String>,
    pub external_ip: Option<crate::net::IpAddr>,
    pub external_tls: Option<bool>,
    pub external_dns_servers: Vec<crate::net::IpAddr>,
    pub snat: Option<SourceNatConfig>,
}

/// A zone, as it is configured on a sled.
#[derive(Debug, PartialEq, Eq)]
pub struct OmicronZoneConfig {
    pub id: Uuid,
    pub underlay_address: u128,
    pub zone_type: ZoneType,
    pub dataset: Option<String>,
    pub details: Arc<ZoneDetails>,
    pub nic: Option<ZoneNic>,
}

impl Clone for OmicronZoneConfig {
    fn clone(&self) -> (r: Self)
        ensures
            r == *self,
    {
        OmicronZoneConfig {
            id: self.id,
            underlay_address: self.underlay_address,
            zone_type: self.zone_type,
            dataset: clone_text(&self.dataset),
            details: self.details.clone(),
            nic: match &self.nic {
                Some(nic) => Some(nic.clone()),
                None => None,
            },
        }
    }
}

/// The zones of a sled, as they were found.
#[derive(Debug, PartialEq, Eq)]
pub struct OmicronZonesFound {
    pub time_collected: Timestamp,
    pub source: String,
    pub sled_id: Uuid,
    pub generation: u64,
    pub zones: Vec<OmicronZoneConfig>,
}

/// The zones of a sled, as they were found.
#[verifier::ext_equal]
pub ghost struct OmicronZonesFoundView {
    pub time_collected: Timestamp,
    pub source: String,
    pub sled_id: Uuid,
    pub generation: u64,
    pub zones: Seq<OmicronZoneConfig>,
}

impl View for OmicronZonesFound {
    type V = OmicronZonesFoundView;

    open spec fn view(&self) -> OmicronZonesFoundView {
        OmicronZonesFoundView {
            time_collected: self.time_collected,
            source: self.source,
            sled_id: self.sled_id,
            generation: self.generation,
            zones: self.zones@,
        }
    }
}

/// Everything that was found on a rack in one go.
#[derive(Debug, PartialEq, Eq)]
pub struct Collection {
    pub id: Uuid,
    pub errors: Vec<String>,
    pub time_started: Timestamp,
    pub time_done: Timestamp,
    pub collector: String,
    pub baseboards: OrdMap<BaseboardId, ()>,
    pub cabooses: OrdMap<Caboose, ()>,
    pub rot_pages: OrdMap<RotPage, ()>,
    pub sps: OrdMap<BaseboardId, ServiceProcessor>,
    pub rots: OrdMap<BaseboardId, RotState>,
    pub cabooses_found: OrdMap<CaboosePlace, CabooseFound>,
    pub rot_pages_found: OrdMap<RotPagePlace, RotPageFound>,
    pub sled_agents: OrdMap<Uuid, SledAgent>,
    pub omicron_zones: OrdMap<Uuid, OmicronZonesFound>,
}

/// Everything that was found on a rack in one go.
#[verifier::ext_equal]
pub ghost struct CollectionView {
    pub id: Uuid,
    pub errors: Seq<String>,
    pub time_started: Timestamp,
    pub time_done: Timestamp,
    pub collector: String,
    pub baseboards: Set<BaseboardIdView>,
    pub cabooses: Set<CabooseView>,
    pub rot_pages: Set<Seq<char>>,
    pub sps: Map<BaseboardIdView, ServiceProcessor>,
    pub rots: Map<BaseboardIdView, RotState>,
    pub cabooses_found: Map<PlaceView, CabooseFoundView>,
    pub rot_pages_found: Map<PlaceView, RotPageFoundView>,
    pub sled_agents: Map<Uuid, SledAgentView>,
    pub omicron_zones: Map<Uuid, OmicronZonesFoundView>,
}

impl View for Collection {
    type V = CollectionView;

    open spec fn view(&self) -> CollectionView {
        CollectionView {
            id: self.id,
            errors: self.errors@,
            time_started: self.time_started,
            time_done: self.time_done,
            collector: self.collector,
            baseboards: self.baseboards@.dom(),
            cabooses: self.cabooses@.dom(),
            rot_pages: self.rot_pages@.dom(),
            sps: self.sps@,
            rots: self.rots@,
            cabooses_found: self.cabooses_found@.map_values(|f: CabooseFound| f@),
            rot_pages_found: self.rot_pages_found@.map_values(|f: RotPageFound| f@),
            sled_agents: self.sled_agents@.map_values(|s: SledAgent| s@),
            omicron_zones: self.omicron_zones@.map_values(|z: OmicronZonesFound| z@),
        }
    }
}

} // verus!
