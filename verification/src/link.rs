//! Data links, and how virtual ones are named.

use vstd::prelude::*;

use crate::text::{decimal, decimal_of, digit_char, has_prefix, joined, starts_with};

verus! {

/// How the names of virtual links begin that the sled agent manages.
pub open spec fn vnic_prefix() -> Seq<char> {
    "ox"@
}

/// How the names of virtual links begin that belong to guests.
pub open spec fn vnic_prefix_guest() -> Seq<char> {
    "vopte"@
}

/// How the names of virtual links begin that the bootstrap agent uses.
pub open spec fn vnic_prefix_bootstrap() -> Seq<char> {
    "oxBootstrap"@
}

/// What a link is for.
#[derive(Debug, Clone, Copy, PartialEq, Eq, Structural)]
pub enum LinkKind {
    Physical,
    OxideControlVnic,
    GuestVnic,
    OxideBootstrapVnic,
}

/// The kind of a virtual link with this name, if the sled agent can manage it.
pub open spec fn kind_of(name: Seq<char>) -> Option<LinkKind> {
    if has_prefix(name, vnic_prefix()) {
        Some(LinkKind::OxideControlVnic)
    } else if has_prefix(name, vnic_prefix_guest()) {
        Some(LinkKind::GuestVnic)
    } else if has_prefix(name, vnic_prefix_bootstrap()) {
        Some(LinkKind::OxideBootstrapVnic)
    } else {
        None
    }
}

impl LinkKind {
    /// The kind of a virtual link with this name, if the sled agent can manage it.
    pub fn from_name(name: &str) -> (kind: Option<LinkKind>)
        ensures
            kind == kind_of(name@),
    {
        if starts_with(name, "ox") {
            Some(LinkKind::OxideControlVnic)
        } else if starts_with(name, "vopte") {
            Some(LinkKind::GuestVnic)
        } else if starts_with(name, "oxBootstrap") {
            Some(LinkKind::OxideBootstrapVnic)
        } else {
            None
        }
    }
}

/// The name is not that of a link that the sled agent can manage.
#[derive(Debug, PartialEq, Eq)]
pub struct InvalidLinkKind(pub String);

impl InvalidLinkKind {
    /// What is said of the error.
    pub fn message(&self) -> (s: String)
        ensures
            s@ == "VNIC with name '"@ + self.0@ + "' is not valid for sled agent management"@,
    {
        let mut s = joined("VNIC with name '", self.0.as_str());
        s.append("' is not valid for sled agent management");
        s
    }
}

/// A link that has been allocated.
#[derive(Debug, PartialEq, Eq)]
pub struct Link {
    pub name: String,
    pub deleted: bool,
    pub kind: LinkKind,
    /// Whether the link is removed when it goes out of scope.
    pub destroyed_on_drop: bool,
}

impl Link {
    /// A physical link. The caller has to know that it is one.
    pub fn wrap_physical(name: &str) -> (link: Link)
        ensures
            link.name@ == name@,
            !link.deleted,
            link.kind == LinkKind::Physical,
            !link.destroyed_on_drop,
    {
        Link {
            name: name.to_owned(),
            deleted: false,
            kind: LinkKind::Physical,
            destroyed_on_drop: false,
        }
    }

    /// The name of the virtual link that has to be deleted so that this one is: none where it was
    /// deleted before, or is physical.
    pub fn delete(&self) -> (name: Option<&str>)
        ensures
            match name {
                Some(name) => !self.deleted && self.kind != LinkKind::Physical && name@
                    == self.name@,
                None => self.deleted || self.kind == LinkKind::Physical,
            },
    {
        if self.deleted || self.kind == LinkKind::Physical {
            None
        } else {
            Some(self.name.as_str())
        }
    }

    /// Takes in that the virtual link was deleted.
    pub fn mark_deleted(&mut self)
        ensures
            final(self).deleted,
            final(self).name == old(self).name,
            final(self).kind == old(self).kind,
            final(self).destroyed_on_drop == old(self).destroyed_on_drop,
    {
        self.deleted = true;
    }

    /// The name of the virtual link that has to be destroyed when this one goes out of scope.
    pub fn destruction(&self) -> (name: Option<&str>)
        ensures
            match name {
                Some(name) => self.destroyed_on_drop && name@ == self.name@,
                None => !self.destroyed_on_drop,
            },
    {
        if self.destroyed_on_drop {
            Some(self.name.as_str())
        } else {
            None
        }
    }

    /// The name of the link.
    pub fn name(&self) -> (name: &str)
        ensures
            name@ == self.name@,
    {
        self.name.as_str()
    }

    /// What the link is for.
    pub fn kind(&self) -> (kind: LinkKind)
        ensures
            kind == self.kind,
    {
        self.kind
    }
}

/// A virtual link that has to be created.
pub struct VnicRequest {
    pub name: String,
    pub mac: Option<macaddr::MacAddr6>,
    pub mtu: u16,
    pub kind: LinkKind,
}

impl VnicRequest {
    /// The link, once it was created.
    pub fn created(self) -> (link: Link)
        ensures
            link == (Link {
                name: self.name,
                deleted: false,
                kind: self.kind,
                destroyed_on_drop: true,
            }),
    {
        Link { name: self.name, deleted: false, kind: self.kind, destroyed_on_drop: true }
    }
}

/// The numbers that allocators draw. All allocators that come of one share it: its copies, and those
/// for the scopes around it.
pub struct VnicCounter {
    value: u64,
    taken: Ghost<nat>,
}

impl VnicCounter {
    #[verifier::type_invariant]
    spec fn counts(self) -> bool {
        self.value == self.taken@ % 0x1_0000_0000_0000_0000
    }

    /// How many numbers were drawn before.
    pub closed spec fn taken(self) -> nat {
        self.taken@
    }

    /// A counter of which no number was drawn.
    fn new() -> (c: VnicCounter)
        ensures
            c.taken() == 0,
    {
        VnicCounter { value: 0, taken: Ghost(0) }
    }

    /// Draws a number: the one that says how many were drawn before. After the last comes the first.
    fn draw(&mut self) -> (id: u64)
        ensures
            id == number_of(old(self).taken()),
            final(self).taken() == old(self).taken() + 1,
    {
        proof {
            use_type_invariant(&*self);
        }
        let id = self.value;
        let ghost taken = self.taken@;
        let value = if id == u64::MAX {
            0
        } else {
            id + 1
        };
        assert(value == (taken + 1) % 0x1_0000_0000_0000_0000);
        *self = VnicCounter { value, taken: Ghost(taken + 1) };
        id
    }
}

/// The number that is drawn after this many.
pub open spec fn number_of(taken: nat) -> u64 {
    (taken % 0x1_0000_0000_0000_0000) as u64
}

/// Gives names to virtual links over a data link. All of them differ, within a scope.
pub struct VnicAllocator<DL> {
    pub scope: String,
    pub data_link: DL,
}

/// The name of a virtual link with a number, in a scope.
pub open spec fn vnic_name(scope: Seq<char>, id: u64) -> Seq<char> {
    vnic_prefix() + scope + decimal(id as nat)
}

impl<DL: Clone> Clone for VnicAllocator<DL> {
    fn clone(&self) -> (a: Self)
        ensures
            a.scope == self.scope,
            cloned(self.data_link, a.data_link),
    {
        VnicAllocator { scope: self.scope.clone(), data_link: self.data_link.clone() }
    }
}

impl<DL> VnicAllocator<DL> {
    /// An allocator for a scope, and the counter that it draws from. Scopes are there to keep the names
    /// of different allocators apart.
    pub fn new(scope: &str, data_link: DL) -> (r: (Self, VnicCounter))
        ensures
            r.0.scope@ == scope@,
            r.0.data_link == data_link,
            r.1.taken() == 0,
    {
        (VnicAllocator { scope: scope.to_owned(), data_link }, VnicCounter::new())
    }

    /// The virtual link with which an instance talks to the control plane.
    pub fn new_control(&self, counter: &mut VnicCounter, mac: Option<macaddr::MacAddr6>) -> (request:
        VnicRequest)
        ensures
            request.name@ == vnic_name("Control"@ + self.scope@, number_of(old(counter).taken())),
            has_prefix(request.name@, vnic_prefix()),
            has_prefix(request.name@, "oxControl"@),
            kind_of(request.name@) == Some(request.kind),
            request.mac == mac,
            request.mtu == 9000,
            request.kind == LinkKind::OxideControlVnic,
            final(counter).taken() == old(counter).taken() + 1,
    {
        let id = self.next_id(counter);
        let scope = joined("Control", self.scope.as_str());
        let name = name_in(scope.as_str(), id);
        proof {
            reveal_strlit("ox");
            reveal_strlit("Control");
            reveal_strlit("oxControl");
            assert(name@.take(2) =~= "ox"@);
            assert(name@.take(9) =~= "oxControl"@);
        }
        VnicRequest { name, mac, mtu: 9000, kind: LinkKind::OxideControlVnic }
    }

    /// Takes over a virtual link that exists.
    pub fn wrap_existing(&self, name: &str) -> (r: Result<Link, InvalidLinkKind>)
        ensures
            match (kind_of(name@), r) {
                (Some(kind), Ok(link)) => link.name@ == name@ && !link.deleted && link.kind == kind
                    && link.destroyed_on_drop,
                (None, Err(e)) => e.0@ == name@,
                _ => false,
            },
    {
        match LinkKind::from_name(name) {
            Some(kind) => Ok(
                Link { name: name.to_owned(), deleted: false, kind, destroyed_on_drop: true },
            ),
            None => Err(InvalidLinkKind(name.to_owned())),
        }
    }

    /// The allocator for a scope around this one. It draws from the same counter.
    pub fn new_superscope(&self, scope: &str) -> (a: Self) where DL: Clone
        ensures
            a.scope@ == scope@ + self.scope@,
            cloned(self.data_link, a.data_link),
    {
        VnicAllocator {
            scope: joined(scope, self.scope.as_str()),
            data_link: self.data_link.clone(),
        }
    }

    /// The virtual link that the bootstrap agent uses.
    pub fn new_bootstrap(&self, counter: &mut VnicCounter) -> (request: VnicRequest)
        ensures
            request.name@ == vnic_name(self.scope@, number_of(old(counter).taken())),
            request.mac is None,
            request.mtu == 1500,
            request.kind == LinkKind::OxideBootstrapVnic,
            final(counter).taken() == old(counter).taken() + 1,
    {
        let name = self.next(counter);
        VnicRequest { name, mac: None, mtu: 1500, kind: LinkKind::OxideBootstrapVnic }
    }

    /// A new name, which is unique within the scope.
    pub fn next(&self, counter: &mut VnicCounter) -> (name: String)
        ensures
            name@ == vnic_name(self.scope@, number_of(old(counter).taken())),
            final(counter).taken() == old(counter).taken() + 1,
    {
        let id = self.next_id(counter);
        name_in(self.scope.as_str(), id)
    }

    /// A new number.
    pub fn next_id(&self, counter: &mut VnicCounter) -> (id: u64)
        ensures
            id == number_of(old(counter).taken()),
            old(counter).taken() <= u64::MAX ==> id == old(counter).taken(),
            final(counter).taken() == old(counter).taken() + 1,
    {
        counter.draw()
    }
}

fn name_in(scope: &str, id: u64) -> (name: String)
    ensures
        name@ == vnic_name(scope@, id),
{
    let mut name = joined("ox", scope);
    name.append(decimal_of(id).as_str());
    name
}

/// A scope that does not end in a digit.
pub open spec fn ends_in_no_digit(scope: Seq<char>) -> bool {
    scope.len() > 0 ==> !('0' <= scope.last() <= '9')
}

/// The names that are given when a new counter is drawn from for each of these scopes, one after the
/// other: those of an allocator, of its copies, and of the scopes around it.
pub open spec fn names_given(scopes: Seq<Seq<char>>) -> Seq<Seq<char>> {
    Seq::new(scopes.len(), |i: int| vnic_name(scopes[i], number_of(i as nat)))
}

/// Numbers drawn from one counter never repeat, as long as there are numbers left.
pub proof fn numbers_never_repeat(a: nat, b: nat)
    requires
        a < b <= u64::MAX,
    ensures
        number_of(a) == a,
        number_of(a) != number_of(b),
{
}

/// Names drawn from one counter never repeat, as long as there are numbers left: neither within a
/// scope, nor among scopes that do not end in a digit. The scope around another ends as that does.
pub proof fn names_never_repeat(scopes: Seq<Seq<char>>, i: int, j: int)
    requires
        0 <= i < j < scopes.len() <= 0x1_0000_0000_0000_0000,
        scopes[i] == scopes[j] || (ends_in_no_digit(scopes[i]) && ends_in_no_digit(scopes[j])),
    ensures
        names_given(scopes)[i] != names_given(scopes)[j],
{
    let a = number_of(i as nat);
    let b = number_of(j as nat);
    numbers_never_repeat(i as nat, j as nat);
    if scopes[i] == scopes[j] {
        names_are_unique(scopes[i], a, b);
    } else {
        let p = vnic_prefix() + scopes[i];
        let q = vnic_prefix() + scopes[j];
        let x = vnic_name(scopes[i], a);
        let y = vnic_name(scopes[j], b);
        reveal_strlit("ox");
        assert(!('0' <= p.last() <= '9'));
        assert(!('0' <= q.last() <= '9'));
        decimal_len(a as nat);
        decimal_len(b as nat);
        assert(x.len() == p.len() + decimal(a as nat).len());
        assert(y.len() == q.len() + decimal(b as nat).len());
        if x == y {
            if p.len() == q.len() {
                assert(p =~= x.take(p.len() as int));
                assert(q =~= y.take(q.len() as int));
                assert(scopes[i] =~= p.skip(2));
                assert(scopes[j] =~= q.skip(2));
            } else if p.len() < q.len() {
                decimal_has_digits(a as nat, q.len() - 1 - p.len());
                assert(x[q.len() - 1] == decimal(a as nat)[q.len() - 1 - p.len()]);
                assert(y[q.len() - 1] == q.last());
            } else {
                decimal_has_digits(b as nat, p.len() - 1 - q.len());
                assert(y[p.len() - 1] == decimal(b as nat)[p.len() - 1 - q.len()]);
                assert(x[p.len() - 1] == p.last());
            }
        }
    }
}

proof fn decimal_has_digits(n: nat, k: int)
    requires
        0 <= k < decimal(n).len(),
    ensures
        '0' <= decimal(n)[k] <= '9',
    decreases n,
{
    if n >= 10 {
        assert(decimal(n).drop_last() =~= decimal(n / 10));
        if k < decimal(n).len() - 1 {
            decimal_has_digits(n / 10, k);
            assert(decimal(n)[k] == decimal(n / 10)[k]);
        }
    }
}

/// Names with different numbers differ, within a scope.
pub proof fn names_are_unique(scope: Seq<char>, a: u64, b: u64)
    requires
        a != b,
    ensures
        vnic_name(scope, a) != vnic_name(scope, b),
{
    let p = vnic_prefix() + scope;
    if vnic_name(scope, a) == vnic_name(scope, b) {
        assert(vnic_name(scope, a).skip(p.len() as int) =~= decimal(a as nat));
        assert(vnic_name(scope, b).skip(p.len() as int) =~= decimal(b as nat));
        decimal_is_injective(a as nat, b as nat);
    }
}

/// Numbers whose decimals are the same are the same.
pub proof fn decimal_is_injective(a: nat, b: nat)
    requires
        decimal(a) == decimal(b),
    ensures
        a == b,
    decreases a,
{
    decimal_len(a);
    decimal_len(b);
    let x = decimal(a);
    let y = decimal(b);
    assert(x.last() == digit_char((a % 10) as int));
    assert(y.last() == digit_char((b % 10) as int));
    assert(a % 10 == b % 10);
    if a >= 10 && b >= 10 {
        assert(x.drop_last() =~= decimal(a / 10));
        assert(y.drop_last() =~= decimal(b / 10));
        decimal_is_injective(a / 10, b / 10);
    } else if a >= 10 {
        decimal_len(a / 10);
    } else if b >= 10 {
        decimal_len(b / 10);
    }
}

proof fn decimal_len(n: nat)
    ensures
        decimal(n).len() >= 1,
    decreases n,
{
    if n >= 10 {
        decimal_len(n / 10);
    }
}

/// The number of characters that are no digits.
spec fn non_digits(s: Seq<char>) -> nat
    decreases s.len(),
{
    if s.len() == 0 {
        0
    } else {
        non_digits(s.drop_last()) + if '0' <= s.last() <= '9' {
            0nat
        } else {
            1nat
        }
    }
}

proof fn non_digits_add_up(a: Seq<char>, b: Seq<char>)
    ensures
        non_digits(a + b) == non_digits(a) + non_digits(b),
    decreases b.len(),
{
    if b.len() == 0 {
        assert(a + b =~= a);
    } else {
        assert((a + b).drop_last() =~= a + b.drop_last());
        non_digits_add_up(a, b.drop_last());
    }
}

proof fn decimals_are_digits(n: nat)
    ensures
        non_digits(decimal(n)) == 0,
    decreases n,
{
    reveal_with_fuel(non_digits, 2);
    if n >= 10 {
        decimals_are_digits(n / 10);
        assert(decimal(n).drop_last() =~= decimal(n / 10));
    }
}

/// The names of control links differ from the other names that the same allocator gives.
pub proof fn control_names_are_apart(scope: Seq<char>, a: u64, b: u64)
    ensures
        vnic_name("Control"@ + scope, a) != vnic_name(scope, b),
{
    let p = vnic_prefix();
    let c = "Control"@;
    decimals_are_digits(a as nat);
    decimals_are_digits(b as nat);
    non_digits_add_up(c, scope);
    non_digits_add_up(p, c + scope);
    non_digits_add_up(p, scope);
    non_digits_add_up(p + (c + scope), decimal(a as nat));
    non_digits_add_up(p + scope, decimal(b as nat));
    reveal_strlit("Control");
    assert(c.last() == 'l');
    assert(non_digits(c) >= 1);
}

/// The sled agent manages the links whose names begin with `ox`, as those of the control plane, and
/// those whose names begin with `vopte`, as those of guests, and no others.
pub proof fn links_are_told_apart_by_name(name: Seq<char>, rest: Seq<char>)
    ensures
        kind_of("ox"@ + rest) == Some(LinkKind::OxideControlVnic),
        kind_of("vopte"@ + rest) == Some(LinkKind::GuestVnic),
        match kind_of(name) {
            Some(LinkKind::OxideControlVnic) => name == "ox"@ + name.skip(2),
            Some(LinkKind::GuestVnic) => name == "vopte"@ + name.skip(5),
            Some(_) => false,
            None => name != "ox"@ + rest && name != "vopte"@ + rest,
        },
{
    reveal_strlit("ox");
    reveal_strlit("vopte");
    reveal_strlit("oxBootstrap");
    assert(("ox"@ + rest).take(2) =~= "ox"@);
    assert(("vopte"@ + rest).take(5) =~= "vopte"@);
    assert(("vopte"@ + rest).take(2)[0] == 'v');
    assert("ox"@[0] == 'o');
    if has_prefix(name, "ox"@) {
        assert(name =~= "ox"@ + name.skip(2));
    } else if has_prefix(name, "vopte"@) {
        assert(name =~= "vopte"@ + name.skip(5));
    } else if has_prefix(name, "oxBootstrap"@) {
        assert(name.take(2) =~= name.take(11).take(2));
        assert(name.take(2) =~= "ox"@);
    }
}

/// The name of a virtual link begins with `ox`, then tells its scope, and ends with its number.
pub proof fn names_tell_scope_and_number(scope: Seq<char>, id: u64)
    ensures
        vnic_name(scope, id) == "ox"@ + scope + decimal(id as nat),
        kind_of(vnic_name(scope, id)) == Some(LinkKind::OxideControlVnic),
{
    reveal_strlit("ox");
    assert(vnic_name(scope, id).take(2) =~= "ox"@);
}

} // verus!
