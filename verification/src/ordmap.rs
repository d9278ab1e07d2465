//! Maps whose entries are kept in the order of their keys.

use vstd::prelude::*;

use crate::text::{order_of, seq_lt, seq_lt_is_total, seq_lt_is_transitive, Order};

verus! {

/// A type whose values can be keys of a map: what identifies a value is ordered.
pub trait Key: Sized {
    /// What identifies a value.
    type Id;

    /// What identifies the value.
    spec fn id(&self) -> Self::Id;

    /// The strict order of identities.
    spec fn before(a: Self::Id, b: Self::Id) -> bool;

    /// Of two different identities exactly one comes before the other.
    proof fn order_is_total(a: Self::Id, b: Self::Id)
        ensures
            a == b ==> !Self::before(a, b),
            a != b ==> (Self::before(a, b) <==> !Self::before(b, a)),
    ;

    /// The order is transitive.
    proof fn order_is_transitive(a: Self::Id, b: Self::Id, c: Self::Id)
        requires
            Self::before(a, b),
            Self::before(b, c),
        ensures
            Self::before(a, c),
    ;

    /// Compares two values.
    fn order_against(&self, other: &Self) -> (order: Order)
        ensures
            match order {
                Order::Less => Self::before(self.id(), other.id()),
                Order::Equal => self.id() == other.id(),
                Order::Greater => Self::before(other.id(), self.id()),
            },
    ;
}

impl Key for u128 {
    type Id = u128;

    open spec fn id(&self) -> u128 {
        *self
    }

    open spec fn before(a: u128, b: u128) -> bool {
        a < b
    }

    proof fn order_is_total(a: u128, b: u128) {
    }

    proof fn order_is_transitive(a: u128, b: u128, c: u128) {
    }

    fn order_against(&self, other: &u128) -> (order: Order) {
        if *self < *other {
            Order::Less
        } else if *self > *other {
            Order::Greater
        } else {
            Order::Equal
        }
    }
}

impl Key for String {
    type Id = Seq<char>;

    open spec fn id(&self) -> Seq<char> {
        self@
    }

    open spec fn before(a: Seq<char>, b: Seq<char>) -> bool {
        seq_lt(a, b)
    }

    proof fn order_is_total(a: Seq<char>, b: Seq<char>) {
        seq_lt_is_total(a, b);
    }

    proof fn order_is_transitive(a: Seq<char>, b: Seq<char>, c: Seq<char>) {
        seq_lt_is_transitive(a, b, c);
    }

    fn order_against(&self, other: &String) -> (order: Order) {
        proof {
            seq_lt_is_total(self@, other@);
        }
        order_of(self.as_str(), other.as_str())
    }
}

/// The map that holds these entries, where a later entry replaces an earlier one.
pub open spec fn to_map<I, V>(entries: Seq<(I, V)>) -> Map<I, V>
    decreases entries.len(),
{
    if entries.len() == 0 {
        Map::empty()
    } else {
        to_map(entries.drop_last()).insert(entries.last().0, entries.last().1)
    }
}

/// Entries with distinct keys are the entries of their map.
pub proof fn to_map_of_distinct<I, V>(s: Seq<(I, V)>)
    requires
        forall|i: int, j: int| 0 <= i < j < s.len() ==> (#[trigger] s[i]).0 != (#[trigger] s[j]).0,
    ensures
        forall|i: int|
            0 <= i < s.len() ==> to_map(s).contains_key((#[trigger] s[i]).0) && to_map(s)[s[i].0]
                == s[i].1,
        forall|k: I|
            to_map(s).contains_key(k) ==> exists|i: int| 0 <= i < s.len() && (#[trigger] s[i]).0 == k,
        to_map(s).len() == s.len(),
        to_map(s).dom().finite(),
    decreases s.len(),
{
    if s.len() > 0 {
        let t = s.drop_last();
        to_map_of_distinct(t);
        assert forall|i: int| 0 <= i < s.len() implies to_map(s).contains_key((#[trigger] s[i]).0)
            && to_map(s)[s[i].0] == s[i].1 by {
            if i < t.len() {
                assert(t[i] == s[i]);
                assert(s[i].0 != s[s.len() - 1].0);
            }
        }
        assert forall|k: I| to_map(s).contains_key(k) implies exists|i: int|
            0 <= i < s.len() && (#[trigger] s[i]).0 == k by {
            if k == s.last().0 {
                assert(s[s.len() - 1].0 == k);
            } else {
                let i = choose|i: int| 0 <= i < t.len() && (#[trigger] t[i]).0 == k;
                assert(s[i].0 == k);
            }
        }
        assert(!to_map(t).contains_key(s.last().0)) by {
            if to_map(t).contains_key(s.last().0) {
                let i = choose|i: int| 0 <= i < t.len() && (#[trigger] t[i]).0 == s.last().0;
                assert(s[i].0 == s[s.len() - 1].0);
            }
        }
    }
}

/// One more entry is put into the map last.
pub proof fn to_map_grows<I, V>(entries: Seq<(I, V)>, n: int)
    requires
        0 <= n < entries.len(),
    ensures
        to_map(entries.take(n + 1)) == to_map(entries.take(n)).insert(entries[n].0, entries[n].1),
{
    assert(entries.take(n + 1).drop_last() =~= entries.take(n));
}

/// These are the members of the set, each of them once, in order.
pub open spec fn lists_keys<K: Key>(keys: Seq<K::Id>, set: Set<K::Id>) -> bool {
    &&& forall|i: int, j: int|
        0 <= i < j < keys.len() ==> K::before(#[trigger] keys[i], #[trigger] keys[j])
    &&& forall|i: int| 0 <= i < keys.len() ==> set.contains(#[trigger] keys[i])
    &&& forall|k: K::Id| set.contains(k) ==> keys.contains(k)
    &&& keys.len() == set.len()
    &&& set.finite()
}

/// The members of a set in order.
pub open spec fn in_order<K: Key>(set: Set<K::Id>) -> Seq<K::Id> {
    choose|keys: Seq<K::Id>| lists_keys::<K>(keys, set)
}

/// The entries of a map in the order of their keys.
pub open spec fn entries<K: Key, V>(map: Map<K::Id, V>) -> Seq<(K::Id, V)> {
    in_order::<K>(map.dom()).map_values(|k: K::Id| (k, map[k]))
}

/// The values of a map in the order of their keys.
pub open spec fn values<K: Key, V>(map: Map<K::Id, V>) -> Seq<V> {
    in_order::<K>(map.dom()).map_values(|k: K::Id| map[k])
}

/// There is one way to list a set in order.
pub proof fn order_is_unique<K: Key>(keys: Seq<K::Id>, set: Set<K::Id>)
    requires
        lists_keys::<K>(keys, set),
    ensures
        keys == in_order::<K>(set),
{
    let other = in_order::<K>(set);
    assert(lists_keys::<K>(other, set));
    assert forall|n: int| 0 <= n <= keys.len() implies #[trigger] keys.take(n) == other.take(n) by {
        same_prefix::<K>(keys, other, set, n as nat);
    }
    assert(keys.take(keys.len() as int) =~= keys);
    assert(other.take(keys.len() as int) =~= other);
}

/// The place of a new member in an ordered list.
proof fn slot<K: Key>(keys: Seq<K::Id>, a: K::Id, from: int) -> (p: int)
    requires
        0 <= from <= keys.len(),
        forall|i: int, j: int|
            0 <= i < j < keys.len() ==> K::before(#[trigger] keys[i], #[trigger] keys[j]),
        forall|i: int| 0 <= i < from ==> K::before(#[trigger] keys[i], a),
        forall|i: int| 0 <= i < keys.len() ==> #[trigger] keys[i] != a,
    ensures
        from <= p <= keys.len(),
        forall|i: int| 0 <= i < p ==> K::before(#[trigger] keys[i], a),
        forall|i: int| p <= i < keys.len() ==> K::before(a, #[trigger] keys[i]),
    decreases keys.len() - from,
{
    if from == keys.len() {
        from
    } else {
        K::order_is_total(keys[from], a);
        K::order_is_total(a, keys[from]);
        if K::before(keys[from], a) {
            slot::<K>(keys, a, from + 1)
        } else {
            assert forall|i: int| from <= i < keys.len() implies K::before(a, #[trigger] keys[i]) by {
                if i > from {
                    K::order_is_transitive(a, keys[from], keys[i]);
                }
            }
            from
        }
    }
}

/// A finite set can be listed in order.
pub proof fn order_exists<K: Key>(set: Set<K::Id>)
    requires
        set.finite(),
    ensures
        lists_keys::<K>(in_order::<K>(set), set),
    decreases set.len(),
{
    if set.len() == 0 {
        assert(lists_keys::<K>(Seq::empty(), set)) by {
            assert(set =~= Set::empty());
        }
    } else {
        let a = set.choose();
        let rest = set.remove(a);
        order_exists::<K>(rest);
        let keys = in_order::<K>(rest);
        assert forall|i: int| 0 <= i < keys.len() implies #[trigger] keys[i] != a by {
            assert(rest.contains(keys[i]));
        }
        let p = slot::<K>(keys, a, 0);
        let all = keys.insert(p, a);
        assert forall|i: int, j: int| 0 <= i < j < all.len() implies K::before(
            #[trigger] all[i],
            #[trigger] all[j],
        ) by {
            let i0 = if i < p { i } else { i - 1 };
            let j0 = if j < p { j } else { j - 1 };
            if i != p && j != p {
                assert(all[i] == keys[i0] && all[j] == keys[j0]);
            } else if i == p {
                assert(all[j] == keys[j0]);
            } else {
                assert(all[i] == keys[i0]);
            }
        }
        assert forall|i: int| 0 <= i < all.len() implies set.contains(#[trigger] all[i]) by {
            if i != p {
                let i0 = if i < p { i } else { i - 1 };
                assert(all[i] == keys[i0]);
                assert(rest.contains(keys[i0]));
            }
        }
        assert forall|k: K::Id| set.contains(k) implies all.contains(k) by {
            if k == a {
                assert(all[p] == k);
            } else {
                assert(rest.contains(k));
                let i0 = choose|i: int| 0 <= i < keys.len() && keys[i] == k;
                let i = if i0 < p { i0 } else { i0 + 1 };
                assert(all[i] == k);
            }
        }
        assert(lists_keys::<K>(all, set));
    }
}

/// The entries of a finite map, in order, are its entries, with distinct keys.
pub proof fn entries_of_map<K: Key, V>(map: Map<K::Id, V>)
    requires
        map.dom().finite(),
    ensures
        entries::<K, V>(map).len() == map.len(),
        forall|i: int|
            0 <= i < entries::<K, V>(map).len() ==> map.contains_key(
                (#[trigger] entries::<K, V>(map)[i]).0,
            ) && map[entries::<K, V>(map)[i].0] == entries::<K, V>(map)[i].1,
        forall|k: K::Id| #[trigger]
            map.contains_key(k) ==> exists|i: int|
                0 <= i < entries::<K, V>(map).len() && #[trigger] entries::<K, V>(map)[i] == (
                    k,
                    map[k],
                ),
        forall|i: int, j: int|
            0 <= i < j < entries::<K, V>(map).len() ==> (#[trigger] entries::<K, V>(map)[i]).0 != (
            #[trigger] entries::<K, V>(map)[j]).0,
{
    let keys = in_order::<K>(map.dom());
    let e = entries::<K, V>(map);
    order_exists::<K>(map.dom());
    assert forall|i: int| 0 <= i < e.len() implies map.contains_key((#[trigger] e[i]).0)
        && map[e[i].0] == e[i].1 by {
        assert(map.dom().contains(keys[i]));
    }
    assert forall|k: K::Id| #[trigger] map.contains_key(k) implies exists|i: int|
        0 <= i < e.len() && #[trigger] e[i] == (k, map[k]) by {
        assert(keys.contains(k));
        let i = keys.index_of(k);
        assert(e[i] == (k, map[k]));
    }
    assert forall|i: int, j: int| 0 <= i < j < e.len() implies (#[trigger] e[i]).0 != (
    #[trigger] e[j]).0 by {
        assert(K::before(keys[i], keys[j]));
        K::order_is_total(keys[i], keys[j]);
    }
}

/// The values of a finite map, in order, are its values.
pub proof fn values_of_map<K: Key, V>(map: Map<K::Id, V>)
    requires
        map.dom().finite(),
    ensures
        values::<K, V>(map).len() == map.len(),
        forall|i: int|
            0 <= i < values::<K, V>(map).len() ==> map.contains_value(
                #[trigger] values::<K, V>(map)[i],
            ),
        forall|k: K::Id| #[trigger]
            map.contains_key(k) ==> exists|i: int|
                0 <= i < values::<K, V>(map).len() && #[trigger] values::<K, V>(map)[i] == map[k],
{
    entries_of_map::<K, V>(map);
    let e = entries::<K, V>(map);
    let v = values::<K, V>(map);
    assert forall|i: int| 0 <= i < v.len() implies map.contains_value(#[trigger] v[i]) by {
        assert(map.contains_key(e[i].0) && map[e[i].0] == v[i]);
    }
    assert forall|k: K::Id| #[trigger] map.contains_key(k) implies exists|i: int|
        0 <= i < v.len() && #[trigger] v[i] == map[k] by {
        let i = choose|i: int| 0 <= i < e.len() && #[trigger] e[i] == (k, map[k]);
        assert(v[i] == map[k]);
    }
}

proof fn same_prefix<K: Key>(a: Seq<K::Id>, b: Seq<K::Id>, set: Set<K::Id>, n: nat)
    requires
        lists_keys::<K>(a, set),
        lists_keys::<K>(b, set),
        n <= a.len(),
    ensures
        a.take(n as int) == b.take(n as int),
    decreases n,
{
    if n > 0 {
        same_prefix::<K>(a, b, set, (n - 1) as nat);
        let m = n - 1;
        assert forall|i: int| 0 <= i < m implies a[i] == b[i] by {
            assert(a.take(m)[i] == b.take(m)[i]);
        }
        assert(set.contains(a[m]));
        assert(set.contains(b[m]));
        let i = choose|i: int| 0 <= i < b.len() && b[i] == a[m];
        let j = choose|j: int| 0 <= j < a.len() && a[j] == b[m];
        K::order_is_total(a[m], b[m]);
        K::order_is_total(b[m], a[m]);
        if i < m {
            assert(a[i] == a[m]);
            assert(K::before(a[i], a[m]));
            K::order_is_total(a[m], a[m]);
        }
        if j < m {
            assert(b[j] == b[m]);
            assert(K::before(b[j], b[m]));
            K::order_is_total(b[m], b[m]);
        }
        if a[m] != b[m] {
            assert(K::before(b[m], b[i]));
            assert(K::before(a[m], a[j]));
        }
        assert(a.take(n as int) =~= b.take(n as int));
    }
}

/// A map whose entries are in the order of their keys.
#[derive(Debug, PartialEq, Eq)]
#[verifier::reject_recursive_types(K)]
pub struct OrdMap<K: Key, V> {
    entries: Vec<(K, V)>,
}

spec fn pairs<K: Key, V>(entries: Seq<(K, V)>) -> Seq<(K::Id, V)> {
    entries.map_values(|e: (K, V)| (e.0.id(), e.1))
}

spec fn sorted<K: Key, V>(entries: Seq<(K, V)>) -> bool {
    forall|i: int, j: int|
        0 <= i < j < entries.len() ==> K::before(
            (#[trigger] entries[i]).0.id(),
            (#[trigger] entries[j]).0.id(),
        )
}

spec fn ids<K: Key, V>(entries: Seq<(K, V)>) -> Seq<K::Id> {
    entries.map_values(|e: (K, V)| e.0.id())
}

impl<K: Key, V> View for OrdMap<K, V> {
    type V = Map<K::Id, V>;

    closed spec fn view(&self) -> Map<K::Id, V> {
        to_map(pairs(self.entries@))
    }
}

proof fn sorted_entries<K: Key, V>(e: Seq<(K, V)>)
    requires
        sorted(e),
    ensures
        lists_keys::<K>(ids(e), to_map(pairs(e)).dom()),
        forall|i: int|
            0 <= i < e.len() ==> to_map(pairs(e)).contains_key((#[trigger] e[i]).0.id()) && to_map(
                pairs(e),
            )[e[i].0.id()] == e[i].1,
        forall|k: K::Id|
            to_map(pairs(e)).contains_key(k) ==> exists|i: int|
                0 <= i < e.len() && (#[trigger] e[i]).0.id() == k,
{
    let p = pairs(e);
    assert forall|i: int, j: int| 0 <= i < j < p.len() implies (#[trigger] p[i]).0 != (
    #[trigger] p[j]).0 by {
        assert(K::before(e[i].0.id(), e[j].0.id()));
        K::order_is_total(p[i].0, p[j].0);
    }
    to_map_of_distinct(p);
    assert forall|i: int| 0 <= i < e.len() implies to_map(p).contains_key((#[trigger] e[i]).0.id())
        && to_map(p)[e[i].0.id()] == e[i].1 by {
        assert(p[i] == (e[i].0.id(), e[i].1));
    }
    assert forall|k: K::Id| to_map(p).contains_key(k) implies exists|i: int|
        0 <= i < e.len() && (#[trigger] e[i]).0.id() == k by {
        let i = choose|i: int| 0 <= i < p.len() && (#[trigger] p[i]).0 == k;
        assert(e[i].0.id() == k);
    }
    assert forall|k: K::Id| to_map(p).contains_key(k) implies ids(e).contains(k) by {
        let i = choose|i: int| 0 <= i < e.len() && (#[trigger] e[i]).0.id() == k;
        assert(ids(e)[i] == k);
    }
    assert forall|i: int, j: int| 0 <= i < j < ids(e).len() implies K::before(
        #[trigger] ids(e)[i],
        #[trigger] ids(e)[j],
    ) by {
        assert(K::before(e[i].0.id(), e[j].0.id()));
    }
    assert forall|i: int| 0 <= i < ids(e).len() implies to_map(p).contains_key(
        #[trigger] ids(e)[i],
    ) by {
        assert(to_map(p).contains_key(e[i].0.id()));
    }
}

/// Two sorted lists of entries with the same map differ in nothing.
proof fn map_decides<K: Key, V>(e: Seq<(K, V)>, m: Map<K::Id, V>)
    requires
        sorted(e),
        forall|i: int|
            0 <= i < e.len() ==> m.contains_key((#[trigger] e[i]).0.id()) && m[e[i].0.id()]
                == e[i].1,
        forall|k: K::Id|
            m.contains_key(k) ==> exists|i: int| 0 <= i < e.len() && (#[trigger] e[i]).0.id() == k,
    ensures
        to_map(pairs(e)) == m,
{
    sorted_entries(e);
    let n = to_map(pairs(e));
    assert forall|k: K::Id| n.contains_key(k) <==> m.contains_key(k) by {
        if n.contains_key(k) {
            let i = choose|i: int| 0 <= i < e.len() && (#[trigger] e[i]).0.id() == k;
            assert(m.contains_key(e[i].0.id()));
        }
        if m.contains_key(k) {
            let i = choose|i: int| 0 <= i < e.len() && (#[trigger] e[i]).0.id() == k;
            assert(n.contains_key(e[i].0.id()));
        }
    }
    assert forall|k: K::Id| n.contains_key(k) implies n[k] == m[k] by {
        let i = choose|i: int| 0 <= i < e.len() && (#[trigger] e[i]).0.id() == k;
        assert(n[e[i].0.id()] == e[i].1);
    }
    assert(n =~= m);
}

impl<K: Key, V> OrdMap<K, V> {
    #[verifier::type_invariant]
    spec fn inv(self) -> bool {
        sorted(self.entries@)
    }

    /// The keys in order.
    pub closed spec fn keys(self) -> Seq<K::Id> {
        ids(self.entries@)
    }

    /// An empty map.
    pub fn new() -> (m: Self)
        ensures
            m@ == Map::<K::Id, V>::empty(),
            m.keys().len() == 0,
    {
        OrdMap { entries: Vec::new() }
    }

    /// The number of entries.
    pub fn len(&self) -> (n: usize)
        ensures
            n == self@.len(),
            n == self.keys().len(),
            lists_keys::<K>(self.keys(), self@.dom()),
            self.keys() == in_order::<K>(self@.dom()),
    {
        proof {
            use_type_invariant(self);
            sorted_entries(self.entries@);
            order_is_unique::<K>(self.keys(), self@.dom());
        }
        self.entries.len()
    }

    /// The key at a place in the order.
    pub fn key_at(&self, i: usize) -> (k: &K)
        requires
            i < self.keys().len(),
        ensures
            k.id() == self.keys()[i as int],
            self@.contains_key(k.id()),
    {
        proof {
            use_type_invariant(self);
            sorted_entries(self.entries@);
        }
        &self.entries[i].0
    }

    /// The value at a place in the order.
    pub fn value_at(&self, i: usize) -> (v: &V)
        requires
            i < self.keys().len(),
        ensures
            self@.contains_key(self.keys()[i as int]),
            *v == self@[self.keys()[i as int]],
    {
        proof {
            use_type_invariant(self);
            sorted_entries(self.entries@);
            assert(self.keys()[i as int] == self.entries@[i as int].0.id());
        }
        &self.entries[i].1
    }

    /// The place of a key, or the place where it belongs.
    fn position(&self, key: &K) -> (r: (usize, bool))
        requires
            sorted(self.entries@),
        ensures
            r.0 <= self.entries@.len(),
            r.1 ==> r.0 < self.entries@.len() && self.entries@[r.0 as int].0.id() == key.id(),
            forall|i: int|
                0 <= i < r.0 ==> K::before((#[trigger] self.entries@[i]).0.id(), key.id()),
            !r.1 ==> forall|i: int|
                r.0 <= i < self.entries@.len() ==> K::before(
                    key.id(),
                    (#[trigger] self.entries@[i]).0.id(),
                ),
    {
        let mut i: usize = 0;
        while i < self.entries.len()
            invariant
                i <= self.entries@.len(),
                sorted(self.entries@),
                forall|k: int|
                    0 <= k < i ==> K::before((#[trigger] self.entries@[k]).0.id(), key.id()),
            decreases self.entries@.len() - i,
        {
            match self.entries[i].0.order_against(key) {
                Order::Less => {},
                Order::Equal => {
                    return (i, true);
                },
                Order::Greater => {
                    proof {
                        assert forall|k: int| i <= k < self.entries@.len() implies K::before(
                            key.id(),
                            (#[trigger] self.entries@[k]).0.id(),
                        ) by {
                            if k > i {
                                K::order_is_transitive(
                                    key.id(),
                                    self.entries@[i as int].0.id(),
                                    self.entries@[k].0.id(),
                                );
                            }
                        }
                    }
                    return (i, false);
                },
            }
            i = i + 1;
        }
        (i, false)
    }

    proof fn absent(e: Seq<(K, V)>, at: int, id: K::Id)
        requires
            sorted(e),
            0 <= at <= e.len(),
            forall|i: int| 0 <= i < at ==> K::before((#[trigger] e[i]).0.id(), id),
            forall|i: int| at <= i < e.len() ==> K::before(id, (#[trigger] e[i]).0.id()),
        ensures
            !to_map(pairs(e)).contains_key(id),
    {
        sorted_entries(e);
        if to_map(pairs(e)).contains_key(id) {
            let i = choose|i: int| 0 <= i < e.len() && (#[trigger] e[i]).0.id() == id;
            K::order_is_total(id, id);
            if i < at {
                assert(K::before(e[i].0.id(), id));
            } else {
                assert(K::before(id, e[i].0.id()));
            }
        }
    }

    /// The value of a key.
    pub fn get(&self, key: &K) -> (v: Option<&V>)
        ensures
            match v {
                Some(v) => self@.contains_key(key.id()) && self@[key.id()] == *v,
                None => !self@.contains_key(key.id()),
            },
    {
        proof {
            use_type_invariant(self);
            sorted_entries(self.entries@);
        }
        let (i, found) = self.position(key);
        if found {
            Some(&self.entries[i].1)
        } else {
            proof {
                Self::absent(self.entries@, i as int, key.id());
            }
            None
        }
    }

    /// Whether there is an entry for a key.
    pub fn contains_key(&self, key: &K) -> (yes: bool)
        ensures
            yes == self@.contains_key(key.id()),
    {
        self.get(key).is_some()
    }

    /// Puts a value in place of the one that the key had, if it had one.
    pub fn insert(&mut self, key: K, value: V) -> (old_value: Option<V>)
        ensures
            final(self)@ == old(self)@.insert(key.id(), value),
            match old_value {
                Some(v) => old(self)@.contains_key(key.id()) && old(self)@[key.id()] == v,
                None => !old(self)@.contains_key(key.id()),
            },
    {
        proof {
            use_type_invariant(&*self);
            sorted_entries(self.entries@);
        }
        let (i, found) = self.position(&key);
        let mut entries: Vec<(K, V)> = Vec::new();
        std::mem::swap(&mut entries, &mut self.entries);
        let ghost before = entries@;
        let ghost target = to_map(pairs(before)).insert(key.id(), value);
        let old_value = if found {
            let (k, v) = entries.remove(i);
            entries.insert(i, (k, value));
            proof {
                assert(entries@ =~= before.update(i as int, (k, value)));
                assert(sorted(entries@)) by {
                    assert forall|a: int, b: int| 0 <= a < b < entries@.len() implies K::before(
                        (#[trigger] entries@[a]).0.id(),
                        (#[trigger] entries@[b]).0.id(),
                    ) by {
                        assert(K::before(before[a].0.id(), before[b].0.id()));
                    }
                }
                assert forall|a: int| 0 <= a < entries@.len() implies target.contains_key(
                    (#[trigger] entries@[a]).0.id(),
                ) && target[entries@[a].0.id()] == entries@[a].1 by {
                    assert(to_map(pairs(before)).contains_key(before[a].0.id()));
                    if a != i {
                        if a < i {
                            assert(K::before(before[a].0.id(), before[i as int].0.id()));
                        } else {
                            assert(K::before(before[i as int].0.id(), before[a].0.id()));
                        }
                        K::order_is_total(before[a].0.id(), key.id());
                        K::order_is_total(key.id(), before[a].0.id());
                    }
                }
                assert forall|k: K::Id| target.contains_key(k) implies exists|a: int|
                    0 <= a < entries@.len() && (#[trigger] entries@[a]).0.id() == k by {
                    if k == key.id() {
                        assert(entries@[i as int].0.id() == k);
                    } else {
                        let a = choose|a: int|
                            0 <= a < before.len() && (#[trigger] before[a]).0.id() == k;
                        assert(entries@[a].0.id() == k);
                    }
                }
                map_decides(entries@, target);
            }
            Some(v)
        } else {
            proof {
                Self::absent(before, i as int, key.id());
            }
            entries.insert(i, (key, value));
            proof {
                let e = entries@;
                assert(e =~= before.insert(i as int, (key, value)));
                assert(sorted(e)) by {
                    assert forall|a: int, b: int| 0 <= a < b < e.len() implies K::before(
                        (#[trigger] e[a]).0.id(),
                        (#[trigger] e[b]).0.id(),
                    ) by {
                        let a0 = if a < i { a } else { a - 1 };
                        let b0 = if b < i { b } else { b - 1 };
                        if a != i && b != i {
                            assert(e[a] == before[a0] && e[b] == before[b0]);
                        } else if a == i {
                            assert(e[b] == before[b0]);
                        } else {
                            assert(e[a] == before[a0]);
                        }
                    }
                }
                assert forall|a: int| 0 <= a < e.len() implies target.contains_key(
                    (#[trigger] e[a]).0.id(),
                ) && target[e[a].0.id()] == e[a].1 by {
                    if a != i {
                        let a0 = if a < i { a } else { a - 1 };
                        assert(e[a] == before[a0]);
                        assert(to_map(pairs(before)).contains_key(before[a0].0.id()));
                    }
                }
                assert forall|k: K::Id| target.contains_key(k) implies exists|a: int|
                    0 <= a < e.len() && (#[trigger] e[a]).0.id() == k by {
                    if k == key.id() {
                        assert(e[i as int].0.id() == k);
                    } else {
                        let a0 = choose|a: int|
                            0 <= a < before.len() && (#[trigger] before[a]).0.id() == k;
                        let a = if a0 < i { a0 } else { a0 + 1 };
                        assert(e[a] == before[a0]);
                    }
                }
                map_decides(e, target);
            }
            None
        };
        self.entries = entries;
        old_value
    }

    /// Takes the entry of a key out.
    pub fn remove(&mut self, key: &K) -> (value: Option<V>)
        ensures
            final(self)@ == old(self)@.remove(key.id()),
            match value {
                Some(v) => old(self)@.contains_key(key.id()) && old(self)@[key.id()] == v,
                None => !old(self)@.contains_key(key.id()),
            },
    {
        proof {
            use_type_invariant(&*self);
            sorted_entries(self.entries@);
        }
        let (i, found) = self.position(key);
        if !found {
            proof {
                Self::absent(self.entries@, i as int, key.id());
                assert(self@.remove(key.id()) =~= self@);
            }
            return None;
        }
        let mut entries: Vec<(K, V)> = Vec::new();
        std::mem::swap(&mut entries, &mut self.entries);
        let ghost before = entries@;
        let (k, v) = entries.remove(i);
        proof {
            let e = entries@;
            let target = to_map(pairs(before)).remove(key.id());
            assert(e =~= before.remove(i as int));
            assert(sorted(e)) by {
                assert forall|a: int, b: int| 0 <= a < b < e.len() implies K::before(
                    (#[trigger] e[a]).0.id(),
                    (#[trigger] e[b]).0.id(),
                ) by {
                    let a0 = if a < i { a } else { a + 1 };
                    let b0 = if b < i { b } else { b + 1 };
                    assert(e[a] == before[a0] && e[b] == before[b0]);
                }
            }
            assert forall|a: int| 0 <= a < e.len() implies target.contains_key(
                (#[trigger] e[a]).0.id(),
            ) && target[e[a].0.id()] == e[a].1 by {
                let a0 = if a < i { a } else { a + 1 };
                assert(e[a] == before[a0]);
                assert(to_map(pairs(before)).contains_key(before[a0].0.id()));
                if a0 < i {
                    assert(K::before(before[a0].0.id(), before[i as int].0.id()));
                } else {
                    assert(K::before(before[i as int].0.id(), before[a0].0.id()));
                }
                K::order_is_total(before[a0].0.id(), key.id());
                K::order_is_total(key.id(), before[a0].0.id());
            }
            assert forall|k: K::Id| target.contains_key(k) implies exists|a: int|
                0 <= a < e.len() && (#[trigger] e[a]).0.id() == k by {
                let a0 = choose|a: int| 0 <= a < before.len() && (#[trigger] before[a]).0.id() == k;
                let a = if a0 < i { a0 } else { a0 - 1 };
                assert(e[a] == before[a0]);
            }
            map_decides(e, target);
        }
        self.entries = entries;
        Some(v)
    }
}

} // verus!
