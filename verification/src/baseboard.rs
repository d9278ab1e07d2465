//! The boards of sleds.

use vstd::prelude::*;

use crate::ordmap::Key;
use crate::text::{
    order_of, seq_lt_is_total, str_eq, texts_lt, texts_lt_is_total, texts_lt_is_transitive, Order,
};

verus! {

/// What identifies a sled's board, as the hardware says it.
#[derive(Debug, PartialEq, Eq)]
pub struct Baseboard {
    pub identifier: String,
    pub model: String,
    pub revision: i64,
}

/// What identifies a sled's board, as the hardware says it.
#[verifier::ext_equal]
pub ghost struct BaseboardView {
    pub identifier: Seq<char>,
    pub model: Seq<char>,
    pub revision: i64,
}

impl BaseboardView {
    /// The texts by which boards are ordered first.
    pub open spec fn texts(self) -> Seq<Seq<char>> {
        seq![self.identifier, self.model]
    }
}

impl View for Baseboard {
    type V = BaseboardView;

    open spec fn view(&self) -> BaseboardView {
        BaseboardView {
            identifier: self.identifier@,
            model: self.model@,
            revision: self.revision,
        }
    }
}

impl Clone for Baseboard {
    fn clone(&self) -> (r: Self)
        ensures
            r == *self,
    {
        Baseboard {
            identifier: self.identifier.clone(),
            model: self.model.clone(),
            revision: self.revision,
        }
    }
}

impl Baseboard {
    /// Whether the two are the same board.
    pub fn same(&self, other: &Baseboard) -> (yes: bool)
        ensures
            yes == (self@ == other@),
    {
        str_eq(self.identifier.as_str(), other.identifier.as_str()) && str_eq(
            self.model.as_str(),
            other.model.as_str(),
        ) && self.revision == other.revision
    }
}

impl Key for Baseboard {
    type Id = BaseboardView;

    open spec fn id(&self) -> BaseboardView {
        self@
    }

    open spec fn before(a: BaseboardView, b: BaseboardView) -> bool {
        texts_lt(a.texts(), b.texts()) || (a.texts() == b.texts() && a.revision < b.revision)
    }

    proof fn order_is_total(a: BaseboardView, b: BaseboardView) {
        texts_lt_is_total(a.texts(), b.texts());
        if a.texts() == b.texts() {
            assert(a.texts()[0] == b.texts()[0]);
            assert(a.texts()[1] == b.texts()[1]);
        }
    }

    proof fn order_is_transitive(a: BaseboardView, b: BaseboardView, c: BaseboardView) {
        if texts_lt(a.texts(), b.texts()) && texts_lt(b.texts(), c.texts()) {
            texts_lt_is_transitive(a.texts(), b.texts(), c.texts());
        }
    }

    fn order_against(&self, other: &Baseboard) -> (order: Order) {
        proof {
            let a = self@.texts();
            let b = other@.texts();
            reveal_with_fuel(texts_lt, 3);
            assert(a.drop_first() =~= seq![self@.model]);
            assert(b.drop_first() =~= seq![other@.model]);
            seq_lt_is_total(self@.identifier, other@.identifier);
            seq_lt_is_total(self@.model, other@.model);
            texts_lt_is_total(a, b);
        }
        match order_of(self.identifier.as_str(), other.identifier.as_str()) {
            Order::Equal => match order_of(self.model.as_str(), other.model.as_str()) {
                Order::Equal => if self.revision < other.revision {
                    Order::Less
                } else if self.revision == other.revision {
                    Order::Equal
                } else {
                    Order::Greater
                },
                order => order,
            },
            order => order,
        }
    }
}

} // verus!
