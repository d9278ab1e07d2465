//! The leaves of an OxQL syntax tree.

use vstd::prelude::*;

use crate::ids::Uuid;
use crate::net::IpAddr;
use crate::text::Order;
use crate::time::Timestamp;

verus! {

/// The name of a field or of a column.
#[derive(Debug, PartialEq, Eq)]
pub struct Ident(pub String);

impl Ident {
    /// The name itself.
    pub fn as_str(&self) -> (s: &str)
        ensures
            s@ == self.0@,
    {
        self.0.as_str()
    }
}

impl Clone for Ident {
    fn clone(&self) -> (r: Self)
        ensures
            r == *self,
    {
        Ident(self.0.clone())
    }
}

/// A comparison operator.
#[derive(Debug, Clone, Copy, PartialEq, Eq, Structural)]
pub enum Comparison {
    Eq,
    Ne,
    Gt,
    Ge,
    Lt,
    Le,
    /// Matching against a regular expression.
    Like,
}

impl Comparison {
    /// What the operator says of a left side that is ordered so against the right side.
    pub open spec fn accepts(self, order: Order) -> bool {
        match self {
            Comparison::Eq => order == Order::Equal,
            Comparison::Ne => order != Order::Equal,
            Comparison::Gt => order == Order::Greater,
            Comparison::Ge => order != Order::Less,
            Comparison::Lt => order == Order::Less,
            Comparison::Le => order != Order::Greater,
            Comparison::Like => false,
        }
    }

    /// Applies the operator to an order.
    pub fn applies(self, order: Order) -> (yes: bool)
        ensures
            yes == self.accepts(order),
    {
        match self {
            Comparison::Eq => order == Order::Equal,
            Comparison::Ne => order != Order::Equal,
            Comparison::Gt => order == Order::Greater,
            Comparison::Ge => order != Order::Less,
            Comparison::Lt => order == Order::Less,
            Comparison::Le => order != Order::Greater,
            Comparison::Like => false,
        }
    }

    /// The database function that computes the comparison.
    pub open spec fn db_function(self) -> Seq<char> {
        match self {
            Comparison::Eq => "equals"@,
            Comparison::Ne => "notEquals"@,
            Comparison::Gt => "greater"@,
            Comparison::Ge => "greaterOrEquals"@,
            Comparison::Lt => "less"@,
            Comparison::Le => "lessOrEquals"@,
            Comparison::Like => "match"@,
        }
    }

    /// The name of the database function that computes the comparison.
    pub fn as_db_function_name(self) -> (name: &'static str)
        ensures
            name@ == self.db_function(),
    {
        match self {
            Comparison::Eq => "equals",
            Comparison::Ne => "notEquals",
            Comparison::Gt => "greater",
            Comparison::Ge => "greaterOrEquals",
            Comparison::Lt => "less",
            Comparison::Le => "lessOrEquals",
            Comparison::Like => "match",
        }
    }
}

/// A logical operator.
#[derive(Debug, Clone, Copy, PartialEq, Eq, Structural)]
pub enum LogicalOp {
    And,
    Or,
}

impl LogicalOp {
    /// The operator on two truth values.
    pub open spec fn combine(self, left: bool, right: bool) -> bool {
        match self {
            LogicalOp::And => left && right,
            LogicalOp::Or => left || right,
        }
    }

    /// Applies the operator.
    pub fn apply(self, left: bool, right: bool) -> (r: bool)
        ensures
            r == self.combine(left, right),
    {
        match self {
            LogicalOp::And => left && right,
            LogicalOp::Or => left || right,
        }
    }
}

/// A double-precision number, by its IEEE 754 bits.
#[derive(Debug, Clone, Copy, PartialEq, Eq, Structural)]
pub struct Double {
    pub bits: u64,
}

/// The largest bits of a number without its sign: those of infinity.
pub const INFINITY_BITS: u64 = 0x7ff0_0000_0000_0000;

/// The sign bit.
pub const SIGN_BIT: u64 = 0x8000_0000_0000_0000;

impl Double {
    /// The bits but for the sign.
    pub open spec fn magnitude(self) -> int {
        if self.bits >= SIGN_BIT {
            self.bits - SIGN_BIT
        } else {
            self.bits as int
        }
    }

    /// The value is not a number.
    pub open spec fn is_nan(self) -> bool {
        self.magnitude() > INFINITY_BITS
    }

    /// An integer by which numbers are ordered as IEEE 754 orders them: the magnitudes of positive
    /// numbers grow with their bits, and the two zeros are equal.
    pub open spec fn rank(self) -> int {
        if self.bits >= SIGN_BIT {
            -self.magnitude()
        } else {
            self.magnitude()
        }
    }

    /// What an operator says of two doubles. A NaN is unequal to everything, and no order holds of
    /// it.
    pub open spec fn satisfies(self, op: Comparison, other: Double) -> bool {
        if self.is_nan() || other.is_nan() {
            op is Ne
        } else {
            op.accepts(int_order(self.rank(), other.rank()))
        }
    }

    /// Compares two doubles.
    pub fn compare(self, op: Comparison, other: Double) -> (yes: bool)
        ensures
            yes == self.satisfies(op, other),
    {
        let a_neg = self.bits >= SIGN_BIT;
        let b_neg = other.bits >= SIGN_BIT;
        let a: u64 = if a_neg { self.bits - SIGN_BIT } else { self.bits };
        let b: u64 = if b_neg { other.bits - SIGN_BIT } else { other.bits };
        if a > INFINITY_BITS || b > INFINITY_BITS {
            return op == Comparison::Ne;
        }
        let x: i64 = if a_neg { -(a as i64) } else { a as i64 };
        let y: i64 = if b_neg { -(b as i64) } else { b as i64 };
        let order = if x < y {
            Order::Less
        } else if x > y {
            Order::Greater
        } else {
            Order::Equal
        };
        op.applies(order)
    }
}

/// The order of one integer against another.
pub open spec fn int_order(a: int, b: int) -> Order {
    if a < b {
        Order::Less
    } else if a > b {
        Order::Greater
    } else {
        Order::Equal
    }
}

/// The order of one truth value against another: false comes first.
pub open spec fn bool_order(a: bool, b: bool) -> Order {
    if a == b {
        Order::Equal
    } else if b {
        Order::Less
    } else {
        Order::Greater
    }
}

/// A literal value in a query.
#[derive(Debug, PartialEq)]
pub enum Literal {
    Integer(i128),
    Double(Double),
    String(String),
    Boolean(bool),
    Uuid(Uuid),
    /// A duration, in nanoseconds.
    Duration(u128),
    Timestamp(Timestamp),
    IpAddr(IpAddr),
}

impl Clone for Literal {
    fn clone(&self) -> (r: Self)
        ensures
            r == *self,
    {
        match self {
            Literal::Integer(x) => Literal::Integer(*x),
            Literal::Double(x) => Literal::Double(*x),
            Literal::String(x) => Literal::String(x.clone()),
            Literal::Boolean(x) => Literal::Boolean(*x),
            Literal::Uuid(x) => Literal::Uuid(*x),
            Literal::Duration(x) => Literal::Duration(*x),
            Literal::Timestamp(x) => Literal::Timestamp(*x),
            Literal::IpAddr(x) => Literal::IpAddr(*x),
        }
    }
}

/// The type of a literal.
#[derive(Debug, Clone, Copy, PartialEq, Eq, Structural)]
pub enum LiteralType {
    Integer,
    Double,
    String,
    Boolean,
    Uuid,
    Duration,
    Timestamp,
    IpAddr,
}

impl Literal {
    /// The type of the literal.
    pub open spec fn kind(self) -> LiteralType {
        match self {
            Literal::Integer(_) => LiteralType::Integer,
            Literal::Double(_) => LiteralType::Double,
            Literal::String(_) => LiteralType::String,
            Literal::Boolean(_) => LiteralType::Boolean,
            Literal::Uuid(_) => LiteralType::Uuid,
            Literal::Duration(_) => LiteralType::Duration,
            Literal::Timestamp(_) => LiteralType::Timestamp,
            Literal::IpAddr(_) => LiteralType::IpAddr,
        }
    }

    /// The type of the literal.
    pub fn literal_type(&self) -> (t: LiteralType)
        ensures
            t == self.kind(),
    {
        match self {
            Literal::Integer(_) => LiteralType::Integer,
            Literal::Double(_) => LiteralType::Double,
            Literal::String(_) => LiteralType::String,
            Literal::Boolean(_) => LiteralType::Boolean,
            Literal::Uuid(_) => LiteralType::Uuid,
            Literal::Duration(_) => LiteralType::Duration,
            Literal::Timestamp(_) => LiteralType::Timestamp,
            Literal::IpAddr(_) => LiteralType::IpAddr,
        }
    }
}

} // verus!
