//! OxQL, the query language for timeseries.

use vstd::prelude::*;

pub mod addressing;
pub mod ast;
pub mod checked;
pub mod clock;
pub mod display;
pub mod double;
pub mod filter;
pub mod fitting;
pub mod grammar;
pub mod group_by;
pub mod grouping;
pub mod ip;
pub mod join;
pub mod joining;
pub mod laws;
pub mod matching;
pub mod meaning;
pub mod natural;
pub mod parser;
pub mod point;
pub mod predicates;
pub mod pushdown;
pub mod query;
pub mod querying;
pub mod reading;
pub mod reduce;
pub mod table;
pub mod table_ops;
pub mod views;

use crate::oxql::ast::LiteralType;
use crate::oxql::point::DataType;
use crate::text::{decimal, decimal_of, joined};

verus! {

/// Why a table operation failed.
#[derive(Debug, PartialEq, Eq)]
pub enum Error {
    /// A query is too long.
    QueryTooLong,
    /// A query does not follow the grammar.
    Syntax,
    /// There is not one mark for each point.
    FilterLength,
    /// A filter was applied to no table, or to more than one.
    FilterTableCount,
    /// A filter names a field, and its literal cannot be compared with the field's value.
    IncompatibleField { name: String },
    /// The values of a point with more than one dimension cannot be filtered.
    MultidimensionalDatum,
    /// A timestamp was compared with something else.
    NotATimestamp,
    /// Values were compared with a literal of another type.
    IncompatibleDatum { literal: LiteralType, values: DataType },
    /// A pattern is no regular expression.
    BadRegex,
    /// A table holds a timeseries with the same key already.
    DuplicateTimeseries,
    /// Grouping was applied to no table, or to more than one.
    GroupTableCount,
    /// A timeseries without points cannot be grouped.
    EmptyTimeseries,
    /// A timeseries whose points have more than one dimension cannot be grouped.
    MultidimensionalGroup,
    /// Values that are no numbers cannot be grouped.
    NonNumericGroup { values: DataType },
    /// Cumulative values cannot be grouped.
    CumulativeGroup,
    /// A timeseries lacks a field by which it should be grouped.
    MissingField { name: String },
    /// Timeseries with different numbers of points cannot be grouped.
    DifferentPointCounts,
    /// A join was applied to fewer than two tables.
    JoinTableCount,
    /// The first table lacks a timeseries with the key of one in a later table.
    JoinKey { table: usize, timeseries: usize },
}

/// How a type of literals is called.
pub open spec fn literal_type_name(t: LiteralType) -> Seq<char> {
    match t {
        LiteralType::Uuid => "UUID"@,
        LiteralType::Duration => "duration"@,
        LiteralType::Timestamp => "timestamp"@,
        LiteralType::IpAddr => "IP address"@,
        LiteralType::Integer => "integer"@,
        LiteralType::Double => "double"@,
        LiteralType::String => "string"@,
        LiteralType::Boolean => "boolean"@,
    }
}

fn literal_type_text(t: LiteralType) -> (s: &'static str)
    ensures
        s@ == literal_type_name(t),
{
    match t {
        LiteralType::Uuid => "UUID",
        LiteralType::Duration => "duration",
        LiteralType::Timestamp => "timestamp",
        LiteralType::IpAddr => "IP address",
        LiteralType::Integer => "integer",
        LiteralType::Double => "double",
        LiteralType::String => "string",
        LiteralType::Boolean => "boolean",
    }
}

impl Error {
    /// What is said of the error, where `detail` is how a type of values or a key is written, or what
    /// another part said.
    pub open spec fn text(self, detail: Seq<char>) -> Seq<char> {
        match self {
            Error::QueryTooLong => "Queries must be <= 4096 characters"@,
            Error::FilterTableCount => "Filtering operations require exactly one table"@,
            Error::IncompatibleField { name } => "Filter matches the field named '"@ + name@
                + "', but the expression type is not compatible, or cannot be applied"@,
            Error::MultidimensionalDatum => {
                "Filtering multidimensional values by datum is not yet supported"@
            },
            Error::NotATimestamp => "Cannot compare non-timestamp filter against a timestamp"@,
            Error::IncompatibleDatum { literal, .. } => "Cannot compare "@ + literal_type_name(
                literal,
            ) + " literal against values of type "@ + detail,
            Error::GroupTableCount => "Group by operations require exactly one table"@,
            Error::EmptyTimeseries => "Timeseries cannot be empty"@,
            Error::MultidimensionalGroup => {
                "Group-by with multi-dimensional timeseries is not yet supported"@
            },
            Error::NonNumericGroup { .. } => "Only numeric data types can be grouped, not "@
                + detail,
            Error::CumulativeGroup => "Cumulative metric types cannot be grouped"@,
            Error::DifferentPointCounts => {
                "Cannot group timeseries with different numbers of data points"@
            },
            Error::JoinTableCount => "Join operations require more than one table"@,
            Error::JoinKey { table, .. } => "Join failed, input table "@ + decimal(table as nat)
                + " does not contain a timeseries with key "@ + detail,
            Error::Syntax
            | Error::FilterLength
            | Error::BadRegex
            | Error::DuplicateTimeseries
            | Error::MissingField { .. } => detail,
        }
    }

    /// What is said of the error.
    pub fn message(&self, detail: &str) -> (s: String)
        ensures
            s@ == self.text(detail@),
    {
        match self {
            Error::QueryTooLong => "Queries must be <= 4096 characters".to_owned(),
            Error::FilterTableCount => "Filtering operations require exactly one table".to_owned(),
            Error::IncompatibleField { name } => {
                let mut s = joined("Filter matches the field named '", name.as_str());
                s.append("', but the expression type is not compatible, or cannot be applied");
                s
            },
            Error::MultidimensionalDatum => {
                "Filtering multidimensional values by datum is not yet supported".to_owned()
            },
            Error::NotATimestamp => {
                "Cannot compare non-timestamp filter against a timestamp".to_owned()
            },
            Error::IncompatibleDatum { literal, .. } => {
                let mut s = joined("Cannot compare ", literal_type_text(*literal));
                s.append(" literal against values of type ");
                s.append(detail);
                s
            },
            Error::GroupTableCount => "Group by operations require exactly one table".to_owned(),
            Error::EmptyTimeseries => "Timeseries cannot be empty".to_owned(),
            Error::MultidimensionalGroup => {
                "Group-by with multi-dimensional timeseries is not yet supported".to_owned()
            },
            Error::NonNumericGroup { .. } => {
                joined("Only numeric data types can be grouped, not ", detail)
            },
            Error::CumulativeGroup => "Cumulative metric types cannot be grouped".to_owned(),
            Error::DifferentPointCounts => {
                "Cannot group timeseries with different numbers of data points".to_owned()
            },
            Error::JoinTableCount => "Join operations require more than one table".to_owned(),
            Error::JoinKey { table, .. } => {
                let mut s = joined("Join failed, input table ", decimal_of(*table as u64).as_str());
                s.append(" does not contain a timeseries with key ");
                s.append(detail);
                s
            },
            Error::Syntax
            | Error::FilterLength
            | Error::BadRegex
            | Error::DuplicateTimeseries
            | Error::MissingField { .. } => detail.to_owned(),
        }
    }
}

} // verus!
