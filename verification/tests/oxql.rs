//! The query language: parsing, filters, grouping, joins, and what may be pushed down.

use chrono::{TimeZone, Utc};
use omicron::net::IpAddr;
use omicron::oxql::ast::{Comparison, Double, Ident, Literal, LiteralType, LogicalOp};
use omicron::oxql::filter::{Filter, FilterAtom, FilterExpr};
use omicron::oxql::group_by::{GroupBy, Number, Reducer};
use omicron::oxql::join::Join;
use omicron::oxql::point::{DataType, MetricType, Points, ValueArray, Values};
use omicron::oxql::query::{parse_filter, restrict_filter_idents, Query, SplitQuery};
use omicron::oxql::reduce::reduce;
use omicron::oxql::table::{Field, FieldType, FieldValue, Table, Timeseries};
use omicron::oxql::table_ops::{Applied, BasicTableOp, TableOp};
use omicron::oxql::Error;
use omicron::text::is_white_space;
use omicron::time::Timestamp;
use std::time::Duration;

fn stamp(t: chrono::DateTime<Utc>) -> Timestamp {
    Timestamp { secs: t.timestamp(), nanos: t.timestamp_subsec_nanos() }
}

fn at(secs: i64) -> Timestamp {
    Timestamp { secs, nanos: 0 }
}

fn double(x: f64) -> Double {
    Double { bits: x.to_bits() }
}

fn atom(name: &str, cmp: Comparison, expr: Literal) -> Filter {
    Filter::Atom(FilterAtom { negated: false, ident: Ident(name.to_string()), cmp, expr })
}

fn read_filter(text: &str) -> Filter {
    parse_filter(text, &at(0)).unwrap()
}

fn literal_of(text: &str) -> Result<Literal, Error> {
    match parse_filter(&format!("filter x == {}", text), &Timestamp { secs: 100, nanos: 5 }) {
        Ok(Filter::Atom(a)) => Ok(a.expr),
        Ok(other) => panic!("no comparison: {:?}", other),
        Err(e) => Err(e),
    }
}

fn two_points() -> Points {
    Points {
        start_times: None,
        timestamps: vec![stamp(Utc::now()), stamp(Utc::now() + Duration::from_secs(1000))],
        values: vec![Values {
            values: ValueArray::Double(vec![Some(double(0.0)), Some(double(2.0))]),
            metric_type: MetricType::Gauge,
        }],
    }
}

fn gauge(values: ValueArray) -> Points {
    let n = values.len();
    let mut timestamps = Vec::new();
    for i in 0..n {
        timestamps.push(at(i as i64));
    }
    Points {
        start_times: None,
        timestamps,
        values: vec![Values { values, metric_type: MetricType::Gauge }],
    }
}

fn integers(values: &[i64]) -> Points {
    gauge(ValueArray::Integer(values.iter().map(|x| Some(*x)).collect()))
}

fn field(name: &str, value: FieldValue) -> Field {
    Field { name: name.to_string(), value }
}

fn series(fields: Vec<Field>, points: Points) -> Timeseries {
    Timeseries { fields, points }
}

fn table(name: &str, all: Vec<Timeseries>) -> Table {
    let mut t = Table::new(name);
    for s in all {
        t.insert(s).unwrap();
    }
    t
}

#[test]
fn test_restrict_filter_idents_single_atom() {
    let ident = Ident("foo".into());
    let filter = Filter::Atom(FilterAtom {
        negated: false,
        ident: ident.clone(),
        cmp: Comparison::Eq,
        expr: Literal::Boolean(false),
    });
    assert_eq!(restrict_filter_idents(&filter, &[ident.clone()]).unwrap(), filter);
    assert_eq!(restrict_filter_idents(&filter, &[]), None);
}

#[test]
fn test_restrict_filter_idents_single_atom_with_timestamp() {
    let filter = Filter::Atom(FilterAtom {
        negated: false,
        ident: Ident("timestamp".into()),
        cmp: Comparison::Eq,
        expr: Literal::Boolean(false),
    });
    assert_eq!(restrict_filter_idents(&filter, &[]).unwrap(), filter);
}

#[test]
fn test_restrict_filter_idents_expr() {
    let idents = [Ident("foo".into()), Ident("bar".into())];
    let left = Filter::Atom(FilterAtom {
        negated: false,
        ident: idents[0].clone(),
        cmp: Comparison::Eq,
        expr: Literal::Boolean(false),
    });
    let right = Filter::Atom(FilterAtom {
        negated: false,
        ident: idents[1].clone(),
        cmp: Comparison::Eq,
        expr: Literal::Boolean(false),
    });
    let filter = Filter::Expr(FilterExpr {
        left: Box::new(left.clone()),
        op: LogicalOp::And,
        right: Box::new(right.clone()),
    });
    assert_eq!(restrict_filter_idents(&filter, &idents).unwrap(), filter);

    // This should remove the right filter.
    assert_eq!(restrict_filter_idents(&filter, &idents[..1]).unwrap(), left);

    // And both
    assert_eq!(restrict_filter_idents(&filter, &[]), None);
}

#[test]
fn test_split_query() {
    let q = Query::new("get a:b").unwrap();
    let split = q.split();
    assert_eq!(split, SplitQuery::Flat(q));

    let q = Query::new("get a:b | filter x == 0").unwrap();
    let split = q.split();
    assert_eq!(split, SplitQuery::Flat(q));

    let q = Query::new("{ get a:b } | join").unwrap();
    let split = q.split();
    assert_eq!(
        split,
        SplitQuery::Subquery {
            subqueries: vec![Query::new("get a:b").unwrap()],
            transformations: vec![TableOp::Basic(BasicTableOp::Join(Join))],
        }
    );

    let q = Query::new("{ get a:b | filter x == 0 } | join").unwrap();
    let split = q.split();
    assert_eq!(
        split,
        SplitQuery::Subquery {
            subqueries: vec![Query::new("get a:b | filter x == 0").unwrap()],
            transformations: vec![TableOp::Basic(BasicTableOp::Join(Join))],
        }
    );

    let q = Query::new("{ get a:b ; get a:b } | join").unwrap();
    let split = q.split();
    assert_eq!(
        split,
        SplitQuery::Subquery {
            subqueries: vec![Query::new("get a:b").unwrap(), Query::new("get a:b").unwrap()],
            transformations: vec![TableOp::Basic(BasicTableOp::Join(Join))],
        }
    );

    let q = Query::new("{ { get a:b ; get a:b } | join } | join").unwrap();
    let split = q.split();
    let expected = SplitQuery::Subquery {
        subqueries: vec![Query::new("{ get a:b; get a:b } | join").unwrap()],
        transformations: vec![TableOp::Basic(BasicTableOp::Join(Join))],
    };
    assert_eq!(split, expected);
    let subqueries = match split {
        SplitQuery::Subquery { subqueries, .. } => subqueries,
        SplitQuery::Flat(_) => unreachable!(),
    };
    let split = subqueries[0].split();
    assert_eq!(
        split,
        SplitQuery::Subquery {
            subqueries: vec![Query::new("get a:b").unwrap(), Query::new("get a:b").unwrap()],
            transformations: vec![TableOp::Basic(BasicTableOp::Join(Join))],
        }
    );
}

#[test]
fn test_coalesce_predicates() {
    // Passed through group-by unchanged.
    let q = Query::new("get a:b | group_by [a] | filter a == 0").unwrap();
    let preds = Filter::Atom(FilterAtom {
        negated: false,
        ident: Ident("a".to_string()),
        cmp: Comparison::Eq,
        expr: Literal::Integer(0),
    });
    assert_eq!(q.coalesced_predicates(), Some(preds));

    // Merge the first two, then pass through group by.
    let q = Query::new("get a:b | group_by [a] | filter a == 0 | filter a == 0").unwrap();
    let atom = Filter::Atom(FilterAtom {
        negated: false,
        ident: Ident("a".to_string()),
        cmp: Comparison::Eq,
        expr: Literal::Integer(0),
    });
    let preds = Filter::Expr(FilterExpr {
        left: Box::new(atom.clone()),
        op: LogicalOp::And,
        right: Box::new(atom.clone()),
    });
    assert_eq!(q.coalesced_predicates(), Some(preds));

    // These are also merged, even though they're on different sides of the group by.
    let q = Query::new("get a:b | filter a == 0 | group_by [a] | filter a == 0").unwrap();
    let atom = Filter::Atom(FilterAtom {
        negated: false,
        ident: Ident("a".to_string()),
        cmp: Comparison::Eq,
        expr: Literal::Integer(0),
    });
    let preds = Filter::Expr(FilterExpr {
        left: Box::new(atom.clone()),
        op: LogicalOp::And,
        right: Box::new(atom.clone()),
    });
    assert_eq!(q.coalesced_predicates(), Some(preds));

    // Second filter is _not_ passed through, because it refers to columns not in the group by. We
    // have only the first filter.
    let q = Query::new("get a:b | filter a == 0 | group_by [a] | filter b == 0").unwrap();
    let preds = Filter::Atom(FilterAtom {
        negated: false,
        ident: Ident("a".to_string()),
        cmp: Comparison::Eq,
        expr: Literal::Integer(0),
    });
    assert_eq!(q.coalesced_predicates(), Some(preds));
}

#[test]
fn test_atom_filter_double_points() {
    let points = two_points();

    // This filter should remove the first point based on its timestamp.
    let t = Utc::now() + Duration::from_secs(10);
    let q = format!("filter timestamp > @{}", t.format("%Y-%m-%dT%H:%M:%S"));
    let filter = parse_filter(q.as_str(), &stamp(Utc::now())).unwrap();
    let out = filter.filter_points2(&points).unwrap();
    assert!(out.len() == 1);
    assert_eq!(
        out.values(0).unwrap().as_double().unwrap()[0],
        points.values(0).unwrap().as_double().unwrap()[1],
    );

    // And this one the second point based on the datum
    let filter = parse_filter("filter datum < 1.0", &stamp(Utc::now())).unwrap();
    let out = filter.filter_points2(&points).unwrap();
    assert!(out.len() == 1);
    assert_eq!(
        out.values(0).unwrap().as_double().unwrap()[0],
        points.values(0).unwrap().as_double().unwrap()[0],
    );
}

#[test]
fn test_atom_filter_points_wrong_type() {
    let points = two_points();
    let filter = parse_filter("filter datum < \"something\"", &stamp(Utc::now())).unwrap();
    assert!(filter.filter_points2(&points).is_err());
}

#[test]
fn literals_are_read() {
    assert_eq!(literal_of("true"), Ok(Literal::Boolean(true)));
    assert_eq!(literal_of("false"), Ok(Literal::Boolean(false)));
    assert_eq!(literal_of("17"), Ok(Literal::Integer(17)));
    assert_eq!(literal_of("-17"), Ok(Literal::Integer(-17)));
    assert_eq!(literal_of("\"a b\""), Ok(Literal::String("a b".to_string())));
    assert_eq!(literal_of("'a b'"), Ok(Literal::String("a b".to_string())));
    assert_eq!(literal_of("1m"), Ok(Literal::Duration(60_000_000_000)));
    assert_eq!(literal_of("3ms"), Ok(Literal::Duration(3_000_000)));
    assert_eq!(literal_of("2w"), Ok(Literal::Duration(14 * 86_400_000_000_000)));
    assert_eq!(
        literal_of("\"10.0.0.1\""),
        Ok(Literal::IpAddr(IpAddr::V4(0x0a00_0001)))
    );
    assert_eq!(
        literal_of("\"fd00::1\""),
        Ok(Literal::IpAddr(IpAddr::V6(0xfd00_0000_0000_0000_0000_0000_0000_0001)))
    );
    assert_eq!(
        literal_of("\"::ffff:192.168.0.1\""),
        Ok(Literal::IpAddr(IpAddr::V6(0xffff_c0a8_0001)))
    );
    assert_eq!(
        literal_of("\"6ba7b810-9dad-11d1-80b4-00c04fd430c8\""),
        Ok(Literal::Uuid(0x6ba7b810_9dad_11d1_80b4_00c04fd430c8))
    );
    assert_eq!(literal_of("@now()"), Ok(Literal::Timestamp(Timestamp { secs: 100, nanos: 5 })));
    assert_eq!(
        literal_of("@now() - 1m"),
        Ok(Literal::Timestamp(Timestamp { secs: 40, nanos: 5 }))
    );
    assert_eq!(
        literal_of("@now() + 1ns"),
        Ok(Literal::Timestamp(Timestamp { secs: 100, nanos: 6 }))
    );
}

#[test]
fn the_present_is_read_from_the_clock() {
    let before = stamp(Utc::now());
    let q = Query::new("get a:b | filter timestamp > @now()").unwrap();
    let after = stamp(Utc::now());
    match q.coalesced_predicates() {
        Some(Filter::Atom(FilterAtom { expr: Literal::Timestamp(t), .. })) => {
            assert!((before.secs, before.nanos) <= (t.secs, t.nanos));
            assert!((t.secs, t.nanos) <= (after.secs, after.nanos));
        }
        other => panic!("{:?}", other),
    }
}

#[test]
fn dates_are_read() {
    let day = Utc.with_ymd_and_hms(2024, 2, 29, 0, 0, 0).unwrap();
    assert_eq!(literal_of("@2024-02-29"), Ok(Literal::Timestamp(stamp(day))));
    let instant = Utc.with_ymd_and_hms(2024, 2, 29, 12, 30, 1).unwrap();
    assert_eq!(literal_of("@2024-02-29T12:30:01"), Ok(Literal::Timestamp(stamp(instant))));
    let later = instant + Duration::from_millis(250);
    assert_eq!(literal_of("@2024-02-29T12:30:01.250"), Ok(Literal::Timestamp(stamp(later))));
    assert_eq!(literal_of("@2023-02-29"), Err(Error::Syntax));
}

#[test]
fn doubles_are_rounded_to_the_nearest() {
    for text in ["1.0", "0.1", "-2.5", "3.141592653589793", "123456.789", "0.3", "1e10", "1.5e-7"] {
        let expected: f64 = text.parse().unwrap();
        assert_eq!(literal_of(text), Ok(Literal::Double(double(expected))), "{}", text);
    }
    for text in ["1.7976931348623157e308", "4.9e-324", "2.2250738585072014e-308", "1e400", "1e-400"]
    {
        let expected: f64 = text.parse().unwrap();
        assert_eq!(literal_of(text), Ok(Literal::Double(double(expected))), "{}", text);
    }
    // Halfway between two doubles, the even one is taken.
    for text in ["9007199254740993.0", "9007199254740995.0"] {
        let expected: f64 = text.parse().unwrap();
        assert_eq!(literal_of(text), Ok(Literal::Double(double(expected))), "{}", text);
    }
}

#[test]
fn queries_are_read() {
    let q = Query::new("  get a:b | filter x == 0 && (y != \"z\" || w > 1) | group_by [x, y], sum ")
        .unwrap();
    assert_eq!(q.timeseries_name(), "a:b");
    assert_eq!(q.transformations().len(), 2);
    match &q.transformations()[1] {
        TableOp::Basic(BasicTableOp::GroupBy(g)) => {
            assert_eq!(g.identifiers, vec![Ident("x".to_string()), Ident("y".to_string())]);
            assert_eq!(g.reducer, Reducer::Sum);
        }
        other => panic!("{:?}", other),
    }
    match &q.transformations()[0] {
        TableOp::Basic(BasicTableOp::Filter(Filter::Expr(e))) => {
            assert_eq!(e.op, LogicalOp::And);
            assert_eq!(*e.left, atom("x", Comparison::Eq, Literal::Integer(0)));
            match &*e.right {
                Filter::Expr(e) => assert_eq!(e.op, LogicalOp::Or),
                Filter::Atom(_) => unreachable!(),
            }
        }
        other => panic!("{:?}", other),
    }
    let q = Query::new("{ get a:b ; get c:d } | join").unwrap();
    assert_eq!(q.timeseries_name(), "a:b");
}

#[test]
fn bad_queries_are_refused() {
    assert_eq!(Query::new(""), Err(Error::Syntax));
    assert_eq!(Query::new("get"), Err(Error::Syntax));
    assert_eq!(Query::new("get a:b |"), Err(Error::Syntax));
    assert_eq!(Query::new("filter x == 0"), Err(Error::Syntax));
    assert_eq!(Query::new("get a:b | filter x = 0"), Err(Error::Syntax));
    assert_eq!(Query::new("get a:b | get a:b"), Err(Error::Syntax));
}

#[test]
fn long_queries_are_refused() {
    let mut text = "get a:b | filter x == \"".to_string();
    while text.len() < 4095 {
        text.push('y');
    }
    text.push('"');
    assert_eq!(text.len(), 4096);
    assert!(Query::new(&text).is_ok());
    // White space around the query does not count.
    assert!(Query::new(&format!(" \n\t{}  ", text)).is_ok());
    assert_eq!(
        Query::new(&format!("{} | filter x == 0", text)),
        Err(Error::QueryTooLong)
    );
    // What counts is bytes.
    let mut text = "get a:b | filter x == \"".to_string();
    while text.len() < 4096 {
        text.push('\u{e9}');
    }
    text.push('"');
    assert!(text.chars().count() < 4096);
    assert_eq!(Query::new(&text), Err(Error::QueryTooLong));
    assert_eq!(Error::QueryTooLong.message(""), "Queries must be <= 4096 characters");
}

#[test]
fn restriction_is_idempotent() {
    let filter = read_filter("filter a == 0 && (b == 1 || timestamp > @2024-01-01)");
    let allowed = [Ident("a".to_string())];
    let once = restrict_filter_idents(&filter, &allowed).unwrap();
    assert_eq!(once, read_filter("filter a == 0 && timestamp > @2024-01-01"));
    assert_eq!(restrict_filter_idents(&once, &allowed).unwrap(), once);
}

#[test]
fn fields_are_filtered() {
    let yes = |f: &str, v: FieldValue| read_filter(f).filter_field("x", &v);
    assert_eq!(yes("filter x == 5", FieldValue::U8(5)), Ok(true));
    assert_eq!(yes("filter x == 5", FieldValue::I64(6)), Ok(false));
    assert_eq!(yes("filter x < -1", FieldValue::I8(-2)), Ok(true));
    assert_eq!(yes("filter !(x == 5)", FieldValue::U8(5)), Ok(false));
    assert_eq!(yes("filter y == 5", FieldValue::Bool(true)), Ok(true));
    assert_eq!(yes("filter x == true", FieldValue::Bool(true)), Ok(true));
    assert_eq!(yes("filter x > \"b\"", FieldValue::String("c".to_string())), Ok(true));
    assert_eq!(
        yes("filter x == \"10.0.0.1\"", FieldValue::IpAddr(IpAddr::V4(0x0a00_0001))),
        Ok(true)
    );
    assert_eq!(
        yes("filter x == 5", FieldValue::Bool(true)),
        Err(Error::IncompatibleField { name: "x".to_string() })
    );
    assert_eq!(
        Error::IncompatibleField { name: "x".to_string() }.message(""),
        "Filter matches the field named 'x', but the expression type is not compatible, or cannot \
         be applied"
    );
}

#[test]
fn strings_are_matched_against_patterns() {
    let yes = |f: &str, v: &str| {
        read_filter(f).filter_field("x", &FieldValue::String(v.to_string()))
    };
    assert_eq!(yes("filter x ~= \"^a.*z$\"", "abcz"), Ok(true));
    assert_eq!(yes("filter x ~= \"^a.*z$\"", "abc"), Ok(false));
    assert_eq!(yes("filter x ~= \"b\"", "abc"), Ok(true));
    assert_eq!(
        yes("filter x ~= \"(\"", "abc"),
        Err(Error::IncompatibleField { name: "x".to_string() })
    );
}

#[test]
fn string_values_are_matched_against_patterns() {
    let points = gauge(ValueArray::String(vec![
        Some("abc".to_string()),
        None,
        Some("xyz".to_string()),
    ]));
    let marks = read_filter("filter datum ~= \"^x\"").filter_points2_inner(&points);
    assert_eq!(marks, Ok(vec![false, false, true]));
    let refused = read_filter("filter datum ~= \"[\"").filter_points2_inner(&points);
    assert_eq!(refused, Err(Error::BadRegex));
}

#[test]
fn points_are_filtered() {
    let points = integers(&[5, -5, 10]);
    assert_eq!(
        read_filter("filter datum > 0").filter_points2_inner(&points),
        Ok(vec![true, false, true])
    );
    assert_eq!(
        read_filter("filter datum > 0 && datum < 7").filter_points2_inner(&points),
        Ok(vec![true, false, false])
    );
    assert_eq!(
        read_filter("filter datum < 0 || datum > 7").filter_points2_inner(&points),
        Ok(vec![false, true, true])
    );
    let kept = read_filter("filter datum > 0").filter_points2(&points).unwrap();
    assert_eq!(kept.timestamps, vec![at(0), at(2)]);
    assert_eq!(kept.values[0].values, ValueArray::Integer(vec![Some(5), Some(10)]));
    // A filter on a field says nothing of the points.
    assert_eq!(
        read_filter("filter x == 0").filter_points2_inner(&points),
        Ok(vec![true, true, true])
    );
    let booleans = gauge(ValueArray::Boolean(vec![Some(true), Some(false)]));
    assert_eq!(
        read_filter("filter datum == true").filter_points2_inner(&booleans),
        Ok(vec![true, false])
    );
}

#[test]
fn nothing_is_ordered_against_nan() {
    let points = gauge(ValueArray::Double(vec![
        Some(double(f64::NAN)),
        Some(double(-0.0)),
        Some(double(f64::INFINITY)),
    ]));
    assert_eq!(
        read_filter("filter datum >= 0.0").filter_points2_inner(&points),
        Ok(vec![false, true, true])
    );
    assert_eq!(
        read_filter("filter datum != 0.0").filter_points2_inner(&points),
        Ok(vec![true, false, true])
    );
}

#[test]
fn filters_that_do_not_fit_are_refused() {
    let points = integers(&[1]);
    assert_eq!(
        read_filter("filter datum == 1.0").filter_points2_inner(&points),
        Err(Error::IncompatibleDatum { literal: LiteralType::Double, values: DataType::Integer })
    );
    assert_eq!(
        Error::IncompatibleDatum { literal: LiteralType::Double, values: DataType::Integer }
            .message("integer"),
        "Cannot compare double literal against values of type integer"
    );
    assert_eq!(
        read_filter("filter timestamp == 1").filter_points2_inner(&points),
        Err(Error::NotATimestamp)
    );
    let mut wide = integers(&[1]);
    wide.values.push(Values {
        values: ValueArray::Integer(vec![Some(2)]),
        metric_type: MetricType::Gauge,
    });
    assert_eq!(
        read_filter("filter datum == 1").filter_points2_inner(&wide),
        Err(Error::MultidimensionalDatum)
    );
    assert_eq!(points.filter(&vec![true, false]), Err(Error::FilterLength));
}

#[test]
fn tables_are_filtered() {
    let t = table(
        "a:b",
        vec![
            series(vec![field("x", FieldValue::I64(0))], integers(&[1, 2])),
            series(vec![field("x", FieldValue::I64(1))], integers(&[3, 4])),
        ],
    );
    let out = read_filter("filter x == 1 && datum > 3").apply(&vec![t.duplicate()]).unwrap();
    assert_eq!(out.len(), 1);
    assert_eq!(out[0].name(), "a:b");
    assert_eq!(out[0].len(), 1);
    assert_eq!(out[0].timeseries[0].fields, vec![field("x", FieldValue::I64(1))]);
    assert_eq!(
        out[0].timeseries[0].points.values[0].values,
        ValueArray::Integer(vec![Some(4)])
    );
    assert_eq!(read_filter("filter x == 1").apply(&vec![]), Err(Error::FilterTableCount));
    assert_eq!(
        read_filter("filter x == 1").apply(&vec![t.duplicate(), t]),
        Err(Error::FilterTableCount)
    );
}

#[test]
fn merged_filters_leave_what_the_filters_leave() {
    let t = table(
        "a:b",
        vec![
            series(vec![field("x", FieldValue::I64(0))], integers(&[1, 2, 3])),
            series(vec![field("x", FieldValue::I64(1))], integers(&[1, 2, 3])),
        ],
    );
    let one = read_filter("filter datum > 1").apply(&vec![t.duplicate()]).unwrap();
    let two = read_filter("filter x == 1 && datum < 3").apply(&one).unwrap();
    let merged =
        read_filter("filter datum > 1 && (x == 1 && datum < 3)").apply(&vec![t]).unwrap();
    assert_eq!(two, merged);
}

#[test]
fn tables_are_grouped() {
    let t = table(
        "a:b",
        vec![
            series(
                vec![field("x", FieldValue::I64(0)), field("y", FieldValue::I64(0))],
                integers(&[1, 2]),
            ),
            series(
                vec![field("x", FieldValue::I64(0)), field("y", FieldValue::I64(1))],
                integers(&[3, 5]),
            ),
            series(
                vec![field("x", FieldValue::I64(1)), field("y", FieldValue::I64(0))],
                integers(&[7, 8]),
            ),
        ],
    );
    let group_by =
        GroupBy { identifiers: vec![Ident("x".to_string())], reducer: Reducer::default() };
    assert_eq!(group_by.reducer, Reducer::Mean);
    let out = group_by.apply(&vec![t]).unwrap();
    assert_eq!(out.name, "a:b");
    assert_eq!(out.reducer, Reducer::Mean);
    assert_eq!(out.groups.len(), 2);
    assert_eq!(out.groups[0].fields, vec![field("x", FieldValue::I64(0))]);
    assert_eq!(out.groups[0].count, 2);
    assert_eq!(
        out.groups[0].addends,
        vec![
            vec![Number::Integer(1), Number::Integer(3)],
            vec![Number::Integer(2), Number::Integer(5)]
        ]
    );
    assert_eq!(out.groups[1].fields, vec![field("x", FieldValue::I64(1))]);
    assert_eq!(out.groups[1].count, 1);
    assert_eq!(out.groups[1].timestamps, vec![at(0), at(1)]);
    // Every timeseries is in one group, and no two groups have the same key.
    assert_eq!(out.groups.iter().map(|g| g.count).sum::<u64>(), 3);
    assert_ne!(out.groups[0].fields, out.groups[1].fields);
}

#[test]
fn time_filters_pass_through_grouping() {
    let all = || {
        let key = |y: i64| vec![field("x", FieldValue::I64(0)), field("y", FieldValue::I64(y))];
        table(
            "a:b",
            vec![
                series(key(0), integers(&[1, 2, 3])),
                series(key(1), integers(&[4, 5, 6])),
            ],
        )
    };
    let group_by = GroupBy { identifiers: vec![Ident("x".to_string())], reducer: Reducer::Sum };
    let filter = read_filter("filter timestamp > @1970-01-01");
    let before = group_by.apply(&filter.apply(&vec![all()]).unwrap()).unwrap();
    let after = group_by.apply(&vec![all()]).unwrap();
    assert_eq!(before.groups[0].timestamps, after.groups[0].timestamps[1..]);
    assert_eq!(before.groups[0].addends, after.groups[0].addends[1..]);
    assert_eq!(before.groups[0].count, after.groups[0].count);
}

#[test]
fn coalesced_filters_leave_the_same() {
    let t = || {
        let key = |x: i64| vec![field("a", FieldValue::I64(x)), field("b", FieldValue::I64(0))];
        table(
            "a:b",
            vec![series(key(0), integers(&[1, 2, 3])), series(key(1), integers(&[4, 5, 6]))],
        )
    };
    let q = Query::new("get a:b | filter a == 0 | filter datum > 1 | filter datum < 3").unwrap();
    let mut tables = vec![t()];
    for op in q.transformations() {
        tables = match op.apply(&tables).unwrap() {
            Applied::Tables(tables) => tables,
            Applied::Grouped(_) => unreachable!(),
        };
    }
    let merged = q.coalesced_predicates().unwrap();
    assert_eq!(merged.apply(&vec![t()]).unwrap(), tables);
    assert_eq!(
        tables[0].timeseries[0].points.values[0].values,
        ValueArray::Integer(vec![Some(2)])
    );
}

#[test]
fn predicates_can_be_applied_first() {
    let key = |a: i64, b: i64| {
        vec![field("a", FieldValue::I64(a)), field("b", FieldValue::I64(b))]
    };
    let t = || {
        table(
            "a:b",
            vec![
                series(key(0, 0), integers(&[1, 2, 3])),
                series(key(0, 1), integers(&[4, 5, 6])),
                series(key(0, 2), integers(&[7, 8, 9])),
                series(key(1, 0), integers(&[10, 11, 12])),
            ],
        )
    };
    let run = |q: &Query, start: Vec<Table>| {
        let mut tables = start;
        for op in q.transformations() {
            tables = match op.apply(&tables).unwrap() {
                Applied::Tables(tables) => tables,
                Applied::Grouped(grouped) => vec![reduce(
                    &grouped,
                    |n: i64| double(n as f64),
                    |a: Double, b: Double| double(f64::from_bits(a.bits) + f64::from_bits(b.bits)),
                    |a: Double, n: u64| double(f64::from_bits(a.bits) / n as f64),
                )],
            };
        }
        tables
    };
    // The values of the groups are left behind, and everything else is applied first.
    let q = Query::new(
        "get a:b | filter b < 2 | group_by [a], sum | filter a == 0 | filter datum > 5.5 \
         | group_by [a]",
    )
    .unwrap();
    let first = q.coalesced_predicates().unwrap();
    assert_eq!(first, read_filter("filter (b < 2) && (a == 0)"));
    let few = first.apply(&vec![t()]).unwrap();
    assert_eq!(few[0].timeseries.len(), 2);
    let result = run(&q, vec![t()]);
    assert_eq!(run(&q, few), result);
    assert_eq!(result[0].timeseries.len(), 1);
    assert_eq!(
        result[0].timeseries[0].points.values[0].values,
        ValueArray::Double(vec![Some(double(7.0)), Some(double(9.0))])
    );
    // Of filters joined by `||` none can be left behind.
    let q = Query::new("get a:b | group_by [a], sum | filter a == 0 || datum > 11.5").unwrap();
    let first = q.coalesced_predicates().unwrap();
    assert_ne!(run(&q, first.apply(&vec![t()]).unwrap()), run(&q, vec![t()]));
}

#[test]
fn integers_are_read_back() {
    for n in [0, 7, -7, i128::from(u64::MAX), i128::from(i64::MIN)] {
        assert_eq!(literal_of(&n.to_string()), Ok(Literal::Integer(n)));
    }
    // What is too large for an integer is a double.
    assert_eq!(
        literal_of("18446744073709551616"),
        Ok(Literal::Double(double(18446744073709551616.0)))
    );
}

fn grouping_error(all: Vec<Timeseries>, by: &str) -> Error {
    let group_by =
        GroupBy { identifiers: vec![Ident(by.to_string())], reducer: Reducer::Sum };
    group_by.apply(&vec![table("a:b", all)]).unwrap_err()
}

#[test]
fn tables_that_cannot_be_grouped_are_refused() {
    let key = || vec![field("x", FieldValue::I64(0)), field("y", FieldValue::I64(0))];
    let other = || vec![field("x", FieldValue::I64(0)), field("y", FieldValue::I64(1))];
    let group_by =
        GroupBy { identifiers: vec![Ident("x".to_string())], reducer: Reducer::Sum };
    assert_eq!(group_by.apply(&vec![]), Err(Error::GroupTableCount));
    assert_eq!(
        grouping_error(vec![series(key(), integers(&[]))], "x"),
        Error::EmptyTimeseries
    );
    let mut wide = integers(&[1]);
    wide.values.push(Values {
        values: ValueArray::Integer(vec![Some(2)]),
        metric_type: MetricType::Gauge,
    });
    assert_eq!(grouping_error(vec![series(key(), wide)], "x"), Error::MultidimensionalGroup);
    assert_eq!(
        grouping_error(
            vec![series(key(), gauge(ValueArray::Boolean(vec![Some(true)])))],
            "x"
        ),
        Error::NonNumericGroup { values: DataType::Boolean }
    );
    let mut cumulative = integers(&[1]);
    cumulative.values[0].metric_type = MetricType::Cumulative;
    assert_eq!(grouping_error(vec![series(key(), cumulative)], "x"), Error::CumulativeGroup);
    assert_eq!(
        grouping_error(vec![series(key(), integers(&[1]))], "z"),
        Error::MissingField { name: "z".to_string() }
    );
    assert_eq!(
        grouping_error(
            vec![series(key(), integers(&[1])), series(other(), integers(&[1, 2]))],
            "x"
        ),
        Error::DifferentPointCounts
    );
    assert_eq!(
        Error::NonNumericGroup { values: DataType::Boolean }.message("boolean"),
        "Only numeric data types can be grouped, not boolean"
    );
}

#[test]
fn field_filters_pass_through_grouping() {
    let all = || {
        table(
            "a:b",
            vec![
                series(
                    vec![field("x", FieldValue::I64(0)), field("y", FieldValue::I64(0))],
                    integers(&[1, 2]),
                ),
                series(
                    vec![field("x", FieldValue::I64(1)), field("y", FieldValue::I64(0))],
                    integers(&[3, 5]),
                ),
            ],
        )
    };
    let group_by = GroupBy { identifiers: vec![Ident("x".to_string())], reducer: Reducer::Sum };
    let filter = read_filter("filter x == 1");
    let before = group_by.apply(&filter.apply(&vec![all()]).unwrap()).unwrap();
    let after = group_by.apply(&vec![all()]).unwrap();
    let kept: Vec<_> = after
        .groups
        .iter()
        .filter(|g| filter.filter_field("x", &g.fields[0].value).unwrap())
        .collect();
    assert_eq!(kept.len(), 1);
    assert_eq!(before.groups.len(), 1);
    assert_eq!(*kept[0], before.groups[0]);
}

#[test]
fn successive_filters_are_merged_in_their_order() {
    let atom = |s: &str| {
        Filter::Atom(FilterAtom {
            negated: false,
            ident: Ident(s.to_string()),
            cmp: Comparison::Eq,
            expr: Literal::Integer(0),
        })
    };
    let both = |left: Filter, right: Filter| {
        Filter::Expr(FilterExpr {
            left: Box::new(left),
            op: LogicalOp::And,
            right: Box::new(right),
        })
    };
    let q = Query::new("get a:b | filter a == 0 | filter b == 0").unwrap();
    assert_eq!(q.coalesced_predicates(), Some(both(atom("a"), atom("b"))));
    let q = Query::new("get a:b | filter a == 0 | filter b == 0 | filter c == 0").unwrap();
    assert_eq!(
        q.coalesced_predicates(),
        Some(both(atom("a"), both(atom("b"), atom("c"))))
    );
}

#[test]
fn white_space_around_a_query_counts_for_nothing() {
    for n in 0..0x3100 {
        if let Some(c) = char::from_u32(n) {
            assert_eq!(is_white_space(c), c.is_whitespace());
            let query = format!("{}get a:b{}", c, c);
            assert_eq!(Query::new(&query).is_ok(), c.is_whitespace());
        }
    }
    for n in 0x3100..=0x10_ffff {
        if let Some(c) = char::from_u32(n) {
            assert!(!is_white_space(c) && !c.is_whitespace());
        }
    }
}

#[test]
fn groups_hold_what_their_members_have() {
    let key = |y: i64| vec![field("x", FieldValue::I64(0)), field("y", FieldValue::I64(y))];
    let mut gaps = integers(&[1, 2]);
    gaps.values[0].values = ValueArray::Integer(vec![None, None]);
    let mut half = integers(&[3, 4]);
    half.values[0].values = ValueArray::Integer(vec![None, Some(4)]);
    let t = table("a:b", vec![series(key(0), gaps), series(key(1), half)]);
    let group_by =
        GroupBy { identifiers: vec![Ident("x".to_string())], reducer: Reducer::default() };
    let out = group_by.apply(&vec![t]).unwrap();
    assert_eq!(out.groups.len(), 1);
    assert_eq!(out.groups[0].addends, vec![vec![], vec![Number::Integer(4)]]);
    assert_eq!(out.groups[0].count, 2);
}

#[test]
fn means_are_sums_over_all_members() {
    let key = |x: i64, y: i64| vec![field("x", FieldValue::I64(x)), field("y", FieldValue::I64(y))];
    let mut gaps = integers(&[1, 2]);
    gaps.values[0].values = ValueArray::Integer(vec![None, Some(2)]);
    let mut half = integers(&[3, 4]);
    half.values[0].values = ValueArray::Double(vec![None, Some(double(0.5))]);
    let t = table(
        "a:b",
        vec![
            series(key(0, 0), gaps),
            series(key(0, 1), half),
            series(key(0, 2), integers(&[7, 8])),
            series(key(1, 0), integers(&[9, 10])),
        ],
    );
    let reduced = |reducer: Reducer| {
        let group_by = GroupBy { identifiers: vec![Ident("x".to_string())], reducer };
        reduce(
            &group_by.apply(&vec![t.duplicate()]).unwrap(),
            |n: i64| double(n as f64),
            |a: Double, b: Double| double(f64::from_bits(a.bits) + f64::from_bits(b.bits)),
            |a: Double, n: u64| double(f64::from_bits(a.bits) / n as f64),
        )
    };
    let values = |t: &Table, k: usize| match &t.timeseries[k].points.values[0].values {
        ValueArray::Double(v) => v.clone(),
        other => panic!("no doubles: {:?}", other),
    };
    let sums = reduced(Reducer::Sum);
    assert_eq!(sums.name(), "a:b");
    assert_eq!(sums.timeseries[0].fields, vec![field("x", FieldValue::I64(0))]);
    assert_eq!(values(&sums, 0), vec![Some(double(7.0)), Some(double(10.5))]);
    assert_eq!(values(&sums, 1), vec![Some(double(9.0)), Some(double(10.0))]);
    let means = reduced(Reducer::Mean);
    assert_eq!(values(&means, 0), vec![Some(double(7.0 / 3.0)), Some(double(3.5))]);
    assert_eq!(values(&means, 1), vec![Some(double(9.0)), Some(double(10.0))]);
    assert_eq!(means.timeseries[0].points.timestamps, t.timeseries[0].points.timestamps);
}

#[test]
fn keys_that_a_table_lacks_are_left_out() {
    let key = |n: i64| vec![field("x", FieldValue::I64(n))];
    let a = table(
        "a:b",
        vec![series(key(0), integers(&[1, 2])), series(key(1), integers(&[3, 4]))],
    );
    let b = table("c:d", vec![series(key(1), integers(&[5, 6]))]);
    let out = Join.apply(&vec![a.duplicate(), b.duplicate()]).unwrap();
    assert_eq!(out[0].timeseries.len(), 1);
    assert_eq!(out[0].timeseries[0].fields, key(1));
    assert_eq!(out[0].timeseries[0].points.dimensionality(), 2);
    // A key that the first table has is no error, though another one lacks it.
    let out = Join.apply(&vec![a.duplicate(), b.duplicate(), a.duplicate()]).unwrap();
    assert_eq!(out[0].timeseries.len(), 1);
    assert_eq!(out[0].timeseries[0].points.dimensionality(), 3);
    assert_eq!(Join.apply(&vec![b, a]), Err(Error::JoinKey { table: 1, timeseries: 0 }));
}

#[test]
fn tables_are_joined() {
    let key = |n: i64| vec![field("x", FieldValue::I64(n))];
    let a = table("a:b", vec![series(key(0), integers(&[1, 2]))]);
    let b = table("c:d", vec![series(key(0), integers(&[3, 4]))]);
    let out = Join.apply(&vec![a.duplicate(), b.duplicate()]).unwrap();
    assert_eq!(out.len(), 1);
    assert_eq!(out[0].name(), "a:b,c:d");
    assert_eq!(out[0].timeseries[0].points.dimensionality(), 2);
    assert_eq!(
        out[0].timeseries[0].points.values[1].values,
        ValueArray::Integer(vec![Some(3), Some(4)])
    );
    assert_eq!(Join.apply(&vec![a.duplicate()]), Err(Error::JoinTableCount));
    let c = table("c:d", vec![series(key(1), integers(&[3, 4]))]);
    assert_eq!(Join.apply(&vec![a, c]), Err(Error::JoinKey { table: 1, timeseries: 0 }));
    assert_eq!(
        Error::JoinKey { table: 1, timeseries: 0 }.message("k"),
        "Join failed, input table 1 does not contain a timeseries with key k"
    );
}

#[test]
fn operations_are_applied() {
    let q = Query::new("get a:b | filter x == 1 | group_by [x]").unwrap();
    let t = table("a:b", vec![series(vec![field("x", FieldValue::I64(1))], integers(&[4]))]);
    let ops = q.transformations();
    assert!(!ops[0].is_merge());
    let tables = match ops[0].apply(&vec![t]).unwrap() {
        Applied::Tables(tables) => tables,
        Applied::Grouped(_) => unreachable!(),
    };
    assert_eq!(tables[0].len(), 1);
    match ops[1].apply(&tables).unwrap() {
        Applied::Grouped(g) => assert_eq!(g.groups.len(), 1),
        Applied::Tables(_) => unreachable!(),
    }
    assert!(TableOp::Basic(BasicTableOp::Join(Join)).is_merge());
}

#[test]
fn operations_are_applied_only_where_they_fit() {
    let op = |text: &str| TableOp::Basic(BasicTableOp::Filter(read_filter(text)));
    let key = || vec![field("x", FieldValue::I64(1))];
    let one = || vec![table("a:b", vec![series(key(), integers(&[4]))])];
    assert!(matches!(op("filter datum == 4").try_apply(&one()), Some(Ok(Applied::Tables(_)))));
    // Numbers cannot be matched against a pattern.
    assert_eq!(op("filter datum ~= 4").try_apply(&one()), None);
    // Where an earlier part fails, the pattern is never reached.
    assert_eq!(
        op("filter datum == true && datum ~= 4").try_apply(&one()),
        Some(Err(Error::IncompatibleDatum {
            literal: LiteralType::Boolean,
            values: DataType::Integer
        }))
    );
    assert!(op("filter x == 2 && datum ~= 4").try_apply(&one()).unwrap().is_ok());
    assert_eq!(TableOp::Basic(BasicTableOp::Get("a:b".to_string())).try_apply(&one()), None);
    // Two timeseries with the same key make no table.
    let mut twice = one();
    twice[0].timeseries.push(series(key(), integers(&[5])));
    assert!(!twice[0].is_well_formed());
    assert_eq!(op("filter datum == 4").try_apply(&twice), None);
    let mut short = one();
    short[0].timeseries[0].points.timestamps.clear();
    assert!(!short[0].timeseries[0].is_well_formed());
    let unsorted = vec![field("y", FieldValue::I64(1)), field("x", FieldValue::I64(1))];
    assert!(!series(unsorted, integers(&[1])).is_well_formed());
}

#[test]
fn keys_stay_unique() {
    let mut t = Table::new("a:b");
    assert_eq!(t.insert(series(vec![field("x", FieldValue::I64(1))], integers(&[1]))), Ok(()));
    assert_eq!(
        t.insert(series(vec![field("x", FieldValue::I64(1))], integers(&[2]))),
        Err(Error::DuplicateTimeseries)
    );
    assert_eq!(t.len(), 1);
}

#[test]
fn written_filters_are_read_back() {
    let filter = read_filter("filter a == 0 && (!(b != \"c\") || d < 2)");
    let exprs = vec!["0".to_string(), "\"c\"".to_string(), "2".to_string()];
    let text = filter.text(&exprs);
    assert_eq!(text, "((a == 0) && (!(b != \"c\") || (d < 2)))");
    assert_eq!(read_filter(&format!("filter {}", text)), filter);
}

#[test]
fn filters_are_written_for_the_database() {
    let f = FilterAtom {
        negated: false,
        ident: Ident("a".to_string()),
        cmp: Comparison::Like,
        expr: Literal::String("b".to_string()),
    };
    assert_eq!(f.as_db_safe_string("'b'"), "match(a, 'b')");
    let f = FilterAtom {
        negated: true,
        ident: Ident("a".to_string()),
        cmp: Comparison::Ge,
        expr: Literal::Integer(2),
    };
    assert_eq!(f.as_db_safe_string("2"), " NOT greaterOrEquals(a, 2)");
    assert!(f.expr_type_is_compatible_with_field(FieldType::U16));
    assert!(!f.expr_type_is_compatible_with_field(FieldType::Bool));
    assert_eq!(f.text("2"), "!(a >= 2)");
}
