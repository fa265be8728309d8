//! Plan negotiation and row-lifetime-bound record references.

use sqlite_xsv::decode::RecordDecoder;
use sqlite_xsv::error::XsvError;
use sqlite_xsv::plan::{
    best_index_fields, best_index_reader, best_index_records, best_index_rows, best_index_xsv,
    ConstraintOp, ConstraintUsage, PlanConstraint, PlanError,
};
use sqlite_xsv::rowref::{FieldKey, RecordReferenceRegistry};

fn bv(s: &str) -> Vec<u8> {
    s.as_bytes().to_vec()
}

fn c(column: i32, op: Option<ConstraintOp>, usable: bool) -> PlanConstraint {
    PlanConstraint { column, op, usable }
}

#[test]
fn xsv_plan_is_a_full_scan() {
    let p = best_index_xsv(&vec![c(0, Some(ConstraintOp::Gt), true), c(1, None, false)]);
    assert_eq!(p.estimated_cost, 10000);
    assert_eq!(p.estimated_rows, 10000);
    assert_eq!(p.idxnum, 1);
    assert_eq!(p.usages.len(), 2);
    for u in &p.usages {
        assert_eq!(u, &ConstraintUsage { argv_index: None, omit: false });
    }
}

#[test]
fn reader_plan_requires_source() {
    // Column 0 is the hidden source column.
    let p = best_index_reader(&vec![c(0, Some(ConstraintOp::Eq), true)]).unwrap();
    assert_eq!(p.usages[0], ConstraintUsage { argv_index: Some(1), omit: true });
    assert_eq!(p.estimated_cost, 100000);

    // No source binding at all: planning fails before any I/O.
    assert_eq!(best_index_reader(&vec![]).unwrap_err(), PlanError::Unusable);
    // A non-equality constraint on the source is refused.
    assert_eq!(
        best_index_reader(&vec![c(0, Some(ConstraintOp::Gt), true)]).unwrap_err(),
        PlanError::Constraint
    );
    // An unusable source constraint is refused.
    assert_eq!(
        best_index_reader(&vec![c(0, Some(ConstraintOp::Eq), false)]).unwrap_err(),
        PlanError::Constraint
    );
}

#[test]
fn fields_plan_requires_record() {
    // Column 1 is the hidden record column.
    let p = best_index_fields(&vec![c(9, Some(ConstraintOp::Eq), true), c(
        1,
        Some(ConstraintOp::Eq),
        true,
    )])
    .unwrap();
    assert_eq!(p.usages[0], ConstraintUsage { argv_index: None, omit: false });
    assert_eq!(p.usages[1], ConstraintUsage { argv_index: Some(1), omit: true });
    assert_eq!(best_index_fields(&vec![]).unwrap_err(), PlanError::Unusable);
}

#[test]
fn rows_plan_bindings() {
    // With a fixed delimiter only the source (column 5) must bind.
    let p = best_index_rows(&vec![c(5, Some(ConstraintOp::Eq), true)], true).unwrap();
    assert_eq!(p.usages[0], ConstraintUsage { argv_index: Some(1), omit: true });

    // Without one, the delimiter (column 6) must bind as well.
    let p = best_index_rows(
        &vec![c(5, Some(ConstraintOp::Eq), true), c(6, Some(ConstraintOp::Eq), true)],
        false,
    )
    .unwrap();
    assert_eq!(p.usages[1], ConstraintUsage { argv_index: Some(2), omit: true });
    assert_eq!(
        best_index_rows(&vec![c(5, Some(ConstraintOp::Eq), true)], false).unwrap_err(),
        PlanError::Unusable
    );

    // A delimiter constraint is refused outright when one was fixed.
    assert_eq!(
        best_index_rows(
            &vec![c(5, Some(ConstraintOp::Eq), true), c(6, Some(ConstraintOp::Eq), true)],
            true
        )
        .unwrap_err(),
        PlanError::Constraint
    );
    assert_eq!(best_index_rows(&vec![], true).unwrap_err(), PlanError::Unusable);
}

#[test]
fn records_plan_bindings() {
    // Fixed delimiter: the source text stands in column 1.
    let p = best_index_records(&vec![c(1, Some(ConstraintOp::Eq), true)], true).unwrap();
    assert_eq!(p.usages[0], ConstraintUsage { argv_index: Some(1), omit: true });

    // Free delimiter: column 1 binds the delimiter, column 2 the text.
    let p = best_index_records(
        &vec![c(1, Some(ConstraintOp::Eq), true), c(2, Some(ConstraintOp::Eq), true)],
        false,
    )
    .unwrap();
    assert_eq!(p.usages[0], ConstraintUsage { argv_index: Some(1), omit: true });
    assert_eq!(p.usages[1], ConstraintUsage { argv_index: Some(2), omit: true });

    // A constraint on the visible record column passes through
    // untouched; only the required hidden bindings are negotiated.
    let p = best_index_records(
        &vec![c(0, Some(ConstraintOp::Gt), true), c(1, Some(ConstraintOp::Eq), true)],
        true,
    )
    .unwrap();
    assert_eq!(p.usages[0], ConstraintUsage { argv_index: None, omit: false });
    assert_eq!(p.usages[1], ConstraintUsage { argv_index: Some(1), omit: true });

    // A non-equality or unusable constraint on a required hidden
    // column is refused.
    assert_eq!(
        best_index_records(&vec![c(1, Some(ConstraintOp::Gt), true)], true).unwrap_err(),
        PlanError::Constraint
    );
    assert_eq!(best_index_records(&vec![], false).unwrap_err(), PlanError::Unusable);
    assert_eq!(
        best_index_records(&vec![c(0, Some(ConstraintOp::Eq), true)], true).unwrap_err(),
        PlanError::Unusable
    );
}

#[test]
fn plan_failure_maps_to_taxonomy() {
    let e = best_index_reader(&vec![]).unwrap_err();
    assert_eq!(e.to_xsv_error(), XsvError::Planning);
    assert_eq!(e.to_xsv_error().message(), "a required binding was not supplied");
}

fn one_record(text: &str) -> sqlite_xsv::decode::Record {
    let mut dec = RecordDecoder::new(text.as_bytes().to_vec(), b',', b'"');
    dec.read_next().unwrap().unwrap()
}

#[test]
fn resolve_by_index_and_name() {
    let mut reg = RecordReferenceRegistry::new();
    let row = one_record("10,20,30\n");
    let hdr = one_record("a,b,c\n");
    let h = reg.publish(row, Some(hdr));
    assert_eq!(reg.resolve(&h, &FieldKey::Index(1)).unwrap(), Some(bv("20")));
    assert_eq!(reg.resolve(&h, &FieldKey::Index(7)).unwrap(), None);
    assert_eq!(reg.resolve(&h, &FieldKey::Index(-1)).unwrap(), None);
    assert_eq!(
        reg.resolve(&h, &FieldKey::Name(bv("c"))).unwrap(),
        Some(bv("30"))
    );
    // A name the header lacks reads NULL — a result, not an error.
    assert_eq!(reg.resolve(&h, &FieldKey::Name(bv("missing_col"))).unwrap(), None);
}

#[test]
fn first_matching_header_wins() {
    let mut reg = RecordReferenceRegistry::new();
    let row = one_record("first,second\n");
    let hdr = one_record("dup,dup\n");
    let h = reg.publish(row, Some(hdr));
    assert_eq!(
        reg.resolve(&h, &FieldKey::Name(bv("dup"))).unwrap(),
        Some(bv("first"))
    );
}

#[test]
fn header_wider_than_record_reads_null() {
    let mut reg = RecordReferenceRegistry::new();
    let row = one_record("only\n");
    let hdr = one_record("a,b\n");
    let h = reg.publish(row, Some(hdr));
    assert_eq!(reg.resolve(&h, &FieldKey::Name(bv("b"))).unwrap(), None);
}

#[test]
fn stale_reference_is_refused() {
    let mut reg = RecordReferenceRegistry::new();
    let h1 = reg.publish(one_record("1\n"), None);
    assert_eq!(reg.resolve(&h1, &FieldKey::Index(0)).unwrap(), Some(bv("1")));
    let h2 = reg.publish(one_record("2\n"), None);
    // The old handle was superseded by the new row.
    assert_eq!(
        reg.resolve(&h1, &FieldKey::Index(0)).unwrap_err(),
        XsvError::StaleReference
    );
    assert_eq!(reg.resolve(&h2, &FieldKey::Index(0)).unwrap(), Some(bv("2")));
    reg.retire();
    assert_eq!(
        reg.resolve(&h2, &FieldKey::Index(0)).unwrap_err(),
        XsvError::StaleReference
    );
}

#[test]
fn name_lookup_without_header_reads_null() {
    let mut reg = RecordReferenceRegistry::new();
    let h = reg.publish(one_record("1,2\n"), None);
    assert_eq!(reg.resolve(&h, &FieldKey::Name(bv("a"))).unwrap(), None);
    assert_eq!(reg.resolve(&h, &FieldKey::Index(0)).unwrap(), Some(bv("1")));
}
