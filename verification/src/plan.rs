//! Plan negotiation with the host engine, before any I/O.
//!
//! Every table flavour reads top to bottom — no index, so the cost
//! and row estimates are fixed and high.  What varies is which
//! hidden pseudo-columns must be bound by a usable equality
//! constraint before the scan is plannable at all: the main table
//! needs none; the reader and fields flavours need their source or
//! record argument; the rows and records flavours need their source
//! text and, when no delimiter was fixed at registration, a
//! delimiter binding too.  A missing required binding fails planning
//! here, statically — distinct from any runtime decode error.

use vstd::prelude::*;

verus! {

/// A constraint operator as the host engine reports it.
#[derive(Clone, Copy, Debug, PartialEq, Eq, Structural)]
pub enum ConstraintOp {
    /// Equality.
    Eq,
    /// Strictly greater.
    Gt,
    /// At most.
    Le,
    /// Strictly less.
    Lt,
    /// At least.
    Ge,
    /// The MATCH function.
    Match,
    /// The LIKE function.
    Like,
    /// The GLOB function.
    Glob,
    /// The REGEXP function.
    Regexp,
    /// Inequality.
    Ne,
    /// Any other operator.
    Other,
}

/// One constraint the host poses: a column, an operator, and whether
/// the host can supply the bound value.
#[derive(Clone, Copy, Debug, PartialEq, Eq, Structural)]
pub struct PlanConstraint {
    /// The constrained column's index, hidden columns included.
    pub column: i32,
    /// The operator, where the host names one.
    pub op: Option<ConstraintOp>,
    /// Whether the host can bind the right-hand side.
    pub usable: bool,
}

/// What the plan tells the host about one constraint.
#[derive(Clone, Copy, Debug, PartialEq, Eq, Structural)]
pub struct ConstraintUsage {
    /// The 1-based scan-argument slot the bound value must arrive in.
    pub argv_index: Option<i32>,
    /// Whether the host may skip re-checking the constraint.
    pub omit: bool,
}

/// A negotiated scan plan.
#[derive(Debug, PartialEq, Eq)]
pub struct ScanPlan {
    /// One usage per posed constraint, in order.
    pub usages: Vec<ConstraintUsage>,
    /// The fixed cost estimate, in the host's arbitrary units.
    pub estimated_cost: u64,
    /// The fixed row-count estimate.
    pub estimated_rows: u64,
    /// The index number handed back at scan time.
    pub idxnum: i32,
}

/// Why planning failed.
#[derive(Clone, Copy, Debug, PartialEq, Eq, Structural)]
pub enum PlanError {
    /// A posed constraint cannot be honoured as posed.
    Constraint,
    /// A required binding was not supplied at all.
    Unusable,
}

impl PlanError {
    /// This failure as the provider's own error taxonomy reports it:
    /// the host cannot supply a required binding before execution.
    pub fn to_xsv_error(&self) -> (e: crate::error::XsvError)
        ensures
            e == crate::error::XsvError::Planning,
    {
        crate::error::XsvError::Planning
    }
}

/// The usage of an untouched constraint.
pub open spec fn default_usage() -> ConstraintUsage {
    ConstraintUsage { argv_index: None, omit: false }
}

/// The usage of a constraint bound into scan-argument `n`.
pub open spec fn bound_usage(n: i32) -> ConstraintUsage {
    ConstraintUsage { argv_index: Some(n), omit: true }
}

// ---------------------------------------------------------------
// The main table: always a full streaming scan, nothing required.
// ---------------------------------------------------------------

/// Plan the main table's scan: no shortcut exists, so every posed
/// constraint is left to the host and the estimates are fixed.
pub fn best_index_xsv(constraints: &Vec<PlanConstraint>) -> (r: ScanPlan)
    ensures
        r.usages@.len() == constraints@.len(),
        forall|i: int| 0 <= i < r.usages@.len() ==> r.usages@[i] == default_usage(),
        r.estimated_cost == 10000,
        r.estimated_rows == 10000,
        r.idxnum == 1,
{
    let mut usages: Vec<ConstraintUsage> = Vec::new();
    let mut i: usize = 0;
    while i < constraints.len()
        invariant
            i <= constraints@.len(),
            usages@.len() == i,
            forall|k: int| 0 <= k < i ==> usages@[k] == default_usage(),
        decreases constraints.len() - i,
    {
        usages.push(ConstraintUsage { argv_index: None, omit: false });
        i = i + 1;
    }
    ScanPlan { usages, estimated_cost: 10000, estimated_rows: 10000, idxnum: 1 }
}

// ---------------------------------------------------------------
// One required binding (the reader and fields flavours).
// ---------------------------------------------------------------

/// The rolling state while constraints are examined.
pub struct SingleFold {
    /// Usages decided so far.
    pub usages: Seq<ConstraintUsage>,
    /// Whether the required column has been bound.
    pub bound: bool,
}

/// One constraint examined for a single required column `key_col`:
/// a constraint on it must be usable (once, to establish the
/// binding) and an equality; everything else passes through.
pub open spec fn single_fold_step(st: SingleFold, c: PlanConstraint, key_col: i32) -> Result<
    SingleFold,
    PlanError,
> {
    if c.column == key_col {
        if (!st.bound && !c.usable) || c.op != Some(ConstraintOp::Eq) {
            Err(PlanError::Constraint)
        } else {
            Ok(SingleFold { usages: st.usages.push(bound_usage(1)), bound: true })
        }
    } else {
        Ok(SingleFold { usages: st.usages.push(default_usage()), bound: st.bound })
    }
}

/// The state after the first `i` constraints.
pub open spec fn single_fold_to(cs: Seq<PlanConstraint>, key_col: i32, i: int) -> Result<
    SingleFold,
    PlanError,
>
    decreases i,
{
    if i <= 0 {
        Ok(SingleFold { usages: Seq::empty(), bound: false })
    } else {
        match single_fold_to(cs, key_col, i - 1) {
            Err(e) => Err(e),
            Ok(st) => single_fold_step(st, cs[i - 1], key_col),
        }
    }
}

/// What planning with one required column yields.
pub open spec fn spec_plan_single(cs: Seq<PlanConstraint>, key_col: i32) -> Result<
    Seq<ConstraintUsage>,
    PlanError,
> {
    match single_fold_to(cs, key_col, cs.len() as int) {
        Err(e) => Err(e),
        Ok(st) => {
            if st.bound {
                Ok(st.usages)
            } else {
                Err(PlanError::Unusable)
            }
        },
    }
}

proof fn lemma_single_fold_err(cs: Seq<PlanConstraint>, key_col: i32, i: int, j: int)
    requires
        0 <= i <= j,
        single_fold_to(cs, key_col, i) is Err,
    ensures
        single_fold_to(cs, key_col, j) == single_fold_to(cs, key_col, i),
    decreases j - i,
{
    if j > i {
        lemma_single_fold_err(cs, key_col, i, j - 1);
    }
}

fn plan_single(constraints: &Vec<PlanConstraint>, key_col: i32) -> (r: Result<ScanPlan, PlanError>)
    ensures
        match r {
            Ok(p) => {
                &&& spec_plan_single(constraints@, key_col) == Ok::<
                    Seq<ConstraintUsage>,
                    PlanError,
                >(p.usages@)
                &&& p.estimated_cost == 100000
                &&& p.estimated_rows == 100000
                &&& p.idxnum == 1
            },
            Err(e) => spec_plan_single(constraints@, key_col) == Err::<
                Seq<ConstraintUsage>,
                PlanError,
            >(e),
        },
{
    let mut usages: Vec<ConstraintUsage> = Vec::new();
    let mut bound = false;
    let mut i: usize = 0;
    while i < constraints.len()
        invariant
            i <= constraints@.len(),
            single_fold_to(constraints@, key_col, i as int) == Ok::<SingleFold, PlanError>(
                SingleFold { usages: usages@, bound: bound },
            ),
        decreases constraints.len() - i,
    {
        let c = constraints[i];
        if c.column == key_col {
            if (!bound && !c.usable) || c.op != Some(ConstraintOp::Eq) {
                proof {
                    lemma_single_fold_err(
                        constraints@,
                        key_col,
                        i + 1,
                        constraints@.len() as int,
                    );
                }
                return Err(PlanError::Constraint);
            }
            usages.push(ConstraintUsage { argv_index: Some(1), omit: true });
            bound = true;
        } else {
            usages.push(ConstraintUsage { argv_index: None, omit: false });
        }
        i = i + 1;
    }
    if !bound {
        return Err(PlanError::Unusable);
    }
    Ok(ScanPlan { usages, estimated_cost: 100000, estimated_rows: 100000, idxnum: 1 })
}

/// Plan the reader flavour's scan: its source path stands in hidden
/// column 0 and must be bound by a usable equality constraint.
pub fn best_index_reader(constraints: &Vec<PlanConstraint>) -> (r: Result<ScanPlan, PlanError>)
    ensures
        match r {
            Ok(p) => {
                &&& spec_plan_single(constraints@, 0) == Ok::<Seq<ConstraintUsage>, PlanError>(
                    p.usages@,
                )
                &&& p.estimated_cost == 100000
                &&& p.estimated_rows == 100000
                &&& p.idxnum == 1
            },
            Err(e) => spec_plan_single(constraints@, 0) == Err::<Seq<ConstraintUsage>, PlanError>(
                e,
            ),
        },
{
    plan_single(constraints, 0)
}

/// Plan the fields flavour's scan: the record to pivot stands in
/// hidden column 1 and must be bound by a usable equality constraint.
pub fn best_index_fields(constraints: &Vec<PlanConstraint>) -> (r: Result<ScanPlan, PlanError>)
    ensures
        match r {
            Ok(p) => {
                &&& spec_plan_single(constraints@, 1) == Ok::<Seq<ConstraintUsage>, PlanError>(
                    p.usages@,
                )
                &&& p.estimated_cost == 100000
                &&& p.estimated_rows == 100000
                &&& p.idxnum == 1
            },
            Err(e) => spec_plan_single(constraints@, 1) == Err::<Seq<ConstraintUsage>, PlanError>(
                e,
            ),
        },
{
    plan_single(constraints, 1)
}

// ---------------------------------------------------------------
// The rows flavour: a source, plus a delimiter when none was fixed.
// ---------------------------------------------------------------

/// The rolling state for the rows flavour.
pub struct RowsFold {
    /// Usages decided so far.
    pub usages: Seq<ConstraintUsage>,
    /// Whether the source column has been bound.
    pub has_source: bool,
    /// Whether the delimiter column has been bound.
    pub has_delimiter: bool,
}

/// One constraint examined for the rows flavour: the source text
/// stands in hidden column 5 (scan argument 1), the per-call
/// delimiter in hidden column 6 (scan argument 2); a delimiter
/// constraint is refused outright when the delimiter was fixed at
/// registration time.
pub open spec fn rows_fold_step(st: RowsFold, c: PlanConstraint, needs_delimiter: bool) -> Result<
    RowsFold,
    PlanError,
> {
    if c.column == 5 {
        if (!st.has_source && !c.usable) || c.op != Some(ConstraintOp::Eq) {
            Err(PlanError::Constraint)
        } else {
            Ok(RowsFold { usages: st.usages.push(bound_usage(1)), has_source: true, ..st })
        }
    } else if c.column == 6 {
        if needs_delimiter {
            if !c.usable || c.op != Some(ConstraintOp::Eq) {
                Err(PlanError::Constraint)
            } else {
                Ok(
                    RowsFold {
                        usages: st.usages.push(bound_usage(2)),
                        has_delimiter: true,
                        ..st
                    },
                )
            }
        } else {
            Err(PlanError::Constraint)
        }
    } else {
        Ok(RowsFold { usages: st.usages.push(default_usage()), ..st })
    }
}

/// The state after the first `i` constraints.
pub open spec fn rows_fold_to(cs: Seq<PlanConstraint>, needs_delimiter: bool, i: int) -> Result<
    RowsFold,
    PlanError,
>
    decreases i,
{
    if i <= 0 {
        Ok(RowsFold { usages: Seq::empty(), has_source: false, has_delimiter: false })
    } else {
        match rows_fold_to(cs, needs_delimiter, i - 1) {
            Err(e) => Err(e),
            Ok(st) => rows_fold_step(st, cs[i - 1], needs_delimiter),
        }
    }
}

/// What planning the rows flavour yields: the source must be bound,
/// and the delimiter too when none was fixed at registration.
pub open spec fn spec_plan_rows(cs: Seq<PlanConstraint>, needs_delimiter: bool) -> Result<
    Seq<ConstraintUsage>,
    PlanError,
> {
    match rows_fold_to(cs, needs_delimiter, cs.len() as int) {
        Err(e) => Err(e),
        Ok(st) => {
            if !st.has_source {
                Err(PlanError::Unusable)
            } else if needs_delimiter && !st.has_delimiter {
                Err(PlanError::Unusable)
            } else {
                Ok(st.usages)
            }
        },
    }
}

proof fn lemma_rows_fold_err(cs: Seq<PlanConstraint>, needs_delimiter: bool, i: int, j: int)
    requires
        0 <= i <= j,
        rows_fold_to(cs, needs_delimiter, i) is Err,
    ensures
        rows_fold_to(cs, needs_delimiter, j) == rows_fold_to(cs, needs_delimiter, i),
    decreases j - i,
{
    if j > i {
        lemma_rows_fold_err(cs, needs_delimiter, i, j - 1);
    }
}

/// Plan the rows flavour's scan.  `fixed_delimiter` says a delimiter
/// was pinned at registration; otherwise one must be bound here.
pub fn best_index_rows(constraints: &Vec<PlanConstraint>, fixed_delimiter: bool) -> (r: Result<
    ScanPlan,
    PlanError,
>)
    ensures
        match r {
            Ok(p) => {
                &&& spec_plan_rows(constraints@, !fixed_delimiter) == Ok::<
                    Seq<ConstraintUsage>,
                    PlanError,
                >(p.usages@)
                &&& p.estimated_cost == 100000
                &&& p.estimated_rows == 100000
                &&& p.idxnum == 1
            },
            Err(e) => spec_plan_rows(constraints@, !fixed_delimiter) == Err::<
                Seq<ConstraintUsage>,
                PlanError,
            >(e),
        },
{
    let needs_delimiter = !fixed_delimiter;
    let mut usages: Vec<ConstraintUsage> = Vec::new();
    let mut has_source = false;
    let mut has_delimiter = false;
    let mut i: usize = 0;
    while i < constraints.len()
        invariant
            i <= constraints@.len(),
            needs_delimiter == !fixed_delimiter,
            rows_fold_to(constraints@, needs_delimiter, i as int) == Ok::<RowsFold, PlanError>(
                RowsFold { usages: usages@, has_source: has_source, has_delimiter: has_delimiter },
            ),
        decreases constraints.len() - i,
    {
        let c = constraints[i];
        if c.column == 5 {
            if (!has_source && !c.usable) || c.op != Some(ConstraintOp::Eq) {
                proof {
                    assert(c == constraints@[i as int]);
                    assert(rows_fold_step(
                        RowsFold {
                            usages: usages@,
                            has_source: has_source,
                            has_delimiter: has_delimiter,
                        },
                        c,
                        needs_delimiter,
                    ) == Err::<RowsFold, PlanError>(PlanError::Constraint));
                    assert(rows_fold_to(constraints@, needs_delimiter, i + 1) == Err::<
                        RowsFold,
                        PlanError,
                    >(PlanError::Constraint));
                    lemma_rows_fold_err(
                        constraints@,
                        needs_delimiter,
                        i + 1,
                        constraints@.len() as int,
                    );
                }
                return Err(PlanError::Constraint);
            }
            usages.push(ConstraintUsage { argv_index: Some(1), omit: true });
            has_source = true;
        } else if c.column == 6 {
            if !needs_delimiter || !c.usable || c.op != Some(ConstraintOp::Eq) {
                proof {
                    assert(c == constraints@[i as int]);
                    assert(rows_fold_step(
                        RowsFold {
                            usages: usages@,
                            has_source: has_source,
                            has_delimiter: has_delimiter,
                        },
                        c,
                        needs_delimiter,
                    ) == Err::<RowsFold, PlanError>(PlanError::Constraint));
                    assert(rows_fold_to(constraints@, needs_delimiter, i + 1) == Err::<
                        RowsFold,
                        PlanError,
                    >(PlanError::Constraint));
                    lemma_rows_fold_err(
                        constraints@,
                        needs_delimiter,
                        i + 1,
                        constraints@.len() as int,
                    );
                }
                return Err(PlanError::Constraint);
            }
            usages.push(ConstraintUsage { argv_index: Some(2), omit: true });
            has_delimiter = true;
        } else {
            usages.push(ConstraintUsage { argv_index: None, omit: false });
        }
        i = i + 1;
    }
    if !has_source {
        return Err(PlanError::Unusable);
    }
    if needs_delimiter && !has_delimiter {
        return Err(PlanError::Unusable);
    }
    Ok(ScanPlan { usages, estimated_cost: 100000, estimated_rows: 100000, idxnum: 1 })
}

// ---------------------------------------------------------------
// The records flavour: the source text, plus a delimiter when none
// was fixed; any other constrained column is refused.
// ---------------------------------------------------------------

/// One constraint examined for the records flavour.  With a fixed
/// delimiter the source text stands in hidden column 1 (argument 1);
/// without one the delimiter stands in column 1 (argument 1) and the
/// source text in column 2 (argument 2).  Only the required hidden
/// pseudo-columns are negotiated: a constraint on one of them must be
/// a usable equality, while a constraint on any other column passes
/// through untouched for the host to re-check.
pub open spec fn records_fold_step(st: RowsFold, c: PlanConstraint, needs_delimiter: bool) -> Result<
    RowsFold,
    PlanError,
> {
    if !needs_delimiter {
        if c.column == 1 {
            if c.usable && c.op == Some(ConstraintOp::Eq) {
                Ok(RowsFold { usages: st.usages.push(bound_usage(1)), has_source: true, ..st })
            } else {
                Err(PlanError::Constraint)
            }
        } else {
            Ok(RowsFold { usages: st.usages.push(default_usage()), ..st })
        }
    } else {
        if c.column == 1 {
            if c.usable && c.op == Some(ConstraintOp::Eq) {
                Ok(RowsFold { usages: st.usages.push(bound_usage(1)), has_delimiter: true, ..st })
            } else {
                Err(PlanError::Constraint)
            }
        } else if c.column == 2 {
            if c.usable && c.op == Some(ConstraintOp::Eq) {
                Ok(RowsFold { usages: st.usages.push(bound_usage(2)), has_source: true, ..st })
            } else {
                Err(PlanError::Constraint)
            }
        } else {
            Ok(RowsFold { usages: st.usages.push(default_usage()), ..st })
        }
    }
}

/// The state after the first `i` constraints.
pub open spec fn records_fold_to(cs: Seq<PlanConstraint>, needs_delimiter: bool, i: int) -> Result<
    RowsFold,
    PlanError,
>
    decreases i,
{
    if i <= 0 {
        Ok(RowsFold { usages: Seq::empty(), has_source: false, has_delimiter: false })
    } else {
        match records_fold_to(cs, needs_delimiter, i - 1) {
            Err(e) => Err(e),
            Ok(st) => records_fold_step(st, cs[i - 1], needs_delimiter),
        }
    }
}

/// What planning the records flavour yields.
pub open spec fn spec_plan_records(cs: Seq<PlanConstraint>, needs_delimiter: bool) -> Result<
    Seq<ConstraintUsage>,
    PlanError,
> {
    match records_fold_to(cs, needs_delimiter, cs.len() as int) {
        Err(e) => Err(e),
        Ok(st) => {
            if !st.has_source || (needs_delimiter && !st.has_delimiter) {
                Err(PlanError::Unusable)
            } else {
                Ok(st.usages)
            }
        },
    }
}

proof fn lemma_records_fold_err(cs: Seq<PlanConstraint>, needs_delimiter: bool, i: int, j: int)
    requires
        0 <= i <= j,
        records_fold_to(cs, needs_delimiter, i) is Err,
    ensures
        records_fold_to(cs, needs_delimiter, j) == records_fold_to(cs, needs_delimiter, i),
    decreases j - i,
{
    if j > i {
        lemma_records_fold_err(cs, needs_delimiter, i, j - 1);
    }
}

/// Plan the records flavour's scan.
pub fn best_index_records(constraints: &Vec<PlanConstraint>, fixed_delimiter: bool) -> (r: Result<
    ScanPlan,
    PlanError,
>)
    ensures
        match r {
            Ok(p) => {
                &&& spec_plan_records(constraints@, !fixed_delimiter) == Ok::<
                    Seq<ConstraintUsage>,
                    PlanError,
                >(p.usages@)
                &&& p.estimated_cost == 100000
                &&& p.estimated_rows == 100000
                &&& p.idxnum == 1
            },
            Err(e) => spec_plan_records(constraints@, !fixed_delimiter) == Err::<
                Seq<ConstraintUsage>,
                PlanError,
            >(e),
        },
{
    let needs_delimiter = !fixed_delimiter;
    let mut usages: Vec<ConstraintUsage> = Vec::new();
    let mut has_source = false;
    let mut has_delimiter = false;
    let mut i: usize = 0;
    while i < constraints.len()
        invariant
            i <= constraints@.len(),
            needs_delimiter == !fixed_delimiter,
            records_fold_to(constraints@, needs_delimiter, i as int) == Ok::<RowsFold, PlanError>(
                RowsFold { usages: usages@, has_source: has_source, has_delimiter: has_delimiter },
            ),
        decreases constraints.len() - i,
    {
        let c = constraints[i];
        let required = c.column == 1 || (needs_delimiter && c.column == 2);
        if required && !(c.usable && matches!(c.op, Some(ConstraintOp::Eq))) {
            proof {
                assert(c == constraints@[i as int]);
                assert(records_fold_step(
                    RowsFold {
                        usages: usages@,
                        has_source: has_source,
                        has_delimiter: has_delimiter,
                    },
                    c,
                    needs_delimiter,
                ) == Err::<RowsFold, PlanError>(PlanError::Constraint));
                assert(records_fold_to(constraints@, needs_delimiter, i + 1) == Err::<
                    RowsFold,
                    PlanError,
                >(PlanError::Constraint));
                lemma_records_fold_err(
                    constraints@,
                    needs_delimiter,
                    i + 1,
                    constraints@.len() as int,
                );
            }
            return Err(PlanError::Constraint);
        }
        if c.column == 1 {
            usages.push(ConstraintUsage { argv_index: Some(1), omit: true });
            if needs_delimiter {
                has_delimiter = true;
            } else {
                has_source = true;
            }
        } else if needs_delimiter && c.column == 2 {
            usages.push(ConstraintUsage { argv_index: Some(2), omit: true });
            has_source = true;
        } else {
            usages.push(ConstraintUsage { argv_index: None, omit: false });
        }
        i = i + 1;
    }
    if !has_source || (needs_delimiter && !has_delimiter) {
        return Err(PlanError::Unusable);
    }
    Ok(ScanPlan { usages, estimated_cost: 100000, estimated_rows: 100000, idxnum: 1 })
}

} // verus!
