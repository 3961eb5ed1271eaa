//! The provable query plan: filter, then project.
//!
//! A plan evaluates its predicate over the referenced table, keeps the rows
//! where it holds, evaluates every projection expression, and assembles the
//! named output columns in projection-list order. The output row count is
//! exactly the number of rows the predicate selected.

use vstd::prelude::*;
use crate::column::{
    count_true, filter_seq, lemma_filter_seq_len, ColumnType, ColumnV, OwnedColumn, OwnedTable,
    TableError, TableRef,
};
use crate::expr::DynProofExpr;
use crate::scaling::{ConstructionError, EvalError};

verus! {

/// One projection: an expression and the name its output column carries.
#[derive(Debug, PartialEq, Eq)]
pub struct AliasedDynProofExpr {
    pub expr: DynProofExpr,
    pub alias: String,
}

/// A filter-then-project plan over one referenced table.
#[derive(Debug, PartialEq, Eq)]
pub struct ProofPlan {
    pub aliased_results: Vec<AliasedDynProofExpr>,
    pub table: TableRef,
    pub where_clause: DynProofExpr,
}

impl ProofPlan {
    /// A plan is well formed when its predicate is a well-formed boolean
    /// expression and every projection expression is well formed.
    pub open spec fn wf(self) -> bool {
        &&& self.where_clause.wf()
        &&& self.where_clause.spec_data_type() == ColumnType::Boolean
        &&& forall|i: int|
            0 <= i < self.aliased_results@.len() ==> (#[trigger] self.aliased_results@[i]).expr.wf()
    }

    /// Builds a plan, rejecting a predicate that is not boolean.
    pub fn try_new(
        aliased_results: Vec<AliasedDynProofExpr>,
        table: TableRef,
        where_clause: DynProofExpr,
    ) -> (r: Result<ProofPlan, ConstructionError>)
        ensures
            r is Ok <==> where_clause.spec_data_type() == ColumnType::Boolean,
            r is Ok ==> r->Ok_0 == (ProofPlan { aliased_results, table, where_clause }),
            r is Err ==> r->Err_0 == ConstructionError::IncompatibleTypes(
                where_clause.spec_data_type(),
                ColumnType::Boolean,
            ),
    {
        let dt = where_clause.data_type();
        if dt == ColumnType::Boolean {
            Ok(ProofPlan { aliased_results, table, where_clause })
        } else {
            Err(ConstructionError::IncompatibleTypes(dt, ColumnType::Boolean))
        }
    }

    /// The rows the predicate selects, or the predicate's error.
    pub open spec fn spec_selection(self, t: OwnedTable) -> Result<Seq<bool>, EvalError> {
        match self.where_clause.spec_evaluate(t) {
            Err(e) => Err(e),
            Ok(c) => match c {
                ColumnV::Boolean(bs) => Ok(bs),
                _ => Err(EvalError::TypeMismatch),
            },
        }
    }

    /// What the plan evaluates to: each projection's filtered column in
    /// order, or the first error.
    pub open spec fn spec_evaluate(self, t: OwnedTable) -> Result<Seq<ColumnV>, EvalError> {
        match self.spec_selection(t) {
            Err(e) => Err(e),
            Ok(sel) => spec_eval_outputs(self.aliased_results@, t, sel),
        }
    }

    /// Evaluates the plan: filters the table's rows by the predicate and
    /// assembles the projected columns under their aliases, in order.
    pub fn evaluate(&self, t: &OwnedTable) -> (r: Result<OwnedTable, EvalError>)
        requires
            self.wf(),
            t.wf(),
        ensures
            match r {
                Ok(out) => {
                    &&& self.spec_evaluate(*t) is Ok
                    &&& out.wf()
                    &&& out.spec_columns().len() == self.aliased_results@.len()
                    &&& (forall|i: int|
                        0 <= i < out.spec_columns().len() ==> (#[trigger] out.spec_columns()[i]).1@
                            == self.spec_evaluate(*t)->Ok_0[i])
                    &&& (forall|i: int|
                        0 <= i < out.spec_columns().len() ==> (#[trigger] out.spec_columns()[i]).0
                            == self.aliased_results@[i].alias)
                    &&& self.spec_selection(*t) is Ok
                    &&& out.spec_columns().len() > 0 ==> out.spec_num_rows() == count_true(
                        self.spec_selection(*t)->Ok_0,
                    )
                },
                Err(e) => self.spec_evaluate(*t) == Err::<Seq<ColumnV>, EvalError>(e),
            },
    {
        let sel = match self.where_clause.evaluate(t) {
            Err(e) => {
                return Err(e);
            },
            Ok(c) => match c {
                OwnedColumn::Boolean(bs) => bs,
                _ => {
                    return Err(EvalError::TypeMismatch);
                },
            },
        };
        proof {
            crate::plan::lemma_eval_len(self.where_clause, *t);
        }
        let mut columns: Vec<(String, OwnedColumn)> = Vec::new();
        let mut i: usize = 0;
        let ghost selv = self.spec_selection(*t)->Ok_0;
        proof {
            assert(self.aliased_results@.take(0) =~= Seq::<AliasedDynProofExpr>::empty());
        }
        while i < self.aliased_results.len()
            invariant
                self.wf(),
                t.wf(),
                i <= self.aliased_results@.len(),
                self.spec_selection(*t) == Ok::<Seq<bool>, EvalError>(selv),
                sel@ == selv,
                selv.len() == t.spec_num_rows(),
                columns@.len() == i,
                spec_eval_outputs(self.aliased_results@.take(i as int), *t, selv) is Ok,
                spec_eval_outputs(self.aliased_results@.take(i as int), *t, selv)->Ok_0.len()
                    == i,
                forall|j: int|
                    0 <= j < i ==> (#[trigger] columns@[j]).1@ == spec_eval_outputs(
                        self.aliased_results@.take(i as int),
                        *t,
                        selv,
                    )->Ok_0[j],
                forall|j: int|
                    0 <= j < i ==> (#[trigger] columns@[j]).0 == self.aliased_results@[j].alias,
                forall|j: int|
                    0 <= j < i ==> (#[trigger] columns@[j]).1@.len() == count_true(selv)
                        && columns@[j].1@.inv(),
            decreases self.aliased_results@.len() - i,
        {
            proof {
                assert(self.aliased_results@[i as int].expr.wf());
                lemma_eval_outputs_push(self.aliased_results@, i as int, *t, selv);
            }
            let item = &self.aliased_results[i];
            match item.expr.evaluate(t) {
                Err(e) => {
                    proof {
                        lemma_eval_outputs_err_extends(self.aliased_results@, i + 1, *t, selv);
                    }
                    return Err(e);
                },
                Ok(c) => {
                    proof {
                        lemma_eval_len(item.expr, *t);
                        lemma_filtered_len_inv(c@, selv);
                    }
                    let filtered = c.filtered(&sel);
                    let ghost prevcols = columns@;
                    let ghost prevout = spec_eval_outputs(
                        self.aliased_results@.take(i as int),
                        *t,
                        selv,
                    )->Ok_0;
                    columns.push((item.alias.clone(), filtered));
                    proof {
                        let outs = spec_eval_outputs(
                            self.aliased_results@.take(i + 1),
                            *t,
                            selv,
                        );
                        assert(outs == Ok::<Seq<ColumnV>, EvalError>(
                            prevout.push(c@.filtered(selv)),
                        ));
                        assert forall|j: int| 0 <= j < i + 1 implies (#[trigger] columns@[j]).1@
                            == outs->Ok_0[j] by {
                            if j < i {
                                assert(columns@[j] == prevcols[j]);
                                assert(outs->Ok_0[j] == prevout[j]);
                            } else {
                                assert(columns@[j].1 == filtered);
                            }
                        }
                    }
                },
            }
            i = i + 1;
        }
        proof {
            assert(self.aliased_results@.take(self.aliased_results@.len() as int)
                =~= self.aliased_results@);
        }
        match OwnedTable::try_new(columns) {
            Ok(out) => Ok(out),
            Err(_) => {
                proof {
                    // all output columns share the selected row count
                    assert(false);
                }
                Err(EvalError::TypeMismatch)
            },
        }
    }
}

/// Each projection evaluated and filtered, in order, or the first error.
pub open spec fn spec_eval_outputs(
    exprs: Seq<AliasedDynProofExpr>,
    t: OwnedTable,
    sel: Seq<bool>,
) -> Result<Seq<ColumnV>, EvalError>
    decreases exprs.len(),
{
    if exprs.len() == 0 {
        Ok(Seq::empty())
    } else {
        match exprs[0].expr.spec_evaluate(t) {
            Err(e) => Err(e),
            Ok(c) => match spec_eval_outputs(exprs.drop_first(), t, sel) {
                Err(e) => Err(e),
                Ok(rest) => Ok(seq![c.filtered(sel)] + rest),
            },
        }
    }
}

/// Evaluating one more projection extends the outputs or surfaces its error.
pub proof fn lemma_eval_outputs_push(
    exprs: Seq<AliasedDynProofExpr>,
    k: int,
    t: OwnedTable,
    sel: Seq<bool>,
)
    requires
        0 <= k < exprs.len(),
    ensures
        spec_eval_outputs(exprs.take(k + 1), t, sel) == match spec_eval_outputs(
            exprs.take(k),
            t,
            sel,
        ) {
            Err(e) => Err::<Seq<ColumnV>, EvalError>(e),
            Ok(cols) => match exprs[k].expr.spec_evaluate(t) {
                Err(e) => Err::<Seq<ColumnV>, EvalError>(e),
                Ok(c) => Ok::<Seq<ColumnV>, EvalError>(cols.push(c.filtered(sel))),
            },
        },
    decreases exprs.len() + k,
{
    lemma_eval_outputs_push_general(exprs.take(k + 1), t, sel);
    assert(exprs.take(k + 1).drop_last() =~= exprs.take(k));
    assert(exprs.take(k + 1).last() == exprs[k]);
}

/// The outputs of a nonempty list split at its last element.
proof fn lemma_eval_outputs_push_general(exprs: Seq<AliasedDynProofExpr>, t: OwnedTable, sel: Seq<bool>)
    requires
        exprs.len() > 0,
    ensures
        spec_eval_outputs(exprs, t, sel) == match spec_eval_outputs(exprs.drop_last(), t, sel) {
            Err(e) => Err::<Seq<ColumnV>, EvalError>(e),
            Ok(cols) => match exprs.last().expr.spec_evaluate(t) {
                Err(e) => Err::<Seq<ColumnV>, EvalError>(e),
                Ok(c) => Ok::<Seq<ColumnV>, EvalError>(cols.push(c.filtered(sel))),
            },
        },
    decreases exprs.len(),
{
    if exprs.len() == 1 {
        assert(exprs.drop_last() =~= Seq::<AliasedDynProofExpr>::empty());
        match exprs[0].expr.spec_evaluate(t) {
            Err(e) => {},
            Ok(c) => {
                assert(exprs.drop_first() =~= Seq::<AliasedDynProofExpr>::empty());
                assert(seq![c.filtered(sel)] + Seq::<ColumnV>::empty() =~= Seq::<
                    ColumnV,
                >::empty().push(c.filtered(sel)));
            },
        }
    } else {
        lemma_eval_outputs_push_general(exprs.drop_first(), t, sel);
        assert(exprs.drop_last().drop_first() =~= exprs.drop_first().drop_last());
        assert(exprs.drop_last()[0] == exprs[0]);
        assert(exprs.drop_first().last() == exprs.last());
        match exprs[0].expr.spec_evaluate(t) {
            Err(e) => {},
            Ok(c) => {
                match spec_eval_outputs(exprs.drop_first().drop_last(), t, sel) {
                    Err(e) => {},
                    Ok(rest) => {
                        match exprs.last().expr.spec_evaluate(t) {
                            Err(e) => {},
                            Ok(cl) => {
                                assert(seq![c.filtered(sel)] + rest.push(cl.filtered(sel)) =~= (
                                seq![c.filtered(sel)] + rest).push(cl.filtered(sel)));
                            },
                        }
                    },
                }
            },
        }
    }
}

/// An error among the first projections is the error of the whole list.
pub proof fn lemma_eval_outputs_err_extends(
    exprs: Seq<AliasedDynProofExpr>,
    k: int,
    t: OwnedTable,
    sel: Seq<bool>,
)
    requires
        0 <= k <= exprs.len(),
        spec_eval_outputs(exprs.take(k), t, sel) is Err,
    ensures
        spec_eval_outputs(exprs, t, sel) == spec_eval_outputs(exprs.take(k), t, sel),
    decreases exprs.len(),
{
    assert(k > 0);
    assert(exprs.take(k)[0] == exprs[0]);
    match exprs[0].expr.spec_evaluate(t) {
        Err(e) => {},
        Ok(c) => {
            assert(exprs.take(k).drop_first() =~= exprs.drop_first().take(k - 1));
            lemma_eval_outputs_err_extends(exprs.drop_first(), k - 1, t, sel);
        },
    }
}

/// A well-formed expression that evaluates over a well-formed table yields
/// a well-formed column of the declared type and the table's row count.
pub proof fn lemma_eval_len(e: DynProofExpr, t: OwnedTable)
    requires
        e.wf(),
        t.wf(),
        e.spec_evaluate(t) is Ok,
    ensures
        e.spec_evaluate(t)->Ok_0.len() == t.spec_num_rows(),
        e.spec_evaluate(t)->Ok_0.ctype() == e.spec_data_type(),
        e.spec_evaluate(t)->Ok_0.inv(),
    decreases e,
{
    match e {
        DynProofExpr::Column(c) => {
        },
        DynProofExpr::Literal(l) => {
        },
        DynProofExpr::ScalingCast(sc) => {
            lemma_eval_len(*sc.child, t);
            let child = sc.child.spec_evaluate(t)->Ok_0;
            match sc.to_type {
                ColumnType::Decimal75(p, s) => {
                    let vs = crate::expr::numeric_vals_v(child)->0;
                    crate::expr::lemma_scale_seq_len(
                        vs,
                        sc.factor,
                        crate::scaling::spec_target_bound(sc.to_type),
                    );
                },
                ColumnType::TimestampTZ(u, z) => {
                    match child {
                        ColumnV::TimestampTZ(_, _, v) => {
                            crate::expr::lemma_scale_seq_len(
                                v.map_values(|x: i64| x as int),
                                sc.factor,
                                crate::scaling::spec_target_bound(sc.to_type),
                            );
                        },
                        _ => {},
                    }
                },
                _ => {},
            }
        },
        DynProofExpr::Not(n) => {
            lemma_eval_len(*n.child, t);
        },
    }
}

/// A filtered column keeps the selector's count of rows and stays well
/// formed.
pub proof fn lemma_filtered_len_inv(c: ColumnV, sel: Seq<bool>)
    requires
        c.len() == sel.len(),
        c.inv(),
    ensures
        c.filtered(sel).len() == count_true(sel),
        c.filtered(sel).inv(),
        c.filtered(sel).ctype() == c.ctype(),
{
    match c {
        ColumnV::Boolean(v) => lemma_filter_seq_len(v, sel),
        ColumnV::Uint8(v) => lemma_filter_seq_len(v, sel),
        ColumnV::TinyInt(v) => lemma_filter_seq_len(v, sel),
        ColumnV::SmallInt(v) => lemma_filter_seq_len(v, sel),
        ColumnV::Int(v) => lemma_filter_seq_len(v, sel),
        ColumnV::BigInt(v) => lemma_filter_seq_len(v, sel),
        ColumnV::Int128(v) => lemma_filter_seq_len(v, sel),
        ColumnV::Decimal75(_, _, v) => lemma_filter_seq_len(v, sel),
        ColumnV::TimestampTZ(_, _, v) => lemma_filter_seq_len(v, sel),
        ColumnV::VarChar(v) => lemma_filter_seq_len(v, sel),
        ColumnV::Scalar(v) => {
            lemma_filter_seq_len(v, sel);
            lemma_filter_field_subset(v, sel);
        },
        ColumnV::Bytes(v) => lemma_filter_seq_len(v, sel),
    }
}

/// Every element a filter keeps was an element of the source sequence.
proof fn lemma_filter_field_subset(
    v: Seq<crate::field::FieldElement>,
    sel: Seq<bool>,
)
    requires
        v.len() == sel.len(),
        forall|i: int| 0 <= i < v.len() ==> (#[trigger] v[i]).inv(),
    ensures
        forall|j: int|
            0 <= j < filter_seq(v, sel).len() ==> (#[trigger] filter_seq(v, sel)[j]).inv(),
    decreases v.len(),
{
    if v.len() > 0 {
        assert(forall|i: int|
            0 <= i < v.drop_first().len() ==> (#[trigger] v.drop_first()[i]).inv());
        lemma_filter_field_subset(v.drop_first(), sel.drop_first());
        let rest = filter_seq(v.drop_first(), sel.drop_first());
        if sel[0] {
            assert(filter_seq(v, sel) == seq![v[0]] + rest);
            assert forall|j: int| 0 <= j < filter_seq(v, sel).len() implies (#[trigger] filter_seq(
                v,
                sel,
            )[j]).inv() by {
                if j == 0 {
                    assert(filter_seq(v, sel)[0] == v[0]);
                } else {
                    assert(filter_seq(v, sel)[j] == rest[j - 1]);
                }
            }
        } else {
            assert(filter_seq(v, sel) == rest);
        }
    }
}

/// Evaluating the plan and reading only its shape: the output columns'
/// count and order match the projection list, and the output row count is
/// the number of rows the predicate selected. This restates the plan
/// contract at the specification level.
pub proof fn lemma_plan_output_shape(plan: ProofPlan, t: OwnedTable)
    requires
        plan.wf(),
        t.wf(),
        plan.spec_evaluate(t) is Ok,
    ensures
        plan.spec_evaluate(t)->Ok_0.len() == plan.aliased_results@.len(),
        forall|i: int|
            0 <= i < plan.aliased_results@.len() ==> (#[trigger] plan.spec_evaluate(t)->Ok_0[i]).len()
                == count_true(plan.spec_selection(t)->Ok_0),
{
    let sel = plan.spec_selection(t)->Ok_0;
    lemma_eval_len(plan.where_clause, t);
    lemma_eval_outputs_shape(plan.aliased_results@, t, sel);
}

/// The outputs of a projection list are as many as its expressions, each
/// with the selected row count.
proof fn lemma_eval_outputs_shape(exprs: Seq<AliasedDynProofExpr>, t: OwnedTable, sel: Seq<bool>)
    requires
        t.wf(),
        sel.len() == t.spec_num_rows(),
        forall|i: int| 0 <= i < exprs.len() ==> (#[trigger] exprs[i]).expr.wf(),
        spec_eval_outputs(exprs, t, sel) is Ok,
    ensures
        spec_eval_outputs(exprs, t, sel)->Ok_0.len() == exprs.len(),
        forall|i: int|
            0 <= i < exprs.len() ==> (#[trigger] spec_eval_outputs(exprs, t, sel)->Ok_0[i]).len()
                == count_true(sel),
    decreases exprs.len(),
{
    if exprs.len() > 0 {
        match exprs[0].expr.spec_evaluate(t) {
            Err(e) => {},
            Ok(c) => {
                lemma_eval_len(exprs[0].expr, t);
                lemma_filtered_len_inv(c, sel);
                lemma_eval_outputs_shape(exprs.drop_first(), t, sel);
            },
        }
    }
}

} // verus!
