//! The provable expression tree.
//!
//! An expression is a closed tagged variant over node kinds; each node's
//! declared type is fixed when the node is built, and building rejects
//! children whose types do not fit the operation. Evaluation over a table
//! either returns a column of the declared type and the table's row count,
//! or the exact error the specification rules assign.

use vstd::prelude::*;
use crate::column::{
    deep_bytes, deep_strs, ColumnType, ColumnV, LiteralValue, OwnedColumn, OwnedTable,
};
use crate::scaling::{
    scale_value_i128, scaling_factor, spec_scale_value, spec_scaling_factor, spec_target_bound,
    ConstructionError, EvalError, ScalingFactor,
};

verus! {

/// A reference to one column of the plan's table: its position and its
/// declared type.
#[derive(Clone, Copy, Debug, PartialEq, Eq, Structural)]
pub struct ColumnRef {
    pub index: usize,
    pub column_type: ColumnType,
}

/// A constant column: one literal repeated over every row.
#[derive(Clone, Debug, PartialEq, Eq)]
pub struct LiteralExpr {
    pub value: LiteralValue,
}

impl LiteralExpr {
    /// Wraps a literal value as an expression node.
    pub fn new(value: LiteralValue) -> (r: LiteralExpr)
        ensures
            r.value == value,
    {
        LiteralExpr { value }
    }
}

/// An exact scaling cast of a child expression to a target type.
#[derive(Debug, PartialEq, Eq)]
pub struct ScalingCastExpr {
    pub child: Box<DynProofExpr>,
    pub to_type: ColumnType,
    pub factor: ScalingFactor,
}

/// The boolean negation of a child expression.
#[derive(Debug, PartialEq, Eq)]
pub struct NotExpr {
    pub child: Box<DynProofExpr>,
}

/// One provable expression node.
#[derive(Debug, PartialEq, Eq)]
pub enum DynProofExpr {
    Column(ColumnRef),
    Literal(LiteralExpr),
    ScalingCast(ScalingCastExpr),
    Not(NotExpr),
}

/// The constant column a literal denotes over a given row count.
pub open spec fn spec_const_column(v: LiteralValue, n: nat) -> ColumnV {
    match v {
        LiteralValue::Boolean(x) => ColumnV::Boolean(Seq::new(n, |i: int| x)),
        LiteralValue::Uint8(x) => ColumnV::Uint8(Seq::new(n, |i: int| x)),
        LiteralValue::TinyInt(x) => ColumnV::TinyInt(Seq::new(n, |i: int| x)),
        LiteralValue::SmallInt(x) => ColumnV::SmallInt(Seq::new(n, |i: int| x)),
        LiteralValue::Int(x) => ColumnV::Int(Seq::new(n, |i: int| x)),
        LiteralValue::BigInt(x) => ColumnV::BigInt(Seq::new(n, |i: int| x)),
        LiteralValue::Int128(x) => ColumnV::Int128(Seq::new(n, |i: int| x)),
        LiteralValue::Decimal75(p, s, x) => ColumnV::Decimal75(p, s, Seq::new(n, |i: int| x)),
        LiteralValue::TimestampTZ(u, z, x) => ColumnV::TimestampTZ(u, z, Seq::new(n, |i: int| x)),
        LiteralValue::VarChar(s) => ColumnV::VarChar(Seq::new(n, |i: int| s@)),
        LiteralValue::Scalar(x) => ColumnV::Scalar(Seq::new(n, |i: int| x)),
        LiteralValue::Bytes(b) => ColumnV::Bytes(Seq::new(n, |i: int| b@)),
    }
}

/// The raw integer contents of a numeric column: machine integers widened,
/// decimal mantissas as they stand. Nothing for other kinds.
pub open spec fn numeric_vals_v(c: ColumnV) -> Option<Seq<int>> {
    match c {
        ColumnV::Uint8(v) => Some(v.map_values(|x: u8| x as int)),
        ColumnV::TinyInt(v) => Some(v.map_values(|x: i8| x as int)),
        ColumnV::SmallInt(v) => Some(v.map_values(|x: i16| x as int)),
        ColumnV::Int(v) => Some(v.map_values(|x: i32| x as int)),
        ColumnV::BigInt(v) => Some(v.map_values(|x: i64| x as int)),
        ColumnV::Int128(v) => Some(v.map_values(|x: i128| x as int)),
        ColumnV::Decimal75(_, _, v) => Some(v.map_values(|x: i128| x as int)),
        _ => None,
    }
}

/// Every value of a sequence scaled by one factor, or the first error.
pub open spec fn spec_scale_seq(vs: Seq<int>, f: ScalingFactor, bound: int) -> Result<
    Seq<int>,
    EvalError,
>
    decreases vs.len(),
{
    if vs.len() == 0 {
        Ok(Seq::empty())
    } else {
        match spec_scale_value(vs[0], f, bound) {
            Err(e) => Err(e),
            Ok(w) => match spec_scale_seq(vs.drop_first(), f, bound) {
                Err(e) => Err(e),
                Ok(rest) => Ok(seq![w] + rest),
            },
        }
    }
}

/// Extending the inputs extends the outputs, or surfaces the first error.
pub proof fn lemma_scale_seq_push(vs: Seq<int>, x: int, f: ScalingFactor, bound: int)
    ensures
        spec_scale_seq(vs.push(x), f, bound) == match spec_scale_seq(vs, f, bound) {
            Err(e) => Err::<Seq<int>, EvalError>(e),
            Ok(ws) => match spec_scale_value(x, f, bound) {
                Err(e) => Err::<Seq<int>, EvalError>(e),
                Ok(w) => Ok::<Seq<int>, EvalError>(ws.push(w)),
            },
        },
    decreases vs.len(),
{
    if vs.len() == 0 {
        assert(vs.push(x)[0] == x);
        assert(vs.push(x).drop_first() =~= Seq::<int>::empty());
        match spec_scale_value(x, f, bound) {
            Err(e) => {},
            Ok(w) => {
                assert(spec_scale_seq(vs.push(x), f, bound) == Ok::<Seq<int>, EvalError>(
                    seq![w] + Seq::<int>::empty(),
                ));
                assert(seq![w] + Seq::<int>::empty() =~= Seq::<int>::empty().push(w));
            },
        }
    } else {
        assert(vs.push(x).drop_first() =~= vs.drop_first().push(x));
        assert(vs.push(x)[0] == vs[0]);
        lemma_scale_seq_push(vs.drop_first(), x, f, bound);
        match spec_scale_value(vs[0], f, bound) {
            Err(e) => {},
            Ok(w0) => {
                match spec_scale_seq(vs.drop_first(), f, bound) {
                    Err(e) => {},
                    Ok(rest) => {
                        match spec_scale_value(x, f, bound) {
                            Err(e) => {},
                            Ok(w) => {
                                assert(seq![w0] + rest.push(w) =~= (seq![w0] + rest).push(w));
                            },
                        }
                    },
                }
            },
        }
    }
}

/// An error in a prefix is the error of the whole sequence.
pub proof fn lemma_scale_seq_err_extends(vs: Seq<int>, k: int, f: ScalingFactor, bound: int)
    requires
        0 <= k <= vs.len(),
        spec_scale_seq(vs.take(k), f, bound) is Err,
    ensures
        spec_scale_seq(vs, f, bound) == spec_scale_seq(vs.take(k), f, bound),
    decreases vs.len(),
{
    assert(k > 0);
    assert(vs.take(k)[0] == vs[0]);
    match spec_scale_value(vs[0], f, bound) {
        Err(e) => {},
        Ok(w) => {
            assert(vs.take(k).drop_first() =~= vs.drop_first().take(k - 1));
            lemma_scale_seq_err_extends(vs.drop_first(), k - 1, f, bound);
        },
    }
}

/// A scaled sequence keeps its length.
pub proof fn lemma_scale_seq_len(vs: Seq<int>, f: ScalingFactor, bound: int)
    requires
        spec_scale_seq(vs, f, bound) is Ok,
    ensures
        spec_scale_seq(vs, f, bound)->Ok_0.len() == vs.len(),
    decreases vs.len(),
{
    if vs.len() > 0 {
        match spec_scale_value(vs[0], f, bound) {
            Err(e) => {},
            Ok(w) => {
                lemma_scale_seq_len(vs.drop_first(), f, bound);
            },
        }
    }
}

/// A column scaled to a target type: the §4.2 rule applied to every value.
pub open spec fn spec_scale_column(c: ColumnV, to: ColumnType, f: ScalingFactor) -> Result<
    ColumnV,
    EvalError,
> {
    match to {
        ColumnType::Decimal75(p, s) => {
            match numeric_vals_v(c) {
                Option::None => Err(EvalError::TypeMismatch),
                Option::Some(vs) => match spec_scale_seq(vs, f, spec_target_bound(to)) {
                    Err(e) => Err(e),
                    Ok(ws) => Ok(
                        ColumnV::Decimal75(p, s, ws.map_values(|w: int| w as i128)),
                    ),
                },
            }
        },
        ColumnType::TimestampTZ(u, z) => {
            match c {
                ColumnV::TimestampTZ(_, _, v) => {
                    let vs = v.map_values(|x: i64| x as int);
                    match spec_scale_seq(vs, f, spec_target_bound(to)) {
                        Err(e) => Err(e),
                        Ok(ws) => Ok(ColumnV::TimestampTZ(u, z, ws.map_values(|w: int| w as i64))),
                    }
                },
                _ => Err(EvalError::TypeMismatch),
            }
        },
        _ => Err(EvalError::TypeMismatch),
    }
}

impl DynProofExpr {
    /// The declared type of this node, fixed at construction.
    pub open spec fn spec_data_type(self) -> ColumnType
        decreases self,
    {
        match self {
            DynProofExpr::Column(c) => c.column_type,
            DynProofExpr::Literal(l) => l.value.spec_column_type(),
            DynProofExpr::ScalingCast(sc) => sc.to_type,
            DynProofExpr::Not(_) => ColumnType::Boolean,
        }
    }

    /// A tree is well formed when every cast's stored factor is the exact
    /// rule between its child's type and its target type, every negation
    /// sits over a boolean child, and every literal is itself well formed.
    pub open spec fn wf(self) -> bool
        decreases self,
    {
        match self {
            DynProofExpr::Column(_) => true,
            DynProofExpr::Literal(l) => l.value.inv(),
            DynProofExpr::ScalingCast(sc) => {
                &&& sc.child.wf()
                &&& spec_scaling_factor(sc.child.spec_data_type(), sc.to_type) == Ok::<
                    ScalingFactor,
                    ConstructionError,
                >(sc.factor)
            },
            DynProofExpr::Not(n) => {
                &&& n.child.wf()
                &&& n.child.spec_data_type() == ColumnType::Boolean
            },
        }
    }

    /// What this node evaluates to over a table: a column of the declared
    /// type, or the exact error.
    pub open spec fn spec_evaluate(self, t: OwnedTable) -> Result<ColumnV, EvalError>
        decreases self,
    {
        match self {
            DynProofExpr::Column(c) => {
                if c.index >= t.spec_columns().len() {
                    Err(EvalError::UnknownColumn)
                } else if t.spec_columns()[c.index as int].1@.ctype() != c.column_type {
                    Err(EvalError::TypeMismatch)
                } else {
                    Ok(t.spec_columns()[c.index as int].1@)
                }
            },
            DynProofExpr::Literal(l) => Ok(spec_const_column(l.value, t.spec_num_rows())),
            DynProofExpr::ScalingCast(sc) => {
                match sc.child.spec_evaluate(t) {
                    Err(e) => Err(e),
                    Ok(c) => spec_scale_column(c, sc.to_type, sc.factor),
                }
            },
            DynProofExpr::Not(n) => {
                match n.child.spec_evaluate(t) {
                    Err(e) => Err(e),
                    Ok(c) => match c {
                        ColumnV::Boolean(bs) => Ok(
                            ColumnV::Boolean(bs.map_values(|b: bool| !b)),
                        ),
                        _ => Err(EvalError::TypeMismatch),
                    },
                }
            },
        }
    }

    /// The declared type of this node.
    pub fn data_type(&self) -> (r: ColumnType)
        ensures
            r == self.spec_data_type(),
    {
        match self {
            DynProofExpr::Column(c) => c.column_type,
            DynProofExpr::Literal(l) => l.value.column_type(),
            DynProofExpr::ScalingCast(sc) => sc.to_type,
            DynProofExpr::Not(_) => ColumnType::Boolean,
        }
    }

    /// Builds a scaling cast over a child, rejecting a target the child's
    /// type has no exact rule to, with the error naming both types.
    pub fn try_new_scaling_cast(child: DynProofExpr, to_type: ColumnType) -> (r: Result<
        DynProofExpr,
        ConstructionError,
    >)
        ensures
            r is Ok <==> spec_scaling_factor(child.spec_data_type(), to_type) is Ok,
            r is Ok ==> r->Ok_0 == DynProofExpr::ScalingCast(
                ScalingCastExpr {
                    child: Box::new(child),
                    to_type,
                    factor: spec_scaling_factor(child.spec_data_type(), to_type)->Ok_0,
                },
            ),
            r is Ok && child.wf() ==> r->Ok_0.wf(),
            r is Err ==> r->Err_0 == spec_scaling_factor(child.spec_data_type(), to_type)->Err_0,
    {
        let from = child.data_type();
        match scaling_factor(from, to_type) {
            Ok(factor) => Ok(
                DynProofExpr::ScalingCast(
                    ScalingCastExpr { child: Box::new(child), to_type, factor },
                ),
            ),
            Err(e) => Err(e),
        }
    }

    /// Builds a boolean negation, rejecting a non-boolean child.
    pub fn try_new_not(child: DynProofExpr) -> (r: Result<DynProofExpr, ConstructionError>)
        ensures
            r is Ok <==> child.spec_data_type() == ColumnType::Boolean,
            r is Ok ==> r->Ok_0 == DynProofExpr::Not(NotExpr { child: Box::new(child) }),
            r is Ok && child.wf() ==> r->Ok_0.wf(),
            r is Err ==> r->Err_0 == ConstructionError::IncompatibleTypes(
                child.spec_data_type(),
                ColumnType::Boolean,
            ),
    {
        let dt = child.data_type();
        if dt == ColumnType::Boolean {
            Ok(DynProofExpr::Not(NotExpr { child: Box::new(child) }))
        } else {
            Err(ConstructionError::IncompatibleTypes(dt, ColumnType::Boolean))
        }
    }

    /// Evaluates this node over a table, row by row.
    pub fn evaluate(&self, t: &OwnedTable) -> (r: Result<OwnedColumn, EvalError>)
        requires
            self.wf(),
        ensures
            match r {
                Ok(c) => self.spec_evaluate(*t) == Ok::<ColumnV, EvalError>(c@),
                Err(e) => self.spec_evaluate(*t) == Err::<ColumnV, EvalError>(e),
            },
        decreases self,
    {
        match self {
            DynProofExpr::Column(c) => {
                if c.index >= t.num_columns() {
                    Err(EvalError::UnknownColumn)
                } else {
                    let col = t.column_at(c.index);
                    if col.column_type() != c.column_type {
                        Err(EvalError::TypeMismatch)
                    } else {
                        Ok(col.clone())
                    }
                }
            },
            DynProofExpr::Literal(l) => Ok(const_column(&l.value, t.num_rows())),
            DynProofExpr::ScalingCast(sc) => {
                proof {
                    crate::scaling::lemma_scaling_factor_inv(
                        sc.child.spec_data_type(),
                        sc.to_type,
                    );
                }
                match sc.child.evaluate(t) {
                    Err(e) => Err(e),
                    Ok(c) => scale_column(&c, sc.to_type, sc.factor),
                }
            },
            DynProofExpr::Not(n) => {
                match n.child.evaluate(t) {
                    Err(e) => Err(e),
                    Ok(c) => match c {
                        OwnedColumn::Boolean(bs) => Ok(OwnedColumn::Boolean(not_bools(&bs))),
                        _ => Err(EvalError::TypeMismatch),
                    },
                }
            },
        }
    }
}

/// Negates every entry of a boolean column.
fn not_bools(v: &Vec<bool>) -> (r: Vec<bool>)
    ensures
        r@ == v@.map_values(|b: bool| !b),
{
    let mut out: Vec<bool> = Vec::new();
    let mut i: usize = 0;
    while i < v.len()
        invariant
            i <= v@.len(),
            out@.len() == i,
            forall|j: int| 0 <= j < i ==> out@[j] == !v@[j],
        decreases v@.len() - i,
    {
        out.push(!v[i]);
        i = i + 1;
    }
    proof {
        assert(out@ =~= v@.map_values(|b: bool| !b));
    }
    out
}

/// Repeats one copyable value over a column of the given length.
fn repeat_copy<T: Copy>(x: T, n: usize) -> (r: Vec<T>)
    ensures
        r@ == Seq::new(n as nat, |i: int| x),
{
    let mut out: Vec<T> = Vec::new();
    let mut i: usize = 0;
    while i < n
        invariant
            i <= n,
            out@.len() == i,
            forall|j: int| 0 <= j < i ==> out@[j] == x,
        decreases n - i,
    {
        out.push(x);
        i = i + 1;
    }
    proof {
        assert(out@ =~= Seq::new(n as nat, |i: int| x));
    }
    out
}

/// Repeats one string over a column of the given length.
fn repeat_string(s: &String, n: usize) -> (r: Vec<String>)
    ensures
        deep_strs(r@) == Seq::new(n as nat, |i: int| s@),
{
    let mut out: Vec<String> = Vec::new();
    let mut i: usize = 0;
    while i < n
        invariant
            i <= n,
            out@.len() == i,
            forall|j: int| 0 <= j < i ==> out@[j]@ == s@,
        decreases n - i,
    {
        out.push(s.clone());
        i = i + 1;
    }
    proof {
        assert(deep_strs(out@) =~= Seq::new(n as nat, |i: int| s@));
    }
    out
}

/// Repeats one byte string over a column of the given length.
fn repeat_bytes(b: &Vec<u8>, n: usize) -> (r: Vec<Vec<u8>>)
    ensures
        deep_bytes(r@) == Seq::new(n as nat, |i: int| b@),
{
    let mut out: Vec<Vec<u8>> = Vec::new();
    let mut i: usize = 0;
    while i < n
        invariant
            i <= n,
            out@.len() == i,
            forall|j: int| 0 <= j < i ==> out@[j]@ == b@,
        decreases n - i,
    {
        let copied = crate::column::copy_bytes(b);
        out.push(copied);
        i = i + 1;
    }
    proof {
        assert(deep_bytes(out@) =~= Seq::new(n as nat, |i: int| b@));
    }
    out
}

/// The constant column a literal denotes over a given row count.
pub fn const_column(v: &LiteralValue, n: usize) -> (r: OwnedColumn)
    ensures
        r@ == spec_const_column(*v, n as nat),
{
    match v {
        LiteralValue::Boolean(x) => OwnedColumn::Boolean(repeat_copy(*x, n)),
        LiteralValue::Uint8(x) => OwnedColumn::Uint8(repeat_copy(*x, n)),
        LiteralValue::TinyInt(x) => OwnedColumn::TinyInt(repeat_copy(*x, n)),
        LiteralValue::SmallInt(x) => OwnedColumn::SmallInt(repeat_copy(*x, n)),
        LiteralValue::Int(x) => OwnedColumn::Int(repeat_copy(*x, n)),
        LiteralValue::BigInt(x) => OwnedColumn::BigInt(repeat_copy(*x, n)),
        LiteralValue::Int128(x) => OwnedColumn::Int128(repeat_copy(*x, n)),
        LiteralValue::Decimal75(p, s, x) => OwnedColumn::Decimal75(*p, *s, repeat_copy(*x, n)),
        LiteralValue::TimestampTZ(u, z, x) => OwnedColumn::TimestampTZ(
            *u,
            *z,
            repeat_copy(*x, n),
        ),
        LiteralValue::VarChar(s) => OwnedColumn::VarChar(repeat_string(s, n)),
        LiteralValue::Scalar(x) => OwnedColumn::Scalar(repeat_copy(*x, n)),
        LiteralValue::Bytes(b) => OwnedColumn::Bytes(repeat_bytes(b, n)),
    }
}

/// The raw integer contents of a numeric column, widened to 128 bits, or a
/// type-mismatch error for any other kind.
fn numeric_vals(col: &OwnedColumn) -> (r: Result<Vec<i128>, EvalError>)
    ensures
        match r {
            Ok(v) => numeric_vals_v(col@) == Some(v@.map_values(|x: i128| x as int)),
            Err(e) => numeric_vals_v(col@) is None && e == EvalError::TypeMismatch,
        },
{
    match col {
        OwnedColumn::Uint8(v) => {
            let w = widen_u8(v);
            proof {
                assert(w@.map_values(|x: i128| x as int) =~= v@.map_values(|x: u8| x as int));
            }
            Ok(w)
        },
        OwnedColumn::TinyInt(v) => {
            let w = widen_i8(v);
            proof {
                assert(w@.map_values(|x: i128| x as int) =~= v@.map_values(|x: i8| x as int));
            }
            Ok(w)
        },
        OwnedColumn::SmallInt(v) => {
            let w = widen_i16(v);
            proof {
                assert(w@.map_values(|x: i128| x as int) =~= v@.map_values(|x: i16| x as int));
            }
            Ok(w)
        },
        OwnedColumn::Int(v) => {
            let w = widen_i32(v);
            proof {
                assert(w@.map_values(|x: i128| x as int) =~= v@.map_values(|x: i32| x as int));
            }
            Ok(w)
        },
        OwnedColumn::BigInt(v) => {
            let w = widen_i64(v);
            proof {
                assert(w@.map_values(|x: i128| x as int) =~= v@.map_values(|x: i64| x as int));
            }
            Ok(w)
        },
        OwnedColumn::Int128(v) => {
            let w = copy_i128(v);
            Ok(w)
        },
        OwnedColumn::Decimal75(_, _, v) => {
            let w = copy_i128(v);
            Ok(w)
        },
        _ => Err(EvalError::TypeMismatch),
    }
}

/// Copies a 128-bit column element by element.
fn copy_i128(v: &Vec<i128>) -> (r: Vec<i128>)
    ensures
        r@ == v@,
{
    let mut out: Vec<i128> = Vec::new();
    let mut i: usize = 0;
    while i < v.len()
        invariant
            i <= v@.len(),
            out@ == v@.subrange(0, i as int),
        decreases v@.len() - i,
    {
        out.push(v[i]);
        proof {
            assert(v@.subrange(0, i + 1) =~= v@.subrange(0, i as int).push(v@[i as int]));
        }
        i = i + 1;
    }
    proof {
        assert(v@.subrange(0, v@.len() as int) =~= v@);
    }
    out
}

/// Widens a byte column to 128-bit values.
fn widen_u8(v: &Vec<u8>) -> (r: Vec<i128>)
    ensures
        r@.len() == v@.len(),
        forall|j: int| 0 <= j < v@.len() ==> r@[j] as int == v@[j] as int,
{
    let mut out: Vec<i128> = Vec::new();
    let mut i: usize = 0;
    while i < v.len()
        invariant
            i <= v@.len(),
            out@.len() == i,
            forall|j: int| 0 <= j < i ==> out@[j] as int == v@[j] as int,
        decreases v@.len() - i,
    {
        out.push(v[i] as i128);
        i = i + 1;
    }
    out
}

/// Widens a tiny-integer column to 128-bit values.
fn widen_i8(v: &Vec<i8>) -> (r: Vec<i128>)
    ensures
        r@.len() == v@.len(),
        forall|j: int| 0 <= j < v@.len() ==> r@[j] as int == v@[j] as int,
{
    let mut out: Vec<i128> = Vec::new();
    let mut i: usize = 0;
    while i < v.len()
        invariant
            i <= v@.len(),
            out@.len() == i,
            forall|j: int| 0 <= j < i ==> out@[j] as int == v@[j] as int,
        decreases v@.len() - i,
    {
        out.push(v[i] as i128);
        i = i + 1;
    }
    out
}

/// Widens a small-integer column to 128-bit values.
fn widen_i16(v: &Vec<i16>) -> (r: Vec<i128>)
    ensures
        r@.len() == v@.len(),
        forall|j: int| 0 <= j < v@.len() ==> r@[j] as int == v@[j] as int,
{
    let mut out: Vec<i128> = Vec::new();
    let mut i: usize = 0;
    while i < v.len()
        invariant
            i <= v@.len(),
            out@.len() == i,
            forall|j: int| 0 <= j < i ==> out@[j] as int == v@[j] as int,
        decreases v@.len() - i,
    {
        out.push(v[i] as i128);
        i = i + 1;
    }
    out
}

/// Widens an integer column to 128-bit values.
fn widen_i32(v: &Vec<i32>) -> (r: Vec<i128>)
    ensures
        r@.len() == v@.len(),
        forall|j: int| 0 <= j < v@.len() ==> r@[j] as int == v@[j] as int,
{
    let mut out: Vec<i128> = Vec::new();
    let mut i: usize = 0;
    while i < v.len()
        invariant
            i <= v@.len(),
            out@.len() == i,
            forall|j: int| 0 <= j < i ==> out@[j] as int == v@[j] as int,
        decreases v@.len() - i,
    {
        out.push(v[i] as i128);
        i = i + 1;
    }
    out
}

/// Widens a big-integer column to 128-bit values.
fn widen_i64(v: &Vec<i64>) -> (r: Vec<i128>)
    ensures
        r@.len() == v@.len(),
        forall|j: int| 0 <= j < v@.len() ==> r@[j] as int == v@[j] as int,
{
    let mut out: Vec<i128> = Vec::new();
    let mut i: usize = 0;
    while i < v.len()
        invariant
            i <= v@.len(),
            out@.len() == i,
            forall|j: int| 0 <= j < i ==> out@[j] as int == v@[j] as int,
        decreases v@.len() - i,
    {
        out.push(v[i] as i128);
        i = i + 1;
    }
    out
}

/// Scales every value of a widened column by one factor, reporting the
/// first value's error exactly as the specification rule does.
fn scale_vals(vs: &Vec<i128>, f: ScalingFactor, bound: u128) -> (r: Result<Vec<i128>, EvalError>)
    requires
        f.inv(),
        bound >= 1,
        bound <= i128::MAX as u128 + 1,
    ensures
        match r {
            Ok(ws) => spec_scale_seq(vs@.map_values(|x: i128| x as int), f, bound as int) == Ok::<
                Seq<int>,
                EvalError,
            >(ws@.map_values(|x: i128| x as int)),
            Err(e) => spec_scale_seq(vs@.map_values(|x: i128| x as int), f, bound as int) == Err::<
                Seq<int>,
                EvalError,
            >(e),
        },
{
    let ghost ivs = vs@.map_values(|x: i128| x as int);
    let mut out: Vec<i128> = Vec::new();
    let mut i: usize = 0;
    proof {
        assert(ivs.take(0) =~= Seq::<int>::empty());
        assert(out@.map_values(|x: i128| x as int) =~= Seq::<int>::empty());
    }
    while i < vs.len()
        invariant
            i <= vs@.len(),
            f.inv(),
            bound >= 1,
            bound <= i128::MAX as u128 + 1,
            ivs == vs@.map_values(|x: i128| x as int),
            spec_scale_seq(ivs.take(i as int), f, bound as int) == Ok::<Seq<int>, EvalError>(
                out@.map_values(|x: i128| x as int),
            ),
        decreases vs@.len() - i,
    {
        proof {
            assert(ivs.take(i + 1) =~= ivs.take(i as int).push(ivs[i as int]));
            lemma_scale_seq_push(ivs.take(i as int), ivs[i as int], f, bound as int);
        }
        match scale_value_i128(vs[i], f, bound) {
            Err(e) => {
                proof {
                    lemma_scale_seq_err_extends(ivs, i + 1, f, bound as int);
                }
                return Err(e);
            },
            Ok(w) => {
                let ghost prev = out@;
                out.push(w);
                proof {
                    assert(out@.map_values(|x: i128| x as int) =~= prev.map_values(
                        |x: i128| x as int,
                    ).push(w as int));
                }
            },
        }
        i = i + 1;
    }
    proof {
        assert(ivs.take(vs@.len() as int) =~= ivs);
    }
    Ok(out)
}

/// Narrows scaled timestamp counts back to 64-bit values; every value lies
/// within the timestamp bound by construction.
fn narrow_i64(vs: Vec<i128>) -> (r: Vec<i64>)
    requires
        forall|j: int| 0 <= j < vs@.len() ==> i64::MIN <= (#[trigger] vs@[j]) <= i64::MAX,
    ensures
        r@.len() == vs@.len(),
        forall|j: int| 0 <= j < vs@.len() ==> r@[j] as int == vs@[j] as int,
{
    let mut out: Vec<i64> = Vec::new();
    let mut i: usize = 0;
    while i < vs.len()
        invariant
            i <= vs@.len(),
            out@.len() == i,
            forall|j: int| 0 <= j < vs@.len() ==> i64::MIN <= (#[trigger] vs@[j]) <= i64::MAX,
            forall|j: int| 0 <= j < i ==> out@[j] as int == vs@[j] as int,
        decreases vs@.len() - i,
    {
        out.push(vs[i] as i64);
        i = i + 1;
    }
    out
}

/// Applies the exact scaling rule to a whole column.
pub fn scale_column(col: &OwnedColumn, to: ColumnType, f: ScalingFactor) -> (r: Result<
    OwnedColumn,
    EvalError,
>)
    requires
        f.inv(),
    ensures
        match r {
            Ok(c) => spec_scale_column(col@, to, f) == Ok::<ColumnV, EvalError>(c@),
            Err(e) => spec_scale_column(col@, to, f) == Err::<ColumnV, EvalError>(e),
        },
{
    match to {
        ColumnType::Decimal75(p, s) => {
            match numeric_vals(col) {
                Err(e) => Err(e),
                Ok(vs) => {
                    let bound = decimal_bound(p.value());
                    match scale_vals(&vs, f, bound) {
                        Err(e) => Err(e),
                        Ok(ws) => {
                            proof {
                                assert(ws@.map_values(|x: i128| x as int).map_values(
                                    |w: int| w as i128,
                                ) =~= ws@);
                            }
                            Ok(OwnedColumn::Decimal75(p, s, ws))
                        },
                    }
                },
            }
        },
        ColumnType::TimestampTZ(u, z) => {
            match col {
                OwnedColumn::TimestampTZ(_, _, v) => {
                    let vs = widen_i64(v);
                    proof {
                        assert(vs@.map_values(|x: i128| x as int) =~= v@.map_values(
                            |x: i64| x as int,
                        ));
                    }
                    let bound: u128 = (i64::MAX as u128) + 1;
                    match scale_vals(&vs, f, bound) {
                        Err(e) => Err(e),
                        Ok(ws) => {
                            proof {
                                let ivs = vs@.map_values(|x: i128| x as int);
                                lemma_scale_seq_in_bound(ivs, f, bound as int);
                                assert forall|j: int| 0 <= j < ws@.len() implies i64::MIN <= (
                                #[trigger] ws@[j]) <= i64::MAX by {
                                    assert(spec_scale_seq(ivs, f, bound as int)->Ok_0[j] == ws@[j]
                                        as int);
                                }
                            }
                            let narrowed = narrow_i64(ws);
                            proof {
                                assert(narrowed@.map_values(|x: i64| x as int) =~= ws@.map_values(
                                    |x: i128| x as int,
                                ));
                                assert(ws@.map_values(|x: i128| x as int).map_values(
                                    |w: int| w as i64,
                                ) =~= narrowed@);
                            }
                            Ok(OwnedColumn::TimestampTZ(u, z, narrowed))
                        },
                    }
                },
                _ => Err(EvalError::TypeMismatch),
            }
        },
        _ => Err(EvalError::TypeMismatch),
    }
}

/// Every successfully scaled value lies strictly within the bound.
proof fn lemma_scale_seq_in_bound(vs: Seq<int>, f: ScalingFactor, bound: int)
    requires
        spec_scale_seq(vs, f, bound) is Ok,
    ensures
        forall|j: int|
            0 <= j < spec_scale_seq(vs, f, bound)->Ok_0.len() ==> -bound < (
            #[trigger] spec_scale_seq(vs, f, bound)->Ok_0[j]) < bound,
    decreases vs.len(),
{
    if vs.len() > 0 {
        match spec_scale_value(vs[0], f, bound) {
            Err(e) => {},
            Ok(w) => {
                lemma_scale_seq_in_bound(vs.drop_first(), f, bound);
            },
        }
    }
}

/// The magnitude bound of a decimal target: ten to the precision while that
/// fits 128 bits, and one past the 128-bit maximum beyond.
fn decimal_bound(p: u8) -> (r: u128)
    ensures
        p <= 38 ==> r as int == crate::scaling::pow10(p as nat),
        p > 38 ==> r as int == i128::MAX as int + 1,
        1 <= r <= i128::MAX as u128 + 1,
{
    if p <= 38 {
        proof {
            crate::scaling::lemma_pow10_mono(p as nat, 38nat);
            crate::scaling::lemma_pow10_38();
        }
        crate::scaling::pow10_i128(p as u32) as u128
    } else {
        (i128::MAX as u128) + 1
    }
}

} // verus!
