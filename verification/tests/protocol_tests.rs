use proof_of_sql::column::{
    ColumnType, LiteralValue, OwnedColumn, OwnedTable, PoSQLTimeUnit, PoSQLTimeZone, Precision,
    TableRef,
};
use proof_of_sql::expr::{ColumnRef, DynProofExpr, LiteralExpr};
use proof_of_sql::plan::{AliasedDynProofExpr, ProofPlan};
use proof_of_sql::protocol::{commitment_accessor_of, VerifiableQueryResult};

fn table(cols: Vec<(&str, OwnedColumn)>) -> OwnedTable {
    OwnedTable::try_new(
        cols.into_iter().map(|(n, c)| (n.to_string(), c)).collect(),
    )
    .unwrap()
}

fn cast_plan(t: &TableRef, casts: Vec<(usize, ColumnType, ColumnType, &str)>) -> ProofPlan {
    let aliased = casts
        .into_iter()
        .map(|(index, from, to, alias)| AliasedDynProofExpr {
            expr: DynProofExpr::try_new_scaling_cast(
                DynProofExpr::Column(ColumnRef { index, column_type: from }),
                to,
            )
            .unwrap(),
            alias: alias.to_string(),
        })
        .collect();
    ProofPlan::try_new(
        aliased,
        TableRef::new(t.schema().clone(), t.name().clone()),
        DynProofExpr::Literal(LiteralExpr::new(LiteralValue::Boolean(true))),
    )
    .unwrap()
}

fn dec(p: u8, s: i8) -> ColumnType {
    ColumnType::Decimal75(Precision::new(p).unwrap(), s)
}

#[test]
fn we_can_prove_a_simple_scale_cast_expr_from_int_to_decimal() {
    let data = table(vec![
        ("a", OwnedColumn::TinyInt(vec![1])),
        ("b", OwnedColumn::Uint8(vec![1])),
        ("c", OwnedColumn::SmallInt(vec![1i16])),
        ("d", OwnedColumn::Int(vec![1i32])),
        ("e", OwnedColumn::BigInt(vec![1i64])),
        ("f", OwnedColumn::Int128(vec![1i128])),
    ]);
    let t = TableRef::new("sxt".to_string(), "t".to_string());
    let ast = cast_plan(
        &t,
        vec![
            (0, ColumnType::TinyInt, dec(4, 1), "a_cast"),
            (1, ColumnType::Uint8, dec(4, 1), "b_cast"),
            (2, ColumnType::SmallInt, dec(6, 1), "c_cast"),
            (3, ColumnType::Int, dec(11, 1), "d_cast"),
            (4, ColumnType::BigInt, dec(20, 1), "e_cast"),
            (5, ColumnType::Int128, dec(40, 1), "f_cast"),
        ],
    );
    let verifiable_res = VerifiableQueryResult::new(&ast, &data).unwrap();
    let accessor = commitment_accessor_of(&data);
    let res = verifiable_res.verify(&ast, &accessor).unwrap();
    let expected_res = table(vec![
        ("a_cast", OwnedColumn::Decimal75(Precision::new(4).unwrap(), 1, vec![10])),
        ("b_cast", OwnedColumn::Decimal75(Precision::new(4).unwrap(), 1, vec![10])),
        ("c_cast", OwnedColumn::Decimal75(Precision::new(6).unwrap(), 1, vec![10])),
        ("d_cast", OwnedColumn::Decimal75(Precision::new(11).unwrap(), 1, vec![10])),
        ("e_cast", OwnedColumn::Decimal75(Precision::new(20).unwrap(), 1, vec![10])),
        ("f_cast", OwnedColumn::Decimal75(Precision::new(40).unwrap(), 1, vec![10])),
    ]);
    assert_eq!(res, expected_res);
}

#[test]
fn we_can_prove_a_simple_scale_cast_expr_from_decimal_to_decimal() {
    let data = table(vec![
        ("a", OwnedColumn::Decimal75(Precision::new(4).unwrap(), -2, vec![10])),
        ("b", OwnedColumn::Decimal75(Precision::new(4).unwrap(), 1, vec![1])),
        ("c", OwnedColumn::Decimal75(Precision::new(6).unwrap(), 0, vec![10])),
    ]);
    let t = TableRef::new("sxt".to_string(), "t".to_string());
    let ast = cast_plan(
        &t,
        vec![
            (0, dec(4, -2), dec(5, -1), "a_cast"),
            (1, dec(4, 1), dec(5, 2), "b_cast"),
            (2, dec(6, 0), dec(7, 0), "c_cast"),
        ],
    );
    let verifiable_res = VerifiableQueryResult::new(&ast, &data).unwrap();
    let accessor = commitment_accessor_of(&data);
    let res = verifiable_res.verify(&ast, &accessor).unwrap();
    let expected_res = table(vec![
        ("a_cast", OwnedColumn::Decimal75(Precision::new(5).unwrap(), -1, vec![100])),
        ("b_cast", OwnedColumn::Decimal75(Precision::new(5).unwrap(), 2, vec![10])),
        ("c_cast", OwnedColumn::Decimal75(Precision::new(7).unwrap(), 0, vec![10])),
    ]);
    assert_eq!(res, expected_res);
}

#[test]
fn we_can_prove_a_simple_scale_cast_expr_from_timestamp_to_timestamp() {
    let data = table(vec![(
        "a",
        OwnedColumn::TimestampTZ(PoSQLTimeUnit::Second, PoSQLTimeZone::new(0), vec![1]),
    )]);
    let t = TableRef::new("sxt".to_string(), "t".to_string());
    let ast = cast_plan(
        &t,
        vec![(
            0,
            ColumnType::TimestampTZ(PoSQLTimeUnit::Second, PoSQLTimeZone::new(0)),
            ColumnType::TimestampTZ(PoSQLTimeUnit::Millisecond, PoSQLTimeZone::new(0)),
            "a_cast",
        )],
    );
    let verifiable_res = VerifiableQueryResult::new(&ast, &data).unwrap();
    let accessor = commitment_accessor_of(&data);
    let res = verifiable_res.verify(&ast, &accessor).unwrap();
    let expected_res = table(vec![(
        "a_cast",
        OwnedColumn::TimestampTZ(PoSQLTimeUnit::Millisecond, PoSQLTimeZone::new(0), vec![1000]),
    )]);
    assert_eq!(res, expected_res);
}

fn one_cast_setup() -> (OwnedTable, ProofPlan) {
    let data = table(vec![("a", OwnedColumn::TinyInt(vec![1, 2, 3]))]);
    let t = TableRef::new("sxt".to_string(), "t".to_string());
    let ast = cast_plan(&t, vec![(0, ColumnType::TinyInt, dec(4, 1), "a_cast")]);
    (data, ast)
}

#[test]
fn tampering_with_a_commitment_byte_makes_verification_fail() {
    let (data, ast) = one_cast_setup();
    let mut vqr = VerifiableQueryResult::new(&ast, &data).unwrap();
    vqr.proof.input_commitments[0][0] ^= 1;
    let accessor = commitment_accessor_of(&data);
    assert!(vqr.verify(&ast, &accessor).is_err());
}

#[test]
fn tampering_with_the_selection_makes_verification_fail() {
    let (data, ast) = one_cast_setup();
    let mut vqr = VerifiableQueryResult::new(&ast, &data).unwrap();
    vqr.proof.selection[0] = false;
    let accessor = commitment_accessor_of(&data);
    assert!(vqr.verify(&ast, &accessor).is_err());
}

#[test]
fn tampering_with_any_artifact_eval_makes_verification_fail() {
    let (data, ast) = one_cast_setup();
    let baseline = VerifiableQueryResult::new(&ast, &data).unwrap();
    let n_evals = baseline.proof.node_evals.len();
    let accessor = commitment_accessor_of(&data);
    for k in 0..n_evals {
        let mut vqr = VerifiableQueryResult::new(&ast, &data).unwrap();
        let old = vqr.proof.node_evals[k].as_u64();
        vqr.proof.node_evals[k] = proof_of_sql::field::FieldElement::from_u64(old ^ 1);
        assert!(vqr.verify(&ast, &accessor).is_err());
    }
}

#[test]
fn tampering_with_any_fold_digest_byte_makes_verification_fail() {
    let (data, ast) = one_cast_setup();
    let accessor = commitment_accessor_of(&data);
    for k in 0..32 {
        let mut vqr = VerifiableQueryResult::new(&ast, &data).unwrap();
        vqr.proof.fold_digest[k] ^= 1;
        assert!(vqr.verify(&ast, &accessor).is_err());
    }
}

#[test]
fn tampering_with_an_output_value_makes_verification_fail() {
    let (data, ast) = one_cast_setup();
    let vqr = VerifiableQueryResult::new(&ast, &data).unwrap();
    let forged_table = table(vec![(
        "a_cast",
        OwnedColumn::Decimal75(Precision::new(4).unwrap(), 1, vec![10, 20, 31]),
    )]);
    let forged = VerifiableQueryResult { table: forged_table, proof: vqr.proof };
    let accessor = commitment_accessor_of(&data);
    assert!(forged.verify(&ast, &accessor).is_err());
}

#[test]
fn verification_accepts_exactly_the_honest_result() {
    let (data, ast) = one_cast_setup();
    let vqr = VerifiableQueryResult::new(&ast, &data).unwrap();
    let accessor = commitment_accessor_of(&data);
    let res = vqr.verify(&ast, &accessor).unwrap();
    let expected = table(vec![(
        "a_cast",
        OwnedColumn::Decimal75(Precision::new(4).unwrap(), 1, vec![10, 20, 30]),
    )]);
    assert_eq!(res, expected);
}

#[test]
fn proving_a_cast_that_overflows_reports_the_overflow() {
    let data = table(vec![("a", OwnedColumn::TinyInt(vec![127]))]);
    let t = TableRef::new("sxt".to_string(), "t".to_string());
    let ast = cast_plan(&t, vec![(0, ColumnType::TinyInt, dec(2, 1), "a_cast")]);
    let res = VerifiableQueryResult::new(&ast, &data);
    assert_eq!(res.unwrap_err(), proof_of_sql::scaling::EvalError::Overflow);
}
