use proof_of_sql::column::{
    ColumnType, OwnedColumn, OwnedTable, PoSQLTimeUnit, PoSQLTimeZone, Precision, TableError,
};
use proof_of_sql::expr::scale_column;
use proof_of_sql::field::FieldElement;
use proof_of_sql::scaling::{scaling_factor, ConstructionError, EvalError, ScalingFactor};
use proof_of_sql::slice_ops::{
    inner_product, inner_product_ref_cast, inner_product_with_bytes, inner_product_with_strategy,
};

fn dec(p: u8, s: i8) -> ColumnType {
    ColumnType::Decimal75(Precision::new(p).unwrap(), s)
}

#[test]
fn decimal_cast_round_trip_recovers_the_mantissa() {
    let from = dec(4, 1);
    let to = dec(5, 2);
    let f = scaling_factor(from, to).unwrap();
    let g = scaling_factor(to, from).unwrap();
    let col = OwnedColumn::Decimal75(Precision::new(4).unwrap(), 1, vec![123, -45, 0]);
    let there = scale_column(&col, to, f).unwrap();
    let back = scale_column(&there, from, g).unwrap();
    assert_eq!(back, col);
}

#[test]
fn decimal_downscale_is_exact_or_rejected() {
    let from = dec(4, 1);
    let to = dec(3, 0);
    let f = scaling_factor(from, to).unwrap();
    assert_eq!(f, ScalingFactor::ExactDivide(10));
    let exact = OwnedColumn::Decimal75(Precision::new(4).unwrap(), 1, vec![120]);
    let scaled = scale_column(&exact, to, f).unwrap();
    assert_eq!(scaled, OwnedColumn::Decimal75(Precision::new(3).unwrap(), 0, vec![12]));
    let inexact = OwnedColumn::Decimal75(Precision::new(4).unwrap(), 1, vec![15]);
    assert_eq!(scale_column(&inexact, to, f).unwrap_err(), EvalError::InexactDivision);
}

#[test]
fn overflowing_decimal_cast_fails_instead_of_wrapping() {
    let from = dec(4, 0);
    let to = dec(4, 2);
    let f = scaling_factor(from, to).unwrap();
    let col = OwnedColumn::Decimal75(Precision::new(4).unwrap(), 0, vec![9999]);
    assert_eq!(scale_column(&col, to, f).unwrap_err(), EvalError::Overflow);
}

#[test]
fn timestamp_unit_round_trip_is_identity() {
    let s = ColumnType::TimestampTZ(PoSQLTimeUnit::Second, PoSQLTimeZone::new(0));
    let ms = ColumnType::TimestampTZ(PoSQLTimeUnit::Millisecond, PoSQLTimeZone::new(0));
    let f = scaling_factor(s, ms).unwrap();
    let g = scaling_factor(ms, s).unwrap();
    assert_eq!(f, ScalingFactor::Multiply(1000));
    assert_eq!(g, ScalingFactor::ExactDivide(1000));
    let col = OwnedColumn::TimestampTZ(PoSQLTimeUnit::Second, PoSQLTimeZone::new(0), vec![1, -7, 42]);
    let there = scale_column(&col, ms, f).unwrap();
    assert_eq!(
        there,
        OwnedColumn::TimestampTZ(PoSQLTimeUnit::Millisecond, PoSQLTimeZone::new(0), vec![1000, -7000, 42000])
    );
    let back = scale_column(&there, s, g).unwrap();
    assert_eq!(back, col);
}

#[test]
fn casting_between_incompatible_kinds_is_rejected_with_both_types() {
    let err = scaling_factor(ColumnType::Boolean, dec(4, 1)).unwrap_err();
    assert_eq!(err, ConstructionError::IncompatibleTypes(ColumnType::Boolean, dec(4, 1)));
    let zoned = ColumnType::TimestampTZ(PoSQLTimeUnit::Second, PoSQLTimeZone::new(3600));
    let other = ColumnType::TimestampTZ(PoSQLTimeUnit::Second, PoSQLTimeZone::new(0));
    assert_eq!(
        scaling_factor(zoned, other).unwrap_err(),
        ConstructionError::IncompatibleTypes(zoned, other)
    );
}

#[test]
fn a_scale_gap_beyond_the_mantissa_is_rejected_when_built() {
    let from = dec(75, -50);
    let to = dec(75, 50);
    assert_eq!(
        scaling_factor(from, to).unwrap_err(),
        ConstructionError::ScaleOutOfRange(from, to)
    );
}

#[test]
fn precision_accepts_one_through_seventy_five() {
    assert!(Precision::new(0).is_none());
    assert!(Precision::new(1).is_some());
    assert!(Precision::new(75).is_some());
    assert!(Precision::new(76).is_none());
}

#[test]
fn tables_reject_columns_of_unequal_length() {
    let r = OwnedTable::try_new(vec![
        ("a".to_string(), OwnedColumn::TinyInt(vec![1, 2])),
        ("b".to_string(), OwnedColumn::TinyInt(vec![1])),
    ]);
    assert_eq!(r.unwrap_err(), TableError::ColumnLengthMismatch);
}

#[test]
fn inner_product_is_identical_under_both_strategies() {
    let a: Vec<FieldElement> = (0..300u64).map(FieldElement::from_u64).collect();
    let b: Vec<FieldElement> = (0..300u64).map(|x| FieldElement::from_u64(7 * x + 3)).collect();
    let seq = inner_product_with_strategy(&a, &b, false);
    let par = inner_product_with_strategy(&a, &b, true);
    assert_eq!(seq, par);
    assert_eq!(inner_product(&a, &b), seq);
}

#[test]
fn inner_product_is_invariant_under_identical_reordering() {
    let a: Vec<FieldElement> = vec![3, 1, 4, 1, 5, 9].into_iter().map(FieldElement::from_u64).collect();
    let b: Vec<FieldElement> = vec![2, 7, 1, 8, 2, 8].into_iter().map(FieldElement::from_u64).collect();
    let perm = [5usize, 3, 0, 4, 1, 2];
    let a2: Vec<FieldElement> = perm.iter().map(|&i| a[i]).collect();
    let b2: Vec<FieldElement> = perm.iter().map(|&i| b[i]).collect();
    assert_eq!(inner_product(&a, &b), inner_product(&a2, &b2));
}

#[test]
fn inner_product_zero_extends_the_shorter_column() {
    let a: Vec<FieldElement> = vec![2, 3, 100].into_iter().map(FieldElement::from_u64).collect();
    let b: Vec<FieldElement> = vec![5, 7].into_iter().map(FieldElement::from_u64).collect();
    assert_eq!(inner_product(&a, &b), FieldElement::from_u64(31));
}

#[test]
fn inner_product_ref_cast_embeds_signed_values() {
    let a: Vec<i128> = vec![-1, 2];
    let b: Vec<FieldElement> = vec![1, 1].into_iter().map(FieldElement::from_u64).collect();
    // -1 + 2 is 1 in the field
    assert_eq!(inner_product_ref_cast(&a, &b), FieldElement::from_u64(1));
}

#[test]
fn inner_product_with_bytes_hashes_rather_than_reads_the_bytes() {
    let one: Vec<FieldElement> = vec![FieldElement::from_u64(1)];
    let x = inner_product_with_bytes(&vec![vec![1u8]], &one);
    let y = inner_product_with_bytes(&vec![vec![2u8]], &one);
    // distinct bytes give distinct embeddings, and neither equals the raw byte
    assert_ne!(x, y);
    assert_ne!(x, FieldElement::from_u64(1));
}

#[test]
fn sha_digest_is_not_the_identity_on_its_input() {
    let d1 = proof_of_sql::hash::sha256_digest(&vec![1u8, 2, 3]);
    let d2 = proof_of_sql::hash::sha256_digest(&vec![1u8, 2, 4]);
    assert_eq!(d1.len(), 32);
    assert_ne!(d1, d2);
    assert_ne!(d1, vec![1u8, 2, 3]);
}
