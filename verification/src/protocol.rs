//! The verifiable query protocol.
//!
//! The prover evaluates a plan over full column data and folds every node's
//! proof contribution into one artifact; the verifier replays the identical
//! transcript derivation from commitments and the claimed output alone and
//! checks that every algebraic relation holds. Challenges are a pure
//! function of public transcript state, so prover and verifier agree on
//! them without interaction.

use vstd::prelude::*;
use crate::column::{
    count_true, filter_seq, ColumnType, ColumnV, OwnedColumn, OwnedTable, PoSQLTimeUnit,
};
use crate::expr::DynProofExpr;
use crate::field::{fadd, fmul, freduce, fsub, FieldElement};
use crate::hash::{digest_of, field_of_digest, sha256_digest, string_bytes, utf8_of};
use crate::plan::ProofPlan;
use crate::scaling::{EvalError, ScalingFactor};
use crate::slice_ops::{field_seq_inv, field_vals, inner_product, inner_product_spec};

verus! {

/// Why a verifier rejected a claimed result.
#[derive(Clone, Copy, Debug, PartialEq, Eq, Structural)]
pub enum VerificationError {
    /// The artifact's input commitments differ from the accessor's.
    CommitmentMismatch,
    /// A count, length, alias or type of the artifact or the claimed output
    /// does not fit the plan.
    MalformedArtifact,
    /// A node's contribution does not satisfy its declared relation.
    RelationFailed,
    /// A claimed output column's evaluation differs from its expression's
    /// folded contribution.
    OutputMismatch,
    /// The folded transcript digest does not replay.
    FoldMismatch,
}

/// Eight little-endian bytes of an unsigned 64-bit value.
pub open spec fn enc_u64(x: int) -> Seq<u8> {
    seq![
        (x % 0x100) as u8,
        ((x / 0x100) % 0x100) as u8,
        ((x / 0x10000) % 0x100) as u8,
        ((x / 0x1000000) % 0x100) as u8,
        ((x / 0x100000000) % 0x100) as u8,
        ((x / 0x10000000000) % 0x100) as u8,
        ((x / 0x1000000000000) % 0x100) as u8,
        ((x / 0x100000000000000) % 0x100) as u8,
    ]
}

/// Eight little-endian bytes of an unsigned 64-bit value.
pub fn enc_u64_bytes(x: u64, out: &mut Vec<u8>)
    ensures
        final(out)@ == old(out)@ + enc_u64(x as int),
{
    out.push((x % 0x100) as u8);
    out.push(((x / 0x100) % 0x100) as u8);
    out.push(((x / 0x10000) % 0x100) as u8);
    out.push(((x / 0x1000000) % 0x100) as u8);
    out.push(((x / 0x100000000) % 0x100) as u8);
    out.push(((x / 0x10000000000) % 0x100) as u8);
    out.push(((x / 0x1000000000000) % 0x100) as u8);
    out.push(((x / 0x100000000000000) % 0x100) as u8);
    proof {
        assert(final(out)@ =~= old(out)@ + enc_u64(x as int));
    }
}

/// The byte encoding of a column type: a tag and its metadata.
pub open spec fn enc_type(t: ColumnType) -> Seq<u8> {
    match t {
        ColumnType::Boolean => seq![0u8, 0u8, 0u8, 0u8],
        ColumnType::Uint8 => seq![1u8, 0u8, 0u8, 0u8],
        ColumnType::TinyInt => seq![2u8, 0u8, 0u8, 0u8],
        ColumnType::SmallInt => seq![3u8, 0u8, 0u8, 0u8],
        ColumnType::Int => seq![4u8, 0u8, 0u8, 0u8],
        ColumnType::BigInt => seq![5u8, 0u8, 0u8, 0u8],
        ColumnType::Int128 => seq![6u8, 0u8, 0u8, 0u8],
        ColumnType::Decimal75(p, s) => seq![
            7u8,
            p.spec_value(),
            (s as int + 128) as u8,
            0u8,
        ],
        ColumnType::TimestampTZ(u, z) => seq![
            8u8,
            unit_tag(u),
            ((z.spec_offset() as int + 0x80000000) % 0x100) as u8,
            (((z.spec_offset() as int + 0x80000000) / 0x100) % 0x1000000) as u8,
        ],
        ColumnType::VarChar => seq![9u8, 0u8, 0u8, 0u8],
        ColumnType::Scalar => seq![10u8, 0u8, 0u8, 0u8],
        ColumnType::Bytes => seq![11u8, 0u8, 0u8, 0u8],
    }
}

/// The tag byte of a timestamp unit.
pub open spec fn unit_tag(u: PoSQLTimeUnit) -> u8 {
    match u {
        PoSQLTimeUnit::Second => 0u8,
        PoSQLTimeUnit::Millisecond => 1u8,
        PoSQLTimeUnit::Microsecond => 2u8,
        PoSQLTimeUnit::Nanosecond => 3u8,
    }
}

/// Appends the byte encoding of a column type.
pub fn enc_type_bytes(t: ColumnType, out: &mut Vec<u8>)
    ensures
        final(out)@ == old(out)@ + enc_type(t),
{
    match t {
        ColumnType::Boolean => {
            out.push(0u8);
            out.push(0u8);
            out.push(0u8);
            out.push(0u8);
        },
        ColumnType::Uint8 => {
            out.push(1u8);
            out.push(0u8);
            out.push(0u8);
            out.push(0u8);
        },
        ColumnType::TinyInt => {
            out.push(2u8);
            out.push(0u8);
            out.push(0u8);
            out.push(0u8);
        },
        ColumnType::SmallInt => {
            out.push(3u8);
            out.push(0u8);
            out.push(0u8);
            out.push(0u8);
        },
        ColumnType::Int => {
            out.push(4u8);
            out.push(0u8);
            out.push(0u8);
            out.push(0u8);
        },
        ColumnType::BigInt => {
            out.push(5u8);
            out.push(0u8);
            out.push(0u8);
            out.push(0u8);
        },
        ColumnType::Int128 => {
            out.push(6u8);
            out.push(0u8);
            out.push(0u8);
            out.push(0u8);
        },
        ColumnType::Decimal75(p, s) => {
            out.push(7u8);
            out.push(p.value());
            let sb: u8 = ((s as i16) + 128) as u8;
            out.push(sb);
            out.push(0u8);
        },
        ColumnType::TimestampTZ(u, z) => {
            out.push(8u8);
            let ut: u8 = match u {
                PoSQLTimeUnit::Second => 0u8,
                PoSQLTimeUnit::Millisecond => 1u8,
                PoSQLTimeUnit::Microsecond => 2u8,
                PoSQLTimeUnit::Nanosecond => 3u8,
            };
            out.push(ut);
            let zoff: u64 = ((z.offset() as i64) + 0x80000000) as u64;
            out.push((zoff % 0x100) as u8);
            out.push(((zoff / 0x100) % 0x1000000) as u8);
        },
        ColumnType::VarChar => {
            out.push(9u8);
            out.push(0u8);
            out.push(0u8);
            out.push(0u8);
        },
        ColumnType::Scalar => {
            out.push(10u8);
            out.push(0u8);
            out.push(0u8);
            out.push(0u8);
        },
        ColumnType::Bytes => {
            out.push(11u8);
            out.push(0u8);
            out.push(0u8);
            out.push(0u8);
        },
    }
    proof {
        assert(final(out)@ =~= old(out)@ + enc_type(t));
    }
}

/// The little-endian bytes of a sequence of canonical field values.
pub open spec fn enc_field_seq(s: Seq<int>) -> Seq<u8>
    decreases s.len(),
{
    if s.len() == 0 {
        Seq::empty()
    } else {
        enc_u64(s[0]) + enc_field_seq(s.drop_first())
    }
}

/// Appending one value appends its bytes.
pub proof fn lemma_enc_field_seq_push(s: Seq<int>, x: int)
    ensures
        enc_field_seq(s.push(x)) == enc_field_seq(s) + enc_u64(x),
    decreases s.len(),
{
    if s.len() == 0 {
        assert(s.push(x).drop_first() =~= Seq::<int>::empty());
        assert(s.push(x)[0] == x);
        assert(enc_field_seq(Seq::<int>::empty()) =~= Seq::<u8>::empty());
        assert(enc_field_seq(s.push(x)) =~= enc_field_seq(s) + enc_u64(x));
    } else {
        assert(s.push(x).drop_first() =~= s.drop_first().push(x));
        assert(s.push(x)[0] == s[0]);
        lemma_enc_field_seq_push(s.drop_first(), x);
        assert(enc_u64(s[0]) + (enc_field_seq(s.drop_first()) + enc_u64(x)) =~= (enc_u64(s[0])
            + enc_field_seq(s.drop_first())) + enc_u64(x));
    }
}

/// Appends the little-endian bytes of a column of field elements.
pub fn enc_field_vec(v: &Vec<FieldElement>, out: &mut Vec<u8>)
    requires
        field_seq_inv(v@),
    ensures
        final(out)@ == old(out)@ + enc_field_seq(field_vals(v@)),
{
    let mut i: usize = 0;
    proof {
        assert(field_vals(v@).take(0) =~= Seq::<int>::empty());
        assert(out@ =~= old(out)@ + enc_field_seq(field_vals(v@).take(0)));
    }
    while i < v.len()
        invariant
            i <= v@.len(),
            field_seq_inv(v@),
            out@ == old(out)@ + enc_field_seq(field_vals(v@).take(i as int)),
        decreases v@.len() - i,
    {
        proof {
            assert(field_vals(v@).take(i + 1) =~= field_vals(v@).take(i as int).push(
                field_vals(v@)[i as int],
            ));
            lemma_enc_field_seq_push(field_vals(v@).take(i as int), field_vals(v@)[i as int]);
        }
        let x = v[i].as_u64();
        enc_u64_bytes(x, out);
        proof {
            assert(out@ =~= old(out)@ + enc_field_seq(field_vals(v@).take(i + 1)));
        }
        i = i + 1;
    }
    proof {
        assert(field_vals(v@).take(v@.len() as int) =~= field_vals(v@));
    }
}

/// Appends one byte per selector entry: one where the row is kept.
pub fn enc_selection(sel: &Vec<bool>, out: &mut Vec<u8>)
    ensures
        final(out)@ == old(out)@ + enc_sel(sel@),
{
    let mut i: usize = 0;
    proof {
        assert(enc_sel(sel@.take(0)) =~= Seq::<u8>::empty());
        assert(out@ =~= old(out)@ + enc_sel(sel@.take(0)));
    }
    while i < sel.len()
        invariant
            i <= sel@.len(),
            out@ == old(out)@ + enc_sel(sel@.take(i as int)),
        decreases sel@.len() - i,
    {
        proof {
            assert(sel@.take(i + 1) =~= sel@.take(i as int).push(sel@[i as int]));
            lemma_enc_sel_push(sel@.take(i as int), sel@[i as int]);
        }
        if sel[i] {
            out.push(1u8);
        } else {
            out.push(0u8);
        }
        proof {
            assert(out@ =~= old(out)@ + enc_sel(sel@.take(i + 1)));
        }
        i = i + 1;
    }
    proof {
        assert(sel@.take(sel@.len() as int) =~= sel@);
    }
}

/// One byte per selector entry.
pub open spec fn enc_sel(sel: Seq<bool>) -> Seq<u8>
    decreases sel.len(),
{
    if sel.len() == 0 {
        Seq::empty()
    } else {
        seq![if sel[0] { 1u8 } else { 0u8 }] + enc_sel(sel.drop_first())
    }
}

/// Appending one selector entry appends its byte.
pub proof fn lemma_enc_sel_push(sel: Seq<bool>, b: bool)
    ensures
        enc_sel(sel.push(b)) == enc_sel(sel) + seq![if b { 1u8 } else { 0u8 }],
    decreases sel.len(),
{
    if sel.len() == 0 {
        assert(sel.push(b).drop_first() =~= Seq::<bool>::empty());
        assert(sel.push(b)[0] == b);
        assert(enc_sel(Seq::<bool>::empty()) =~= Seq::<u8>::empty());
        assert(enc_sel(sel.push(b)) =~= enc_sel(sel) + seq![if b { 1u8 } else { 0u8 }]);
    } else {
        assert(sel.push(b).drop_first() =~= sel.drop_first().push(b));
        assert(sel.push(b)[0] == sel[0]);
        lemma_enc_sel_push(sel.drop_first(), b);
        assert(seq![if sel[0] { 1u8 } else { 0u8 }] + (enc_sel(sel.drop_first()) + seq![if b { 1u8 } else { 0u8 }])
            =~= (seq![if sel[0] { 1u8 } else { 0u8 }] + enc_sel(sel.drop_first())) + seq![if b { 1u8 } else { 0u8 }]);
    }
}

/// Embeds every value of a column into the proof field, row by row.
pub fn embed_column(col: &OwnedColumn) -> (r: Vec<FieldElement>)
    ensures
        field_seq_inv(r@),
        field_vals(r@) == col@.embeds(),
{
    let mut out: Vec<FieldElement> = Vec::new();
    match col {
        OwnedColumn::Boolean(v) => {
            let mut i: usize = 0;
            while i < v.len()
                invariant
                    i <= v@.len(),
                    out@.len() == i,
                    field_seq_inv(out@),
                    forall|j: int|
                        0 <= j < i ==> (#[trigger] out@[j]).val() == (if v@[j] {
                            1int
                        } else {
                            0int
                        }),
                decreases v@.len() - i,
            {
                out.push(FieldElement::from_bool(v[i]));
                i = i + 1;
            }
        },
        OwnedColumn::Uint8(v) => {
            let mut i: usize = 0;
            while i < v.len()
                invariant
                    i <= v@.len(),
                    out@.len() == i,
                    field_seq_inv(out@),
                    forall|j: int|
                        0 <= j < i ==> (#[trigger] out@[j]).val() == freduce(v@[j] as int),
                decreases v@.len() - i,
            {
                out.push(FieldElement::from_i128(v[i] as i128));
                i = i + 1;
            }
        },
        OwnedColumn::TinyInt(v) => {
            let mut i: usize = 0;
            while i < v.len()
                invariant
                    i <= v@.len(),
                    out@.len() == i,
                    field_seq_inv(out@),
                    forall|j: int|
                        0 <= j < i ==> (#[trigger] out@[j]).val() == freduce(v@[j] as int),
                decreases v@.len() - i,
            {
                out.push(FieldElement::from_i128(v[i] as i128));
                i = i + 1;
            }
        },
        OwnedColumn::SmallInt(v) => {
            let mut i: usize = 0;
            while i < v.len()
                invariant
                    i <= v@.len(),
                    out@.len() == i,
                    field_seq_inv(out@),
                    forall|j: int|
                        0 <= j < i ==> (#[trigger] out@[j]).val() == freduce(v@[j] as int),
                decreases v@.len() - i,
            {
                out.push(FieldElement::from_i128(v[i] as i128));
                i = i + 1;
            }
        },
        OwnedColumn::Int(v) => {
            let mut i: usize = 0;
            while i < v.len()
                invariant
                    i <= v@.len(),
                    out@.len() == i,
                    field_seq_inv(out@),
                    forall|j: int|
                        0 <= j < i ==> (#[trigger] out@[j]).val() == freduce(v@[j] as int),
                decreases v@.len() - i,
            {
                out.push(FieldElement::from_i128(v[i] as i128));
                i = i + 1;
            }
        },
        OwnedColumn::BigInt(v) => {
            let mut i: usize = 0;
            while i < v.len()
                invariant
                    i <= v@.len(),
                    out@.len() == i,
                    field_seq_inv(out@),
                    forall|j: int|
                        0 <= j < i ==> (#[trigger] out@[j]).val() == freduce(v@[j] as int),
                decreases v@.len() - i,
            {
                out.push(FieldElement::from_i128(v[i] as i128));
                i = i + 1;
            }
        },
        OwnedColumn::Int128(v) => {
            let mut i: usize = 0;
            while i < v.len()
                invariant
                    i <= v@.len(),
                    out@.len() == i,
                    field_seq_inv(out@),
                    forall|j: int|
                        0 <= j < i ==> (#[trigger] out@[j]).val() == freduce(v@[j] as int),
                decreases v@.len() - i,
            {
                out.push(FieldElement::from_i128(v[i]));
                i = i + 1;
            }
        },
        OwnedColumn::Decimal75(_, _, v) => {
            let mut i: usize = 0;
            while i < v.len()
                invariant
                    i <= v@.len(),
                    out@.len() == i,
                    field_seq_inv(out@),
                    forall|j: int|
                        0 <= j < i ==> (#[trigger] out@[j]).val() == freduce(v@[j] as int),
                decreases v@.len() - i,
            {
                out.push(FieldElement::from_i128(v[i]));
                i = i + 1;
            }
        },
        OwnedColumn::TimestampTZ(_, _, v) => {
            let mut i: usize = 0;
            while i < v.len()
                invariant
                    i <= v@.len(),
                    out@.len() == i,
                    field_seq_inv(out@),
                    forall|j: int|
                        0 <= j < i ==> (#[trigger] out@[j]).val() == freduce(v@[j] as int),
                decreases v@.len() - i,
            {
                out.push(FieldElement::from_i128(v[i] as i128));
                i = i + 1;
            }
        },
        OwnedColumn::VarChar(v) => {
            let mut i: usize = 0;
            while i < v.len()
                invariant
                    i <= v@.len(),
                    out@.len() == i,
                    field_seq_inv(out@),
                    forall|j: int|
                        0 <= j < i ==> (#[trigger] out@[j]).val() == crate::hash::field_embed_of(
                            utf8_of(v@[j]@),
                        ),
                decreases v@.len() - i,
            {
                let bytes = string_bytes(&v[i]);
                out.push(crate::hash::hash_to_field(&bytes));
                i = i + 1;
            }
        },
        OwnedColumn::Scalar(v) => {
            let mut i: usize = 0;
            while i < v.len()
                invariant
                    i <= v@.len(),
                    out@.len() == i,
                    field_seq_inv(out@),
                    forall|j: int|
                        0 <= j < i ==> (#[trigger] out@[j]).val() == freduce(v@[j].val()),
                decreases v@.len() - i,
            {
                out.push(FieldElement::from_u64(v[i].as_u64()));
                i = i + 1;
            }
        },
        OwnedColumn::Bytes(v) => {
            let mut i: usize = 0;
            while i < v.len()
                invariant
                    i <= v@.len(),
                    out@.len() == i,
                    field_seq_inv(out@),
                    forall|j: int|
                        0 <= j < i ==> (#[trigger] out@[j]).val() == crate::hash::field_embed_of(
                            v@[j]@,
                        ),
                decreases v@.len() - i,
            {
                out.push(crate::hash::hash_to_field(&v[i]));
                i = i + 1;
            }
        },
    }
    proof {
        assert(field_vals(out@) =~= col@.embeds());
    }
    out
}

/// The byte encoding of a column: its type, its length, and the bytes of
/// its field embeddings.
pub open spec fn spec_enc_column(c: ColumnV) -> Seq<u8> {
    enc_type(c.ctype()) + enc_u64(c.len() as int) + enc_field_seq(c.embeds())
}

/// The commitment of a column: the digest of its byte encoding.
pub open spec fn spec_commit_column(c: ColumnV) -> Seq<u8> {
    digest_of(spec_enc_column(c))
}

/// Commits to a column.
pub fn commit_column(col: &OwnedColumn) -> (r: Vec<u8>)
    ensures
        r@ == spec_commit_column(col@),
        r@.len() == 32,
{
    let mut bytes: Vec<u8> = Vec::new();
    enc_type_bytes(col.column_type(), &mut bytes);
    let n: u64 = col.len() as u64;
    enc_u64_bytes(n, &mut bytes);
    let emb = embed_column(col);
    enc_field_vec(&emb, &mut bytes);
    proof {
        assert(bytes@ =~= spec_enc_column(col@));
    }
    sha256_digest(&bytes)
}

/// What a verifier holds of a table: its shape and one commitment per
/// column, never the values.
pub struct CommitmentAccessor {
    pub num_rows: usize,
    pub column_types: Vec<ColumnType>,
    pub commitments: Vec<Vec<u8>>,
}

impl CommitmentAccessor {
    /// The commitments as byte sequences, in column order.
    pub open spec fn spec_commitments(self) -> Seq<Seq<u8>> {
        crate::column::deep_bytes(self.commitments@)
    }
}

/// The honest commitments of a table's columns, in order.
pub open spec fn spec_input_commitments(t: OwnedTable) -> Seq<Seq<u8>> {
    Seq::new(t.spec_columns().len(), |i: int| spec_commit_column(t.spec_columns()[i].1@))
}

/// Derives the commitment-only view of a table: what the verifier is given.
pub fn commitment_accessor_of(t: &OwnedTable) -> (r: CommitmentAccessor)
    requires
        t.wf(),
    ensures
        r.num_rows == t.spec_num_rows(),
        r.column_types@.len() == t.spec_columns().len(),
        forall|i: int|
            0 <= i < t.spec_columns().len() ==> r.column_types@[i] == (
            #[trigger] t.spec_columns()[i]).1@.ctype(),
        r.spec_commitments() == spec_input_commitments(*t),
{
    let mut column_types: Vec<ColumnType> = Vec::new();
    let mut commitments: Vec<Vec<u8>> = Vec::new();
    let mut i: usize = 0;
    while i < t.num_columns()
        invariant
            t.wf(),
            i <= t.spec_columns().len(),
            column_types@.len() == i,
            commitments@.len() == i,
            forall|j: int|
                0 <= j < i ==> column_types@[j] == (#[trigger] t.spec_columns()[j]).1@.ctype(),
            forall|j: int|
                0 <= j < i ==> (#[trigger] commitments@[j])@ == spec_commit_column(
                    t.spec_columns()[j].1@,
                ),
        decreases t.spec_columns().len() - i,
    {
        let col = t.column_at(i);
        column_types.push(col.column_type());
        let c = commit_column(col);
        commitments.push(c);
        i = i + 1;
    }
    let r = CommitmentAccessor { num_rows: t.num_rows(), column_types, commitments };
    proof {
        assert(r.spec_commitments() =~= spec_input_commitments(*t));
    }
    r
}

/// The concatenation of a list of byte strings.
pub open spec fn cat_bytes(s: Seq<Seq<u8>>) -> Seq<u8>
    decreases s.len(),
{
    if s.len() == 0 {
        Seq::empty()
    } else {
        s[0] + cat_bytes(s.drop_first())
    }
}

/// Appending one byte string appends its bytes.
pub proof fn lemma_cat_bytes_push(s: Seq<Seq<u8>>, x: Seq<u8>)
    ensures
        cat_bytes(s.push(x)) == cat_bytes(s) + x,
    decreases s.len(),
{
    if s.len() == 0 {
        assert(s.push(x).drop_first() =~= Seq::<Seq<u8>>::empty());
        assert(s.push(x)[0] == x);
        assert(cat_bytes(Seq::<Seq<u8>>::empty()) =~= Seq::<u8>::empty());
        assert(cat_bytes(s.push(x)) =~= cat_bytes(s) + x);
    } else {
        assert(s.push(x).drop_first() =~= s.drop_first().push(x));
        assert(s.push(x)[0] == s[0]);
        lemma_cat_bytes_push(s.drop_first(), x);
        assert(s[0] + (cat_bytes(s.drop_first()) + x) =~= (s[0] + cat_bytes(s.drop_first())) + x);
    }
}

/// Appends the concatenation of a list of byte strings.
pub fn cat_bytes_exec(s: &Vec<Vec<u8>>, out: &mut Vec<u8>)
    ensures
        final(out)@ == old(out)@ + cat_bytes(crate::column::deep_bytes(s@)),
{
    let ghost ds = crate::column::deep_bytes(s@);
    let mut i: usize = 0;
    proof {
        assert(ds.take(0) =~= Seq::<Seq<u8>>::empty());
        assert(out@ =~= old(out)@ + cat_bytes(ds.take(0)));
    }
    while i < s.len()
        invariant
            i <= s@.len(),
            ds == crate::column::deep_bytes(s@),
            out@ == old(out)@ + cat_bytes(ds.take(i as int)),
        decreases s@.len() - i,
    {
        proof {
            assert(ds.take(i + 1) =~= ds.take(i as int).push(ds[i as int]));
            lemma_cat_bytes_push(ds.take(i as int), ds[i as int]);
        }
        extend_bytes(&s[i], out);
        proof {
            assert(out@ =~= old(out)@ + cat_bytes(ds.take(i + 1)));
        }
        i = i + 1;
    }
    proof {
        assert(ds.take(s@.len() as int) =~= ds);
    }
}

/// The challenge raised to successive powers: the evaluation weights.
pub open spec fn fpow(r: int, e: nat) -> int
    decreases e,
{
    if e == 0 {
        1
    } else {
        fmul(r, fpow(r, (e - 1) as nat))
    }
}

/// The first `n` powers of a challenge.
pub open spec fn spec_powers(r: int, n: nat) -> Seq<int> {
    Seq::new(n, |i: int| fpow(r, i as nat))
}

/// Computes the first `n` powers of a challenge.
pub fn powers_vec(r: FieldElement, n: usize) -> (out: Vec<FieldElement>)
    requires
        r.inv(),
    ensures
        field_seq_inv(out@),
        out@.len() == n,
        field_vals(out@) == spec_powers(r.val(), n as nat),
{
    let mut out: Vec<FieldElement> = Vec::new();
    let mut cur = FieldElement::one();
    let mut i: usize = 0;
    while i < n
        invariant
            i <= n,
            out@.len() == i,
            r.inv(),
            cur.inv(),
            cur.val() == fpow(r.val(), i as nat),
            field_seq_inv(out@),
            forall|j: int| 0 <= j < i ==> (#[trigger] out@[j]).val() == fpow(r.val(), j as nat),
        decreases n - i,
    {
        out.push(cur);
        cur = r.mul(cur);
        i = i + 1;
    }
    proof {
        assert(field_vals(out@) =~= spec_powers(r.val(), n as nat));
    }
    out
}

/// The declared output types of a projection list, one after another.
pub open spec fn enc_expr_types(exprs: Seq<crate::plan::AliasedDynProofExpr>) -> Seq<u8>
    decreases exprs.len(),
{
    if exprs.len() == 0 {
        Seq::empty()
    } else {
        enc_type(exprs[0].expr.spec_data_type()) + enc_expr_types(exprs.drop_first())
    }
}

/// Appending one projection appends its type encoding.
pub proof fn lemma_enc_expr_types_push(exprs: Seq<crate::plan::AliasedDynProofExpr>, x: crate::plan::AliasedDynProofExpr)
    ensures
        enc_expr_types(exprs.push(x)) == enc_expr_types(exprs) + enc_type(x.expr.spec_data_type()),
    decreases exprs.len(),
{
    if exprs.len() == 0 {
        assert(exprs.push(x).drop_first() =~= Seq::<crate::plan::AliasedDynProofExpr>::empty());
        assert(exprs.push(x)[0] == x);
        assert(enc_expr_types(Seq::<crate::plan::AliasedDynProofExpr>::empty()) =~= Seq::<u8>::empty());
        assert(enc_expr_types(exprs.push(x)) =~= enc_expr_types(exprs) + enc_type(x.expr.spec_data_type()));
    } else {
        assert(exprs.push(x).drop_first() =~= exprs.drop_first().push(x));
        assert(exprs.push(x)[0] == exprs[0]);
        lemma_enc_expr_types_push(exprs.drop_first(), x);
        assert(enc_type(exprs[0].expr.spec_data_type()) + (enc_expr_types(exprs.drop_first())
            + enc_type(x.expr.spec_data_type())) =~= (enc_type(exprs[0].expr.spec_data_type())
            + enc_expr_types(exprs.drop_first())) + enc_type(x.expr.spec_data_type()));
    }
}

/// The byte encodings of a table's columns, one after another.
pub open spec fn cat_col_encs(cols: Seq<(String, OwnedColumn)>) -> Seq<u8>
    decreases cols.len(),
{
    if cols.len() == 0 {
        Seq::empty()
    } else {
        spec_enc_column(cols[0].1@) + cat_col_encs(cols.drop_first())
    }
}

/// Appending one column appends its encoding.
pub proof fn lemma_cat_col_encs_push(cols: Seq<(String, OwnedColumn)>, x: (String, OwnedColumn))
    ensures
        cat_col_encs(cols.push(x)) == cat_col_encs(cols) + spec_enc_column(x.1@),
    decreases cols.len(),
{
    if cols.len() == 0 {
        assert(cols.push(x).drop_first() =~= Seq::<(String, OwnedColumn)>::empty());
        assert(cols.push(x)[0] == x);
        assert(cat_col_encs(Seq::<(String, OwnedColumn)>::empty()) =~= Seq::<u8>::empty());
        assert(cat_col_encs(cols.push(x)) =~= cat_col_encs(cols) + spec_enc_column(x.1@));
    } else {
        assert(cols.push(x).drop_first() =~= cols.drop_first().push(x));
        assert(cols.push(x)[0] == cols[0]);
        lemma_cat_col_encs_push(cols.drop_first(), x);
        assert(spec_enc_column(cols[0].1@) + (cat_col_encs(cols.drop_first()) + spec_enc_column(
            x.1@,
        )) =~= (spec_enc_column(cols[0].1@) + cat_col_encs(cols.drop_first())) + spec_enc_column(
            x.1@,
        ));
    }
}

/// Appends the byte encoding of one column.
pub fn enc_one_column(col: &OwnedColumn, out: &mut Vec<u8>)
    ensures
        final(out)@ == old(out)@ + spec_enc_column(col@),
{
    enc_type_bytes(col.column_type(), out);
    enc_u64_bytes(col.len() as u64, out);
    let emb = embed_column(col);
    enc_field_vec(&emb, out);
    proof {
        let a = enc_type(col@.ctype());
        let b = enc_u64(col@.len() as int);
        let c = enc_field_seq(col@.embeds());
        assert(out@ == ((old(out)@ + a) + b) + c);
        assert(((old(out)@ + a) + b) + c =~= old(out)@ + ((a + b) + c));
        assert(spec_enc_column(col@) == (a + b) + c);
    }
}

/// Appends the byte encodings of a table's columns.
#[verifier::rlimit(60)]
pub fn enc_table(t: &OwnedTable, out: &mut Vec<u8>)
    ensures
        final(out)@ == old(out)@ + cat_col_encs(t.spec_columns()),
{
    let mut i: usize = 0;
    proof {
        assert(t.spec_columns().take(0) =~= Seq::<(String, OwnedColumn)>::empty());
        assert(out@ =~= old(out)@ + cat_col_encs(t.spec_columns().take(0)));
    }
    while i < t.num_columns()
        invariant
            i <= t.spec_columns().len(),
            out@ == old(out)@ + cat_col_encs(t.spec_columns().take(i as int)),
        decreases t.spec_columns().len() - i,
    {
        proof {
            assert(t.spec_columns().take(i + 1) =~= t.spec_columns().take(i as int).push(
                t.spec_columns()[i as int],
            ));
            lemma_cat_col_encs_push(t.spec_columns().take(i as int), t.spec_columns()[i as int]);
        }
        let col = t.column_at(i);
        enc_one_column(col, out);
        i = i + 1;
    }
    proof {
        assert(t.spec_columns().take(t.spec_columns().len() as int) =~= t.spec_columns());
    }
}

/// The transcript seed: the table reference, the row count, the input
/// commitments, the plan's declared output types, the selection, and the
/// claimed output table, in that fixed order.
#[verifier::opaque]
pub open spec fn spec_seed(
    plan: ProofPlan,
    num_rows: int,
    comms: Seq<Seq<u8>>,
    sel: Seq<bool>,
    out_t: OwnedTable,
) -> Seq<u8> {
    utf8_of(plan.table.spec_schema()) + utf8_of(plan.table.spec_name()) + enc_u64(num_rows)
        + cat_bytes(comms) + enc_expr_types(plan.aliased_results@) + enc_sel(sel) + cat_col_encs(
        out_t.spec_columns(),
    )
}

/// The challenge: the transcript seed's digest reduced into the field. It
/// is a pure function of public data, so prover and verifier derive the
/// same challenge without interaction.
pub open spec fn spec_challenge(
    plan: ProofPlan,
    num_rows: int,
    comms: Seq<Seq<u8>>,
    sel: Seq<bool>,
    out_t: OwnedTable,
) -> int {
    field_of_digest(digest_of(spec_seed(plan, num_rows, comms, sel, out_t)))
}

/// Derives the evaluation challenge from the public transcript state.
pub fn derive_challenge(
    plan: &ProofPlan,
    num_rows: u64,
    comms: &Vec<Vec<u8>>,
    sel: &Vec<bool>,
    out_t: &OwnedTable,
) -> (r: FieldElement)
    ensures
        r.inv(),
        r.val() == spec_challenge(
            *plan,
            num_rows as int,
            crate::column::deep_bytes(comms@),
            sel@,
            *out_t,
        ),
{
    let mut seed: Vec<u8> = Vec::new();
    let schema_bytes = string_bytes(plan.table.schema());
    extend_bytes(&schema_bytes, &mut seed);
    let name_bytes = string_bytes(plan.table.name());
    extend_bytes(&name_bytes, &mut seed);
    enc_u64_bytes(num_rows, &mut seed);
    cat_bytes_exec(comms, &mut seed);
    let mut i: usize = 0;
    proof {
        assert(plan.aliased_results@.take(0) =~= Seq::<crate::plan::AliasedDynProofExpr>::empty());
        assert(seed@ =~= utf8_of(plan.table.spec_schema()) + utf8_of(plan.table.spec_name())
            + enc_u64(num_rows as int) + cat_bytes(crate::column::deep_bytes(comms@))
            + enc_expr_types(plan.aliased_results@.take(0)));
    }
    while i < plan.aliased_results.len()
        invariant
            i <= plan.aliased_results@.len(),
            seed@ == utf8_of(plan.table.spec_schema()) + utf8_of(plan.table.spec_name()) + enc_u64(
                num_rows as int,
            ) + cat_bytes(crate::column::deep_bytes(comms@)) + enc_expr_types(
                plan.aliased_results@.take(i as int),
            ),
        decreases plan.aliased_results@.len() - i,
    {
        proof {
            assert(plan.aliased_results@.take(i + 1) =~= plan.aliased_results@.take(
                i as int,
            ).push(plan.aliased_results@[i as int]));
            lemma_enc_expr_types_push(
                plan.aliased_results@.take(i as int),
                plan.aliased_results@[i as int],
            );
        }
        enc_type_bytes(plan.aliased_results[i].expr.data_type(), &mut seed);
        proof {
            assert(seed@ =~= utf8_of(plan.table.spec_schema()) + utf8_of(plan.table.spec_name())
                + enc_u64(num_rows as int) + cat_bytes(crate::column::deep_bytes(comms@))
                + enc_expr_types(plan.aliased_results@.take(i + 1)));
        }
        i = i + 1;
    }
    proof {
        assert(plan.aliased_results@.take(plan.aliased_results@.len() as int)
            =~= plan.aliased_results@);
    }
    enc_selection(sel, &mut seed);
    enc_table(out_t, &mut seed);
    proof {
        reveal(spec_seed);
        assert(seed@ =~= spec_seed(
            *plan,
            num_rows as int,
            crate::column::deep_bytes(comms@),
            sel@,
            *out_t,
        ));
    }
    let d = sha256_digest(&seed);
    crate::hash::field_from_digest(&d)
}

/// Appends a copy of the given bytes.
pub fn extend_bytes(src: &Vec<u8>, out: &mut Vec<u8>)
    ensures
        final(out)@ == old(out)@ + src@,
{
    let mut i: usize = 0;
    while i < src.len()
        invariant
            i <= src@.len(),
            out@ == old(out)@ + src@.take(i as int),
        decreases src@.len() - i,
    {
        out.push(src[i]);
        proof {
            assert(src@.take(i + 1) =~= src@.take(i as int).push(src@[i as int]));
            assert(old(out)@ + src@.take(i + 1) =~= (old(out)@ + src@.take(i as int)).push(
                src@[i as int],
            ));
        }
        i = i + 1;
    }
    proof {
        assert(src@.take(src@.len() as int) =~= src@);
    }
}


/// The evaluation of a column at the challenge powers.
pub open spec fn col_eval(c: ColumnV, powers: Seq<int>) -> int {
    inner_product_spec(c.embeds(), powers)
}

/// The openings of every committed input column at the challenge powers.
pub open spec fn spec_input_evals(t: OwnedTable, powers: Seq<int>) -> Seq<int> {
    Seq::new(t.spec_columns().len(), |i: int| col_eval(t.spec_columns()[i].1@, powers))
}

/// The folded contribution of every projection: its output column's
/// evaluation at the challenge powers over the selected rows.
pub open spec fn spec_root_evals(outs: Seq<ColumnV>, powers: Seq<int>) -> Seq<int> {
    Seq::new(outs.len(), |i: int| col_eval(outs[i], powers))
}

/// The predicate's contribution: the selection evaluated at the challenge
/// powers over the full row domain.
pub open spec fn spec_pred_eval(sel: Seq<bool>, powers: Seq<int>) -> int {
    col_eval(ColumnV::Boolean(sel), powers)
}

/// Every contribution the prover folds, in the fixed transcript order:
/// input openings, projection roots, then the predicate.
pub open spec fn spec_artifact_evals(plan: ProofPlan, t: OwnedTable, rv: int) -> Seq<int> {
    let n = t.spec_num_rows();
    let sel = plan.spec_selection(t)->Ok_0;
    let m = count_true(sel) as nat;
    spec_input_evals(t, spec_powers(rv, n)) + spec_root_evals(
        plan.spec_evaluate(t)->Ok_0,
        spec_powers(rv, m),
    ) + seq![spec_pred_eval(sel, spec_powers(rv, n))]
}

/// The folded transcript digest over the challenge and every contribution.
pub open spec fn spec_fold(rv: int, evals: Seq<int>) -> Seq<u8> {
    digest_of(enc_u64(rv) + enc_field_seq(evals))
}

/// Computes the folded transcript digest.
pub fn fold_digest(r: FieldElement, evals: &Vec<FieldElement>) -> (d: Vec<u8>)
    requires
        r.inv(),
        field_seq_inv(evals@),
    ensures
        d@ == spec_fold(r.val(), field_vals(evals@)),
{
    let mut bytes: Vec<u8> = Vec::new();
    enc_u64_bytes(r.as_u64(), &mut bytes);
    enc_field_vec(evals, &mut bytes);
    proof {
        assert(bytes@ =~= enc_u64(r.val()) + enc_field_seq(field_vals(evals@)));
    }
    sha256_digest(&bytes)
}

/// Counts the rows a selection keeps.
pub fn count_trues(sel: &Vec<bool>) -> (r: usize)
    ensures
        r as int == count_true(sel@),
{
    let mut c: usize = 0;
    let mut i: usize = 0;
    while i < sel.len()
        invariant
            i <= sel@.len(),
            c <= i,
            c as int == count_true(sel@.take(i as int)),
        decreases sel@.len() - i,
    {
        proof {
            assert(sel@.take(i + 1) =~= sel@.take(i as int).push(sel@[i as int]));
            lemma_count_true_push(sel@.take(i as int), sel@[i as int]);
        }
        if sel[i] {
            c = c + 1;
        }
        i = i + 1;
    }
    proof {
        assert(sel@.take(sel@.len() as int) =~= sel@);
    }
    c
}

/// Appending one selector entry raises the count exactly when it is kept.
pub proof fn lemma_count_true_push(sel: Seq<bool>, b: bool)
    ensures
        count_true(sel.push(b)) == count_true(sel) + (if b { 1int } else { 0int }),
    decreases sel.len(),
{
    if sel.len() == 0 {
        assert(sel.push(b).drop_first() =~= Seq::<bool>::empty());
        assert(sel.push(b)[0] == b);
        assert(count_true(Seq::<bool>::empty()) == 0);
    } else {
        assert(sel.push(b).drop_first() =~= sel.drop_first().push(b));
        assert(sel.push(b)[0] == sel[0]);
        lemma_count_true_push(sel.drop_first(), b);
    }
}

/// Two byte strings compared for equality.
pub fn bytes_eq(a: &Vec<u8>, b: &Vec<u8>) -> (r: bool)
    ensures
        r <==> a@ == b@,
{
    if a.len() != b.len() {
        return false;
    }
    let mut i: usize = 0;
    while i < a.len()
        invariant
            i <= a@.len(),
            a@.len() == b@.len(),
            forall|j: int| 0 <= j < i ==> a@[j] == b@[j],
        decreases a@.len() - i,
    {
        if a[i] != b[i] {
            return false;
        }
        i = i + 1;
    }
    proof {
        assert(a@ =~= b@);
    }
    true
}

/// Two lists of byte strings compared for equality.
pub fn byte_lists_eq(a: &Vec<Vec<u8>>, b: &Vec<Vec<u8>>) -> (r: bool)
    ensures
        r <==> crate::column::deep_bytes(a@) == crate::column::deep_bytes(b@),
{
    if a.len() != b.len() {
        proof {
            assert(crate::column::deep_bytes(a@).len() != crate::column::deep_bytes(b@).len());
        }
        return false;
    }
    let mut i: usize = 0;
    while i < a.len()
        invariant
            i <= a@.len(),
            a@.len() == b@.len(),
            forall|j: int| 0 <= j < i ==> (#[trigger] a@[j])@ == b@[j]@,
        decreases a@.len() - i,
    {
        if !bytes_eq(&a[i], &b[i]) {
            proof {
                assert(crate::column::deep_bytes(a@)[i as int] != crate::column::deep_bytes(
                    b@,
                )[i as int]);
            }
            return false;
        }
        i = i + 1;
    }
    proof {
        assert(crate::column::deep_bytes(a@) =~= crate::column::deep_bytes(b@));
    }
    true
}

/// The proof artifact: input commitments, the selection, every folded
/// contribution, and the folded transcript digest. Opaque to callers.
#[derive(Debug, PartialEq, Eq)]
pub struct QueryProof {
    pub input_commitments: Vec<Vec<u8>>,
    pub selection: Vec<bool>,
    pub node_evals: Vec<FieldElement>,
    pub fold_digest: Vec<u8>,
}

/// A claimed query result: the plaintext output table and the artifact a
/// verifier checks it against.
#[derive(Debug, PartialEq, Eq)]
pub struct VerifiableQueryResult {
    pub table: OwnedTable,
    pub proof: QueryProof,
}

/// What a verifier accepts: the mirror of every check `verify` performs, in
/// order, over the claimed table, the artifact and the accessor.
pub open spec fn spec_verify(
    table: OwnedTable,
    comms: Seq<Seq<u8>>,
    sel: Seq<bool>,
    evals: Seq<int>,
    fold: Seq<u8>,
    plan: ProofPlan,
    acc_comms: Seq<Seq<u8>>,
    acc_rows: nat,
) -> Result<(), VerificationError> {
    let nc = acc_comms.len();
    let ne = plan.aliased_results@.len();
    let m = count_true(sel) as nat;
    if comms != acc_comms {
        Err(VerificationError::CommitmentMismatch)
    } else if sel.len() != acc_rows {
        Err(VerificationError::MalformedArtifact)
    } else if table.spec_columns().len() != ne {
        Err(VerificationError::MalformedArtifact)
    } else if !(forall|i: int|
        0 <= i < ne ==> {
            &&& (#[trigger] table.spec_columns()[i]).0@ == plan.aliased_results@[i].alias@
            &&& table.spec_columns()[i].1@.ctype() == plan.aliased_results@[i].expr.spec_data_type()
            &&& table.spec_columns()[i].1@.len() == m
        }) {
        Err(VerificationError::MalformedArtifact)
    } else if evals.len() != nc + ne + 1 {
        Err(VerificationError::MalformedArtifact)
    } else {
        let rv = spec_challenge(plan, acc_rows as int, comms, sel, table);
        let pm = spec_powers(rv, m);
        let pn = spec_powers(rv, acc_rows);
        if !(forall|i: int|
            0 <= i < ne ==> evals[nc + i] == col_eval(
                (#[trigger] table.spec_columns()[i]).1@,
                pm,
            )) {
            Err(VerificationError::OutputMismatch)
        } else if evals[(nc + ne) as int] != spec_pred_eval(sel, pn) {
            Err(VerificationError::RelationFailed)
        } else if fold != spec_fold(rv, evals) {
            Err(VerificationError::FoldMismatch)
        } else {
            Ok(())
        }
    }
}

impl VerifiableQueryResult {
    /// Proves a plan over full column data: evaluates it, commits to the
    /// inputs, derives the challenge from the public transcript, folds every
    /// contribution, and returns the claimed table with its artifact.
    #[verifier::rlimit(100)]
    pub fn new(plan: &ProofPlan, accessor: &OwnedTable) -> (r: Result<
        VerifiableQueryResult,
        EvalError,
    >)
        requires
            plan.wf(),
            accessor.wf(),
        ensures
            r is Ok <==> plan.spec_evaluate(*accessor) is Ok,
            r is Err ==> plan.spec_evaluate(*accessor) == Err::<Seq<ColumnV>, EvalError>(
                r->Err_0,
            ),
            r is Ok ==> {
                let vqr = r->Ok_0;
                let outs = plan.spec_evaluate(*accessor)->Ok_0;
                let sel = plan.spec_selection(*accessor)->Ok_0;
                let rv = spec_challenge(
                    *plan,
                    accessor.spec_num_rows() as int,
                    spec_input_commitments(*accessor),
                    sel,
                    vqr.table,
                );
                &&& vqr.table.wf()
                &&& vqr.table.spec_columns().len() == plan.aliased_results@.len()
                &&& (forall|i: int|
                    0 <= i < plan.aliased_results@.len() ==> (
                    #[trigger] vqr.table.spec_columns()[i]).1@ == outs[i]
                        && vqr.table.spec_columns()[i].0 == plan.aliased_results@[i].alias)
                &&& crate::column::deep_bytes(vqr.proof.input_commitments@)
                    == spec_input_commitments(*accessor)
                &&& vqr.proof.selection@ == sel
                &&& field_seq_inv(vqr.proof.node_evals@)
                &&& field_vals(vqr.proof.node_evals@) == spec_artifact_evals(
                    *plan,
                    *accessor,
                    rv,
                )
                &&& vqr.proof.fold_digest@ == spec_fold(rv, field_vals(vqr.proof.node_evals@))
            },
    {
        let table = match plan.evaluate(accessor) {
            Ok(tb) => tb,
            Err(e) => {
                return Err(e);
            },
        };
        let selection = match plan.where_clause.evaluate(accessor) {
            Ok(c) => match c {
                OwnedColumn::Boolean(bs) => bs,
                _ => {
                    proof {
                        assert(false);
                    }
                    return Err(EvalError::TypeMismatch);
                },
            },
            Err(e) => {
                proof {
                    assert(false);
                }
                return Err(e);
            },
        };
        let acc = commitment_accessor_of(accessor);
        let commitments = acc.commitments;
        let r = derive_challenge(
            plan,
            accessor.num_rows() as u64,
            &commitments,
            &selection,
            &table,
        );
        let m = count_trues(&selection);
        proof {
            crate::plan::lemma_eval_len(plan.where_clause, *accessor);
            crate::column::lemma_filter_seq_len(selection@, selection@);
        }
        let pows_n = powers_vec(r, accessor.num_rows());
        let pows_m = powers_vec(r, m);
        let mut evals: Vec<FieldElement> = Vec::new();
        let mut i: usize = 0;
        while i < accessor.num_columns()
            invariant
                i <= accessor.spec_columns().len(),
                evals@.len() == i,
                field_seq_inv(evals@),
                field_seq_inv(pows_n@),
                field_vals(pows_n@) == spec_powers(r.val(), accessor.spec_num_rows()),
                forall|j: int|
                    0 <= j < i ==> (#[trigger] evals@[j]).val() == col_eval(
                        accessor.spec_columns()[j].1@,
                        field_vals(pows_n@),
                    ),
            decreases accessor.spec_columns().len() - i,
        {
            let emb = embed_column(accessor.column_at(i));
            let e = inner_product(&emb, &pows_n);
            evals.push(e);
            i = i + 1;
        }
        proof {
            assert(field_vals(evals@) =~= spec_input_evals(*accessor, field_vals(pows_n@)));
        }
        let ghost input_part = field_vals(evals@);
        let mut j: usize = 0;
        while j < table.num_columns()
            invariant
                j <= table.spec_columns().len(),
                evals@.len() == accessor.spec_columns().len() + j,
                field_seq_inv(evals@),
                field_seq_inv(pows_m@),
                field_vals(pows_m@) == spec_powers(r.val(), count_true(selection@) as nat),
                field_vals(evals@).take(accessor.spec_columns().len() as int) == input_part,
                forall|k: int|
                    0 <= k < j ==> field_vals(evals@)[accessor.spec_columns().len() + k]
                        == col_eval((#[trigger] table.spec_columns()[k]).1@, field_vals(pows_m@)),
            decreases table.spec_columns().len() - j,
        {
            let emb = embed_column(table.column_at(j));
            let e = inner_product(&emb, &pows_m);
            let ghost prev = evals@;
            evals.push(e);
            proof {
                assert(field_vals(evals@).take(accessor.spec_columns().len() as int)
                    =~= field_vals(prev).take(accessor.spec_columns().len() as int));
            }
            j = j + 1;
        }
        let pred_col = OwnedColumn::Boolean(selection);
        let pred_emb = embed_column(&pred_col);
        let pred_eval = inner_product(&pred_emb, &pows_n);
        let ghost before_pred = evals@;
        evals.push(pred_eval);
        let selection = match pred_col {
            OwnedColumn::Boolean(bs) => bs,
            _ => {
                proof {
                    assert(false);
                }
                return Err(EvalError::TypeMismatch);
            },
        };
        proof {
            assert(field_vals(evals@).take(before_pred.len() as int) =~= field_vals(before_pred));
            crate::plan::lemma_plan_output_shape(*plan, *accessor);
            let outs = plan.spec_evaluate(*accessor)->Ok_0;
            let nc = accessor.spec_columns().len() as int;
            let ne = plan.aliased_results@.len() as int;
            let se = spec_artifact_evals(*plan, *accessor, r.val());
            let pm = spec_powers(r.val(), count_true(selection@) as nat);
            let pn = spec_powers(r.val(), accessor.spec_num_rows());
            assert(se.len() == nc + ne + 1);
            assert(field_vals(evals@).len() == nc + ne + 1);
            assert forall|ix: int| 0 <= ix < se.len() implies field_vals(evals@)[ix] == se[ix] by {
                if ix < nc {
                    assert(field_vals(evals@)[ix] == field_vals(before_pred)[ix]);
                    assert(field_vals(before_pred)[ix] == input_part[ix]);
                    assert(input_part[ix] == spec_input_evals(*accessor, pn)[ix]);
                } else if ix < nc + ne {
                    let k = ix - nc;
                    assert(field_vals(evals@)[ix] == field_vals(before_pred)[ix]);
                    assert(field_vals(before_pred)[ix] == col_eval(
                        table.spec_columns()[k].1@,
                        pm,
                    ));
                    assert(table.spec_columns()[k].1@ == outs[k]);
                    assert(se[ix] == spec_root_evals(outs, pm)[k]);
                } else {
                    assert(field_vals(evals@)[ix] == pred_eval.val());
                }
            }
            assert(field_vals(evals@) =~= se);
        }
        let fold = fold_digest(r, &evals);
        Ok(
            VerifiableQueryResult {
                table,
                proof: QueryProof {
                    input_commitments: commitments,
                    selection,
                    node_evals: evals,
                    fold_digest: fold,
                },
            },
        )
    }

    /// Verifies a claimed result against a plan and a commitment-only
    /// accessor: replays the transcript, recomputes every checkable
    /// contribution from the claimed table, and accepts all or nothing.
    #[verifier::rlimit(100)]
    #[verifier::spinoff_prover]
    pub fn verify(self, plan: &ProofPlan, accessor: &CommitmentAccessor) -> (r: Result<
        OwnedTable,
        VerificationError,
    >)
        requires
            field_seq_inv(self.proof.node_evals@),
        ensures
            match r {
                Ok(tb) => {
                    &&& tb == self.table
                    &&& spec_verify(
                        self.table,
                        crate::column::deep_bytes(self.proof.input_commitments@),
                        self.proof.selection@,
                        field_vals(self.proof.node_evals@),
                        self.proof.fold_digest@,
                        *plan,
                        accessor.spec_commitments(),
                        accessor.num_rows as nat,
                    ) is Ok
                },
                Err(e) => spec_verify(
                    self.table,
                    crate::column::deep_bytes(self.proof.input_commitments@),
                    self.proof.selection@,
                    field_vals(self.proof.node_evals@),
                    self.proof.fold_digest@,
                    *plan,
                    accessor.spec_commitments(),
                    accessor.num_rows as nat,
                ) == Err::<(), VerificationError>(e),
            },
    {
        if !byte_lists_eq(&self.proof.input_commitments, &accessor.commitments) {
            return Err(VerificationError::CommitmentMismatch);
        }
        if self.proof.selection.len() != accessor.num_rows {
            return Err(VerificationError::MalformedArtifact);
        }
        let ne = plan.aliased_results.len();
        if self.table.num_columns() != ne {
            return Err(VerificationError::MalformedArtifact);
        }
        let m = count_trues(&self.proof.selection);
        proof {
            crate::column::lemma_filter_seq_len(self.proof.selection@, self.proof.selection@);
        }
        if !check_output_shape(&self.table, plan, m) {
            return Err(VerificationError::MalformedArtifact);
        }
        self.verify_algebra(plan, accessor, m)
    }

    /// The algebraic half of verification: the challenge replay, the folded
    /// contributions against the claimed output, the predicate, and the
    /// folded digest.
    #[verifier::rlimit(100)]
    #[verifier::spinoff_prover]
    fn verify_algebra(self, plan: &ProofPlan, accessor: &CommitmentAccessor, m: usize) -> (r:
        Result<OwnedTable, VerificationError>)
        requires
            field_seq_inv(self.proof.node_evals@),
            crate::column::deep_bytes(self.proof.input_commitments@)
                == accessor.spec_commitments(),
            self.proof.selection@.len() == accessor.num_rows,
            self.table.spec_columns().len() == plan.aliased_results@.len(),
            m as int == count_true(self.proof.selection@),
            forall|k: int|
                0 <= k < plan.aliased_results@.len() ==> {
                    &&& (#[trigger] self.table.spec_columns()[k]).0@
                        == plan.aliased_results@[k].alias@
                    &&& self.table.spec_columns()[k].1@.ctype()
                        == plan.aliased_results@[k].expr.spec_data_type()
                    &&& self.table.spec_columns()[k].1@.len() == m
                },
        ensures
            match r {
                Ok(tb) => {
                    &&& tb == self.table
                    &&& spec_verify(
                        self.table,
                        crate::column::deep_bytes(self.proof.input_commitments@),
                        self.proof.selection@,
                        field_vals(self.proof.node_evals@),
                        self.proof.fold_digest@,
                        *plan,
                        accessor.spec_commitments(),
                        accessor.num_rows as nat,
                    ) is Ok
                },
                Err(e) => spec_verify(
                    self.table,
                    crate::column::deep_bytes(self.proof.input_commitments@),
                    self.proof.selection@,
                    field_vals(self.proof.node_evals@),
                    self.proof.fold_digest@,
                    *plan,
                    accessor.spec_commitments(),
                    accessor.num_rows as nat,
                ) == Err::<(), VerificationError>(e),
            },
    {
        let ne = plan.aliased_results.len();
        let nc = accessor.commitments.len();
        let total = self.proof.node_evals.len();
        if !(total >= nc && total - nc >= ne && (total - nc) - ne == 1) {
            return Err(VerificationError::MalformedArtifact);
        }
        let r = derive_challenge(
            plan,
            accessor.num_rows as u64,
            &self.proof.input_commitments,
            &self.proof.selection,
            &self.table,
        );
        let pows_m = powers_vec(r, m);
        let pows_n = powers_vec(r, accessor.num_rows);
        if !check_roots(&self.table, &self.proof.node_evals, nc, &pows_m) {
            return Err(VerificationError::OutputMismatch);
        }
        let sel_copy = crate::column::copy_vec(&self.proof.selection);
        let sel_col = OwnedColumn::Boolean(sel_copy);
        let sel_emb = embed_column(&sel_col);
        let pred_expected = inner_product(&sel_emb, &pows_n);
        let pred_got = self.proof.node_evals[nc + ne];
        if !(pred_got == pred_expected) {
            proof {
                crate::field::lemma_val_injective(pred_got, pred_expected);
            }
            return Err(VerificationError::RelationFailed);
        }
        proof {
            crate::field::lemma_val_injective(pred_got, pred_expected);
        }
        let fold = fold_digest(r, &self.proof.node_evals);
        if !bytes_eq(&fold, &self.proof.fold_digest) {
            return Err(VerificationError::FoldMismatch);
        }
        Ok(self.table)
    }


}

/// Completeness of the protocol: an artifact produced honestly from a plan
/// and full column data passes every check of `verify` against the
/// commitment-only view of the same data, and the verifier hands back
/// exactly the table that direct evaluation yields.
pub proof fn lemma_prove_verify_completeness(
    plan: ProofPlan,
    t: OwnedTable,
    vt: OwnedTable,
    sel: Seq<bool>,
    evals: Seq<int>,
    fold: Seq<u8>,
)
    requires
        plan.wf(),
        t.wf(),
        plan.spec_evaluate(t) is Ok,
        sel == plan.spec_selection(t)->Ok_0,
        vt.spec_columns().len() == plan.aliased_results@.len(),
        forall|i: int|
            0 <= i < plan.aliased_results@.len() ==> (#[trigger] vt.spec_columns()[i]).1@
                == plan.spec_evaluate(t)->Ok_0[i] && vt.spec_columns()[i].0
                == plan.aliased_results@[i].alias,
        evals == spec_artifact_evals(
            plan,
            t,
            spec_challenge(plan, t.spec_num_rows() as int, spec_input_commitments(t), sel, vt),
        ),
        fold == spec_fold(
            spec_challenge(plan, t.spec_num_rows() as int, spec_input_commitments(t), sel, vt),
            evals,
        ),
    ensures
        spec_verify(
            vt,
            spec_input_commitments(t),
            sel,
            evals,
            fold,
            plan,
            spec_input_commitments(t),
            t.spec_num_rows(),
        ) is Ok,
{
    let comms = spec_input_commitments(t);
    let nc = comms.len();
    let ne = plan.aliased_results@.len();
    let outs = plan.spec_evaluate(t)->Ok_0;
    crate::plan::lemma_eval_len(plan.where_clause, t);
    assert(sel.len() == t.spec_num_rows());
    crate::plan::lemma_plan_output_shape(plan, t);
    let m = count_true(sel) as nat;
    assert forall|i: int| 0 <= i < ne implies {
        &&& (#[trigger] vt.spec_columns()[i]).0@ == plan.aliased_results@[i].alias@
        &&& vt.spec_columns()[i].1@.ctype() == plan.aliased_results@[i].expr.spec_data_type()
        &&& vt.spec_columns()[i].1@.len() == m
    } by {
        lemma_output_col_shape(plan, t, i);
        assert(vt.spec_columns()[i].1@ == outs[i]);
    }
    let rv = spec_challenge(plan, t.spec_num_rows() as int, comms, sel, vt);
    let pm = spec_powers(rv, m);
    let pn = spec_powers(rv, t.spec_num_rows());
    assert(evals.len() == nc + ne + 1);
    assert forall|i: int| 0 <= i < ne implies evals[nc + i] == col_eval(
        (#[trigger] vt.spec_columns()[i]).1@,
        pm,
    ) by {
        assert(evals[nc + i] == spec_root_evals(outs, pm)[i]);
        assert(vt.spec_columns()[i].1@ == outs[i]);
    }
    assert(evals[(nc + ne) as int] == spec_pred_eval(sel, pn));
}

/// Each output column of a plan carries the projection's declared type and
/// the selected row count.
pub proof fn lemma_output_col_shape(plan: ProofPlan, t: OwnedTable, i: int)
    requires
        plan.wf(),
        t.wf(),
        plan.spec_evaluate(t) is Ok,
        0 <= i < plan.aliased_results@.len(),
    ensures
        plan.spec_evaluate(t)->Ok_0.len() == plan.aliased_results@.len(),
        plan.spec_evaluate(t)->Ok_0[i].ctype()
            == plan.aliased_results@[i].expr.spec_data_type(),
        plan.spec_evaluate(t)->Ok_0[i].len() == count_true(plan.spec_selection(t)->Ok_0),
{
    crate::plan::lemma_plan_output_shape(plan, t);
    crate::plan::lemma_eval_len(plan.where_clause, t);
    let sel = plan.spec_selection(t)->Ok_0;
    lemma_outputs_entry(plan.aliased_results@, t, sel, i);
}

/// A projection list's outputs are as many as its expressions.
proof fn lemma_outputs_len(
    exprs: Seq<crate::plan::AliasedDynProofExpr>,
    t: OwnedTable,
    sel: Seq<bool>,
)
    requires
        crate::plan::spec_eval_outputs(exprs, t, sel) is Ok,
    ensures
        crate::plan::spec_eval_outputs(exprs, t, sel)->Ok_0.len() == exprs.len(),
    decreases exprs.len(),
{
    if exprs.len() > 0 {
        match exprs[0].expr.spec_evaluate(t) {
            Err(e) => {},
            Ok(c) => {
                lemma_outputs_len(exprs.drop_first(), t, sel);
            },
        }
    }
}

/// Each entry of a projection list's outputs is the corresponding filtered
/// expression column.
proof fn lemma_outputs_entry(
    exprs: Seq<crate::plan::AliasedDynProofExpr>,
    t: OwnedTable,
    sel: Seq<bool>,
    i: int,
)
    requires
        t.wf(),
        sel.len() == t.spec_num_rows(),
        forall|k: int| 0 <= k < exprs.len() ==> (#[trigger] exprs[k]).expr.wf(),
        crate::plan::spec_eval_outputs(exprs, t, sel) is Ok,
        0 <= i < exprs.len(),
    ensures
        exprs[i].expr.spec_evaluate(t) is Ok,
        crate::plan::spec_eval_outputs(exprs, t, sel)->Ok_0[i]
            == exprs[i].expr.spec_evaluate(t)->Ok_0.filtered(sel),
        crate::plan::spec_eval_outputs(exprs, t, sel)->Ok_0[i].ctype()
            == exprs[i].expr.spec_data_type(),
        crate::plan::spec_eval_outputs(exprs, t, sel)->Ok_0[i].len() == count_true(sel),
    decreases exprs.len(),
{
    match exprs[0].expr.spec_evaluate(t) {
        Err(e) => {
            assert(false);
        },
        Ok(c) => {
            match crate::plan::spec_eval_outputs(exprs.drop_first(), t, sel) {
                Err(e) => {
                    assert(false);
                },
                Ok(rest) => {
                    if i == 0 {
                        crate::plan::lemma_eval_len(exprs[0].expr, t);
                        crate::plan::lemma_filtered_len_inv(c, sel);
                        assert(crate::plan::spec_eval_outputs(exprs, t, sel)->Ok_0[0]
                            == c.filtered(sel));
                    } else {
                        assert(forall|k: int|
                            0 <= k < exprs.drop_first().len() ==> (#[trigger] exprs.drop_first()[k]).expr.wf());
                        lemma_outputs_entry(exprs.drop_first(), t, sel, i - 1);
                        lemma_outputs_len(exprs.drop_first(), t, sel);
                        assert(rest.len() == exprs.len() - 1);
                        assert(exprs.drop_first()[i - 1] == exprs[i]);
                        assert(crate::plan::spec_eval_outputs(exprs, t, sel) == Ok::<
                            Seq<ColumnV>,
                            EvalError,
                        >(seq![c.filtered(sel)] + rest));
                        assert(seq![c.filtered(sel)].len() == 1);
                        assert(i >= 1);
                        assert((seq![c.filtered(sel)] + rest)[i] == rest[i - 1]);
                    }
                },
            }
        },
    }
}


/// Checks that a claimed output table fits the plan: each column carries
/// the projection's alias and declared type and the selected row count.
fn check_output_shape(table: &OwnedTable, plan: &ProofPlan, m: usize) -> (ok: bool)
    requires
        table.spec_columns().len() == plan.aliased_results@.len(),
    ensures
        ok <==> (forall|k: int|
            0 <= k < plan.aliased_results@.len() ==> {
                &&& (#[trigger] table.spec_columns()[k]).0@ == plan.aliased_results@[k].alias@
                &&& table.spec_columns()[k].1@.ctype()
                    == plan.aliased_results@[k].expr.spec_data_type()
                &&& table.spec_columns()[k].1@.len() == m
            }),
{
    let ne = plan.aliased_results.len();
    let mut i: usize = 0;
    while i < ne
        invariant
            i <= ne,
            ne == plan.aliased_results@.len(),
            table.spec_columns().len() == ne,
            forall|k: int|
                0 <= k < i ==> {
                    &&& (#[trigger] table.spec_columns()[k]).0@
                        == plan.aliased_results@[k].alias@
                    &&& table.spec_columns()[k].1@.ctype()
                        == plan.aliased_results@[k].expr.spec_data_type()
                    &&& table.spec_columns()[k].1@.len() == m
                },
        decreases ne - i,
    {
        let name_ok = table.column_name_at(i).eq(&plan.aliased_results[i].alias);
        let type_ok = table.column_at(i).column_type() == plan.aliased_results[i].expr.data_type();
        let len_ok = table.column_at(i).len() == m;
        if !name_ok || !type_ok || !len_ok {
            return false;
        }
        i = i + 1;
    }
    true
}

/// Checks every projection's folded contribution against the claimed
/// output column's evaluation at the challenge powers.
fn check_roots(
    table: &OwnedTable,
    evals: &Vec<FieldElement>,
    nc: usize,
    pows: &Vec<FieldElement>,
) -> (ok: bool)
    requires
        field_seq_inv(evals@),
        field_seq_inv(pows@),
        evals@.len() == nc + table.spec_columns().len() + 1,
    ensures
        ok <==> (forall|k: int|
            0 <= k < table.spec_columns().len() ==> field_vals(evals@)[nc + k] == col_eval(
                (#[trigger] table.spec_columns()[k]).1@,
                field_vals(pows@),
            )),
{
    let total = evals.len();
    let ne = table.num_columns();
    let mut j: usize = 0;
    let mut idx: usize = nc;
    while j < ne
        invariant
            j <= ne,
            idx == nc + j,
            ne == table.spec_columns().len(),
            total == evals@.len(),
            evals@.len() == nc + ne + 1,
            field_seq_inv(evals@),
            field_seq_inv(pows@),
            forall|k: int|
                0 <= k < j ==> field_vals(evals@)[nc + k] == col_eval(
                    (#[trigger] table.spec_columns()[k]).1@,
                    field_vals(pows@),
                ),
        decreases ne - j,
    {
        let emb = embed_column(table.column_at(j));
        let expected = inner_product(&emb, pows);
        let got = evals[idx];
        proof {
            crate::field::lemma_val_injective(got, expected);
        }
        if !(got == expected) {
            return false;
        }
        j = j + 1;
        idx = idx + 1;
    }
    true
}

} // verus!
