//! The typed column model: column types, literal values, owned columns and
//! owned tables.
//!
//! Every value that flows through an expression carries one of a closed set
//! of column types. All columns of one table share one length; violating
//! that is a construction-time error, never a panic during evaluation.

use vstd::prelude::*;
use crate::field::{freduce, FieldElement};
use crate::hash::{field_embed_of, utf8_of};

verus! {

/// The largest admissible number of decimal digits.
pub const MAX_PRECISION: u8 = 75;

/// The digit capacity of a fixed-precision decimal, between 1 and 75.
#[derive(Clone, Copy, Debug, PartialEq, Eq, Structural, Hash)]
pub struct Precision {
    digits: u8,
}

impl Precision {
    /// The number of digits this precision admits.
    pub closed spec fn spec_value(self) -> u8 {
        self.digits
    }

    /// A precision is well formed when it lies between 1 and 75 digits.
    pub open spec fn inv(self) -> bool {
        1 <= self.spec_value() <= MAX_PRECISION
    }

    /// Accepts a digit count between 1 and 75, and rejects any other.
    pub fn new(digits: u8) -> (r: Option<Precision>)
        ensures
            r is Some <==> 1 <= digits <= MAX_PRECISION,
            r is Some ==> r->0.inv() && r->0.spec_value() == digits,
    {
        if 1 <= digits && digits <= MAX_PRECISION {
            Some(Precision { digits })
        } else {
            None
        }
    }

    /// The digit count.
    pub fn value(self) -> (r: u8)
        ensures
            r == self.spec_value(),
    {
        self.digits
    }
}

/// The granularity of a timestamp count.
#[derive(Clone, Copy, Debug, PartialEq, Eq, Structural, Hash)]
pub enum PoSQLTimeUnit {
    Second,
    Millisecond,
    Microsecond,
    Nanosecond,
}

impl PoSQLTimeUnit {
    /// How many nanoseconds one tick of this unit lasts.
    pub open spec fn spec_nanos(self) -> int {
        match self {
            PoSQLTimeUnit::Second => 1000000000,
            PoSQLTimeUnit::Millisecond => 1000000,
            PoSQLTimeUnit::Microsecond => 1000,
            PoSQLTimeUnit::Nanosecond => 1,
        }
    }

    /// How many nanoseconds one tick of this unit lasts.
    pub fn nanos(self) -> (r: i64)
        ensures
            r == self.spec_nanos(),
            1 <= r <= 1000000000,
    {
        match self {
            PoSQLTimeUnit::Second => 1000000000,
            PoSQLTimeUnit::Millisecond => 1000000,
            PoSQLTimeUnit::Microsecond => 1000,
            PoSQLTimeUnit::Nanosecond => 1,
        }
    }
}

/// A UTC offset in seconds; metadata of a timestamp, never part of its value.
#[derive(Clone, Copy, Debug, PartialEq, Eq, Structural, Hash)]
pub struct PoSQLTimeZone {
    offset: i32,
}

impl PoSQLTimeZone {
    /// The offset east of UTC, in seconds.
    pub closed spec fn spec_offset(self) -> i32 {
        self.offset
    }

    /// Wraps a UTC offset in seconds.
    pub fn new(offset: i32) -> (r: PoSQLTimeZone)
        ensures
            r.spec_offset() == offset,
    {
        PoSQLTimeZone { offset }
    }

    /// The offset east of UTC, in seconds.
    pub fn offset(self) -> (r: i32)
        ensures
            r == self.spec_offset(),
    {
        self.offset
    }
}

/// The closed set of column types.
#[derive(Clone, Copy, Debug, PartialEq, Eq, Structural, Hash)]
pub enum ColumnType {
    Boolean,
    Uint8,
    TinyInt,
    SmallInt,
    Int,
    BigInt,
    Int128,
    Decimal75(Precision, i8),
    TimestampTZ(PoSQLTimeUnit, PoSQLTimeZone),
    VarChar,
    Scalar,
    Bytes,
}

impl ColumnType {
    /// Whether this type stores a signed or unsigned machine integer.
    pub open spec fn spec_is_integer(self) -> bool {
        match self {
            ColumnType::Uint8 => true,
            ColumnType::TinyInt => true,
            ColumnType::SmallInt => true,
            ColumnType::Int => true,
            ColumnType::BigInt => true,
            ColumnType::Int128 => true,
            _ => false,
        }
    }

    /// Whether this type stores a signed or unsigned machine integer.
    pub fn is_integer(&self) -> (r: bool)
        ensures
            r == self.spec_is_integer(),
    {
        match self {
            ColumnType::Uint8 => true,
            ColumnType::TinyInt => true,
            ColumnType::SmallInt => true,
            ColumnType::Int => true,
            ColumnType::BigInt => true,
            ColumnType::Int128 => true,
            _ => false,
        }
    }

    /// The number of decimal digits that every value of an integer type fits
    /// in: 10^digits exceeds every stored magnitude.
    pub open spec fn spec_integer_digits(self) -> u8 {
        match self {
            ColumnType::Uint8 => 3,
            ColumnType::TinyInt => 3,
            ColumnType::SmallInt => 5,
            ColumnType::Int => 10,
            ColumnType::BigInt => 19,
            ColumnType::Int128 => 39,
            _ => 0,
        }
    }

    /// The number of decimal digits that every value of an integer type fits in.
    pub fn integer_digits(&self) -> (r: u8)
        ensures
            r == self.spec_integer_digits(),
    {
        match self {
            ColumnType::Uint8 => 3,
            ColumnType::TinyInt => 3,
            ColumnType::SmallInt => 5,
            ColumnType::Int => 10,
            ColumnType::BigInt => 19,
            ColumnType::Int128 => 39,
            _ => 0,
        }
    }
}

/// One concrete value of some column type.
#[derive(Clone, Debug, PartialEq, Eq)]
pub enum LiteralValue {
    Boolean(bool),
    Uint8(u8),
    TinyInt(i8),
    SmallInt(i16),
    Int(i32),
    BigInt(i64),
    Int128(i128),
    Decimal75(Precision, i8, i128),
    TimestampTZ(PoSQLTimeUnit, PoSQLTimeZone, i64),
    VarChar(String),
    Scalar(FieldElement),
    Bytes(Vec<u8>),
}

impl LiteralValue {
    /// The column type this literal carries.
    pub open spec fn spec_column_type(self) -> ColumnType {
        match self {
            LiteralValue::Boolean(_) => ColumnType::Boolean,
            LiteralValue::Uint8(_) => ColumnType::Uint8,
            LiteralValue::TinyInt(_) => ColumnType::TinyInt,
            LiteralValue::SmallInt(_) => ColumnType::SmallInt,
            LiteralValue::Int(_) => ColumnType::Int,
            LiteralValue::BigInt(_) => ColumnType::BigInt,
            LiteralValue::Int128(_) => ColumnType::Int128,
            LiteralValue::Decimal75(p, s, _) => ColumnType::Decimal75(p, s),
            LiteralValue::TimestampTZ(u, z, _) => ColumnType::TimestampTZ(u, z),
            LiteralValue::VarChar(_) => ColumnType::VarChar,
            LiteralValue::Scalar(_) => ColumnType::Scalar,
            LiteralValue::Bytes(_) => ColumnType::Bytes,
        }
    }

    /// The column type this literal carries.
    pub fn column_type(&self) -> (r: ColumnType)
        ensures
            r == self.spec_column_type(),
    {
        match self {
            LiteralValue::Boolean(_) => ColumnType::Boolean,
            LiteralValue::Uint8(_) => ColumnType::Uint8,
            LiteralValue::TinyInt(_) => ColumnType::TinyInt,
            LiteralValue::SmallInt(_) => ColumnType::SmallInt,
            LiteralValue::Int(_) => ColumnType::Int,
            LiteralValue::BigInt(_) => ColumnType::BigInt,
            LiteralValue::Int128(_) => ColumnType::Int128,
            LiteralValue::Decimal75(p, s, _) => ColumnType::Decimal75(*p, *s),
            LiteralValue::TimestampTZ(u, z, _) => ColumnType::TimestampTZ(*u, *z),
            LiteralValue::VarChar(_) => ColumnType::VarChar,
            LiteralValue::Scalar(_) => ColumnType::Scalar,
            LiteralValue::Bytes(_) => ColumnType::Bytes,
        }
    }

    /// The field embedding of this literal's value.
    pub open spec fn spec_embed(self) -> int {
        match self {
            LiteralValue::Boolean(b) => if b { 1int } else { 0int },
            LiteralValue::Uint8(v) => freduce(v as int),
            LiteralValue::TinyInt(v) => freduce(v as int),
            LiteralValue::SmallInt(v) => freduce(v as int),
            LiteralValue::Int(v) => freduce(v as int),
            LiteralValue::BigInt(v) => freduce(v as int),
            LiteralValue::Int128(v) => freduce(v as int),
            LiteralValue::Decimal75(_, _, v) => freduce(v as int),
            LiteralValue::TimestampTZ(_, _, v) => freduce(v as int),
            LiteralValue::VarChar(s) => field_embed_of(utf8_of(s@)),
            LiteralValue::Scalar(x) => freduce(x.val()),
            LiteralValue::Bytes(b) => field_embed_of(b@),
        }
    }

    /// A literal is well formed when any field element it carries is canonical.
    pub open spec fn inv(self) -> bool {
        match self {
            LiteralValue::Scalar(x) => x.inv(),
            _ => true,
        }
    }
}

/// The ghost shape of a column: its type tag over its sequence of values.
pub enum ColumnV {
    Boolean(Seq<bool>),
    Uint8(Seq<u8>),
    TinyInt(Seq<i8>),
    SmallInt(Seq<i16>),
    Int(Seq<i32>),
    BigInt(Seq<i64>),
    Int128(Seq<i128>),
    Decimal75(Precision, i8, Seq<i128>),
    TimestampTZ(PoSQLTimeUnit, PoSQLTimeZone, Seq<i64>),
    VarChar(Seq<Seq<char>>),
    Scalar(Seq<FieldElement>),
    Bytes(Seq<Seq<u8>>),
}

/// Keeps the elements of a sequence whose selector entry is true, in order.
pub open spec fn filter_seq<A>(s: Seq<A>, sel: Seq<bool>) -> Seq<A>
    recommends
        s.len() == sel.len(),
    decreases s.len(),
{
    if s.len() == 0 {
        Seq::empty()
    } else if sel.len() == 0 {
        Seq::empty()
    } else {
        let rest = filter_seq(s.drop_first(), sel.drop_first());
        if sel[0] {
            seq![s[0]] + rest
        } else {
            rest
        }
    }
}

/// How many entries of a selector are true.
pub open spec fn count_true(sel: Seq<bool>) -> int
    decreases sel.len(),
{
    if sel.len() == 0 {
        0
    } else {
        (if sel[0] { 1int } else { 0int }) + count_true(sel.drop_first())
    }
}

/// A filtered sequence keeps exactly as many elements as the selector keeps.
pub proof fn lemma_filter_seq_len<A>(s: Seq<A>, sel: Seq<bool>)
    requires
        s.len() == sel.len(),
    ensures
        filter_seq(s, sel).len() == count_true(sel),
        0 <= count_true(sel) <= sel.len(),
    decreases s.len(),
{
    if s.len() > 0 {
        lemma_filter_seq_len(s.drop_first(), sel.drop_first());
    }
}

/// Appending one element to both sequence and selector extends the filtered
/// sequence by that element exactly when it is selected.
pub proof fn lemma_filter_seq_push<A>(s: Seq<A>, sel: Seq<bool>, x: A, b: bool)
    requires
        s.len() == sel.len(),
    ensures
        filter_seq(s.push(x), sel.push(b)) == if b {
            filter_seq(s, sel).push(x)
        } else {
            filter_seq(s, sel)
        },
    decreases s.len(),
{
    if s.len() == 0 {
        let sp = s.push(x);
        let selp = sel.push(b);
        assert(sp.drop_first() =~= Seq::<A>::empty());
        assert(selp.drop_first() =~= Seq::<bool>::empty());
        assert(sp.drop_first() == Seq::<A>::empty() && selp.drop_first() == Seq::<bool>::empty());
        assert(filter_seq(Seq::<A>::empty(), Seq::<bool>::empty()) =~= Seq::<A>::empty());
        assert(filter_seq(s, sel) =~= Seq::<A>::empty());
        assert(sp[0] == x && selp[0] == b);
        if b {
            assert(filter_seq(sp, selp) =~= seq![x] + Seq::<A>::empty());
            assert(filter_seq(sp, selp) =~= filter_seq(s, sel).push(x));
        } else {
            assert(filter_seq(sp, selp) =~= filter_seq(s, sel));
        }
    } else {
        assert(s.push(x).drop_first() =~= s.drop_first().push(x));
        assert(sel.push(b).drop_first() =~= sel.drop_first().push(b));
        lemma_filter_seq_push(s.drop_first(), sel.drop_first(), x, b);
        if sel[0] {
            if b {
                assert(filter_seq(s.push(x), sel.push(b)) =~= filter_seq(s, sel).push(x));
            }
        }
    }
}

/// Filtering commutes with a pointwise map.
pub proof fn lemma_filter_seq_map<A, B>(s: Seq<A>, sel: Seq<bool>, g: spec_fn(A) -> B)
    requires
        s.len() == sel.len(),
    ensures
        filter_seq(s.map_values(g), sel) == filter_seq(s, sel).map_values(g),
    decreases s.len(),
{
    if s.len() == 0 {
        assert(filter_seq(s.map_values(g), sel) =~= filter_seq(s, sel).map_values(g));
    } else {
        lemma_filter_seq_map(s.drop_first(), sel.drop_first(), g);
        assert(s.map_values(g).drop_first() =~= s.drop_first().map_values(g));
        assert(filter_seq(s.map_values(g), sel) =~= filter_seq(s, sel).map_values(g));
    }
}

/// The character sequences of a string column.
pub open spec fn deep_strs(s: Seq<String>) -> Seq<Seq<char>> {
    s.map_values(|x: String| x@)
}

/// The byte sequences of a byte-string column.
pub open spec fn deep_bytes(s: Seq<Vec<u8>>) -> Seq<Seq<u8>> {
    s.map_values(|x: Vec<u8>| x@)
}

/// Keeps the elements of a copyable column whose selector entry is true.
pub fn filter_copy<T: Copy>(v: &Vec<T>, sel: &Vec<bool>) -> (r: Vec<T>)
    requires
        v@.len() == sel@.len(),
    ensures
        r@ == filter_seq(v@, sel@),
{
    let mut out: Vec<T> = Vec::new();
    let mut i: usize = 0;
    proof {
        assert(v@.subrange(0, 0) =~= Seq::<T>::empty());
        assert(sel@.subrange(0, 0) =~= Seq::<bool>::empty());
    }
    while i < v.len()
        invariant
            i <= v@.len(),
            v@.len() == sel@.len(),
            out@ == filter_seq(v@.subrange(0, i as int), sel@.subrange(0, i as int)),
        decreases v@.len() - i,
    {
        proof {
            assert(v@.subrange(0, i + 1) =~= v@.subrange(0, i as int).push(v@[i as int]));
            assert(sel@.subrange(0, i + 1) =~= sel@.subrange(0, i as int).push(sel@[i as int]));
            lemma_filter_seq_push(
                v@.subrange(0, i as int),
                sel@.subrange(0, i as int),
                v@[i as int],
                sel@[i as int],
            );
        }
        if sel[i] {
            out.push(v[i]);
        }
        i = i + 1;
    }
    proof {
        assert(v@.subrange(0, v@.len() as int) =~= v@);
        assert(sel@.subrange(0, sel@.len() as int) =~= sel@);
    }
    out
}

/// Keeps the strings of a string column whose selector entry is true.
pub fn filter_strings(v: &Vec<String>, sel: &Vec<bool>) -> (r: Vec<String>)
    requires
        v@.len() == sel@.len(),
    ensures
        deep_strs(r@) == filter_seq(deep_strs(v@), sel@),
{
    let mut out: Vec<String> = Vec::new();
    let mut i: usize = 0;
    proof {
        assert(deep_strs(v@.subrange(0, 0)) =~= Seq::<Seq<char>>::empty());
        assert(sel@.subrange(0, 0) =~= Seq::<bool>::empty());
        assert(deep_strs(out@) =~= filter_seq(deep_strs(v@.subrange(0, 0)), sel@.subrange(0, 0)));
    }
    while i < v.len()
        invariant
            i <= v@.len(),
            v@.len() == sel@.len(),
            deep_strs(out@) == filter_seq(deep_strs(v@.subrange(0, i as int)), sel@.subrange(0, i as int)),
        decreases v@.len() - i,
    {
        proof {
            assert(deep_strs(v@.subrange(0, i + 1)) =~= deep_strs(v@.subrange(0, i as int)).push(
                v@[i as int]@,
            ));
            assert(sel@.subrange(0, i + 1) =~= sel@.subrange(0, i as int).push(sel@[i as int]));
            lemma_filter_seq_push(
                deep_strs(v@.subrange(0, i as int)),
                sel@.subrange(0, i as int),
                v@[i as int]@,
                sel@[i as int],
            );
        }
        if sel[i] {
            let ghost prev = out@;
            out.push(v[i].clone());
            proof {
                assert(deep_strs(out@) =~= deep_strs(prev).push(v@[i as int]@));
            }
        }
        i = i + 1;
    }
    proof {
        assert(v@.subrange(0, v@.len() as int) =~= v@);
        assert(sel@.subrange(0, sel@.len() as int) =~= sel@);
    }
    out
}

/// Copies a byte string element by element.
pub fn copy_bytes(v: &Vec<u8>) -> (r: Vec<u8>)
    ensures
        r@ == v@,
{
    let mut out: Vec<u8> = Vec::new();
    let mut i: usize = 0;
    while i < v.len()
        invariant
            i <= v@.len(),
            out@ == v@.subrange(0, i as int),
        decreases v@.len() - i,
    {
        out.push(v[i]);
        proof {
            assert(v@.subrange(0, i + 1) =~= v@.subrange(0, i as int).push(v@[i as int]));
        }
        i = i + 1;
    }
    proof {
        assert(v@.subrange(0, v@.len() as int) =~= v@);
    }
    out
}

/// Keeps the byte strings of a bytes column whose selector entry is true.
pub fn filter_byte_strings(v: &Vec<Vec<u8>>, sel: &Vec<bool>) -> (r: Vec<Vec<u8>>)
    requires
        v@.len() == sel@.len(),
    ensures
        deep_bytes(r@) == filter_seq(deep_bytes(v@), sel@),
{
    let mut out: Vec<Vec<u8>> = Vec::new();
    let mut i: usize = 0;
    proof {
        assert(deep_bytes(v@.subrange(0, 0)) =~= Seq::<Seq<u8>>::empty());
        assert(sel@.subrange(0, 0) =~= Seq::<bool>::empty());
        assert(deep_bytes(out@) =~= filter_seq(deep_bytes(v@.subrange(0, 0)), sel@.subrange(0, 0)));
    }
    while i < v.len()
        invariant
            i <= v@.len(),
            v@.len() == sel@.len(),
            deep_bytes(out@) == filter_seq(deep_bytes(v@.subrange(0, i as int)), sel@.subrange(0, i as int)),
        decreases v@.len() - i,
    {
        proof {
            assert(deep_bytes(v@.subrange(0, i + 1)) =~= deep_bytes(v@.subrange(0, i as int)).push(
                v@[i as int]@,
            ));
            assert(sel@.subrange(0, i + 1) =~= sel@.subrange(0, i as int).push(sel@[i as int]));
            lemma_filter_seq_push(
                deep_bytes(v@.subrange(0, i as int)),
                sel@.subrange(0, i as int),
                v@[i as int]@,
                sel@[i as int],
            );
        }
        if sel[i] {
            let ghost prev = out@;
            let copied = copy_bytes(&v[i]);
            out.push(copied);
            proof {
                assert(deep_bytes(out@) =~= deep_bytes(prev).push(v@[i as int]@));
            }
        }
        i = i + 1;
    }
    proof {
        assert(v@.subrange(0, v@.len() as int) =~= v@);
        assert(sel@.subrange(0, sel@.len() as int) =~= sel@);
    }
    out
}

/// An ordered, fixed-length sequence of values of one column type.
#[derive(Debug, PartialEq, Eq)]
pub enum OwnedColumn {
    Boolean(Vec<bool>),
    Uint8(Vec<u8>),
    TinyInt(Vec<i8>),
    SmallInt(Vec<i16>),
    Int(Vec<i32>),
    BigInt(Vec<i64>),
    Int128(Vec<i128>),
    Decimal75(Precision, i8, Vec<i128>),
    TimestampTZ(PoSQLTimeUnit, PoSQLTimeZone, Vec<i64>),
    VarChar(Vec<String>),
    Scalar(Vec<FieldElement>),
    Bytes(Vec<Vec<u8>>),
}

impl View for OwnedColumn {
    type V = ColumnV;

    open spec fn view(&self) -> ColumnV {
        match self {
            OwnedColumn::Boolean(v) => ColumnV::Boolean(v@),
            OwnedColumn::Uint8(v) => ColumnV::Uint8(v@),
            OwnedColumn::TinyInt(v) => ColumnV::TinyInt(v@),
            OwnedColumn::SmallInt(v) => ColumnV::SmallInt(v@),
            OwnedColumn::Int(v) => ColumnV::Int(v@),
            OwnedColumn::BigInt(v) => ColumnV::BigInt(v@),
            OwnedColumn::Int128(v) => ColumnV::Int128(v@),
            OwnedColumn::Decimal75(p, s, v) => ColumnV::Decimal75(*p, *s, v@),
            OwnedColumn::TimestampTZ(u, z, v) => ColumnV::TimestampTZ(*u, *z, v@),
            OwnedColumn::VarChar(v) => ColumnV::VarChar(deep_strs(v@)),
            OwnedColumn::Scalar(v) => ColumnV::Scalar(v@),
            OwnedColumn::Bytes(v) => ColumnV::Bytes(deep_bytes(v@)),
        }
    }
}

impl ColumnV {
    /// How many rows the column holds.
    pub open spec fn len(self) -> nat {
        match self {
            ColumnV::Boolean(v) => v.len(),
            ColumnV::Uint8(v) => v.len(),
            ColumnV::TinyInt(v) => v.len(),
            ColumnV::SmallInt(v) => v.len(),
            ColumnV::Int(v) => v.len(),
            ColumnV::BigInt(v) => v.len(),
            ColumnV::Int128(v) => v.len(),
            ColumnV::Decimal75(_, _, v) => v.len(),
            ColumnV::TimestampTZ(_, _, v) => v.len(),
            ColumnV::VarChar(v) => v.len(),
            ColumnV::Scalar(v) => v.len(),
            ColumnV::Bytes(v) => v.len(),
        }
    }

    /// The column's type tag.
    pub open spec fn ctype(self) -> ColumnType {
        match self {
            ColumnV::Boolean(_) => ColumnType::Boolean,
            ColumnV::Uint8(_) => ColumnType::Uint8,
            ColumnV::TinyInt(_) => ColumnType::TinyInt,
            ColumnV::SmallInt(_) => ColumnType::SmallInt,
            ColumnV::Int(_) => ColumnType::Int,
            ColumnV::BigInt(_) => ColumnType::BigInt,
            ColumnV::Int128(_) => ColumnType::Int128,
            ColumnV::Decimal75(p, s, _) => ColumnType::Decimal75(p, s),
            ColumnV::TimestampTZ(u, z, _) => ColumnType::TimestampTZ(u, z),
            ColumnV::VarChar(_) => ColumnType::VarChar,
            ColumnV::Scalar(_) => ColumnType::Scalar,
            ColumnV::Bytes(_) => ColumnType::Bytes,
        }
    }

    /// A column is well formed when every field element it holds is canonical.
    pub open spec fn inv(self) -> bool {
        match self {
            ColumnV::Scalar(v) => forall|i: int| 0 <= i < v.len() ==> (#[trigger] v[i]).inv(),
            _ => true,
        }
    }

    /// The field embeddings of the column's values, row by row.
    pub open spec fn embeds(self) -> Seq<int> {
        match self {
            ColumnV::Boolean(v) => v.map_values(|b: bool| if b { 1int } else { 0int }),
            ColumnV::Uint8(v) => v.map_values(|x: u8| freduce(x as int)),
            ColumnV::TinyInt(v) => v.map_values(|x: i8| freduce(x as int)),
            ColumnV::SmallInt(v) => v.map_values(|x: i16| freduce(x as int)),
            ColumnV::Int(v) => v.map_values(|x: i32| freduce(x as int)),
            ColumnV::BigInt(v) => v.map_values(|x: i64| freduce(x as int)),
            ColumnV::Int128(v) => v.map_values(|x: i128| freduce(x as int)),
            ColumnV::Decimal75(_, _, v) => v.map_values(|x: i128| freduce(x as int)),
            ColumnV::TimestampTZ(_, _, v) => v.map_values(|x: i64| freduce(x as int)),
            ColumnV::VarChar(v) => v.map_values(|s: Seq<char>| field_embed_of(utf8_of(s))),
            ColumnV::Scalar(v) => v.map_values(|x: FieldElement| freduce(x.val())),
            ColumnV::Bytes(v) => v.map_values(|b: Seq<u8>| field_embed_of(b)),
        }
    }

    /// The column restricted to the selected rows.
    pub open spec fn filtered(self, sel: Seq<bool>) -> ColumnV {
        match self {
            ColumnV::Boolean(v) => ColumnV::Boolean(filter_seq(v, sel)),
            ColumnV::Uint8(v) => ColumnV::Uint8(filter_seq(v, sel)),
            ColumnV::TinyInt(v) => ColumnV::TinyInt(filter_seq(v, sel)),
            ColumnV::SmallInt(v) => ColumnV::SmallInt(filter_seq(v, sel)),
            ColumnV::Int(v) => ColumnV::Int(filter_seq(v, sel)),
            ColumnV::BigInt(v) => ColumnV::BigInt(filter_seq(v, sel)),
            ColumnV::Int128(v) => ColumnV::Int128(filter_seq(v, sel)),
            ColumnV::Decimal75(p, s, v) => ColumnV::Decimal75(p, s, filter_seq(v, sel)),
            ColumnV::TimestampTZ(u, z, v) => ColumnV::TimestampTZ(u, z, filter_seq(v, sel)),
            ColumnV::VarChar(v) => ColumnV::VarChar(filter_seq(v, sel)),
            ColumnV::Scalar(v) => ColumnV::Scalar(filter_seq(v, sel)),
            ColumnV::Bytes(v) => ColumnV::Bytes(filter_seq(v, sel)),
        }
    }
}

impl OwnedColumn {
    /// How many rows the column holds.
    pub fn len(&self) -> (r: usize)
        ensures
            r == self@.len(),
    {
        match self {
            OwnedColumn::Boolean(v) => v.len(),
            OwnedColumn::Uint8(v) => v.len(),
            OwnedColumn::TinyInt(v) => v.len(),
            OwnedColumn::SmallInt(v) => v.len(),
            OwnedColumn::Int(v) => v.len(),
            OwnedColumn::BigInt(v) => v.len(),
            OwnedColumn::Int128(v) => v.len(),
            OwnedColumn::Decimal75(_, _, v) => v.len(),
            OwnedColumn::TimestampTZ(_, _, v) => v.len(),
            OwnedColumn::VarChar(v) => v.len(),
            OwnedColumn::Scalar(v) => v.len(),
            OwnedColumn::Bytes(v) => v.len(),
        }
    }

    /// The column's type.
    pub fn column_type(&self) -> (r: ColumnType)
        ensures
            r == self@.ctype(),
    {
        match self {
            OwnedColumn::Boolean(_) => ColumnType::Boolean,
            OwnedColumn::Uint8(_) => ColumnType::Uint8,
            OwnedColumn::TinyInt(_) => ColumnType::TinyInt,
            OwnedColumn::SmallInt(_) => ColumnType::SmallInt,
            OwnedColumn::Int(_) => ColumnType::Int,
            OwnedColumn::BigInt(_) => ColumnType::BigInt,
            OwnedColumn::Int128(_) => ColumnType::Int128,
            OwnedColumn::Decimal75(p, s, _) => ColumnType::Decimal75(*p, *s),
            OwnedColumn::TimestampTZ(u, z, _) => ColumnType::TimestampTZ(*u, *z),
            OwnedColumn::VarChar(_) => ColumnType::VarChar,
            OwnedColumn::Scalar(_) => ColumnType::Scalar,
            OwnedColumn::Bytes(_) => ColumnType::Bytes,
        }
    }

    /// The column restricted to the selected rows, in their original order.
    pub fn filtered(&self, sel: &Vec<bool>) -> (r: OwnedColumn)
        requires
            self@.len() == sel@.len(),
        ensures
            r@ == self@.filtered(sel@),
    {
        match self {
            OwnedColumn::Boolean(v) => OwnedColumn::Boolean(filter_copy(v, sel)),
            OwnedColumn::Uint8(v) => OwnedColumn::Uint8(filter_copy(v, sel)),
            OwnedColumn::TinyInt(v) => OwnedColumn::TinyInt(filter_copy(v, sel)),
            OwnedColumn::SmallInt(v) => OwnedColumn::SmallInt(filter_copy(v, sel)),
            OwnedColumn::Int(v) => OwnedColumn::Int(filter_copy(v, sel)),
            OwnedColumn::BigInt(v) => OwnedColumn::BigInt(filter_copy(v, sel)),
            OwnedColumn::Int128(v) => OwnedColumn::Int128(filter_copy(v, sel)),
            OwnedColumn::Decimal75(p, s, v) => OwnedColumn::Decimal75(*p, *s, filter_copy(v, sel)),
            OwnedColumn::TimestampTZ(u, z, v) => OwnedColumn::TimestampTZ(
                *u,
                *z,
                filter_copy(v, sel),
            ),
            OwnedColumn::VarChar(v) => OwnedColumn::VarChar(filter_strings(v, sel)),
            OwnedColumn::Scalar(v) => OwnedColumn::Scalar(filter_copy(v, sel)),
            OwnedColumn::Bytes(v) => OwnedColumn::Bytes(filter_byte_strings(v, sel)),
        }
    }
}

/// Copies a column of copyable values element by element.
pub fn copy_vec<T: Copy>(v: &Vec<T>) -> (r: Vec<T>)
    ensures
        r@ == v@,
{
    let mut out: Vec<T> = Vec::new();
    let mut i: usize = 0;
    while i < v.len()
        invariant
            i <= v@.len(),
            out@ == v@.subrange(0, i as int),
        decreases v@.len() - i,
    {
        out.push(v[i]);
        proof {
            assert(v@.subrange(0, i + 1) =~= v@.subrange(0, i as int).push(v@[i as int]));
        }
        i = i + 1;
    }
    proof {
        assert(v@.subrange(0, v@.len() as int) =~= v@);
    }
    out
}

/// Copies a string column element by element.
pub fn clone_strings(v: &Vec<String>) -> (r: Vec<String>)
    ensures
        r@ == v@,
{
    let mut out: Vec<String> = Vec::new();
    let mut i: usize = 0;
    while i < v.len()
        invariant
            i <= v@.len(),
            out@ == v@.subrange(0, i as int),
        decreases v@.len() - i,
    {
        out.push(v[i].clone());
        proof {
            assert(v@.subrange(0, i + 1) =~= v@.subrange(0, i as int).push(v@[i as int]));
        }
        i = i + 1;
    }
    proof {
        assert(v@.subrange(0, v@.len() as int) =~= v@);
    }
    out
}

/// Copies a byte-string column element by element.
pub fn copy_byte_strings(v: &Vec<Vec<u8>>) -> (r: Vec<Vec<u8>>)
    ensures
        deep_bytes(r@) == deep_bytes(v@),
{
    let mut out: Vec<Vec<u8>> = Vec::new();
    let mut i: usize = 0;
    while i < v.len()
        invariant
            i <= v@.len(),
            out@.len() == i,
            forall|j: int| 0 <= j < i ==> (#[trigger] out@[j])@ == v@[j]@,
        decreases v@.len() - i,
    {
        let copied = copy_bytes(&v[i]);
        out.push(copied);
        i = i + 1;
    }
    proof {
        assert(deep_bytes(out@) =~= deep_bytes(v@));
    }
    out
}

impl Clone for OwnedColumn {
    /// A clone carries the same values.
    fn clone(&self) -> (r: Self)
        ensures
            r@ == self@,
    {
        match self {
            OwnedColumn::Boolean(v) => OwnedColumn::Boolean(copy_vec(v)),
            OwnedColumn::Uint8(v) => OwnedColumn::Uint8(copy_vec(v)),
            OwnedColumn::TinyInt(v) => OwnedColumn::TinyInt(copy_vec(v)),
            OwnedColumn::SmallInt(v) => OwnedColumn::SmallInt(copy_vec(v)),
            OwnedColumn::Int(v) => OwnedColumn::Int(copy_vec(v)),
            OwnedColumn::BigInt(v) => OwnedColumn::BigInt(copy_vec(v)),
            OwnedColumn::Int128(v) => OwnedColumn::Int128(copy_vec(v)),
            OwnedColumn::Decimal75(p, s, v) => OwnedColumn::Decimal75(*p, *s, copy_vec(v)),
            OwnedColumn::TimestampTZ(u, z, v) => OwnedColumn::TimestampTZ(*u, *z, copy_vec(v)),
            OwnedColumn::VarChar(v) => OwnedColumn::VarChar(clone_strings(v)),
            OwnedColumn::Scalar(v) => OwnedColumn::Scalar(copy_vec(v)),
            OwnedColumn::Bytes(v) => OwnedColumn::Bytes(copy_byte_strings(v)),
        }
    }
}

/// Why a table could not be assembled.
#[derive(Clone, Copy, Debug, PartialEq, Eq, Structural)]
pub enum TableError {
    ColumnLengthMismatch,
}

/// A named reference to a table: a schema name and a table name.
#[derive(Clone, Debug, PartialEq, Eq)]
pub struct TableRef {
    schema: String,
    name: String,
}

impl TableRef {
    /// The schema name.
    pub closed spec fn spec_schema(self) -> Seq<char> {
        self.schema@
    }

    /// The table name.
    pub closed spec fn spec_name(self) -> Seq<char> {
        self.name@
    }

    /// Builds a reference from a schema name and a table name.
    pub fn new(schema: String, name: String) -> (r: TableRef)
        ensures
            r.spec_schema() == schema@,
            r.spec_name() == name@,
    {
        TableRef { schema, name }
    }

    /// The schema name.
    pub fn schema(&self) -> (r: &String)
        ensures
            r@ == self.spec_schema(),
    {
        &self.schema
    }

    /// The table name.
    pub fn name(&self) -> (r: &String)
        ensures
            r@ == self.spec_name(),
    {
        &self.name
    }
}

/// A table: named columns of equal length.
#[derive(Clone, Debug, PartialEq, Eq)]
pub struct OwnedTable {
    num_rows: usize,
    columns: Vec<(String, OwnedColumn)>,
}

impl OwnedTable {
    /// The number of rows every column holds.
    pub closed spec fn spec_num_rows(self) -> nat {
        self.num_rows as nat
    }

    /// The named columns, in order.
    pub closed spec fn spec_columns(self) -> Seq<(String, OwnedColumn)> {
        self.columns@
    }

    /// A table is well formed when every column has the table's row count and
    /// every column is itself well formed.
    pub open spec fn wf(self) -> bool {
        forall|i: int| 0 <= i < self.spec_columns().len() ==> {
            &&& (#[trigger] self.spec_columns()[i]).1@.len() == self.spec_num_rows()
            &&& self.spec_columns()[i].1@.inv()
        }
    }

    /// Assembles a table from named columns, rejecting unequal lengths.
    /// An empty column list yields the empty table with no rows.
    pub fn try_new(columns: Vec<(String, OwnedColumn)>) -> (r: Result<OwnedTable, TableError>)
        requires
            forall|i: int| 0 <= i < columns@.len() ==> (#[trigger] columns@[i]).1@.inv(),
        ensures
            r is Ok <==> (forall|i: int, j: int|
                0 <= i < columns@.len() && 0 <= j < columns@.len() ==> (#[trigger] columns@[i]).1@.len()
                    == (#[trigger] columns@[j]).1@.len()),
            r is Ok ==> r->Ok_0.wf() && r->Ok_0.spec_columns() == columns@,
            r is Ok && columns@.len() > 0 ==> r->Ok_0.spec_num_rows() == columns@[0].1@.len(),
            r is Ok && columns@.len() == 0 ==> r->Ok_0.spec_num_rows() == 0,
            r is Err ==> r == Err::<OwnedTable, TableError>(TableError::ColumnLengthMismatch),
    {
        if columns.len() == 0 {
            return Ok(OwnedTable { num_rows: 0, columns });
        }
        let num_rows = columns[0].1.len();
        let mut i: usize = 1;
        while i < columns.len()
            invariant
                1 <= i <= columns@.len(),
                columns@.len() > 0,
                num_rows == columns@[0].1@.len(),
                forall|j: int| 0 <= j < i ==> (#[trigger] columns@[j]).1@.len() == num_rows,
            decreases columns@.len() - i,
        {
            if columns[i].1.len() != num_rows {
                return Err(TableError::ColumnLengthMismatch);
            }
            i = i + 1;
        }
        Ok(OwnedTable { num_rows, columns })
    }

    /// The number of rows.
    pub fn num_rows(&self) -> (r: usize)
        ensures
            r == self.spec_num_rows(),
    {
        self.num_rows
    }

    /// The number of columns.
    pub fn num_columns(&self) -> (r: usize)
        ensures
            r == self.spec_columns().len(),
    {
        self.columns.len()
    }

    /// The column at a position.
    pub fn column_at(&self, i: usize) -> (r: &OwnedColumn)
        requires
            i < self.spec_columns().len(),
        ensures
            *r == self.spec_columns()[i as int].1,
    {
        &self.columns[i].1
    }

    /// The name of the column at a position.
    pub fn column_name_at(&self, i: usize) -> (r: &String)
        requires
            i < self.spec_columns().len(),
        ensures
            *r == self.spec_columns()[i as int].0,
    {
        &self.columns[i].0
    }
}

} // verus!