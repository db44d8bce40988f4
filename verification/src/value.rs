//! Single values: literals of partition tuples and bounds, and their order.

use vstd::prelude::*;

verus! {

/// A primitive value as metadata records it. A floating-point value is held by its bits.
pub enum PrimitiveLiteral {
    Boolean(bool),
    Int(i32),
    Long(i64),
    Float(u32),
    Double(u64),
    String(String),
    Binary(Vec<u8>),
    Int128(i128),
    UInt128(u128),
}

/// A partition value.
pub enum Literal {
    Primitive(PrimitiveLiteral),
    /// A struct, list or map, which no partition field may hold.
    Nested,
}

/// A bound: its literal, and the text that people read it as.
pub struct Datum {
    pub literal: PrimitiveLiteral,
    pub text: String,
}

/// [`PrimitiveLiteral`] as a mathematical value.
pub enum LiteralModel {
    Boolean(bool),
    Int(i32),
    Long(i64),
    Float(u32),
    Double(u64),
    String(Seq<char>),
    Binary(Seq<u8>),
    Int128(i128),
    UInt128(u128),
}

impl PrimitiveLiteral {
    pub open spec fn model(self) -> LiteralModel {
        match self {
            PrimitiveLiteral::Boolean(value) => LiteralModel::Boolean(value),
            PrimitiveLiteral::Int(value) => LiteralModel::Int(value),
            PrimitiveLiteral::Long(value) => LiteralModel::Long(value),
            PrimitiveLiteral::Float(bits) => LiteralModel::Float(bits),
            PrimitiveLiteral::Double(bits) => LiteralModel::Double(bits),
            PrimitiveLiteral::String(value) => LiteralModel::String(value@),
            PrimitiveLiteral::Binary(value) => LiteralModel::Binary(value@),
            PrimitiveLiteral::Int128(value) => LiteralModel::Int128(value),
            PrimitiveLiteral::UInt128(value) => LiteralModel::UInt128(value),
        }
    }
}

// ---------------------------------------------------------------------------
// Floating-point bits
// ---------------------------------------------------------------------------

/// Whether the bits are those of a single-precision NaN.
pub open spec fn is_nan32(bits: u32) -> bool {
    (0x7f80_0000 < bits && bits < 0x8000_0000) || bits > 0xff80_0000
}

/// Whether the bits are those of a double-precision NaN.
pub open spec fn is_nan64(bits: u64) -> bool {
    (0x7ff0_0000_0000_0000 < bits && bits < 0x8000_0000_0000_0000) || bits > 0xfff0_0000_0000_0000
}

/// The place of a single-precision value in the order of numbers: negative values by falling
/// magnitude, both zeros together, and every NaN together above all numbers.
pub open spec fn rank32(bits: u32) -> int {
    if is_nan32(bits) {
        0x7fc0_0000
    } else if bits >= 0x8000_0000 {
        0x8000_0000 - bits
    } else {
        bits as int
    }
}

/// The place of a double-precision value in the order of numbers.
pub open spec fn rank64(bits: u64) -> int {
    if is_nan64(bits) {
        0x7ff8_0000_0000_0000
    } else if bits >= 0x8000_0000_0000_0000 {
        0x8000_0000_0000_0000 - bits
    } else {
        bits as int
    }
}

fn rank32_of(bits: u32) -> (rank: i64)
    ensures
        rank == rank32(bits),
{
    if (0x7f80_0000 < bits && bits < 0x8000_0000) || bits > 0xff80_0000 {
        0x7fc0_0000
    } else if bits >= 0x8000_0000 {
        0x8000_0000i64 - bits as i64
    } else {
        bits as i64
    }
}

fn rank64_of(bits: u64) -> (rank: i128)
    ensures
        rank == rank64(bits),
{
    if (0x7ff0_0000_0000_0000 < bits && bits < 0x8000_0000_0000_0000) || bits > 0xfff0_0000_0000_0000 {
        0x7ff8_0000_0000_0000
    } else if bits >= 0x8000_0000_0000_0000 {
        0x8000_0000_0000_0000i128 - bits as i128
    } else {
        bits as i128
    }
}

// ---------------------------------------------------------------------------
// Order of texts and bytes
// ---------------------------------------------------------------------------

/// Whether one text comes before another, character by character.
pub open spec fn text_before(left: Seq<char>, right: Seq<char>) -> bool
    decreases left.len(),
{
    if right.len() == 0 {
        false
    } else if left.len() == 0 {
        true
    } else if left[0] != right[0] {
        (left[0] as int) < (right[0] as int)
    } else {
        text_before(left.drop_first(), right.drop_first())
    }
}

/// Whether one byte string comes before another, byte by byte.
pub open spec fn bytes_before(left: Seq<u8>, right: Seq<u8>) -> bool
    decreases left.len(),
{
    if right.len() == 0 {
        false
    } else if left.len() == 0 {
        true
    } else if left[0] != right[0] {
        left[0] < right[0]
    } else {
        bytes_before(left.drop_first(), right.drop_first())
    }
}

/// Whether one text comes before another.
pub fn is_text_before(left: &str, right: &str) -> (before: bool)
    ensures
        before == text_before(left@, right@),
{
    let left_length: usize = left.unicode_len();
    let right_length: usize = right.unicode_len();
    let mut i: usize = 0;
    assert(left@.skip(0) =~= left@);
    assert(right@.skip(0) =~= right@);
    while i < left_length && i < right_length
        invariant
            i <= left_length,
            i <= right_length,
            left_length == left@.len(),
            right_length == right@.len(),
            text_before(left@, right@) == text_before(left@.skip(i as int), right@.skip(i as int)),
        decreases left_length - i,
    {
        let a: char = left.get_char(i);
        let b: char = right.get_char(i);
        proof {
            assert(left@.skip(i as int)[0] == a);
            assert(right@.skip(i as int)[0] == b);
            assert(left@.skip(i as int).drop_first() =~= left@.skip(i + 1));
            assert(right@.skip(i as int).drop_first() =~= right@.skip(i + 1));
        }
        if a != b {
            return (a as u32) < (b as u32);
        }
        i += 1;
    }
    i < right_length
}

fn is_bytes_before(left: &Vec<u8>, right: &Vec<u8>) -> (before: bool)
    ensures
        before == bytes_before(left@, right@),
{
    let mut i: usize = 0;
    assert(left@.skip(0) =~= left@);
    assert(right@.skip(0) =~= right@);
    while i < left.len() && i < right.len()
        invariant
            i <= left.len(),
            i <= right.len(),
            bytes_before(left@, right@) == bytes_before(left@.skip(i as int), right@.skip(i as int)),
        decreases left.len() - i,
    {
        proof {
            assert(left@.skip(i as int)[0] == left@[i as int]);
            assert(right@.skip(i as int)[0] == right@[i as int]);
            assert(left@.skip(i as int).drop_first() =~= left@.skip(i + 1));
            assert(right@.skip(i as int).drop_first() =~= right@.skip(i + 1));
        }
        if left[i] != right[i] {
            return left[i] < right[i];
        }
        i += 1;
    }
    i < right.len()
}

fn same_bytes(left: &Vec<u8>, right: &Vec<u8>) -> (same: bool)
    ensures
        same == (left@ == right@),
{
    if left.len() != right.len() {
        return false;
    }
    let mut i: usize = 0;
    while i < left.len()
        invariant
            i <= left.len(),
            left.len() == right.len(),
            forall|k: int| 0 <= k < i ==> left@[k] == right@[k],
        decreases left.len() - i,
    {
        if left[i] != right[i] {
            return false;
        }
        i += 1;
    }
    assert(left@ =~= right@);
    true
}

/// A text never comes before itself.
pub proof fn law_text_order_is_irreflexive(text: Seq<char>)
    ensures
        !text_before(text, text),
    decreases text.len(),
{
    if text.len() > 0 {
        law_text_order_is_irreflexive(text.drop_first());
    }
}

/// Of two different texts exactly one comes first.
pub proof fn law_text_order_is_total(left: Seq<char>, right: Seq<char>)
    ensures
        left != right ==> text_before(left, right) || text_before(right, left),
        !(text_before(left, right) && text_before(right, left)),
    decreases left.len(),
{
    if left.len() > 0 && right.len() > 0 {
        if left[0] == right[0] {
            law_text_order_is_total(left.drop_first(), right.drop_first());
            if left.drop_first() == right.drop_first() {
                assert(left =~= seq![left[0]] + left.drop_first());
                assert(right =~= seq![right[0]] + right.drop_first());
            }
        }
    } else if left.len() == 0 && right.len() == 0 {
        assert(left =~= right);
    }
}

/// The order of texts is transitive.
pub proof fn law_text_order_is_transitive(a: Seq<char>, b: Seq<char>, c: Seq<char>)
    requires
        text_before(a, b),
        text_before(b, c),
    ensures
        text_before(a, c),
    decreases a.len(),
{
    if a.len() > 0 && a[0] == b[0] && b[0] == c[0] {
        law_text_order_is_transitive(a.drop_first(), b.drop_first(), c.drop_first());
    }
}

// ---------------------------------------------------------------------------
// Order and sameness of literals
// ---------------------------------------------------------------------------

/// Whether one literal is less than another. Literals of different kinds are not comparable.
pub open spec fn literal_less(left: LiteralModel, right: LiteralModel) -> bool {
    match (left, right) {
        (LiteralModel::Boolean(a), LiteralModel::Boolean(b)) => !a && b,
        (LiteralModel::Int(a), LiteralModel::Int(b)) => a < b,
        (LiteralModel::Long(a), LiteralModel::Long(b)) => a < b,
        (LiteralModel::Float(a), LiteralModel::Float(b)) => rank32(a) < rank32(b),
        (LiteralModel::Double(a), LiteralModel::Double(b)) => rank64(a) < rank64(b),
        (LiteralModel::String(a), LiteralModel::String(b)) => text_before(a, b),
        (LiteralModel::Binary(a), LiteralModel::Binary(b)) => bytes_before(a, b),
        (LiteralModel::Int128(a), LiteralModel::Int128(b)) => a < b,
        (LiteralModel::UInt128(a), LiteralModel::UInt128(b)) => a < b,
        _ => false,
    }
}

/// Whether one literal is less than another.
pub fn is_literal_less(left: &PrimitiveLiteral, right: &PrimitiveLiteral) -> (less: bool)
    ensures
        less == literal_less(left.model(), right.model()),
{
    match (left, right) {
        (PrimitiveLiteral::Boolean(a), PrimitiveLiteral::Boolean(b)) => !*a && *b,
        (PrimitiveLiteral::Int(a), PrimitiveLiteral::Int(b)) => *a < *b,
        (PrimitiveLiteral::Long(a), PrimitiveLiteral::Long(b)) => *a < *b,
        (PrimitiveLiteral::Float(a), PrimitiveLiteral::Float(b)) => rank32_of(*a) < rank32_of(*b),
        (PrimitiveLiteral::Double(a), PrimitiveLiteral::Double(b)) => rank64_of(*a) < rank64_of(*b),
        (PrimitiveLiteral::String(a), PrimitiveLiteral::String(b)) => is_text_before(
            a.as_str(),
            b.as_str(),
        ),
        (PrimitiveLiteral::Binary(a), PrimitiveLiteral::Binary(b)) => is_bytes_before(a, b),
        (PrimitiveLiteral::Int128(a), PrimitiveLiteral::Int128(b)) => *a < *b,
        (PrimitiveLiteral::UInt128(a), PrimitiveLiteral::UInt128(b)) => *a < *b,
        _ => false,
    }
}

/// Whether two literals are the same value: both zeros are, and all NaNs are.
pub open spec fn literal_same(left: LiteralModel, right: LiteralModel) -> bool {
    match (left, right) {
        (LiteralModel::Float(a), LiteralModel::Float(b)) => rank32(a) == rank32(b),
        (LiteralModel::Double(a), LiteralModel::Double(b)) => rank64(a) == rank64(b),
        _ => left == right,
    }
}

fn is_literal_same(left: &PrimitiveLiteral, right: &PrimitiveLiteral) -> (same: bool)
    ensures
        same == literal_same(left.model(), right.model()),
{
    match (left, right) {
        (PrimitiveLiteral::Boolean(a), PrimitiveLiteral::Boolean(b)) => *a == *b,
        (PrimitiveLiteral::Int(a), PrimitiveLiteral::Int(b)) => *a == *b,
        (PrimitiveLiteral::Long(a), PrimitiveLiteral::Long(b)) => *a == *b,
        (PrimitiveLiteral::Float(a), PrimitiveLiteral::Float(b)) => rank32_of(*a) == rank32_of(*b),
        (PrimitiveLiteral::Double(a), PrimitiveLiteral::Double(b)) => rank64_of(*a) == rank64_of(*b),
        (PrimitiveLiteral::String(a), PrimitiveLiteral::String(b)) => *a == *b,
        (PrimitiveLiteral::Binary(a), PrimitiveLiteral::Binary(b)) => same_bytes(a, b),
        (PrimitiveLiteral::Int128(a), PrimitiveLiteral::Int128(b)) => *a == *b,
        (PrimitiveLiteral::UInt128(a), PrimitiveLiteral::UInt128(b)) => *a == *b,
        _ => false,
    }
}

/// A partition value as a mathematical value: null, nested, or a primitive.
pub enum PartitionValueModel {
    Null,
    Nested,
    Primitive(LiteralModel),
}

pub open spec fn partition_value_model(value: Option<Literal>) -> PartitionValueModel {
    match value {
        None => PartitionValueModel::Null,
        Some(Literal::Nested) => PartitionValueModel::Nested,
        Some(Literal::Primitive(literal)) => PartitionValueModel::Primitive(literal.model()),
    }
}

/// Whether two partition values are the same.
pub open spec fn partition_value_same(left: PartitionValueModel, right: PartitionValueModel) -> bool {
    match (left, right) {
        (PartitionValueModel::Primitive(a), PartitionValueModel::Primitive(b)) => literal_same(a, b),
        _ => left == right,
    }
}

/// Whether two partition values are the same.
pub fn is_partition_value_same(left: &Option<Literal>, right: &Option<Literal>) -> (same: bool)
    ensures
        same == partition_value_same(partition_value_model(*left), partition_value_model(*right)),
{
    match (left, right) {
        (None, None) => true,
        (Some(Literal::Nested), Some(Literal::Nested)) => true,
        (Some(Literal::Primitive(a)), Some(Literal::Primitive(b))) => is_literal_same(a, b),
        _ => false,
    }
}

} // verus!
