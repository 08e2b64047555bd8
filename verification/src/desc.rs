//! Archived-type descriptors and the value model.
//!
//! Every archived type has a fixed size and alignment known from its
//! descriptor alone. A record is a sequence of fields laid out in
//! declaration order, each in a four-byte-aligned slot; variable-length
//! contents (string bytes, sequence elements, boxed payloads) live
//! out-of-line, reached through a relative pointer in the field's slot.
//!
//! `ValueModel` is the mathematical view of a `FieldValue`: contracts speak
//! of models, executable code carries values.

use vstd::prelude::*;
use vstd::bytes::*;
use crate::relptr::{rel_enc, rel_target};

verus! {

/// Longest payload (string bytes or element run) a single field may carry.
pub const MAX_PAYLOAD: usize = 0x10_0000;

/// Most fields a record descriptor may have.
pub const MAX_FIELDS: usize = 0x1_0000;

/// Bit pattern written for an absent float: the canonical quiet NaN.
pub const F32_NAN_BITS: u32 = 0x7fc0_0000;

/// True when `w` is the bit pattern of a float NaN: exponent bits all set
/// and a non-zero mantissa.
pub open spec fn is_nan_bits(w: u32) -> bool {
    (w & 0x7f80_0000) == 0x7f80_0000 && (w & 0x007f_ffff) != 0
}

/// Exec mirror of [`is_nan_bits`].
pub fn check_nan_bits(w: u32) -> (r: bool)
    ensures
        r == is_nan_bits(w),
{
    (w & 0x7f80_0000) == 0x7f80_0000 && (w & 0x007f_ffff) != 0
}

/// Which sentinel a niched three-field payload uses to encode absence:
/// a zero in its non-zero integer, a NaN in its never-NaN float, or an
/// out-of-range byte in its boolean.
#[derive(Clone, Copy, Debug, PartialEq, Eq)]
pub enum NicheStrategy {
    /// Absence is a zero in the non-zero integer field.
    Zero,
    /// Absence is a NaN pattern in the never-NaN float field.
    NaN,
    /// Absence is the byte 2 in the boolean field.
    Bool,
}

/// Descriptor of one archived field.
#[derive(Clone, Copy, Debug, PartialEq, Eq)]
pub enum FieldDesc {
    /// A 32-bit little-endian integer.
    U32,
    /// A 64-bit little-endian integer.
    U64,
    /// A boolean stored as one byte, 0 or 1.
    Bool,
    /// A float stored as its 32-bit bit pattern.
    F32Bits,
    /// A 16-byte universally unique identifier.
    Uuid,
    /// A byte string: relative pointer and length, bytes out-of-line.
    Str,
    /// A sequence of 32-bit integers: relative pointer and length,
    /// elements out-of-line.
    VecU32,
    /// An optional non-zero integer niched by the zero pattern.
    NichedNonZeroU32,
    /// An optional boolean niched by the byte 2.
    NichedBool,
    /// An optional never-NaN float niched by a NaN pattern.
    NichedF32,
    /// A 64-bit integer boxed out-of-line behind a relative pointer.
    BoxU64,
    /// An optional boxed integer niched by the zero pointer word.
    NichedBoxU64,
    /// A 32-bit integer reached through a shared pointer, deduplicated by
    /// target and registered under the given type identifier.
    SharedU32 {
        /// Type identifier the target is registered under at validation.
        type_id: u64,
    },
    /// An optional three-field payload (float bits, non-zero integer,
    /// boolean) with no explicit tag: absence reuses the given strategy's
    /// sentinel pattern inside the payload itself.
    NichedNichable {
        /// The sentinel strategy carrying absence.
        strat: NicheStrategy,
    },
}

/// One archived value, carried by executable code.
#[derive(Clone, Debug, PartialEq)]
pub enum FieldValue {
    /// A 32-bit integer.
    U32(u32),
    /// A 64-bit integer.
    U64(u64),
    /// A boolean.
    Bool(bool),
    /// A float as its bit pattern.
    F32Bits(u32),
    /// Sixteen identifier bytes.
    Uuid(Vec<u8>),
    /// A byte string.
    Str(Vec<u8>),
    /// A sequence of 32-bit integers.
    VecU32(Vec<u32>),
    /// An optional non-zero integer.
    NichedNonZeroU32(Option<u32>),
    /// An optional boolean.
    NichedBool(Option<bool>),
    /// An optional never-NaN float as its bit pattern.
    NichedF32(Option<u32>),
    /// A boxed 64-bit integer.
    BoxU64(u64),
    /// An optional boxed 64-bit integer.
    NichedBoxU64(Option<u64>),
    /// A shared 32-bit integer; `key` identifies the underlying allocation
    /// so that two references to it serialize one target.
    SharedU32 {
        /// Serializer-side identity of the shared allocation.
        key: u64,
        /// The shared integer itself.
        value: u32,
    },
    /// An optional three-field payload: float bits, non-zero integer,
    /// boolean.
    NichedNichable(Option<(u32, u32, bool)>),
}

/// The mathematical view of a [`FieldValue`]. A shared value's identity key
/// is serializer-side bookkeeping, not part of the value, so the model
/// carries only the shared integer.
pub enum ValueModel {
    /// A 32-bit integer.
    U32(u32),
    /// A 64-bit integer.
    U64(u64),
    /// A boolean.
    Bool(bool),
    /// A float as its bit pattern.
    F32Bits(u32),
    /// Sixteen identifier bytes.
    Uuid(Seq<u8>),
    /// A byte string.
    Str(Seq<u8>),
    /// A sequence of 32-bit integers.
    VecU32(Seq<u32>),
    /// An optional non-zero integer.
    NichedNonZeroU32(Option<u32>),
    /// An optional boolean.
    NichedBool(Option<bool>),
    /// An optional never-NaN float as its bit pattern.
    NichedF32(Option<u32>),
    /// A boxed 64-bit integer.
    BoxU64(u64),
    /// An optional boxed 64-bit integer.
    NichedBoxU64(Option<u64>),
    /// A shared 32-bit integer.
    SharedU32(u32),
    /// An optional three-field payload.
    NichedNichable(Option<(u32, u32, bool)>),
}

impl View for FieldValue {
    type V = ValueModel;

    open spec fn view(&self) -> ValueModel {
        match self {
            FieldValue::U32(x) => ValueModel::U32(*x),
            FieldValue::U64(x) => ValueModel::U64(*x),
            FieldValue::Bool(b) => ValueModel::Bool(*b),
            FieldValue::F32Bits(w) => ValueModel::F32Bits(*w),
            FieldValue::Uuid(b) => ValueModel::Uuid(b@),
            FieldValue::Str(s) => ValueModel::Str(s@),
            FieldValue::VecU32(xs) => ValueModel::VecU32(xs@),
            FieldValue::NichedNonZeroU32(o) => ValueModel::NichedNonZeroU32(*o),
            FieldValue::NichedBool(o) => ValueModel::NichedBool(*o),
            FieldValue::NichedF32(o) => ValueModel::NichedF32(*o),
            FieldValue::BoxU64(x) => ValueModel::BoxU64(*x),
            FieldValue::NichedBoxU64(o) => ValueModel::NichedBoxU64(*o),
            FieldValue::SharedU32 { key: _, value } => ValueModel::SharedU32(*value),
            FieldValue::NichedNichable(o) => ValueModel::NichedNichable(*o),
        }
    }
}

/// Number of bytes a field's fixed representation occupies.
pub open spec fn field_size(d: FieldDesc) -> int {
    match d {
        FieldDesc::U32 => 4,
        FieldDesc::U64 => 8,
        FieldDesc::Bool => 1,
        FieldDesc::F32Bits => 4,
        FieldDesc::Uuid => 16,
        FieldDesc::Str => 8,
        FieldDesc::VecU32 => 8,
        FieldDesc::NichedNonZeroU32 => 4,
        FieldDesc::NichedBool => 1,
        FieldDesc::NichedF32 => 4,
        FieldDesc::BoxU64 => 4,
        FieldDesc::NichedBoxU64 => 4,
        FieldDesc::SharedU32 { .. } => 4,
        FieldDesc::NichedNichable { .. } => 12,
    }
}

/// Bytes the field occupies inside a record: its size rounded up to the
/// four-byte slot granularity.
pub open spec fn slot_size(d: FieldDesc) -> int {
    ((field_size(d) + 3) / 4) * 4
}

/// Alignment the field's fixed representation requires.
pub open spec fn field_align(d: FieldDesc) -> int {
    match d {
        FieldDesc::Bool => 1,
        FieldDesc::NichedBool => 1,
        _ => 4,
    }
}

/// Exec mirror of [`field_size`].
pub fn field_size_x(d: &FieldDesc) -> (n: usize)
    ensures
        n as int == field_size(*d),
{
    match d {
        FieldDesc::U32 => 4,
        FieldDesc::U64 => 8,
        FieldDesc::Bool => 1,
        FieldDesc::F32Bits => 4,
        FieldDesc::Uuid => 16,
        FieldDesc::Str => 8,
        FieldDesc::VecU32 => 8,
        FieldDesc::NichedNonZeroU32 => 4,
        FieldDesc::NichedBool => 1,
        FieldDesc::NichedF32 => 4,
        FieldDesc::BoxU64 => 4,
        FieldDesc::NichedBoxU64 => 4,
        FieldDesc::SharedU32 { .. } => 4,
        FieldDesc::NichedNichable { .. } => 12,
    }
}

/// Exec mirror of [`slot_size`].
pub fn slot_size_x(d: &FieldDesc) -> (n: usize)
    ensures
        n as int == slot_size(*d),
{
    match d {
        FieldDesc::U32 => 4,
        FieldDesc::U64 => 8,
        FieldDesc::Bool => 4,
        FieldDesc::F32Bits => 4,
        FieldDesc::Uuid => 16,
        FieldDesc::Str => 8,
        FieldDesc::VecU32 => 8,
        FieldDesc::NichedNonZeroU32 => 4,
        FieldDesc::NichedBool => 4,
        FieldDesc::NichedF32 => 4,
        FieldDesc::BoxU64 => 4,
        FieldDesc::NichedBoxU64 => 4,
        FieldDesc::SharedU32 { .. } => 4,
        FieldDesc::NichedNichable { .. } => 12,
    }
}

/// A record descriptor the library accepts: few enough fields that every
/// offset computation stays far below the archive bound.
pub open spec fn wf_fields(fs: Seq<FieldDesc>) -> bool {
    fs.len() <= MAX_FIELDS
}

/// Total size of a record with the given fields.
pub open spec fn record_size(fs: Seq<FieldDesc>) -> int
    decreases fs.len(),
{
    if fs.len() == 0 {
        0
    } else {
        record_size(fs.drop_last()) + slot_size(fs.last())
    }
}

/// Offset of field `i` inside its record.
pub open spec fn field_offset(fs: Seq<FieldDesc>, i: int) -> int {
    record_size(fs.take(i))
}

/// Every slot is between 4 and 16 bytes, so a record's size is bounded by
/// sixteen bytes per field.
pub proof fn lemma_record_size_bounds(fs: Seq<FieldDesc>)
    ensures
        4 * fs.len() <= record_size(fs) <= 16 * fs.len(),
    decreases fs.len(),
{
    if fs.len() > 0 {
        lemma_record_size_bounds(fs.drop_last());
    }
}

/// Adding one field extends the record by that field's slot.
pub proof fn lemma_record_size_step(fs: Seq<FieldDesc>, i: int)
    requires
        0 <= i < fs.len(),
    ensures
        record_size(fs.take(i + 1)) == record_size(fs.take(i)) + slot_size(fs[i]),
{
    assert(fs.take(i + 1).drop_last() =~= fs.take(i));
    assert(fs.take(i + 1).last() == fs[i]);
}

/// Offsets grow with the field index, and the whole prefix fits in the
/// record.
pub proof fn lemma_field_offset_mono(fs: Seq<FieldDesc>, i: int, j: int)
    requires
        0 <= i <= j <= fs.len(),
    ensures
        record_size(fs.take(i)) + 4 * (j - i) <= record_size(fs.take(j)),
    decreases j - i,
{
    if i < j {
        lemma_field_offset_mono(fs, i, j - 1);
        lemma_record_size_step(fs, j - 1);
        assert(4 <= slot_size(fs[j - 1]) <= 16);
    }
}

/// A record's size is the offset just past its last field.
pub proof fn lemma_record_size_full(fs: Seq<FieldDesc>)
    ensures
        record_size(fs.take(fs.len() as int)) == record_size(fs),
{
    assert(fs.take(fs.len() as int) =~= fs);
}

/// Exec computation of a record's size.
pub fn record_size_x(fields: &Vec<FieldDesc>) -> (n: usize)
    requires
        wf_fields(fields@),
    ensures
        n as int == record_size(fields@),
        n <= 16 * MAX_FIELDS,
{
    let ghost fs = fields@;
    let mut n: usize = 0;
    let mut i: usize = 0;
    while i < fields.len()
        invariant
            0 <= i <= fields@.len(),
            fields@ == fs,
            wf_fields(fs),
            n as int == record_size(fs.take(i as int)),
            n <= 16 * i,
        decreases fields@.len() - i,
    {
        proof {
            lemma_record_size_step(fs, i as int);
        }
        let s = slot_size_x(&fields[i]);
        n = n + s;
        i = i + 1;
    }
    proof {
        lemma_record_size_full(fs);
    }
    n
}

} // verus!

verus! {

/// Every slot size is a multiple of four.
pub proof fn lemma_slot_size_mod4(d: FieldDesc)
    ensures
        slot_size(d) % 4 == 0,
        field_size(d) <= slot_size(d),
{
    match d {
        FieldDesc::U32 => {},
        FieldDesc::U64 => {},
        FieldDesc::Bool => {},
        FieldDesc::F32Bits => {},
        FieldDesc::Uuid => {},
        FieldDesc::Str => {},
        FieldDesc::VecU32 => {},
        FieldDesc::NichedNonZeroU32 => {},
        FieldDesc::NichedBool => {},
        FieldDesc::NichedF32 => {},
        FieldDesc::BoxU64 => {},
        FieldDesc::NichedBoxU64 => {},
        FieldDesc::SharedU32 { .. } => {},
        FieldDesc::NichedNichable { .. } => {},
    }
}

/// Every field offset is a multiple of four.
pub proof fn lemma_field_offset_mod4(fs: Seq<FieldDesc>, i: int)
    requires
        0 <= i <= fs.len(),
    ensures
        field_offset(fs, i) % 4 == 0,
    decreases i,
{
    if i > 0 {
        lemma_field_offset_mod4(fs, i - 1);
        lemma_record_size_step(fs, i - 1);
        lemma_slot_size_mod4(fs[i - 1]);
    }
}

} // verus!
