//! The byte-level encoding of archived values, as specification functions.
//!
//! `header_bytes` says exactly which bytes a field's fixed slot holds once
//! it is resolved at a position, `payload_bytes` which bytes its
//! out-of-line payload holds, and `decode_field` reads a value model back
//! out of a buffer. The round-trip lemma proves that decoding an encoded
//! field yields the value it was encoded from.

use vstd::prelude::*;
use vstd::bytes::*;
use crate::relptr::{rel_enc, rel_target, rel_offset, MAX_ARCHIVE};
use crate::desc::{FieldDesc, FieldValue, ValueModel, NicheStrategy, field_size, field_offset,
    record_size, is_nan_bits, F32_NAN_BITS, MAX_PAYLOAD};

verus! {

/// True when the model is a value of the descriptor's type within the
/// library's limits: identifier bytes come sixteen at a time, payload
/// lengths are bounded, a present non-zero integer is non-zero, a present
/// never-NaN float is no NaN.
pub open spec fn wf_value(d: FieldDesc, m: ValueModel) -> bool {
    match (d, m) {
        (FieldDesc::U32, ValueModel::U32(_)) => true,
        (FieldDesc::U64, ValueModel::U64(_)) => true,
        (FieldDesc::Bool, ValueModel::Bool(_)) => true,
        (FieldDesc::F32Bits, ValueModel::F32Bits(_)) => true,
        (FieldDesc::Uuid, ValueModel::Uuid(b)) => b.len() == 16,
        (FieldDesc::Str, ValueModel::Str(s)) => s.len() <= MAX_PAYLOAD,
        (FieldDesc::VecU32, ValueModel::VecU32(xs)) => 4 * xs.len() <= MAX_PAYLOAD,
        (FieldDesc::NichedNonZeroU32, ValueModel::NichedNonZeroU32(o)) => (o matches Some(x)
            ==> x != 0),
        (FieldDesc::NichedBool, ValueModel::NichedBool(_)) => true,
        (FieldDesc::NichedF32, ValueModel::NichedF32(o)) => (o matches Some(w) ==> !is_nan_bits(
            w,
        )),
        (FieldDesc::BoxU64, ValueModel::BoxU64(_)) => true,
        (FieldDesc::NichedBoxU64, ValueModel::NichedBoxU64(_)) => true,
        (FieldDesc::SharedU32 { .. }, ValueModel::SharedU32(_)) => true,
        (FieldDesc::NichedNichable { .. }, ValueModel::NichedNichable(o)) => (o matches Some(t)
            ==> (!is_nan_bits(t.0) && t.1 != 0)),
        _ => false,
    }
}

/// True when the field keeps bytes out-of-line.
pub open spec fn has_payload(d: FieldDesc, m: ValueModel) -> bool {
    match (d, m) {
        (FieldDesc::Str, _) => true,
        (FieldDesc::VecU32, _) => true,
        (FieldDesc::BoxU64, _) => true,
        (FieldDesc::NichedBoxU64, ValueModel::NichedBoxU64(o)) => o is Some,
        (FieldDesc::SharedU32 { .. }, _) => true,
        _ => false,
    }
}

/// The little-endian concatenation of a run of 32-bit integers.
pub open spec fn concat_u32s(xs: Seq<u32>) -> Seq<u8>
    decreases xs.len(),
{
    if xs.len() == 0 {
        Seq::empty()
    } else {
        concat_u32s(xs.drop_last()) + spec_u32_to_le_bytes(xs.last())
    }
}

/// Each integer contributes four bytes.
pub proof fn lemma_concat_u32s_len(xs: Seq<u32>)
    ensures
        concat_u32s(xs).len() == 4 * xs.len(),
    decreases xs.len(),
{
    lemma_auto_spec_u32_to_from_le_bytes();
    if xs.len() > 0 {
        lemma_concat_u32s_len(xs.drop_last());
    }
}

/// The four bytes at index `4 * i` are the encoding of element `i`.
pub proof fn lemma_concat_u32s_index(xs: Seq<u32>, i: int)
    requires
        0 <= i < xs.len(),
    ensures
        concat_u32s(xs).subrange(4 * i, 4 * i + 4) == spec_u32_to_le_bytes(xs[i]),
    decreases xs.len(),
{
    lemma_auto_spec_u32_to_from_le_bytes();
    lemma_concat_u32s_len(xs);
    lemma_concat_u32s_len(xs.drop_last());
    if i == xs.len() - 1 {
        assert(concat_u32s(xs).subrange(4 * i, 4 * i + 4) =~= spec_u32_to_le_bytes(xs.last()));
    } else {
        lemma_concat_u32s_index(xs.drop_last(), i);
        assert(concat_u32s(xs).subrange(4 * i, 4 * i + 4) =~= concat_u32s(
            xs.drop_last(),
        ).subrange(4 * i, 4 * i + 4));
    }
}

/// Appending one element extends the concatenation by its four bytes.
pub proof fn lemma_concat_u32s_step(xs: Seq<u32>, i: int)
    requires
        0 <= i < xs.len(),
    ensures
        concat_u32s(xs.take(i + 1)) == concat_u32s(xs.take(i)) + spec_u32_to_le_bytes(xs[i]),
{
    assert(xs.take(i + 1).drop_last() =~= xs.take(i));
    assert(xs.take(i + 1).last() == xs[i]);
}

/// The out-of-line bytes a field's payload holds.
pub open spec fn payload_bytes(d: FieldDesc, m: ValueModel) -> Seq<u8> {
    match (d, m) {
        (FieldDesc::Str, ValueModel::Str(s)) => s,
        (FieldDesc::VecU32, ValueModel::VecU32(xs)) => concat_u32s(xs),
        (FieldDesc::BoxU64, ValueModel::BoxU64(x)) => spec_u64_to_le_bytes(x),
        (FieldDesc::NichedBoxU64, ValueModel::NichedBoxU64(Some(x))) => spec_u64_to_le_bytes(x),
        (FieldDesc::SharedU32 { .. }, ValueModel::SharedU32(x)) => spec_u32_to_le_bytes(x),
        _ => Seq::empty(),
    }
}

/// Alignment the payload's first byte must satisfy.
pub open spec fn payload_align(d: FieldDesc) -> int {
    match d {
        FieldDesc::Str => 1,
        FieldDesc::VecU32 => 4,
        FieldDesc::BoxU64 => 8,
        FieldDesc::NichedBoxU64 => 8,
        FieldDesc::SharedU32 { .. } => 4,
        _ => 1,
    }
}

/// The byte a boolean is stored as.
pub open spec fn bool_byte(b: bool) -> u8 {
    if b {
        1u8
    } else {
        0u8
    }
}

/// The word a niched boolean occupies inside a wider payload: 0 or 1 when
/// present, 2 when absent.
pub open spec fn nichable_bool_word(strat: NicheStrategy, o: Option<(u32, u32, bool)>) -> u32 {
    match o {
        Some(t) => if t.2 {
            1u32
        } else {
            0u32
        },
        None => match strat {
            NicheStrategy::Bool => 2u32,
            _ => 0u32,
        },
    }
}

/// The word holding a niched payload's float bits.
pub open spec fn nichable_float_word(strat: NicheStrategy, o: Option<(u32, u32, bool)>) -> u32 {
    match o {
        Some(t) => t.0,
        None => match strat {
            NicheStrategy::NaN => F32_NAN_BITS,
            _ => 0u32,
        },
    }
}

/// The word holding a niched payload's non-zero integer.
pub open spec fn nichable_int_word(o: Option<(u32, u32, bool)>) -> u32 {
    match o {
        Some(t) => t.1,
        None => 0u32,
    }
}

/// The twelve bytes of a niched three-field payload: float bits, non-zero
/// integer, boolean word; an absent value is all zeros except the chosen
/// strategy's sentinel.
pub open spec fn nichable_bytes(strat: NicheStrategy, o: Option<(u32, u32, bool)>) -> Seq<u8> {
    spec_u32_to_le_bytes(nichable_float_word(strat, o)) + spec_u32_to_le_bytes(
        nichable_int_word(o),
    ) + spec_u32_to_le_bytes(nichable_bool_word(strat, o))
}

/// The fixed bytes a field's slot holds once resolved at position `pos`
/// with its payload (if any) at position `t`.
pub open spec fn header_bytes(d: FieldDesc, m: ValueModel, pos: int, t: int) -> Seq<u8> {
    match (d, m) {
        (FieldDesc::U32, ValueModel::U32(x)) => spec_u32_to_le_bytes(x),
        (FieldDesc::U64, ValueModel::U64(x)) => spec_u64_to_le_bytes(x),
        (FieldDesc::Bool, ValueModel::Bool(b)) => seq![bool_byte(b)],
        (FieldDesc::F32Bits, ValueModel::F32Bits(w)) => spec_u32_to_le_bytes(w),
        (FieldDesc::Uuid, ValueModel::Uuid(b)) => b,
        (FieldDesc::Str, ValueModel::Str(s)) => spec_u32_to_le_bytes(rel_enc(pos, t))
            + spec_u32_to_le_bytes(s.len() as u32),
        (FieldDesc::VecU32, ValueModel::VecU32(xs)) => spec_u32_to_le_bytes(rel_enc(pos, t))
            + spec_u32_to_le_bytes(xs.len() as u32),
        (FieldDesc::NichedNonZeroU32, ValueModel::NichedNonZeroU32(o)) => spec_u32_to_le_bytes(
            match o {
                Some(x) => x,
                None => 0u32,
            },
        ),
        (FieldDesc::NichedBool, ValueModel::NichedBool(o)) => seq![
            match o {
                Some(b) => bool_byte(b),
                None => 2u8,
            },
        ],
        (FieldDesc::NichedF32, ValueModel::NichedF32(o)) => spec_u32_to_le_bytes(
            match o {
                Some(w) => w,
                None => F32_NAN_BITS,
            },
        ),
        (FieldDesc::BoxU64, ValueModel::BoxU64(_)) => spec_u32_to_le_bytes(rel_enc(pos, t)),
        (FieldDesc::NichedBoxU64, ValueModel::NichedBoxU64(o)) => spec_u32_to_le_bytes(
            match o {
                Some(_) => rel_enc(pos, t),
                None => 0u32,
            },
        ),
        (FieldDesc::SharedU32 { .. }, ValueModel::SharedU32(_)) => spec_u32_to_le_bytes(
            rel_enc(pos, t),
        ),
        (FieldDesc::NichedNichable { strat }, ValueModel::NichedNichable(o)) => nichable_bytes(
            strat,
            o,
        ),
        _ => Seq::empty(),
    }
}

/// The 32-bit little-endian integer at `pos`.
pub open spec fn read_u32(buf: Seq<u8>, pos: int) -> u32 {
    spec_u32_from_le_bytes(buf.subrange(pos, pos + 4))
}

/// The 64-bit little-endian integer at `pos`.
pub open spec fn read_u64(buf: Seq<u8>, pos: int) -> u64 {
    spec_u64_from_le_bytes(buf.subrange(pos, pos + 8))
}

/// The run of `n` 32-bit integers starting at `t`.
pub open spec fn decode_u32s(buf: Seq<u8>, t: int, n: int) -> Seq<u32> {
    Seq::new(n as nat, |i: int| read_u32(buf, t + 4 * i))
}

/// The niched three-field payload at `pos`, absent when the strategy's
/// sentinel is present.
pub open spec fn decode_nichable(strat: NicheStrategy, buf: Seq<u8>, pos: int) -> Option<
    (u32, u32, bool),
> {
    let w = read_u32(buf, pos);
    let nz = read_u32(buf, pos + 4);
    let bw = read_u32(buf, pos + 8);
    let absent = match strat {
        NicheStrategy::Zero => nz == 0,
        NicheStrategy::NaN => is_nan_bits(w),
        NicheStrategy::Bool => bw > 1,
    };
    if absent {
        None
    } else {
        Some((w, nz, bw == 1))
    }
}

/// The value model read back out of a buffer at `pos`: the view a consumer
/// sees when overlaying the field's type on the bytes.
pub open spec fn decode_field(d: FieldDesc, buf: Seq<u8>, pos: int) -> ValueModel {
    match d {
        FieldDesc::U32 => ValueModel::U32(read_u32(buf, pos)),
        FieldDesc::U64 => ValueModel::U64(read_u64(buf, pos)),
        FieldDesc::Bool => ValueModel::Bool(buf[pos] == 1),
        FieldDesc::F32Bits => ValueModel::F32Bits(read_u32(buf, pos)),
        FieldDesc::Uuid => ValueModel::Uuid(buf.subrange(pos, pos + 16)),
        FieldDesc::Str => {
            let t = rel_target(pos, read_u32(buf, pos));
            let n = read_u32(buf, pos + 4);
            ValueModel::Str(buf.subrange(t, t + n))
        },
        FieldDesc::VecU32 => {
            let t = rel_target(pos, read_u32(buf, pos));
            let n = read_u32(buf, pos + 4);
            ValueModel::VecU32(decode_u32s(buf, t, n as int))
        },
        FieldDesc::NichedNonZeroU32 => {
            let w = read_u32(buf, pos);
            ValueModel::NichedNonZeroU32(
                if w == 0 {
                    None
                } else {
                    Some(w)
                },
            )
        },
        FieldDesc::NichedBool => ValueModel::NichedBool(
            if buf[pos] > 1 {
                None
            } else {
                Some(buf[pos] == 1)
            },
        ),
        FieldDesc::NichedF32 => {
            let w = read_u32(buf, pos);
            ValueModel::NichedF32(
                if is_nan_bits(w) {
                    None
                } else {
                    Some(w)
                },
            )
        },
        FieldDesc::BoxU64 => {
            let t = rel_target(pos, read_u32(buf, pos));
            ValueModel::BoxU64(read_u64(buf, t))
        },
        FieldDesc::NichedBoxU64 => {
            let enc = read_u32(buf, pos);
            ValueModel::NichedBoxU64(
                if enc == 0 {
                    None
                } else {
                    Some(read_u64(buf, rel_target(pos, enc)))
                },
            )
        },
        FieldDesc::SharedU32 { .. } => {
            let t = rel_target(pos, read_u32(buf, pos));
            ValueModel::SharedU32(read_u32(buf, t))
        },
        FieldDesc::NichedNichable { strat } => ValueModel::NichedNichable(
            decode_nichable(strat, buf, pos),
        ),
    }
}

/// True when the buffer holds the field's resolved encoding: its header
/// bytes sit at `pos`, and its payload (if any) sits at `t`, aligned,
/// inside the buffer, at a representable distance, and away from its own
/// header for the pointer-niched case.
pub open spec fn field_encoded(d: FieldDesc, m: ValueModel, buf: Seq<u8>, pos: int, t: int) -> bool {
    &&& 0 <= pos
    &&& pos + field_size(d) <= buf.len()
    &&& buf.subrange(pos, pos + field_size(d)) == header_bytes(d, m, pos, t)
    &&& (has_payload(d, m) ==> {
        &&& 0 <= t
        &&& (d matches FieldDesc::NichedBoxU64 ==> t != pos)
        &&& t + payload_bytes(d, m).len() <= buf.len()
        &&& -0x8000_0000 <= t - pos < 0x8000_0000
        &&& t % payload_align(d) == 0
        &&& buf.subrange(t, t + payload_bytes(d, m).len()) == payload_bytes(d, m)
    })
}

/// True when the field's payload participates in the subtree-claim
/// discipline: everything out-of-line except shared targets, which are
/// registered instead of claimed.
pub open spec fn claimed(d: FieldDesc, m: ValueModel) -> bool {
    has_payload(d, m) && !(d matches FieldDesc::SharedU32 { .. })
}

/// True when the field is a shared pointer.
pub open spec fn is_shared(d: FieldDesc) -> bool {
    d matches FieldDesc::SharedU32 { .. }
}

/// The type identifier a shared field registers its target under.
pub open spec fn shared_tid(d: FieldDesc) -> u64 {
    match d {
        FieldDesc::SharedU32 { type_id } => type_id,
        _ => 0,
    }
}

/// The deduplication key a shared value carries.
pub open spec fn shared_key(v: FieldValue) -> u64 {
    match v {
        FieldValue::SharedU32 { key, .. } => key,
        _ => 0,
    }
}

/// The integer a shared value carries.
pub open spec fn shared_val(v: FieldValue) -> u32 {
    match v {
        FieldValue::SharedU32 { key: _, value } => value,
        _ => 0,
    }
}

/// The models of a sequence of values.
pub open spec fn models_of(vals: Seq<FieldValue>) -> Seq<ValueModel> {
    Seq::new(vals.len(), |i: int| vals[i]@)
}

/// True when every value is well formed for its descriptor.
pub open spec fn wf_values(fields: Seq<FieldDesc>, ms: Seq<ValueModel>) -> bool {
    &&& ms.len() == fields.len()
    &&& forall|i: int| 0 <= i < fields.len() ==> wf_value(fields[i], ms[i])
}

/// True when shared values agree: two shared fields with the same
/// deduplication key declare the same type identifier and carry the same
/// integer. Sharing a key under two identities would be type confusion by
/// construction.
pub open spec fn shared_consistent(fields: Seq<FieldDesc>, vals: Seq<FieldValue>) -> bool {
    forall|i: int, j: int|
        0 <= i < fields.len() && 0 <= j < fields.len() && is_shared(fields[i]) && is_shared(
            fields[j],
        ) && shared_key(vals[i]) == shared_key(vals[j]) ==> shared_tid(fields[i]) == shared_tid(
            fields[j],
        ) && shared_val(vals[i]) == shared_val(vals[j])
}

/// True when two shared fields whose targets coincide register the same
/// type identifier, so that registration can never raise type confusion.
pub open spec fn shared_regs_consistent(fields: Seq<FieldDesc>, ts: Seq<int>) -> bool {
    forall|i: int, j: int|
        0 <= i < fields.len() && 0 <= j < fields.len() && is_shared(fields[i]) && is_shared(
            fields[j],
        ) && ts[i] == ts[j] ==> shared_tid(fields[i]) == shared_tid(fields[j])
}

/// The fields from `i` on are encoded at their offsets, with every claimed
/// payload below `bound` and claims descending (each claimed payload ends
/// at or below the previous claim's start), and every shared payload below
/// `top`.
pub open spec fn record_encoded_from(
    fields: Seq<FieldDesc>,
    ms: Seq<ValueModel>,
    ts: Seq<int>,
    buf: Seq<u8>,
    pos: int,
    i: int,
    bound: int,
    top: int,
) -> bool
    decreases fields.len() - i,
{
    if i < 0 || i >= fields.len() {
        true
    } else {
        let d = fields[i];
        let m = ms[i];
        let t = ts[i];
        &&& field_encoded(d, m, buf, pos + field_offset(fields, i), t)
        &&& (claimed(d, m) ==> 0 <= t && t + payload_bytes(d, m).len() <= bound)
        &&& (is_shared(d) ==> 0 <= t && t + payload_bytes(d, m).len() <= top)
        &&& record_encoded_from(
            fields,
            ms,
            ts,
            buf,
            pos,
            i + 1,
            if claimed(d, m) {
                t
            } else {
                bound
            },
            top,
        )
    }
}

/// The complete archive shape `serialize_then_resolve` produces: the root
/// record sits at the end of the buffer on a four-byte boundary, every
/// field is encoded with its claims descending below the root, and shared
/// registrations are consistent.
pub open spec fn archive_encoded(
    fields: Seq<FieldDesc>,
    ms: Seq<ValueModel>,
    ts: Seq<int>,
    buf: Seq<u8>,
    root: int,
) -> bool {
    &&& ts.len() == fields.len()
    &&& ms.len() == fields.len()
    &&& 0 <= root
    &&& root % 4 == 0
    &&& root + record_size(fields) == buf.len()
    &&& buf.len() <= MAX_ARCHIVE
    &&& shared_regs_consistent(fields, ts)
    &&& record_encoded_from(fields, ms, ts, buf, root, 0, root, root)
}

/// The models read back out of a record's fields.
pub open spec fn decode_record(fields: Seq<FieldDesc>, buf: Seq<u8>, pos: int) -> Seq<ValueModel> {
    Seq::new(fields.len(), |i: int| decode_field(fields[i], buf, pos + field_offset(fields, i)))
}

/// Inside an encoded record, every single field from `i` on is encoded.
pub proof fn lemma_record_encoded_field(
    fields: Seq<FieldDesc>,
    ms: Seq<ValueModel>,
    ts: Seq<int>,
    buf: Seq<u8>,
    pos: int,
    i: int,
    bound: int,
    top: int,
    j: int,
)
    requires
        record_encoded_from(fields, ms, ts, buf, pos, i, bound, top),
        0 <= i <= j < fields.len(),
    ensures
        field_encoded(fields[j], ms[j], buf, pos + field_offset(fields, j), ts[j]),
    decreases j - i,
{
    if i < j {
        let d = fields[i];
        let m = ms[i];
        lemma_record_encoded_field(
            fields,
            ms,
            ts,
            buf,
            pos,
            i + 1,
            if claimed(d, m) {
                ts[i]
            } else {
                bound
            },
            top,
            j,
        );
    }
}

/// Round trip for whole records: decoding an encoded archive's root record
/// yields the models it was serialized from.
pub proof fn lemma_record_roundtrip(
    fields: Seq<FieldDesc>,
    ms: Seq<ValueModel>,
    ts: Seq<int>,
    buf: Seq<u8>,
    root: int,
)
    requires
        wf_values(fields, ms),
        archive_encoded(fields, ms, ts, buf, root),
    ensures
        decode_record(fields, buf, root) == ms,
{
    assert forall|j: int| 0 <= j < fields.len() implies decode_record(fields, buf, root)[j]
        == ms[j] by {
        lemma_record_encoded_field(fields, ms, ts, buf, root, 0, root, root, j);
        lemma_field_roundtrip(fields[j], ms[j], buf, root + field_offset(fields, j), ts[j]);
    }
    assert(decode_record(fields, buf, root) =~= ms);
}

/// A subrange of a subrange is the inner chunk of the outer one.
pub proof fn lemma_subrange_chunk(buf: Seq<u8>, pos: int, len: int, a: int, b: int)
    requires
        0 <= pos,
        pos + len <= buf.len(),
        0 <= a <= b <= len,
    ensures
        buf.subrange(pos + a, pos + b) =~= buf.subrange(pos, pos + len).subrange(a, b),
{
}

/// True when the field's out-of-line payload (if any) sits placed in the
/// buffer at `t`: in bounds, aligned, and holding exactly the payload
/// bytes.
pub open spec fn payload_placed(d: FieldDesc, m: ValueModel, buf: Seq<u8>, t: int) -> bool {
    has_payload(d, m) ==> {
        &&& 0 <= t
        &&& t + payload_bytes(d, m).len() <= buf.len()
        &&& t % payload_align(d) == 0
        &&& buf.subrange(t, t + payload_bytes(d, m).len()) == payload_placed_bytes(d, m)
    }
}

/// The bytes a placed payload holds (alias kept separate so the placement
/// predicate reads uniformly).
pub open spec fn payload_placed_bytes(d: FieldDesc, m: ValueModel) -> Seq<u8> {
    payload_bytes(d, m)
}

/// The positional discipline of the fields from `i` on: claimed payloads
/// descend below `bound`, each next claim ending at or below the previous
/// claim's start, and shared payloads stay below `top`.
pub open spec fn claims_ok(
    fields: Seq<FieldDesc>,
    ms: Seq<ValueModel>,
    ts: Seq<int>,
    i: int,
    bound: int,
    top: int,
) -> bool
    decreases fields.len() - i,
{
    if i < 0 || i >= fields.len() {
        true
    } else {
        let d = fields[i];
        let m = ms[i];
        let t = ts[i];
        &&& (claimed(d, m) ==> 0 <= t && t + payload_bytes(d, m).len() <= bound)
        &&& (is_shared(d) ==> 0 <= t && t + payload_bytes(d, m).len() <= top)
        &&& claims_ok(
            fields,
            ms,
            ts,
            i + 1,
            if claimed(d, m) {
                t
            } else {
                bound
            },
            top,
        )
    }
}

/// Widening the bounds keeps the discipline.
pub proof fn lemma_claims_ok_mono(
    fields: Seq<FieldDesc>,
    ms: Seq<ValueModel>,
    ts: Seq<int>,
    i: int,
    b1: int,
    b2: int,
    t1: int,
    t2: int,
)
    requires
        claims_ok(fields, ms, ts, i, b1, t1),
        b1 <= b2,
        t1 <= t2,
    ensures
        claims_ok(fields, ms, ts, i, b2, t2),
    decreases fields.len() - i,
{
    if 0 <= i < fields.len() {
        let d = fields[i];
        let m = ms[i];
        if claimed(d, m) {
            lemma_claims_ok_mono(fields, ms, ts, i + 1, ts[i], ts[i], t1, t2);
        } else {
            lemma_claims_ok_mono(fields, ms, ts, i + 1, b1, b2, t1, t2);
        }
    }
}

/// Per-field encodings plus the positional discipline assemble into the
/// record-level encoding predicate.
pub proof fn lemma_assemble_record(
    fields: Seq<FieldDesc>,
    ms: Seq<ValueModel>,
    ts: Seq<int>,
    buf: Seq<u8>,
    pos: int,
    i: int,
    bound: int,
    top: int,
)
    requires
        claims_ok(fields, ms, ts, i, bound, top),
        forall|k: int|
            0 <= k < fields.len() ==> field_encoded(
                fields[k],
                ms[k],
                buf,
                pos + field_offset(fields, k),
                ts[k],
            ),
        0 <= i,
    ensures
        record_encoded_from(fields, ms, ts, buf, pos, i, bound, top),
    decreases fields.len() - i,
{
    if i < fields.len() {
        let d = fields[i];
        let m = ms[i];
        lemma_assemble_record(
            fields,
            ms,
            ts,
            buf,
            pos,
            i + 1,
            if claimed(d, m) {
                ts[i]
            } else {
                bound
            },
            top,
        );
    }
}

/// A placed payload stays placed when the buffer grows past it.
pub proof fn lemma_placed_prefix(d: FieldDesc, m: ValueModel, a: Seq<u8>, b: Seq<u8>, t: int)
    requires
        payload_placed(d, m, a, t),
        a.len() <= b.len(),
        b.subrange(0, a.len() as int) == a,
    ensures
        payload_placed(d, m, b, t),
{
    if has_payload(d, m) {
        let n = payload_bytes(d, m).len() as int;
        assert(b.subrange(t, t + n) =~= a.subrange(t, t + n)) by {
            assert(forall|k: int| 0 <= k < a.len() ==> a[k] == #[trigger] b[k]) by {
                assert(forall|k: int|
                    0 <= k < a.len() ==> a[k] == #[trigger] b.subrange(0, a.len() as int)[k]);
            }
        }
    }
}

/// Round trip: decoding an encoded field yields the value it was encoded
/// from.
#[verifier::rlimit(100)]
#[verifier::spinoff_prover]
pub proof fn lemma_field_roundtrip(d: FieldDesc, m: ValueModel, buf: Seq<u8>, pos: int, t: int)
    requires
        wf_value(d, m),
        field_encoded(d, m, buf, pos, t),
    ensures
        decode_field(d, buf, pos) == m,
{
    lemma_auto_spec_u32_to_from_le_bytes();
    lemma_auto_spec_u64_to_from_le_bytes();
    let size = field_size(d);
    let h = buf.subrange(pos, pos + size);
    match (d, m) {
        (FieldDesc::U32, ValueModel::U32(x)) => {
            assert(header_bytes(d, m, pos, t) == spec_u32_to_le_bytes(x));
            assert(read_u32(buf, pos) == x);
            assert(decode_field(d, buf, pos) == m);
        },
        (FieldDesc::U64, ValueModel::U64(x)) => {
            assert(header_bytes(d, m, pos, t) == spec_u64_to_le_bytes(x));
            assert(read_u64(buf, pos) == x);
            assert(decode_field(d, buf, pos) == m);
        },
        (FieldDesc::Bool, ValueModel::Bool(b)) => {
            assert(buf[pos] == h[0]);
            assert(decode_field(d, buf, pos) == m);
        },
        (FieldDesc::F32Bits, ValueModel::F32Bits(w)) => {
            assert(header_bytes(d, m, pos, t) == spec_u32_to_le_bytes(w));
            assert(buf.subrange(pos, pos + 4) == spec_u32_to_le_bytes(w));
            assert(read_u32(buf, pos) == w);
            assert(decode_field(d, buf, pos) == m);
        },
        (FieldDesc::Uuid, ValueModel::Uuid(_)) => {
            assert(decode_field(d, buf, pos) == m);
        },
        (FieldDesc::Str, ValueModel::Str(s)) => {
            let enc = rel_enc(pos, t);
            lemma_subrange_chunk(buf, pos, 8, 0, 4);
            lemma_subrange_chunk(buf, pos, 8, 4, 8);
            assert(h.subrange(0, 4) =~= spec_u32_to_le_bytes(enc));
            assert(h.subrange(4, 8) =~= spec_u32_to_le_bytes(s.len() as u32));
            crate::relptr::lemma_rel_enc_target(pos, t);
            assert(read_u32(buf, pos + 4) as int == s.len());
            assert(decode_field(d, buf, pos) == m);
        },
        (FieldDesc::VecU32, ValueModel::VecU32(xs)) => {
            let enc = rel_enc(pos, t);
            lemma_concat_u32s_len(xs);
            lemma_subrange_chunk(buf, pos, 8, 0, 4);
            lemma_subrange_chunk(buf, pos, 8, 4, 8);
            assert(h.subrange(0, 4) =~= spec_u32_to_le_bytes(enc));
            assert(h.subrange(4, 8) =~= spec_u32_to_le_bytes(xs.len() as u32));
            crate::relptr::lemma_rel_enc_target(pos, t);
            let n = read_u32(buf, pos + 4);
            assert(n as int == xs.len());
            assert forall|i: int| 0 <= i < xs.len() implies decode_u32s(buf, t, n as int)[i]
                == xs[i] by {
                lemma_concat_u32s_index(xs, i);
                assert(buf.subrange(t + 4 * i, t + 4 * i + 4) =~= concat_u32s(xs).subrange(
                    4 * i,
                    4 * i + 4,
                ));
            }
            assert(decode_u32s(buf, t, n as int) =~= xs);
            assert(decode_field(d, buf, pos) == m);
        },
        (FieldDesc::NichedNonZeroU32, ValueModel::NichedNonZeroU32(o)) => {
            assert(header_bytes(d, m, pos, t) == spec_u32_to_le_bytes(
                match o {
                    Some(x) => x,
                    None => 0u32,
                },
            ));
            match o {
                Some(x) => {
                    assert(read_u32(buf, pos) == x);
                },
                None => {
                    assert(read_u32(buf, pos) == 0);
                },
            }
            assert(decode_field(d, buf, pos) == m);
        },
        (FieldDesc::NichedBool, ValueModel::NichedBool(o)) => {
            assert(buf[pos] == h[0]);
            assert(decode_field(d, buf, pos) == m);
        },
        (FieldDesc::NichedF32, ValueModel::NichedF32(o)) => {
            assert(header_bytes(d, m, pos, t) == spec_u32_to_le_bytes(
                match o {
                    Some(w) => w,
                    None => F32_NAN_BITS,
                },
            ));
            if o is None {
                assert((0x7fc0_0000u32 & 0x7f80_0000u32) == 0x7f80_0000u32) by (bit_vector);
                assert((0x7fc0_0000u32 & 0x007f_ffffu32) != 0u32) by (bit_vector);
            }
        },
        (FieldDesc::BoxU64, ValueModel::BoxU64(_)) => {
            crate::relptr::lemma_rel_enc_target(pos, t);
            assert(decode_field(d, buf, pos) == m);
        },
        (FieldDesc::NichedBoxU64, ValueModel::NichedBoxU64(o)) => {
            assert(header_bytes(d, m, pos, t) == spec_u32_to_le_bytes(
                match o {
                    Some(_) => rel_enc(pos, t),
                    None => 0u32,
                },
            ));
            if o is Some {
                crate::relptr::lemma_rel_enc_target(pos, t);
                let enc = rel_enc(pos, t);
                assert(read_u32(buf, pos) == enc);
                assert(rel_offset(enc) == t - pos);
                assert(rel_offset(0u32) == 0);
                assert(enc != 0);
            } else {
                assert(read_u32(buf, pos) == 0u32);
            }
            assert(decode_field(d, buf, pos) == m);
        },
        (FieldDesc::SharedU32 { .. }, ValueModel::SharedU32(_)) => {
            crate::relptr::lemma_rel_enc_target(pos, t);
            assert(decode_field(d, buf, pos) == m);
        },
        (FieldDesc::NichedNichable { strat }, ValueModel::NichedNichable(o)) => {
            let nb = nichable_bytes(strat, o);
            lemma_subrange_chunk(buf, pos, 12, 0, 4);
            lemma_subrange_chunk(buf, pos, 12, 4, 8);
            lemma_subrange_chunk(buf, pos, 12, 8, 12);
            assert(buf.subrange(pos, pos + 4) =~= spec_u32_to_le_bytes(
                nichable_float_word(strat, o),
            ));
            assert(buf.subrange(pos + 4, pos + 8) =~= spec_u32_to_le_bytes(nichable_int_word(o)));
            assert(buf.subrange(pos + 8, pos + 12) =~= spec_u32_to_le_bytes(
                nichable_bool_word(strat, o),
            ));
            if o is None && strat is NaN {
                assert((0x7fc0_0000u32 & 0x7f80_0000u32) == 0x7f80_0000u32) by (bit_vector);
                assert((0x7fc0_0000u32 & 0x007f_ffffu32) != 0u32) by (bit_vector);
            }
            assert(read_u32(buf, pos) == nichable_float_word(strat, o));
            assert(read_u32(buf, pos + 4) == nichable_int_word(o));
            assert(read_u32(buf, pos + 8) == nichable_bool_word(strat, o));
            assert(decode_nichable(strat, buf, pos) == o);
        },
        _ => {},
    }
}

} // verus!

verus! {

/// An encoded field stays encoded in a buffer that agrees with the
/// original on the field's header and payload bytes.
pub proof fn lemma_field_encoded_agree(
    d: FieldDesc,
    m: ValueModel,
    a: Seq<u8>,
    b: Seq<u8>,
    pos: int,
    t: int,
)
    requires
        field_encoded(d, m, a, pos, t),
        b.len() == a.len(),
        forall|x: int| pos <= x < pos + field_size(d) ==> b[x] == a[x],
        has_payload(d, m) ==> forall|x: int| t <= x < t + payload_bytes(d, m).len() ==> b[x]
            == a[x],
    ensures
        field_encoded(d, m, b, pos, t),
{
    assert(b.subrange(pos, pos + field_size(d)) =~= a.subrange(pos, pos + field_size(d)));
    if has_payload(d, m) {
        let plen = payload_bytes(d, m).len() as int;
        assert(b.subrange(t, t + plen) =~= a.subrange(t, t + plen));
    }
}

} // verus!
