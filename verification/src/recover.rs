//! Recovering owned values from a validated archive.
//!
//! Viewing is the primary path: the checked buffer can be read in place
//! through the `read_*` helpers. Conversion into owned values is a
//! secondary operation layered on top; every recover function returns
//! exactly the model `decode_field` reads from the bytes, so recovery is
//! deterministic in the buffer alone.

use vstd::prelude::*;
use crate::relptr::{MAX_ARCHIVE, rel_target, rel_offset_of};
use crate::desc::{FieldDesc, FieldValue, field_size, field_offset, record_size, record_size_x,
    slot_size_x, wf_fields, lemma_record_size_step, lemma_record_size_bounds,
    lemma_record_size_full, lemma_field_offset_mono};
use crate::encoding::{read_u32, read_u64, decode_field, decode_record, decode_u32s, models_of};
use crate::check::{read_u32_at, read_u64_at, field_ok, field_next_ce, field_next_sh,
    fields_check_from, archive_checkable};
use crate::niche::{Zero, NaN, Bool};

verus! {

/// The bounds a field's decode needs: its slot is in the buffer and any
/// stored pointer stays in the buffer with its whole payload. This is
/// [`field_ok`] against the full buffer with no registry constraints.
pub open spec fn field_readable(d: FieldDesc, buf: Seq<u8>, pos: int) -> bool {
    &&& 0 <= pos
    &&& pos + field_size(d) <= buf.len()
    &&& field_ok(d, buf, pos, buf.len() as int, Seq::empty())
}

/// A field that checks against any range and registry can be read against
/// the whole buffer.
pub proof fn lemma_field_ok_widen(
    d: FieldDesc,
    buf: Seq<u8>,
    pos: int,
    ce: int,
    sh: Seq<(usize, u64)>,
)
    requires
        field_ok(d, buf, pos, ce, sh),
        ce <= buf.len(),
    ensures
        field_ok(d, buf, pos, buf.len() as int, Seq::empty()),
{
}

/// Every field of a checkable archive is readable, and the threaded range
/// never grows past the buffer.
pub proof fn lemma_checkable_readable(
    fields: Seq<FieldDesc>,
    buf: Seq<u8>,
    pos: int,
    i: int,
    ce: int,
    sh: Seq<(usize, u64)>,
    k: int,
)
    requires
        fields_check_from(fields, buf, pos, i, ce, sh),
        0 <= i <= k < fields.len(),
        0 <= pos,
        ce <= buf.len(),
        forall|j: int|
            0 <= j < fields.len() ==> pos + field_offset(fields, j) + field_size(#[trigger] fields[j])
                <= buf.len(),
    ensures
        field_readable(fields[k], buf, pos + field_offset(fields, k)),
    decreases k - i,
{
    let fpos = pos + field_offset(fields, i);
    crate::desc::lemma_field_offset_mono(fields, 0, k);
    assert(field_offset(fields, k) >= 0);
    if i == k {
        lemma_field_ok_widen(fields[i], buf, fpos, ce, sh);
    } else {
        let ce2 = field_next_ce(fields[i], buf, fpos, ce);
        assert(ce2 <= buf.len());
        lemma_checkable_readable(
            fields,
            buf,
            pos,
            i + 1,
            ce2,
            field_next_sh(fields[i], buf, fpos, sh),
            k,
        );
    }
}

/// Copies `n` bytes starting at `t` out of the buffer.
#[verifier::loop_isolation(false)]
pub fn copy_bytes(buf: &Vec<u8>, t: usize, n: usize) -> (r: Vec<u8>)
    requires
        t + n <= buf@.len(),
    ensures
        r@ == buf@.subrange(t as int, t + n),
{
    let total = buf.len();
    let mut out: Vec<u8> = Vec::new();
    let mut i: usize = 0;
    while i < n
        invariant
            0 <= i <= n,
            t + n <= buf@.len(),
            out@.len() == i,
            forall|j: int| 0 <= j < i ==> out@[j] == buf@[t + j],
        decreases n - i,
    {
        let b = buf[t + i];
        out.push(b);
        i = i + 1;
    }
    proof {
        assert(out@ =~= buf@.subrange(t as int, t + n));
    }
    out
}

/// Views a byte-string field in place: a borrowed slice of the buffer's
/// own payload bytes, with no copy and no decode pass.
pub fn view_str<'a>(buf: &'a Vec<u8>, pos: usize) -> (r: &'a [u8])
    requires
        buf@.len() <= MAX_ARCHIVE,
        field_readable(FieldDesc::Str, buf@, pos as int),
    ensures
        decode_field(FieldDesc::Str, buf@, pos as int) == crate::desc::ValueModel::Str(r@),
{
    let enc = read_u32_at(buf, pos);
    let n = read_u32_at(buf, pos + 4);
    let off = rel_offset_of(enc);
    let t = (pos as i64 + off) as usize;
    vstd::slice::slice_subrange(buf.as_slice(), t, t + n as usize)
}

/// Recovers one field's owned value from a readable buffer position. The
/// result is exactly the model the bytes decode to: repeated recoveries of
/// the same bytes yield equal values, and the buffer is never written.
#[verifier::rlimit(100)]
#[verifier::loop_isolation(false)]
pub fn recover_field(d: &FieldDesc, buf: &Vec<u8>, pos: usize) -> (r: FieldValue)
    requires
        buf@.len() <= MAX_ARCHIVE,
        field_readable(*d, buf@, pos as int),
    ensures
        r@ == decode_field(*d, buf@, pos as int),
{
    match d {
        FieldDesc::U32 => FieldValue::U32(read_u32_at(buf, pos)),
        FieldDesc::U64 => FieldValue::U64(read_u64_at(buf, pos)),
        FieldDesc::Bool => FieldValue::Bool(buf[pos] == 1),
        FieldDesc::F32Bits => FieldValue::F32Bits(read_u32_at(buf, pos)),
        FieldDesc::Uuid => FieldValue::Uuid(copy_bytes(buf, pos, 16)),
        FieldDesc::Str => {
            let enc = read_u32_at(buf, pos);
            let n = read_u32_at(buf, pos + 4);
            let off = rel_offset_of(enc);
            let t = (pos as i64 + off) as usize;
            FieldValue::Str(copy_bytes(buf, t, n as usize))
        },
        FieldDesc::VecU32 => {
            let enc = read_u32_at(buf, pos);
            let n = read_u32_at(buf, pos + 4);
            let off = rel_offset_of(enc);
            let t = (pos as i64 + off) as usize;
            let mut out: Vec<u32> = Vec::new();
            let mut k: usize = 0;
            while k < n as usize
                invariant
                    0 <= k <= n,
                    t + 4 * (n as int) <= buf@.len(),
                    t == rel_target(pos as int, enc),
                    enc == read_u32(buf@, pos as int),
                    n == read_u32(buf@, pos as int + 4),
                    out@.len() == k,
                    forall|j: int| 0 <= j < k ==> out@[j] == read_u32(buf@, t + 4 * j),
                decreases n as usize - k,
            {
                let x = read_u32_at(buf, t + 4 * k);
                out.push(x);
                k = k + 1;
            }
            proof {
                assert(out@ =~= decode_u32s(buf@, t as int, n as int));
            }
            FieldValue::VecU32(out)
        },
        FieldDesc::NichedNonZeroU32 => {
            let w = read_u32_at(buf, pos);
            if Zero::is_niched(w) {
                FieldValue::NichedNonZeroU32(None)
            } else {
                FieldValue::NichedNonZeroU32(Some(w))
            }
        },
        FieldDesc::NichedBool => {
            let b = buf[pos];
            if Bool::is_niched(b) {
                FieldValue::NichedBool(None)
            } else {
                FieldValue::NichedBool(Some(b == 1))
            }
        },
        FieldDesc::NichedF32 => {
            let w = read_u32_at(buf, pos);
            if NaN::is_niched(w) {
                FieldValue::NichedF32(None)
            } else {
                FieldValue::NichedF32(Some(w))
            }
        },
        FieldDesc::BoxU64 => {
            let enc = read_u32_at(buf, pos);
            let off = rel_offset_of(enc);
            let t = (pos as i64 + off) as usize;
            FieldValue::BoxU64(read_u64_at(buf, t))
        },
        FieldDesc::NichedBoxU64 => {
            let enc = read_u32_at(buf, pos);
            if Zero::is_niched(enc) {
                FieldValue::NichedBoxU64(None)
            } else {
                let off = rel_offset_of(enc);
                let t = (pos as i64 + off) as usize;
                FieldValue::NichedBoxU64(Some(read_u64_at(buf, t)))
            }
        },
        FieldDesc::SharedU32 { type_id: _ } => {
            let enc = read_u32_at(buf, pos);
            let off = rel_offset_of(enc);
            let t = (pos as i64 + off) as usize;
            FieldValue::SharedU32 { key: 0, value: read_u32_at(buf, t) }
        },
        FieldDesc::NichedNichable { strat } => {
            let w = read_u32_at(buf, pos);
            let nz = read_u32_at(buf, pos + 4);
            let bw = read_u32_at(buf, pos + 8);
            let absent = match strat {
                crate::desc::NicheStrategy::Zero => Zero::is_niched(nz),
                crate::desc::NicheStrategy::NaN => NaN::is_niched(w),
                crate::desc::NicheStrategy::Bool => bw > 1,
            };
            if absent {
                FieldValue::NichedNichable(None)
            } else {
                FieldValue::NichedNichable(Some((w, nz, bw == 1)))
            }
        },
    }
}

/// Recovers every field of a checkable archive's root record. The result
/// carries exactly the models the buffer decodes to.
#[verifier::rlimit(100)]
#[verifier::loop_isolation(false)]
pub fn recover_record(fields: &Vec<FieldDesc>, buf: &Vec<u8>) -> (r: Vec<FieldValue>)
    requires
        wf_fields(fields@),
        buf@.len() <= MAX_ARCHIVE,
        archive_checkable(fields@, buf@),
    ensures
        models_of(r@) == decode_record(
            fields@,
            buf@,
            buf@.len() - record_size(fields@),
        ),
        r@.len() == fields@.len(),
{
    let ghost fs = fields@;
    let size = record_size_x(fields);
    let len = buf.len();
    let root = len - size;
    proof {
        lemma_record_size_bounds(fs);
        assert forall|j: int|
            0 <= j < fs.len() implies root + field_offset(fs, j) + field_size(#[trigger] fs[j])
            <= buf@.len() by {
            lemma_record_size_step(fs, j);
            lemma_field_offset_mono(fs, j + 1, fs.len() as int);
            lemma_record_size_full(fs);
            crate::desc::lemma_slot_size_mod4(fs[j]);
        }
    }
    let n = fields.len();
    let mut out: Vec<FieldValue> = Vec::new();
    let mut off: usize = 0;
    let mut j: usize = 0;
    while j < n
        invariant
            0 <= j <= n,
            n == fs.len(),
            fields@ == fs,
            out@.len() == j,
            off as int == field_offset(fs, j as int),
            forall|k: int|
                0 <= k < j ==> (#[trigger] out@[k])@ == decode_field(
                    fs[k],
                    buf@,
                    root + field_offset(fs, k),
                ),
        decreases n - j,
    {
        proof {
            lemma_record_size_step(fs, j as int);
            lemma_checkable_readable(
                fs,
                buf@,
                root as int,
                0,
                root as int,
                Seq::empty(),
                j as int,
            );
        }
        let v = recover_field(&fields[j], buf, root + off);
        out.push(v);
        let slot = slot_size_x(&fields[j]);
        off = off + slot;
        j = j + 1;
    }
    proof {
        assert(models_of(out@) =~= decode_record(fs, buf@, root as int));
    }
    out
}

} // verus!
