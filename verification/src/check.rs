//! Validating an untrusted buffer before any access: every embedded
//! offset is bounds-checked before it is followed, every out-of-line span
//! is claimed through the subtree-range discipline, and shared targets are
//! registered once per type identifier.
//!
//! `archive_checkable` says exactly which buffers validation accepts; the
//! exec functions return `Ok` if and only if it holds of their input.

use vstd::prelude::*;
use vstd::slice::slice_subrange;
use vstd::bytes::{u32_from_le_bytes, u64_from_le_bytes};
use crate::errors::ArchiveError;
use crate::relptr::{MAX_ARCHIVE, rel_target, rel_offset_of};
use crate::context::{ArchiveValidator, shared_has, shared_type_of};
use crate::desc::{FieldDesc, field_size, field_offset, record_size, record_size_x, slot_size_x,
    wf_fields, is_nan_bits, lemma_record_size_step, lemma_record_size_bounds,
    lemma_record_size_full, lemma_field_offset_mono, lemma_slot_size_mod4};
use crate::encoding::{read_u32, read_u64};
use crate::niche::{Zero, NaN};

verus! {

/// Reads the 32-bit little-endian word at `pos`.
pub fn read_u32_at(buf: &Vec<u8>, pos: usize) -> (x: u32)
    requires
        pos + 4 <= buf@.len(),
    ensures
        x == read_u32(buf@, pos as int),
{
    let total = buf.len();
    proof {
        assert(pos + 4 <= total);
    }
    let s = slice_subrange(buf.as_slice(), pos, pos + 4);
    u32_from_le_bytes(s)
}

/// Reads the 64-bit little-endian word at `pos`.
pub fn read_u64_at(buf: &Vec<u8>, pos: usize) -> (x: u64)
    requires
        pos + 8 <= buf@.len(),
    ensures
        x == read_u64(buf@, pos as int),
{
    let total = buf.len();
    proof {
        assert(pos + 8 <= total);
    }
    let s = slice_subrange(buf.as_slice(), pos, pos + 8);
    u64_from_le_bytes(s)
}

/// The conditions under which one field's bytes check, given the active
/// range `[0, ce)` and the registered shared targets.
pub open spec fn field_ok(
    d: FieldDesc,
    buf: Seq<u8>,
    pos: int,
    ce: int,
    sh: Seq<(usize, u64)>,
) -> bool {
    match d {
        FieldDesc::Bool => buf[pos] <= 1,
        FieldDesc::Str => {
            let t = rel_target(pos, read_u32(buf, pos));
            let n = read_u32(buf, pos + 4);
            0 <= t <= buf.len() && t + n <= ce
        },
        FieldDesc::VecU32 => {
            let t = rel_target(pos, read_u32(buf, pos));
            let n = read_u32(buf, pos + 4);
            0 <= t <= buf.len() && t % 4 == 0 && t + 4 * n <= ce
        },
        FieldDesc::BoxU64 => {
            let t = rel_target(pos, read_u32(buf, pos));
            0 <= t <= buf.len() && t % 8 == 0 && t + 8 <= ce
        },
        FieldDesc::NichedBoxU64 => {
            let enc = read_u32(buf, pos);
            let t = rel_target(pos, enc);
            enc == 0 || (0 <= t <= buf.len() && t % 8 == 0 && t + 8 <= ce)
        },
        FieldDesc::SharedU32 { type_id } => {
            let t = rel_target(pos, read_u32(buf, pos));
            &&& 0 <= t
            &&& t + 4 <= buf.len()
            &&& t % 4 == 0
            &&& (shared_has(sh, t as usize) ==> shared_type_of(sh, t as usize) == type_id)
        },
        FieldDesc::NichedNichable { strat } => {
            let w = read_u32(buf, pos);
            let nz = read_u32(buf, pos + 4);
            let bw = read_u32(buf, pos + 8);
            let absent = match strat {
                crate::desc::NicheStrategy::Zero => nz == 0,
                crate::desc::NicheStrategy::NaN => is_nan_bits(w),
                crate::desc::NicheStrategy::Bool => bw > 1,
            };
            absent || bw <= 1
        },
        _ => true,
    }
}

/// The active range's end after a field's claims are consumed: the claim's
/// start for claimed fields, unchanged otherwise.
pub open spec fn field_next_ce(d: FieldDesc, buf: Seq<u8>, pos: int, ce: int) -> int {
    match d {
        FieldDesc::Str => rel_target(pos, read_u32(buf, pos)),
        FieldDesc::VecU32 => rel_target(pos, read_u32(buf, pos)),
        FieldDesc::BoxU64 => rel_target(pos, read_u32(buf, pos)),
        FieldDesc::NichedBoxU64 => {
            let enc = read_u32(buf, pos);
            if enc == 0 {
                ce
            } else {
                rel_target(pos, enc)
            }
        },
        _ => ce,
    }
}

/// The registered shared targets after a field is checked.
pub open spec fn field_next_sh(
    d: FieldDesc,
    buf: Seq<u8>,
    pos: int,
    sh: Seq<(usize, u64)>,
) -> Seq<(usize, u64)> {
    match d {
        FieldDesc::SharedU32 { type_id } => {
            let t = rel_target(pos, read_u32(buf, pos));
            if shared_has(sh, t as usize) {
                sh
            } else {
                sh.push((t as usize, type_id))
            }
        },
        _ => sh,
    }
}

/// The record's fields from `i` on all check, threading the active range
/// and the shared registrations from field to field.
pub open spec fn fields_check_from(
    fields: Seq<FieldDesc>,
    buf: Seq<u8>,
    pos: int,
    i: int,
    ce: int,
    sh: Seq<(usize, u64)>,
) -> bool
    decreases fields.len() - i,
{
    if i < 0 || i >= fields.len() {
        true
    } else {
        let fpos = pos + field_offset(fields, i);
        &&& field_ok(fields[i], buf, fpos, ce, sh)
        &&& fields_check_from(
            fields,
            buf,
            pos,
            i + 1,
            field_next_ce(fields[i], buf, fpos, ce),
            field_next_sh(fields[i], buf, fpos, sh),
        )
    }
}

/// The buffers validation accepts: long enough for the root record, the
/// root on a four-byte boundary, and every field checking against the
/// range below the root starting from an empty shared registry.
pub open spec fn archive_checkable(fields: Seq<FieldDesc>, buf: Seq<u8>) -> bool {
    let root = buf.len() - record_size(fields);
    &&& record_size(fields) <= buf.len()
    &&& root % 4 == 0
    &&& fields_check_from(fields, buf, root, 0, root, Seq::empty())
}

/// Checks one field at `pos`: bounds-checks its relative pointer, claims
/// its out-of-line span, and registers a shared target. Returns `Ok`
/// exactly when [`field_ok`] holds of the entry state; a relative pointer
/// whose target leaves the buffer is always a bounds error.
#[verifier::rlimit(100)]
#[verifier::loop_isolation(false)]
pub fn check_field(
    d: &FieldDesc,
    buf: &Vec<u8>,
    ctx: &mut ArchiveValidator,
    pos: usize,
) -> (r: Result<(), ArchiveError>)
    requires
        old(ctx).wf(),
        old(ctx).len == buf@.len(),
        buf@.len() <= MAX_ARCHIVE,
        pos + field_size(*d) <= buf@.len(),
        old(ctx).cur_start == 0,
        old(ctx).depth < u64::MAX,
    ensures
        final(ctx).wf(),
        final(ctx).len == old(ctx).len,
        final(ctx).depth == old(ctx).depth,
        final(ctx).cur_start == 0,
        r is Ok <==> field_ok(*d, buf@, pos as int, old(ctx).cur_end as int, old(ctx).shared@),
        r is Ok ==> final(ctx).cur_end as int == field_next_ce(
            *d,
            buf@,
            pos as int,
            old(ctx).cur_end as int,
        ) && final(ctx).shared@ == field_next_sh(*d, buf@, pos as int, old(ctx).shared@),
        (match *d {
            FieldDesc::Str => !(0 <= rel_target(pos as int, read_u32(buf@, pos as int))
                <= buf@.len()),
            FieldDesc::VecU32 => !(0 <= rel_target(pos as int, read_u32(buf@, pos as int))
                <= buf@.len()),
            FieldDesc::BoxU64 => !(0 <= rel_target(pos as int, read_u32(buf@, pos as int))
                <= buf@.len()),
            _ => false,
        }) ==> r matches Err(ArchiveError::Bounds { .. }),
{
    match d {
        FieldDesc::Bool => {
            let b = buf[pos];
            if b > 1 {
                Err(ArchiveError::InvalidValue { pos })
            } else {
                Ok(())
            }
        },
        FieldDesc::Str => {
            let enc = read_u32_at(buf, pos);
            let n = read_u32_at(buf, pos + 4);
            let off = rel_offset_of(enc);
            let t = match ctx.bounds_check_ptr(pos, off) {
                Ok(t) => t,
                Err(e) => {
                    return Err(e);
                },
            };
            if n as u64 > (buf.len() - t) as u64 {
                return Err(ArchiveError::Bounds { base: t, offset: n as i64 });
            }
            let end = t + n as usize;
            let tok = match ctx.push_prefix_subtree_range(t, end) {
                Ok(tok) => tok,
                Err(e) => {
                    return Err(e);
                },
            };
            match ctx.pop_prefix_range(tok) {
                Ok(()) => Ok(()),
                Err(e) => {
                    proof {
                        assert(false);
                    }
                    Err(e)
                },
            }
        },
        FieldDesc::VecU32 => {
            let enc = read_u32_at(buf, pos);
            let n = read_u32_at(buf, pos + 4);
            let off = rel_offset_of(enc);
            let t = match ctx.bounds_check_ptr(pos, off) {
                Ok(t) => t,
                Err(e) => {
                    return Err(e);
                },
            };
            if t % 4 != 0 {
                return Err(ArchiveError::Alignment { pos: t, align: 4 });
            }
            if 4 * (n as u64) > (buf.len() - t) as u64 {
                return Err(ArchiveError::Bounds { base: t, offset: n as i64 });
            }
            let end = t + 4 * (n as usize);
            let tok = match ctx.push_prefix_subtree_range(t, end) {
                Ok(tok) => tok,
                Err(e) => {
                    return Err(e);
                },
            };
            match ctx.pop_prefix_range(tok) {
                Ok(()) => Ok(()),
                Err(e) => {
                    proof {
                        assert(false);
                    }
                    Err(e)
                },
            }
        },
        FieldDesc::BoxU64 => {
            let enc = read_u32_at(buf, pos);
            let off = rel_offset_of(enc);
            let t = match ctx.bounds_check_ptr(pos, off) {
                Ok(t) => t,
                Err(e) => {
                    return Err(e);
                },
            };
            if t % 8 != 0 {
                return Err(ArchiveError::Alignment { pos: t, align: 8 });
            }
            if 8u64 > (buf.len() - t) as u64 {
                return Err(ArchiveError::Bounds { base: t, offset: 8 });
            }
            let tok = match ctx.push_prefix_subtree_range(t, t + 8) {
                Ok(tok) => tok,
                Err(e) => {
                    return Err(e);
                },
            };
            match ctx.pop_prefix_range(tok) {
                Ok(()) => Ok(()),
                Err(e) => {
                    proof {
                        assert(false);
                    }
                    Err(e)
                },
            }
        },
        FieldDesc::NichedBoxU64 => {
            let enc = read_u32_at(buf, pos);
            if Zero::is_niched(enc) {
                return Ok(());
            }
            let off = rel_offset_of(enc);
            let t = match ctx.bounds_check_ptr(pos, off) {
                Ok(t) => t,
                Err(e) => {
                    return Err(e);
                },
            };
            if t % 8 != 0 {
                return Err(ArchiveError::Alignment { pos: t, align: 8 });
            }
            if 8u64 > (buf.len() - t) as u64 {
                return Err(ArchiveError::Bounds { base: t, offset: 8 });
            }
            let tok = match ctx.push_prefix_subtree_range(t, t + 8) {
                Ok(tok) => tok,
                Err(e) => {
                    return Err(e);
                },
            };
            match ctx.pop_prefix_range(tok) {
                Ok(()) => Ok(()),
                Err(e) => {
                    proof {
                        assert(false);
                    }
                    Err(e)
                },
            }
        },
        FieldDesc::SharedU32 { type_id } => {
            let enc = read_u32_at(buf, pos);
            let off = rel_offset_of(enc);
            let t = match ctx.bounds_check_ptr(pos, off) {
                Ok(t) => t,
                Err(e) => {
                    return Err(e);
                },
            };
            if 4u64 > (buf.len() - t) as u64 {
                return Err(ArchiveError::Bounds { base: t, offset: 4 });
            }
            if t % 4 != 0 {
                return Err(ArchiveError::Alignment { pos: t, align: 4 });
            }
            match ctx.register_shared_ptr(t, *type_id) {
                Ok(_) => Ok(()),
                Err(e) => Err(e),
            }
        },
        FieldDesc::NichedNichable { strat } => {
            let w = read_u32_at(buf, pos);
            let nz = read_u32_at(buf, pos + 4);
            let bw = read_u32_at(buf, pos + 8);
            let absent = match strat {
                crate::desc::NicheStrategy::Zero => Zero::is_niched(nz),
                crate::desc::NicheStrategy::NaN => NaN::is_niched(w),
                crate::desc::NicheStrategy::Bool => bw > 1,
            };
            if absent {
                Ok(())
            } else if bw > 1 {
                Err(ArchiveError::InvalidValue { pos: pos + 8 })
            } else {
                Ok(())
            }
        },
        _ => Ok(()),
    }
}

} // verus!

verus! {

/// Checks a whole record at `pos`: claims the record's own span against
/// the active range, then checks every field in declaration order against
/// the bytes below the record. Returns `Ok` exactly when the record's
/// claim fits and every field checks.
#[verifier::rlimit(100)]
#[verifier::loop_isolation(false)]
pub fn check_record(
    fields: &Vec<FieldDesc>,
    buf: &Vec<u8>,
    ctx: &mut ArchiveValidator,
    pos: usize,
) -> (r: Result<(), ArchiveError>)
    requires
        wf_fields(fields@),
        old(ctx).wf(),
        old(ctx).len == buf@.len(),
        buf@.len() <= MAX_ARCHIVE,
        pos as int % 4 == 0,
        pos + record_size(fields@) <= buf@.len(),
        old(ctx).cur_start == 0,
        old(ctx).depth + fields@.len() + 1 < u64::MAX,
        old(ctx).shared@ =~= Seq::<(usize, u64)>::empty(),
    ensures
        final(ctx).wf(),
        final(ctx).len == old(ctx).len,
        final(ctx).depth == old(ctx).depth,
        r is Ok <==> (pos + record_size(fields@) <= old(ctx).cur_end && fields_check_from(
            fields@,
            buf@,
            pos as int,
            0,
            pos as int,
            Seq::empty(),
        )),
{
    let ghost fs = fields@;
    let n = fields.len();
    let size = record_size_x(fields);
    proof {
        lemma_record_size_bounds(fs);
    }
    // claim the record's own span, then descend to the bytes below it
    let tok = match ctx.push_prefix_subtree_range(pos, pos + size) {
        Ok(tok) => tok,
        Err(e) => {
            return Err(e);
        },
    };
    match ctx.pop_prefix_range(tok) {
        Ok(()) => {},
        Err(e) => {
            proof {
                assert(false);
            }
            return Err(e);
        },
    }
    let ghost ce0: int = pos as int;
    let ghost sh0 = ctx.shared@;
    let mut j: usize = 0;
    let mut off: usize = 0;
    while j < n
        invariant
            0 <= j <= n,
            n == fs.len(),
            fields@ == fs,
            wf_fields(fs),
            ctx.wf(),
            ctx.len == buf@.len(),
            ctx.cur_start == 0,
            ctx.depth == old(ctx).depth,
            ctx.depth + fs.len() + 1 < u64::MAX,
            off as int == field_offset(fs, j as int),
            pos + record_size(fs) <= buf@.len(),
            fields_check_from(fs, buf@, pos as int, 0, ce0, sh0) <==> fields_check_from(
                fs,
                buf@,
                pos as int,
                j as int,
                ctx.cur_end as int,
                ctx.shared@,
            ),
        decreases n - j,
    {
        proof {
            lemma_record_size_step(fs, j as int);
            lemma_field_offset_mono(fs, j as int + 1, n as int);
            lemma_record_size_full(fs);
            lemma_slot_size_mod4(fs[j as int]);
        }
        let fieldpos = pos + off;
        match check_field(&fields[j], buf, ctx, fieldpos) {
            Ok(()) => {},
            Err(e) => {
                return Err(e);
            },
        }
        let slot = slot_size_x(&fields[j]);
        off = off + slot;
        j = j + 1;
    }
    Ok(())
}

/// Validates a whole archive buffer: the root record must fit at the
/// buffer's end on a four-byte boundary, every field must check, and no
/// claim may remain outstanding. Returns `Ok` exactly when the buffer is
/// [`archive_checkable`]; a corrupted relative pointer whose target leaves
/// the buffer surfaces as a bounds error.
#[verifier::loop_isolation(false)]
pub fn validate_archive(fields: &Vec<FieldDesc>, buf: &Vec<u8>) -> (r: Result<(), ArchiveError>)
    requires
        wf_fields(fields@),
        buf@.len() <= MAX_ARCHIVE,
    ensures
        r is Ok <==> archive_checkable(fields@, buf@),
{
    let size = record_size_x(fields);
    let len = buf.len();
    if size > len {
        return Err(ArchiveError::Bounds { base: len, offset: size as i64 });
    }
    let root = len - size;
    if root % 4 != 0 {
        return Err(ArchiveError::Alignment { pos: root, align: 4 });
    }
    let mut ctx = ArchiveValidator::new(len);
    match check_record(fields, buf, &mut ctx, root) {
        Ok(()) => {},
        Err(e) => {
            return Err(e);
        },
    }
    match ctx.finish() {
        Ok(()) => Ok(()),
        Err(e) => {
            proof {
                assert(false);
            }
            Err(e)
        },
    }
}

} // verus!

verus! {

/// The stored words of an encoded pointer field: its relative-pointer word
/// encodes the payload position, and its length word the payload length.
pub proof fn lemma_ptr_field_words(
    d: FieldDesc,
    m: crate::desc::ValueModel,
    buf: Seq<u8>,
    pos: int,
    t: int,
)
    requires
        crate::encoding::wf_value(d, m),
        crate::encoding::field_encoded(d, m, buf, pos, t),
        crate::encoding::has_payload(d, m),
    ensures
        read_u32(buf, pos) == crate::relptr::rel_enc(pos, t),
        rel_target(pos, read_u32(buf, pos)) == t,
        (d is Str || d is VecU32) ==> read_u32(buf, pos + 4) as int == crate::encoding::payload_bytes(d, m).len()
            * (if d is VecU32 { 1int } else { 1int }) / (if d is VecU32 { 4int } else { 1int }),
{
    vstd::bytes::lemma_auto_spec_u32_to_from_le_bytes();
    let h = buf.subrange(pos, pos + field_size(d));
    let enc = crate::relptr::rel_enc(pos, t);
    crate::relptr::lemma_rel_enc_target(pos, t);
    match (d, m) {
        (FieldDesc::Str, crate::desc::ValueModel::Str(s)) => {
            crate::encoding::lemma_subrange_chunk(buf, pos, 8, 0, 4);
            crate::encoding::lemma_subrange_chunk(buf, pos, 8, 4, 8);
            assert(h.subrange(0, 4) =~= vstd::bytes::spec_u32_to_le_bytes(enc));
            assert(h.subrange(4, 8) =~= vstd::bytes::spec_u32_to_le_bytes(s.len() as u32));
            assert(read_u32(buf, pos + 4) as int == s.len());
        },
        (FieldDesc::VecU32, crate::desc::ValueModel::VecU32(xs)) => {
            crate::encoding::lemma_concat_u32s_len(xs);
            crate::encoding::lemma_subrange_chunk(buf, pos, 8, 0, 4);
            crate::encoding::lemma_subrange_chunk(buf, pos, 8, 4, 8);
            assert(h.subrange(0, 4) =~= vstd::bytes::spec_u32_to_le_bytes(enc));
            assert(h.subrange(4, 8) =~= vstd::bytes::spec_u32_to_le_bytes(xs.len() as u32));
            assert(read_u32(buf, pos + 4) as int == xs.len());
        },
        (FieldDesc::BoxU64, crate::desc::ValueModel::BoxU64(_)) => {
            assert(h =~= vstd::bytes::spec_u32_to_le_bytes(enc));
        },
        (FieldDesc::NichedBoxU64, crate::desc::ValueModel::NichedBoxU64(o)) => {
            assert(h =~= vstd::bytes::spec_u32_to_le_bytes(enc));
        },
        (FieldDesc::SharedU32 { .. }, crate::desc::ValueModel::SharedU32(_)) => {
            assert(h =~= vstd::bytes::spec_u32_to_le_bytes(enc));
        },
        _ => {},
    }
}

/// True when the registry entry is the target of a shared field among the
/// first `i`, registered under that field's type identifier.
pub open spec fn sh_entry_ok(
    fields: Seq<FieldDesc>,
    ts: Seq<int>,
    i: int,
    entry: (usize, u64),
) -> bool {
    exists|j: int|
        0 <= j < i && crate::encoding::is_shared(#[trigger] fields[j]) && ts[j] == entry.0 as int
            && crate::encoding::shared_tid(fields[j]) == entry.1
}

/// Every entry of the shared registry is the target of an earlier shared
/// field, registered under that field's type identifier.
pub open spec fn sh_models(
    fields: Seq<FieldDesc>,
    ts: Seq<int>,
    sh: Seq<(usize, u64)>,
    i: int,
) -> bool {
    forall|e: int| 0 <= e < sh.len() ==> sh_entry_ok(fields, ts, i, #[trigger] sh[e])
}

/// An entry justified by the first `i` fields is justified by the first
/// `i + 1`.
pub proof fn lemma_sh_entry_weaken(
    fields: Seq<FieldDesc>,
    ts: Seq<int>,
    i: int,
    entry: (usize, u64),
)
    requires
        sh_entry_ok(fields, ts, i, entry),
    ensures
        sh_entry_ok(fields, ts, i + 1, entry),
{
    let j0 = choose|j: int|
        0 <= j < i && crate::encoding::is_shared(#[trigger] fields[j]) && ts[j] == entry.0 as int
            && crate::encoding::shared_tid(fields[j]) == entry.1;
    assert(0 <= j0 < i + 1 && crate::encoding::is_shared(fields[j0]) && ts[j0] == entry.0 as int
        && crate::encoding::shared_tid(fields[j0]) == entry.1);
}

/// A registry that models the first `i` fields also models the first
/// `i + 1`.
pub proof fn lemma_sh_models_weaken(
    fields: Seq<FieldDesc>,
    ts: Seq<int>,
    sh: Seq<(usize, u64)>,
    i: int,
)
    requires
        sh_models(fields, ts, sh, i),
    ensures
        sh_models(fields, ts, sh, i + 1),
{
    assert forall|e: int| 0 <= e < sh.len() implies sh_entry_ok(
        fields,
        ts,
        i + 1,
        #[trigger] sh[e],
    ) by {
        assert(sh_entry_ok(fields, ts, i, sh[e]));
        let j0 = choose|j: int|
            0 <= j < i && crate::encoding::is_shared(#[trigger] fields[j]) && ts[j]
                == sh[e].0 as int && crate::encoding::shared_tid(fields[j]) == sh[e].1;
        assert(0 <= j0 < i + 1 && crate::encoding::is_shared(fields[j0]) && ts[j0]
            == sh[e].0 as int && crate::encoding::shared_tid(fields[j0]) == sh[e].1);
    }
}

/// Validation soundness, field by field: an encoded record's fields all
/// check, with the claim bound descending exactly as the encoding's
/// discipline prescribes.
#[verifier::rlimit(100)]
pub proof fn lemma_fields_sound(
    fields: Seq<FieldDesc>,
    ms: Seq<crate::desc::ValueModel>,
    ts: Seq<int>,
    buf: Seq<u8>,
    pos: int,
    i: int,
    bound: int,
    top: int,
    sh: Seq<(usize, u64)>,
)
    requires
        crate::encoding::wf_values(fields, ms),
        ts.len() == fields.len(),
        crate::encoding::record_encoded_from(fields, ms, ts, buf, pos, i, bound, top),
        crate::encoding::shared_regs_consistent(fields, ts),
        sh_models(fields, ts, sh, i),
        buf.len() <= MAX_ARCHIVE,
        0 <= i,
        0 <= pos,
        bound <= top,
        top <= buf.len(),
    ensures
        fields_check_from(fields, buf, pos, i, bound, sh),
    decreases fields.len() - i,
{
    vstd::bytes::lemma_auto_spec_u32_to_from_le_bytes();
    vstd::bytes::lemma_auto_spec_u64_to_from_le_bytes();
    if i < fields.len() {
        let d = fields[i];
        let m = ms[i];
        let t = ts[i];
        let fpos = pos + field_offset(fields, i);
        assert(crate::encoding::field_encoded(d, m, buf, fpos, t));
        assert(buf.subrange(fpos, fpos + field_size(d)) == crate::encoding::header_bytes(
            d,
            m,
            fpos,
            t,
        ));
        let ce2 = field_next_ce(d, buf, fpos, bound);
        let sh2 = field_next_sh(d, buf, fpos, sh);
        let h = buf.subrange(fpos, fpos + field_size(d));
        match (d, m) {
            (FieldDesc::Bool, crate::desc::ValueModel::Bool(b)) => {
                assert(buf[fpos] == h[0]);
                assert(field_ok(d, buf, fpos, bound, sh));
            },
            (FieldDesc::Str, crate::desc::ValueModel::Str(s)) => {
                lemma_ptr_field_words(d, m, buf, fpos, t);
                assert(field_ok(d, buf, fpos, bound, sh));
                assert(ce2 == t);
            },
            (FieldDesc::VecU32, crate::desc::ValueModel::VecU32(xs)) => {
                lemma_ptr_field_words(d, m, buf, fpos, t);
                crate::encoding::lemma_concat_u32s_len(xs);
                assert(field_ok(d, buf, fpos, bound, sh));
                assert(ce2 == t);
            },
            (FieldDesc::BoxU64, crate::desc::ValueModel::BoxU64(x)) => {
                lemma_ptr_field_words(d, m, buf, fpos, t);
                assert(crate::encoding::payload_bytes(d, m).len() == 8) by {
                    assert(vstd::bytes::spec_u64_to_le_bytes(x).len() == 8);
                }
                assert(field_ok(d, buf, fpos, bound, sh));
                assert(ce2 == t);
            },
            (FieldDesc::NichedBoxU64, crate::desc::ValueModel::NichedBoxU64(o)) => {
                if o is Some {
                    lemma_ptr_field_words(d, m, buf, fpos, t);
                    assert(crate::encoding::payload_bytes(d, m).len() == 8) by {
                        assert(vstd::bytes::spec_u64_to_le_bytes(o->Some_0).len() == 8);
                    }
                    assert(crate::relptr::rel_offset(read_u32(buf, fpos)) == t - fpos);
                    assert(crate::relptr::rel_offset(0u32) == 0);
                    assert(read_u32(buf, fpos) != 0);
                    assert(field_ok(d, buf, fpos, bound, sh));
                    assert(ce2 == t);
                } else {
                    assert(crate::encoding::header_bytes(d, m, fpos, t)
                        == vstd::bytes::spec_u32_to_le_bytes(0u32));
                    assert(h == vstd::bytes::spec_u32_to_le_bytes(0u32));
                    assert(read_u32(buf, fpos) == 0u32);
                    assert(field_ok(d, buf, fpos, bound, sh));
                    assert(ce2 == bound);
                }
            },
            (FieldDesc::SharedU32 { type_id }, crate::desc::ValueModel::SharedU32(_)) => {
                lemma_ptr_field_words(d, m, buf, fpos, t);
                let tu = t as usize;
                if shared_has(sh, tu) {
                    let w = choose|j: int| 0 <= j < sh.len() && sh[j].0 == tu;
                    assert(sh_entry_ok(fields, ts, i, sh[w]));
                    let j = choose|j: int|
                        0 <= j < i && crate::encoding::is_shared(#[trigger] fields[j]) && ts[j]
                            == sh[w].0 as int && crate::encoding::shared_tid(fields[j])
                            == sh[w].1;
                    assert(ts[j] == t);
                    assert(crate::encoding::shared_tid(fields[j]) == crate::encoding::shared_tid(
                        d,
                    ));
                    assert(shared_type_of(sh, tu) == sh[w].1);
                }
                assert(field_ok(d, buf, fpos, bound, sh));
                if shared_has(sh, tu) {
                    assert(sh2 == sh);
                    lemma_sh_models_weaken(fields, ts, sh, i);
                }
                assert(sh_models(fields, ts, sh2, i + 1)) by {
                    if !shared_has(sh, tu) {
                        assert forall|e: int| 0 <= e < sh2.len() implies sh_entry_ok(
                            fields,
                            ts,
                            i + 1,
                            #[trigger] sh2[e],
                        ) by {
                            if e < sh.len() {
                                assert(sh2[e] == sh[e]);
                                assert(sh_entry_ok(fields, ts, i, sh[e]));
                                lemma_sh_entry_weaken(fields, ts, i, sh[e]);
                            } else {
                                assert(sh2[e] == (tu, type_id));
                                assert(0 <= i < i + 1 && crate::encoding::is_shared(fields[i])
                                    && ts[i] == sh2[e].0 as int && crate::encoding::shared_tid(
                                    fields[i],
                                ) == sh2[e].1);
                            }
                        }
                    }
                }
            },
            (FieldDesc::NichedNichable { strat }, crate::desc::ValueModel::NichedNichable(o)) => {
                crate::encoding::lemma_subrange_chunk(buf, fpos, 12, 8, 12);
                assert(buf.subrange(fpos + 8, fpos + 12) =~= vstd::bytes::spec_u32_to_le_bytes(
                    crate::encoding::nichable_bool_word(strat, o),
                ));
                assert(read_u32(buf, fpos + 8) == crate::encoding::nichable_bool_word(strat, o));
                assert(field_ok(d, buf, fpos, bound, sh));
            },
            _ => {
                assert(field_ok(d, buf, fpos, bound, sh));
            },
        }
        if !(d is SharedU32) {
            assert(sh2 == sh);
            lemma_sh_models_weaken(fields, ts, sh, i);
        }
        assert(sh_models(fields, ts, sh2, i + 1));
        let b2 = if crate::encoding::claimed(d, m) {
            t
        } else {
            bound
        };
        assert(ce2 == b2);
        lemma_fields_sound(fields, ms, ts, buf, pos, i + 1, b2, top, sh2);
    }
}

/// Validation soundness: every buffer `serialize_then_resolve` produces is
/// accepted by `validate_archive`.
pub proof fn lemma_validation_soundness(
    fields: Seq<FieldDesc>,
    ms: Seq<crate::desc::ValueModel>,
    ts: Seq<int>,
    buf: Seq<u8>,
    root: int,
)
    requires
        crate::encoding::wf_values(fields, ms),
        crate::encoding::archive_encoded(fields, ms, ts, buf, root),
    ensures
        archive_checkable(fields, buf),
{
    lemma_fields_sound(fields, ms, ts, buf, root, 0, root, root, Seq::empty());
}


} // verus!
