//! The library's cross-cutting laws, stated and proved once over the
//! specification functions the public contracts use.

use vstd::prelude::*;
use crate::desc::{FieldDesc, ValueModel, record_size};
use crate::encoding::{wf_values, archive_encoded, decode_record, decode_field, claims_ok,
    claimed, payload_bytes, models_of};
use crate::check::{archive_checkable, fields_check_from, field_next_ce, field_next_sh};
use crate::relptr::rel_target;
use crate::encoding::read_u32;
use crate::desc::field_offset;
use crate::serializer::{skey_has, skey_pos, shared_keys_unique, shared_entries_increasing,
    lemma_skey_distinct};

verus! {

/// Round trip: decoding the archive a record of values was serialized
/// into yields exactly those values' models, so recovering a serialized
/// archive returns the original values under the models' equality.
pub proof fn law_round_trip(
    fields: Seq<FieldDesc>,
    ms: Seq<ValueModel>,
    ts: Seq<int>,
    buf: Seq<u8>,
    root: int,
)
    requires
        wf_values(fields, ms),
        archive_encoded(fields, ms, ts, buf, root),
    ensures
        decode_record(fields, buf, root) == ms,
{
    crate::encoding::lemma_record_roundtrip(fields, ms, ts, buf, root);
}

/// View stability: what a buffer decodes to is a function of its bytes
/// alone, so viewing the same bytes twice yields equal results, and the
/// viewing functions take the buffer by shared reference and cannot
/// mutate it.
pub proof fn law_view_stability(d: FieldDesc, b1: Seq<u8>, b2: Seq<u8>, pos: int)
    requires
        b1 == b2,
    ensures
        decode_field(d, b1, pos) == decode_field(d, b2, pos),
{
}

/// Validation soundness: every archive the serializer produces is
/// accepted by validation.
pub proof fn law_validation_soundness(
    fields: Seq<FieldDesc>,
    ms: Seq<ValueModel>,
    ts: Seq<int>,
    buf: Seq<u8>,
    root: int,
)
    requires
        wf_values(fields, ms),
        archive_encoded(fields, ms, ts, buf, root),
    ensures
        archive_checkable(fields, buf),
{
    crate::check::lemma_fields_sound(fields, ms, ts, buf, root, 0, root, root, Seq::empty());
}

/// Range discipline, claims side: under the serializer's claim
/// discipline, every claimed payload from `i` on lies below `bound`.
pub proof fn law_claims_below_bound(
    fields: Seq<FieldDesc>,
    ms: Seq<ValueModel>,
    ts: Seq<int>,
    i: int,
    bound: int,
    top: int,
    k: int,
)
    requires
        claims_ok(fields, ms, ts, i, bound, top),
        0 <= i <= k < fields.len(),
        claimed(fields[k], ms[k]),
    ensures
        ts[k] + payload_bytes(fields[k], ms[k]).len() <= bound,
    decreases k - i,
{
    if i < k {
        if claimed(fields[i], ms[i]) {
            law_claims_below_bound(fields, ms, ts, i + 1, ts[i], top, k);
        } else {
            law_claims_below_bound(fields, ms, ts, i + 1, bound, top, k);
        }
    }
}

/// Range discipline, siblings: two claimed payloads of one record never
/// overlap — the later field's span ends at or below the earlier field's
/// span start — and every claimed span lies within the parent's bound.
pub proof fn law_sibling_claims_disjoint(
    fields: Seq<FieldDesc>,
    ms: Seq<ValueModel>,
    ts: Seq<int>,
    i: int,
    bound: int,
    top: int,
    a: int,
    b: int,
)
    requires
        claims_ok(fields, ms, ts, i, bound, top),
        0 <= i <= a < b < fields.len(),
        claimed(fields[a], ms[a]),
        claimed(fields[b], ms[b]),
    ensures
        ts[b] + payload_bytes(fields[b], ms[b]).len() <= ts[a],
        ts[a] + payload_bytes(fields[a], ms[a]).len() <= bound,
    decreases a - i,
{
    if i == a {
        law_claims_below_bound(fields, ms, ts, a + 1, ts[a], top, b);
    } else {
        if claimed(fields[i], ms[i]) {
            law_sibling_claims_disjoint(fields, ms, ts, i + 1, ts[i], top, a, b);
            law_claims_below_bound(fields, ms, ts, i, bound, top, a);
        } else {
            law_sibling_claims_disjoint(fields, ms, ts, i + 1, bound, top, a, b);
        }
    }
}

/// A checkable record keeps every claimed pointer inside the buffer,
/// whatever state the check threads to it.
pub proof fn lemma_ptr_in_bounds_if_checkable(
    fields: Seq<FieldDesc>,
    buf: Seq<u8>,
    pos: int,
    i: int,
    ce: int,
    sh: Seq<(usize, u64)>,
    k: int,
)
    requires
        fields_check_from(fields, buf, pos, i, ce, sh),
        0 <= i <= k < fields.len(),
        fields[k] is Str || fields[k] is VecU32 || fields[k] is BoxU64,
    ensures
        0 <= rel_target(
            pos + field_offset(fields, k),
            read_u32(buf, pos + field_offset(fields, k)),
        ) <= buf.len(),
    decreases k - i,
{
    let fpos = pos + field_offset(fields, i);
    if i < k {
        lemma_ptr_in_bounds_if_checkable(
            fields,
            buf,
            pos,
            i + 1,
            field_next_ce(fields[i], buf, fpos, ce),
            field_next_sh(fields[i], buf, fpos, sh),
            k,
        );
    }
}

/// Validation completeness for corrupted pointers: a buffer in which any
/// claimed pointer field's stored offset sends its target outside the
/// buffer is not checkable, so validation reports an error on it, never a
/// successful view.
pub proof fn law_corrupt_pointer_rejected(fields: Seq<FieldDesc>, buf: Seq<u8>, k: int)
    requires
        0 <= k < fields.len(),
        fields[k] is Str || fields[k] is VecU32 || fields[k] is BoxU64,
        !(0 <= rel_target(
            buf.len() - record_size(fields) + field_offset(fields, k),
            read_u32(buf, buf.len() - record_size(fields) + field_offset(fields, k)),
        ) <= buf.len()),
    ensures
        !archive_checkable(fields, buf),
{
    if archive_checkable(fields, buf) {
        let root = buf.len() - record_size(fields);
        lemma_ptr_in_bounds_if_checkable(fields, buf, root, 0, root, Seq::empty(), k);
    }
}

/// Shared-pointer deduplication: in the serializer's shared map two keys
/// name one target exactly when they are the same key, so a value
/// reachable through two references to one allocation serializes one
/// payload, and distinct allocations never collide.
pub proof fn law_shared_dedup(sh: Seq<(u64, usize, u32)>, k1: u64, k2: u64)
    requires
        shared_keys_unique(sh),
        shared_entries_increasing(sh),
        skey_has(sh, k1),
        skey_has(sh, k2),
    ensures
        (k1 == k2) <==> (skey_pos(sh, k1) == skey_pos(sh, k2)),
{
    if k1 != k2 {
        lemma_skey_distinct(sh, k1, k2);
    }
}

} // verus!
