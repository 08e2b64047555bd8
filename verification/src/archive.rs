//! Building a complete archive: serialize every field's out-of-line data,
//! reserve the root record at the end of the buffer, and resolve each
//! field into its slot.
//!
//! Out-of-line data is written in reverse field order, so that the fields'
//! payloads sit at strictly descending positions: validation, which walks
//! fields in declaration order and consumes the claimed span plus
//! everything above it, then accepts exactly this layout. The root record
//! sits at the end of the buffer, at `buffer length - record size`.

use vstd::prelude::*;
use crate::errors::ArchiveError;
use crate::relptr::MAX_ARCHIVE;
use crate::desc::{FieldDesc, FieldValue, field_size, field_offset, record_size, record_size_x,
    slot_size_x, wf_fields, lemma_record_size_step, lemma_record_size_bounds,
    lemma_record_size_full, lemma_field_offset_mono, lemma_field_offset_mod4,
    lemma_slot_size_mod4};
use crate::encoding::{wf_value, has_payload, claimed, is_shared, shared_key, shared_val,
    shared_tid, payload_bytes, payload_placed, field_encoded, models_of, shared_consistent,
    claims_ok, archive_encoded, lemma_claims_ok_mono, lemma_assemble_record,
    lemma_placed_prefix, lemma_field_encoded_agree};
use crate::serializer::{Serializer, FieldResolver, Place, serialize_field, resolve_field,
    skey_has, skey_pos, skey_val, lemma_skey_push};

verus! {

/// True when a resolver records the field's payload position.
pub open spec fn resolver_ok(d: FieldDesc, m: crate::desc::ValueModel, r: FieldResolver, t: int) -> bool {
    if has_payload(d, m) {
        r matches FieldResolver::Pos(tv) && tv as int == t
    } else {
        r matches FieldResolver::Unit
    }
}

/// An upper bound on the bytes serializing the fields from `i` on can
/// append: each field's payload plus alignment and bookkeeping slack.
pub open spec fn serialize_cost(fields: Seq<FieldDesc>, ms: Seq<crate::desc::ValueModel>, i: int) -> int
    decreases fields.len() - i,
{
    if i < 0 || i >= fields.len() {
        0
    } else {
        payload_bytes(fields[i], ms[i]).len() + 16 + serialize_cost(fields, ms, i + 1)
    }
}

/// The cost is never negative.
pub proof fn lemma_cost_nonneg(fields: Seq<FieldDesc>, ms: Seq<crate::desc::ValueModel>, i: int)
    ensures
        serialize_cost(fields, ms, i) >= 0,
    decreases fields.len() - i,
{
    if 0 <= i < fields.len() {
        lemma_cost_nonneg(fields, ms, i + 1);
    }
}

/// Dropping leading fields never raises the cost.
pub proof fn lemma_cost_mono(
    fields: Seq<FieldDesc>,
    ms: Seq<crate::desc::ValueModel>,
    i: int,
    j: int,
)
    requires
        0 <= i <= j,
    ensures
        serialize_cost(fields, ms, j) <= serialize_cost(fields, ms, i),
    decreases j - i,
{
    if i < j {
        lemma_cost_mono(fields, ms, i + 1, j);
        if i < fields.len() {
        }
    }
}

/// True when the capacity limit surely suffices: the total serialization
/// cost plus the root record and its alignment fit.
pub open spec fn fits(fields: Seq<FieldDesc>, ms: Seq<crate::desc::ValueModel>, limit: int) -> bool {
    serialize_cost(fields, ms, 0) + record_size(fields) + 4 <= limit
}

/// True when a shared-map entry was recorded for one of the fields from
/// `i` on, carrying that field's key and integer.
pub open spec fn entry_from_field(
    fields: Seq<FieldDesc>,
    vals: Seq<FieldValue>,
    i: int,
    e: (u64, usize, u32),
) -> bool {
    exists|k: int|
        i <= k < fields.len() && is_shared(#[trigger] fields[k]) && e.0 == shared_key(vals[k])
            && e.2 == shared_val(vals[k])
}

/// An entry justified by the fields from `i + 1` on is justified by the
/// fields from `i` on.
pub proof fn lemma_entry_from_weaken(
    fields: Seq<FieldDesc>,
    vals: Seq<FieldValue>,
    i: int,
    e: (u64, usize, u32),
)
    requires
        entry_from_field(fields, vals, i + 1, e),
    ensures
        entry_from_field(fields, vals, i, e),
{
    let k0 = choose|k: int|
        i + 1 <= k < fields.len() && is_shared(#[trigger] fields[k]) && e.0 == shared_key(
            vals[k],
        ) && e.2 == shared_val(vals[k]);
    assert(i <= k0 < fields.len() && is_shared(fields[k0]) && e.0 == shared_key(vals[k0]) && e.2
        == shared_val(vals[k0]));
}

/// Serializes a record of values and resolves it into a fresh buffer.
/// On success the returned buffer holds a complete archive: the root
/// record at the returned position (the buffer's end minus the record
/// size), every field encoded, claimed payloads descending below the
/// root, and shared registrations consistent.
#[verifier::rlimit(100)]
#[verifier::loop_isolation(false)]
pub fn serialize_then_resolve(
    fields: &Vec<FieldDesc>,
    vals: &Vec<FieldValue>,
    limit: usize,
) -> (r: Result<(Vec<u8>, usize), ArchiveError>)
    requires
        wf_fields(fields@),
        vals@.len() == fields@.len(),
        forall|i: int| 0 <= i < vals@.len() ==> wf_value(fields@[i], #[trigger] vals@[i]@),
        shared_consistent(fields@, vals@),
        limit <= MAX_ARCHIVE,
    ensures
        match r {
            Ok(p) => {
                &&& p.0@.len() <= limit
                &&& p.1 + record_size(fields@) == p.0@.len()
                &&& exists|ts: Seq<int>|
                    archive_encoded(fields@, models_of(vals@), ts, p.0@, p.1 as int)
            },
            Err(e) => match e {
                ArchiveError::Capacity { .. } => true,
                ArchiveError::SharedConflict { .. } => exists|k: int|
                    0 <= k < fields@.len() && is_shared(#[trigger] fields@[k]),
                _ => false,
            },
        },
        fits(fields@, models_of(vals@), limit as int) ==> r is Ok,
{
    let ghost fs = fields@;
    let ghost ms = models_of(vals@);
    let n = fields.len();
    let mut s = Serializer::new(limit);
    let mut resolvers: Vec<FieldResolver> = Vec::new();
    let mut f: usize = 0;
    while f < n
        invariant
            0 <= f <= n,
            resolvers@.len() == f,
        decreases n - f,
    {
        resolvers.push(FieldResolver::Unit);
        f = f + 1;
    }
    let ghost mut ts: Seq<int> = Seq::new(n as nat, |i: int| 0);
    let mut i: usize = n;
    while i > 0
        invariant
            0 <= i <= n,
            n == fs.len(),
            vals@.len() == n,
            fields@ == fs,
            resolvers@.len() == n,
            ts.len() == n,
            s.wf(),
            s.limit == limit,
            forall|k: int|
                i <= k < n ==> resolver_ok(fs[k], ms[k], #[trigger] resolvers@[k], ts[k]),
            forall|k: int|
                i <= k < n ==> payload_placed(fs[k], ms[k], s.bytes@, #[trigger] ts[k]),
            claims_ok(fs, ms, ts, i as int, s.bytes@.len() as int, s.bytes@.len() as int),
            forall|k: int|
                i <= k < n && is_shared(fs[k]) ==> skey_has(
                    s.shared@,
                    shared_key(#[trigger] vals@[k]),
                ) && skey_pos(s.shared@, shared_key(vals@[k])) == ts[k] && skey_val(
                    s.shared@,
                    shared_key(vals@[k]),
                ) == shared_val(vals@[k]),
            s.bytes@.len() as int <= serialize_cost(fs, ms, i as int),
            forall|ei: int|
                0 <= ei < s.shared@.len() ==> entry_from_field(
                    fs,
                    vals@,
                    i as int,
                    #[trigger] s.shared@[ei],
                ),
        decreases i,
    {
        i = i - 1;
        let ghost pre = s.bytes@;
        let ghost pre_shared = s.shared@;
        let res = match serialize_field(&fields[i], &vals[i], &mut s) {
            Ok(res) => res,
            Err(e) => {
                proof {
                    if e matches ArchiveError::SharedConflict { .. } {
                        assert(is_shared(fs[i as int]));
                    }
                    if fits(fs, ms, limit as int) {
                        lemma_cost_mono(fs, ms, 0, i as int);
                        lemma_record_size_bounds(fs);
                        assert(pre.len() + payload_bytes(fs[i as int], ms[i as int]).len() + 16
                            <= limit);
                        if is_shared(fs[i as int]) && skey_has(
                            pre_shared,
                            shared_key(vals@[i as int]),
                        ) {
                            let w = choose|j: int|
                                0 <= j < pre_shared.len() && pre_shared[j].0 == shared_key(
                                    vals@[i as int],
                                );
                            crate::serializer::lemma_skey_at(
                                pre_shared,
                                shared_key(vals@[i as int]),
                                w,
                            );
                            assert(entry_from_field(fs, vals@, i + 1, pre_shared[w]));
                            let k0 = choose|k: int|
                                i + 1 <= k < fs.len() && is_shared(#[trigger] fs[k])
                                    && pre_shared[w].0 == shared_key(vals@[k])
                                    && pre_shared[w].2 == shared_val(vals@[k]);
                            assert(shared_val(vals@[i as int]) == shared_val(vals@[k0]));
                            assert(skey_val(pre_shared, shared_key(vals@[i as int]))
                                == shared_val(vals@[i as int]));
                        }
                        assert(false);
                    }
                }
                return Err(e);
            },
        };
        let ghost t_new: int = match res {
            FieldResolver::Pos(tv) => tv as int,
            FieldResolver::Unit => 0,
        };
        resolvers.set(i, res);
        proof {
            let ts_old = ts;
            ts = ts.update(i as int, t_new);
            assert(resolver_ok(fs[i as int], ms[i as int], resolvers@[i as int], ts[i as int]));
            if has_payload(fs[i as int], ms[i as int]) {
                assert(payload_placed(fs[i as int], ms[i as int], s.bytes@, ts[i as int]));
            }
            // placements of already-done fields survive the append
            assert forall|k: int|
                i + 1 <= k < n implies payload_placed(fs[k], ms[k], s.bytes@, #[trigger] ts[k]) by {
                assert(ts[k] == ts_old[k]);
                lemma_placed_prefix(fs[k], ms[k], pre, s.bytes@, ts[k]);
            }
            // claims: the done suffix is unchanged, its bound widens to the
            // new buffer length, and field i's claim sits just below it
            lemma_claims_ok_frame(fs, ms, ts_old, ts, i + 1, pre.len() as int, pre.len() as int);
            lemma_claims_ok_mono(
                fs,
                ms,
                ts,
                i + 1,
                pre.len() as int,
                if claimed(fs[i as int], ms[i as int]) {
                    ts[i as int]
                } else {
                    s.bytes@.len() as int
                },
                pre.len() as int,
                s.bytes@.len() as int,
            );
            assert(s.bytes@.len() as int <= serialize_cost(fs, ms, i as int));
            assert forall|ei: int|
                0 <= ei < s.shared@.len() implies entry_from_field(
                fs,
                vals@,
                i as int,
                #[trigger] s.shared@[ei],
            ) by {
                if ei < pre_shared.len() {
                    assert(s.shared@[ei] == pre_shared[ei]);
                    lemma_entry_from_weaken(fs, vals@, i as int, pre_shared[ei]);
                } else {
                    assert(is_shared(fs[i as int]) && s.shared@[ei].0 == shared_key(
                        vals@[i as int],
                    ) && s.shared@[ei].2 == shared_val(vals@[i as int]));
                }
            }
            // shared facts survive a push of a fresh key
            if s.shared@ != pre_shared {
                assert forall|k: int|
                    i + 1 <= k < n && is_shared(fs[k]) implies skey_has(
                    s.shared@,
                    shared_key(#[trigger] vals@[k]),
                ) && skey_pos(s.shared@, shared_key(vals@[k])) == ts[k] && skey_val(
                    s.shared@,
                    shared_key(vals@[k]),
                ) == shared_val(vals@[k]) by {
                    lemma_skey_push(
                        pre_shared,
                        (shared_key(vals@[i as int]), ts[i as int] as usize, shared_val(
                            vals@[i as int],
                        )),
                        shared_key(vals@[k]),
                    );
                }
            }
        }
    }
    // reserve the root record at the end, on a four-byte boundary
    let size = record_size_x(fields);
    let ghost done = s.bytes@;
    let place = match s.reserve(size) {
        Ok(p) => p,
        Err(e) => {
            proof {
                if fits(fs, ms, limit as int) {
                    assert(false);
                }
            }
            return Err(e);
        },
    };
    let root = place.pos;
    proof {
        lemma_record_size_bounds(fs);
        assert forall|k: int|
            0 <= k < n implies payload_placed(fs[k], ms[k], s.bytes@, #[trigger] ts[k]) by {
            lemma_placed_prefix(fs[k], ms[k], done, s.bytes@, ts[k]);
        }
        lemma_claims_ok_mono(
            fs,
            ms,
            ts,
            0,
            done.len() as int,
            root as int,
            done.len() as int,
            root as int,
        );
    }
    let ghost shared_fixed = s.shared@;
    // resolve every field into its slot, in declaration order
    let mut j: usize = 0;
    let mut off: usize = 0;
    while j < n
        invariant
            0 <= j <= n,
            n == fs.len(),
            vals@.len() == n,
            fields@ == fs,
            resolvers@.len() == n,
            ts.len() == n,
            s.wf(),
            s.limit == limit,
            s.shared@ == shared_fixed,
            s.bytes@.len() == root + record_size(fs),
            off as int == field_offset(fs, j as int),
            forall|k: int|
                0 <= k < n ==> resolver_ok(fs[k], ms[k], #[trigger] resolvers@[k], ts[k]),
            forall|k: int|
                0 <= k < n ==> payload_placed(fs[k], ms[k], s.bytes@, #[trigger] ts[k]),
            claims_ok(fs, ms, ts, 0, root as int, root as int),
            forall|k: int| 0 <= k < shared_fixed.len() ==> (#[trigger] shared_fixed[k]).1 + 4
                <= root,
            forall|k: int|
                0 <= k < j ==> field_encoded(
                    fs[k],
                    ms[k],
                    s.bytes@,
                    root + field_offset(fs, k),
                    #[trigger] ts[k],
                ),
        decreases n - j,
    {
        proof {
            lemma_record_size_step(fs, j as int);
            lemma_field_offset_mono(fs, j as int + 1, n as int);
            lemma_record_size_full(fs);
            lemma_field_offset_mod4(fs, j as int);
            lemma_slot_size_mod4(fs[j as int]);
            lemma_claims_extract(fs, ms, ts, 0, j as int, root as int, root as int);
        }
        let fieldpos = root + off;
        let ghost pre = s.bytes@;
        resolve_field(&fields[j], &vals[j], &resolvers[j], fieldpos, &mut s);
        proof {
            assert forall|k: int|
                0 <= k < n implies payload_placed(fs[k], ms[k], s.bytes@, #[trigger] ts[k]) by {
                if has_payload(fs[k], ms[k]) {
                    let plen = payload_bytes(fs[k], ms[k]).len() as int;
                    lemma_claims_extract(fs, ms, ts, 0, k, root as int, root as int);
                    assert(s.bytes@.subrange(ts[k], ts[k] + plen) =~= pre.subrange(
                        ts[k],
                        ts[k] + plen,
                    ));
                }
            }
            assert forall|k: int|
                0 <= k < j implies field_encoded(
                fs[k],
                ms[k],
                s.bytes@,
                root + field_offset(fs, k),
                #[trigger] ts[k],
            ) by {
                lemma_field_offset_mono(fs, k + 1, j as int);
                lemma_record_size_step(fs, k);
                lemma_slot_size_mod4(fs[k]);
                lemma_claims_extract(fs, ms, ts, 0, k, root as int, root as int);
                lemma_field_encoded_agree(
                    fs[k],
                    ms[k],
                    pre,
                    s.bytes@,
                    root + field_offset(fs, k),
                    ts[k],
                );
            }
        }
        let slot = slot_size_x(&fields[j]);
        off = off + slot;
        j = j + 1;
    }
    proof {
        lemma_record_size_full(fs);
        // shared registrations are consistent: targets collide exactly when
        // keys collide, and equal keys declare one type identifier
        assert forall|a: int, b: int|
            0 <= a < n && 0 <= b < n && is_shared(fs[a]) && is_shared(fs[b]) && ts[a]
                == ts[b] implies shared_tid(fs[a]) == shared_tid(fs[b]) by {
            if shared_key(vals@[a]) != shared_key(vals@[b]) {
                crate::serializer::lemma_skey_distinct(
                    shared_fixed,
                    shared_key(vals@[a]),
                    shared_key(vals@[b]),
                );
            }
        }
        lemma_assemble_record(fs, ms, ts, s.bytes@, root as int, 0, root as int, root as int);
        assert(archive_encoded(fs, ms, ts, s.bytes@, root as int));
    }
    let Serializer { bytes, limit: _, shared: _ } = s;
    Ok((bytes, root))
}

/// The claim discipline of the fields from `i` on depends only on those
/// fields' targets.
pub proof fn lemma_claims_ok_frame(
    fields: Seq<FieldDesc>,
    ms: Seq<crate::desc::ValueModel>,
    ts1: Seq<int>,
    ts2: Seq<int>,
    i: int,
    bound: int,
    top: int,
)
    requires
        claims_ok(fields, ms, ts1, i, bound, top),
        ts1.len() == ts2.len(),
        ts1.len() == fields.len(),
        forall|k: int| i <= k < ts1.len() ==> ts1[k] == #[trigger] ts2[k],
    ensures
        claims_ok(fields, ms, ts2, i, bound, top),
    decreases fields.len() - i,
{
    if 0 <= i < fields.len() {
        assert(ts2[i] == ts1[i]);
        let b2 = if claimed(fields[i], ms[i]) {
            ts1[i]
        } else {
            bound
        };
        lemma_claims_ok_frame(fields, ms, ts1, ts2, i + 1, b2, top);
        assert(claims_ok(fields, ms, ts2, i + 1, b2, top));
    }
}

/// Inside a claim-disciplined record, each claimed payload ends at or
/// below `bound`, each shared payload at or below `top`.
pub proof fn lemma_claims_extract(
    fields: Seq<FieldDesc>,
    ms: Seq<crate::desc::ValueModel>,
    ts: Seq<int>,
    i: int,
    k: int,
    bound: int,
    top: int,
)
    requires
        claims_ok(fields, ms, ts, i, bound, top),
        0 <= i <= k < fields.len(),
        top >= bound,
    ensures
        claimed(fields[k], ms[k]) ==> 0 <= ts[k] && ts[k] + payload_bytes(fields[k], ms[k]).len()
            <= top,
        is_shared(fields[k]) ==> 0 <= ts[k] && ts[k] + payload_bytes(fields[k], ms[k]).len()
            <= top,
    decreases k - i,
{
    if i < k {
        let b2 = if claimed(fields[i], ms[i]) {
            ts[i]
        } else {
            bound
        };
        lemma_claims_ok_mono(fields, ms, ts, i + 1, b2, top, top, top);
        lemma_claims_extract(fields, ms, ts, i + 1, k, top, top);
    }
}

} // verus!
