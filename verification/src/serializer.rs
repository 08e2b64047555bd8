//! The out-of-line writer and the two-phase serialize/resolve protocol.
//!
//! Serializing a value may append out-of-line bytes to the writer and
//! returns a resolver capturing the position just written; resolving is
//! infallible and writes the value's fixed-size representation into a
//! reserved place, turning the captured position into a relative pointer.
//! All fallible work (capacity checks, shared-target bookkeeping) happens
//! during serialization.

use vstd::prelude::*;
use vstd::bytes::{u32_to_le_bytes, u64_to_le_bytes, spec_u32_to_le_bytes, spec_u64_to_le_bytes};
use crate::errors::ArchiveError;
use crate::relptr::{MAX_ARCHIVE, make_rel_ptr};
use crate::desc::{FieldDesc, FieldValue, field_size};
use crate::encoding::{wf_value, has_payload, claimed, is_shared, shared_key, shared_val,
    payload_bytes, payload_align, payload_placed, field_encoded, header_bytes, concat_u32s,
    lemma_concat_u32s_len, nichable_float_word, nichable_int_word, nichable_bool_word};
use crate::niche::{Zero, NaN, Bool};

verus! {

/// A resolver: what serialization learned that resolution still needs.
/// Fields without out-of-line data have a unit resolver; the others carry
/// the position their payload was written at.
pub enum FieldResolver {
    /// Nothing out of line.
    Unit,
    /// The payload's position in the buffer.
    Pos(usize),
}

/// The payload position a resolver carries.
pub open spec fn res_target(r: FieldResolver) -> int {
    match r {
        FieldResolver::Unit => 0,
        FieldResolver::Pos(t) => t as int,
    }
}

/// An absolute output location reserved for one value's fixed-size
/// representation; it is consumed, and so written, exactly once.
pub struct Place {
    /// Position of the place's first byte.
    pub pos: usize,
    /// Number of bytes reserved.
    pub size: usize,
}

/// True when some entry of the shared-target map records `key`.
pub open spec fn skey_has(s: Seq<(u64, usize, u32)>, key: u64) -> bool {
    exists|j: int| 0 <= j < s.len() && s[j].0 == key
}

/// The position recorded for `key` (meaningful when `skey_has` holds and
/// keys are unique).
pub open spec fn skey_pos(s: Seq<(u64, usize, u32)>, key: u64) -> int {
    let j = choose|j: int| 0 <= j < s.len() && s[j].0 == key;
    s[j].1 as int
}

/// The integer recorded for `key`.
pub open spec fn skey_val(s: Seq<(u64, usize, u32)>, key: u64) -> u32 {
    let j = choose|j: int| 0 <= j < s.len() && s[j].0 == key;
    s[j].2
}

/// Every shared entry's payload is really in the buffer.
pub open spec fn shared_entries_wf(s: Seq<(u64, usize, u32)>, bytes: Seq<u8>) -> bool {
    forall|i: int|
        0 <= i < s.len() ==> {
            &&& s[i].1 + 4 <= bytes.len()
            &&& s[i].1 as int % 4 == 0
            &&& bytes.subrange(s[i].1 as int, s[i].1 + 4) == spec_u32_to_le_bytes(s[i].2)
        }
}

/// Entries were appended at strictly increasing positions.
pub open spec fn shared_entries_increasing(s: Seq<(u64, usize, u32)>) -> bool {
    forall|i: int, j: int| 0 <= i < j < s.len() ==> s[i].1 + 4 <= s[j].1
}

/// No key is recorded twice.
pub open spec fn shared_keys_unique(s: Seq<(u64, usize, u32)>) -> bool {
    forall|i: int, j: int| 0 <= i < j < s.len() ==> s[i].0 != s[j].0
}

/// The growable output buffer: appended bytes, a fixed capacity limit, and
/// the shared-target map used to deduplicate shared serializations.
pub struct Serializer {
    /// The archive bytes written so far.
    pub bytes: Vec<u8>,
    /// Capacity limit in bytes.
    pub limit: usize,
    /// Shared-target map: deduplication key, payload position, payload.
    pub shared: Vec<(u64, usize, u32)>,
}

impl Serializer {
    /// The serializer's invariant.
    pub open spec fn wf(self) -> bool {
        &&& self.bytes@.len() <= self.limit <= MAX_ARCHIVE
        &&& shared_entries_wf(self.shared@, self.bytes@)
        &&& shared_entries_increasing(self.shared@)
        &&& shared_keys_unique(self.shared@)
    }

    /// A fresh serializer with the given capacity limit.
    pub fn new(limit: usize) -> (s: Serializer)
        requires
            limit <= MAX_ARCHIVE,
        ensures
            s.wf(),
            s.limit == limit,
            s.bytes@ =~= Seq::<u8>::empty(),
            s.shared@ =~= Seq::<(u64, usize, u32)>::empty(),
    {
        Serializer { bytes: Vec::new(), limit, shared: Vec::new() }
    }

    /// The position the next byte will be appended at.
    pub fn pos(&self) -> (p: usize)
        ensures
            p == self.bytes@.len(),
    {
        self.bytes.len()
    }

    /// Appends bytes, failing with a capacity error when the limit would be
    /// exceeded.
    pub fn write_slice(&mut self, data: &[u8]) -> (r: Result<(), ArchiveError>)
        requires
            old(self).wf(),
        ensures
            final(self).wf(),
            final(self).limit == old(self).limit,
            final(self).shared@ == old(self).shared@,
            match r {
                Ok(()) => final(self).bytes@ == old(self).bytes@ + data@,
                Err(e) => {
                    &&& final(self).bytes@ == old(self).bytes@
                    &&& e matches ArchiveError::Capacity { .. }
                    &&& old(self).bytes@.len() + data@.len() > old(self).limit
                },
            },
    {
        if data.len() > self.limit - self.bytes.len() {
            return Err(ArchiveError::Capacity { needed: data.len(), limit: self.limit });
        }
        let ghost prior = self.bytes@;
        self.bytes.extend_from_slice(data);
        proof {
            assert forall|i: int| 0 <= i < self.shared@.len() implies {
                &&& self.shared@[i].1 + 4 <= self.bytes@.len()
                &&& self.shared@[i].1 as int % 4 == 0
                &&& self.bytes@.subrange(self.shared@[i].1 as int, self.shared@[i].1 + 4)
                    == spec_u32_to_le_bytes(self.shared@[i].2)
            } by {
                let p = self.shared@[i].1 as int;
                assert(self.bytes@.subrange(p, p + 4) =~= prior.subrange(p, p + 4));
            }
        }
        Ok(())
    }

    /// Appends one 32-bit little-endian integer.
    pub fn write_u32(&mut self, x: u32) -> (r: Result<(), ArchiveError>)
        requires
            old(self).wf(),
        ensures
            final(self).wf(),
            final(self).limit == old(self).limit,
            final(self).shared@ == old(self).shared@,
            match r {
                Ok(()) => final(self).bytes@ == old(self).bytes@ + spec_u32_to_le_bytes(x),
                Err(e) => {
                    &&& final(self).bytes@ == old(self).bytes@
                    &&& e matches ArchiveError::Capacity { .. }
                    &&& old(self).bytes@.len() + 4 > old(self).limit
                },
            },
    {
        let data = u32_to_le_bytes(x);
        self.write_slice(data.as_slice())
    }

    /// Appends one 64-bit little-endian integer.
    pub fn write_u64(&mut self, x: u64) -> (r: Result<(), ArchiveError>)
        requires
            old(self).wf(),
        ensures
            final(self).wf(),
            final(self).limit == old(self).limit,
            final(self).shared@ == old(self).shared@,
            match r {
                Ok(()) => final(self).bytes@ == old(self).bytes@ + spec_u64_to_le_bytes(x),
                Err(e) => {
                    &&& final(self).bytes@ == old(self).bytes@
                    &&& e matches ArchiveError::Capacity { .. }
                    &&& old(self).bytes@.len() + 8 > old(self).limit
                },
            },
    {
        let data = u64_to_le_bytes(x);
        self.write_slice(data.as_slice())
    }

    /// Appends zero bytes until the position is a multiple of `align`.
    pub fn align_to(&mut self, align: usize) -> (r: Result<(), ArchiveError>)
        requires
            old(self).wf(),
            align == 1 || align == 2 || align == 4 || align == 8 || align == 16,
        ensures
            final(self).wf(),
            final(self).limit == old(self).limit,
            final(self).shared@ == old(self).shared@,
            match r {
                Ok(()) => {
                    &&& final(self).bytes@.len() as int % align as int == 0
                    &&& old(self).bytes@.len() <= final(self).bytes@.len() < old(
                        self,
                    ).bytes@.len() + align
                    &&& final(self).bytes@.subrange(0, old(self).bytes@.len() as int) == old(
                        self,
                    ).bytes@
                },
                Err(e) => {
                    &&& final(self).bytes@ == old(self).bytes@
                    &&& e matches ArchiveError::Capacity { .. }
                    &&& old(self).bytes@.len() + align > old(self).limit
                },
            },
    {
        let rem = self.bytes.len() % align;
        if rem == 0 {
            proof {
                assert(self.bytes@.subrange(0, self.bytes@.len() as int) =~= self.bytes@);
            }
            return Ok(());
        }
        let pad = align - rem;
        if pad > self.limit - self.bytes.len() {
            return Err(ArchiveError::Capacity { needed: pad, limit: self.limit });
        }
        let ghost prior = self.bytes@;
        let mut k: usize = 0;
        while k < pad
            invariant
                0 <= k <= pad,
                pad < align <= 16,
                self.bytes@.len() == prior.len() + k,
                self.bytes@.len() <= self.limit <= MAX_ARCHIVE,
                self.bytes@.subrange(0, prior.len() as int) == prior,
                self.limit == old(self).limit,
                self.shared@ == old(self).shared@,
                shared_entries_wf(self.shared@, prior),
                shared_entries_increasing(self.shared@),
                shared_keys_unique(self.shared@),
                prior.len() + pad <= self.limit,
            decreases pad - k,
        {
            let ghost before = self.bytes@;
            self.bytes.push(0u8);
            proof {
                assert(self.bytes@.subrange(0, prior.len() as int) =~= before.subrange(
                    0,
                    prior.len() as int,
                ));
            }
            k = k + 1;
        }
        proof {
            assert(shared_entries_wf(self.shared@, self.bytes@)) by {
                assert forall|i: int| 0 <= i < self.shared@.len() implies {
                    &&& self.shared@[i].1 + 4 <= self.bytes@.len()
                    &&& self.shared@[i].1 as int % 4 == 0
                    &&& self.bytes@.subrange(self.shared@[i].1 as int, self.shared@[i].1 + 4)
                        == spec_u32_to_le_bytes(self.shared@[i].2)
                } by {
                    let p = self.shared@[i].1 as int;
                    assert(self.bytes@.subrange(p, p + 4) =~= self.bytes@.subrange(
                        0,
                        prior.len() as int,
                    ).subrange(p, p + 4));
                    assert(prior.subrange(p, p + 4) == spec_u32_to_le_bytes(self.shared@[i].2));
                }
            }
        }
        Ok(())
    }

    /// Reserves a four-byte-aligned place of `size` zeroed bytes at the end
    /// of the buffer.
    pub fn reserve(&mut self, size: usize) -> (r: Result<Place, ArchiveError>)
        requires
            old(self).wf(),
            size <= MAX_ARCHIVE,
        ensures
            final(self).wf(),
            final(self).limit == old(self).limit,
            final(self).shared@ == old(self).shared@,
            old(self).bytes@.len() <= final(self).bytes@.len(),
            final(self).bytes@.subrange(0, old(self).bytes@.len() as int) == old(self).bytes@,
            match r {
                Ok(p) => {
                    &&& p.pos as int % 4 == 0
                    &&& old(self).bytes@.len() <= p.pos
                    &&& p.pos + size == final(self).bytes@.len()
                    &&& p.size == size
                },
                Err(e) => {
                    &&& e matches ArchiveError::Capacity { .. }
                    &&& old(self).bytes@.len() + size + 4 > old(self).limit
                },
            },
    {
        let ghost initial = self.bytes@;
        match self.align_to(4) {
            Ok(()) => {},
            Err(e) => {
                proof {
                    assert(self.bytes@.subrange(0, initial.len() as int) =~= initial);
                }
                return Err(e);
            },
        }
        let pos = self.bytes.len();
        if size > self.limit - pos {
            proof {
                assert(self.bytes@.subrange(0, initial.len() as int) =~= initial);
            }
            return Err(ArchiveError::Capacity { needed: size, limit: self.limit });
        }
        let ghost prior = self.bytes@;
        let mut k: usize = 0;
        while k < size
            invariant
                0 <= k <= size,
                self.bytes@.len() == prior.len() + k,
                prior.len() + size <= self.limit,
                self.bytes@.len() <= self.limit <= MAX_ARCHIVE,
                self.bytes@.subrange(0, prior.len() as int) == prior,
                self.limit == old(self).limit,
                self.shared@ == old(self).shared@,
                shared_entries_wf(self.shared@, prior),
                shared_entries_increasing(self.shared@),
                shared_keys_unique(self.shared@),
            decreases size - k,
        {
            let ghost before = self.bytes@;
            self.bytes.push(0u8);
            proof {
                assert(self.bytes@.subrange(0, prior.len() as int) =~= before.subrange(
                    0,
                    prior.len() as int,
                ));
            }
            k = k + 1;
        }
        proof {
            assert(self.bytes@.subrange(0, initial.len() as int) =~= prior.subrange(
                0,
                initial.len() as int,
            ));
            assert(shared_entries_wf(self.shared@, self.bytes@)) by {
                assert forall|i: int| 0 <= i < self.shared@.len() implies {
                    &&& self.shared@[i].1 + 4 <= self.bytes@.len()
                    &&& self.shared@[i].1 as int % 4 == 0
                    &&& self.bytes@.subrange(self.shared@[i].1 as int, self.shared@[i].1 + 4)
                        == spec_u32_to_le_bytes(self.shared@[i].2)
                } by {
                    let p = self.shared@[i].1 as int;
                    assert(self.shared@[i].1 + 4 <= prior.len());
                    assert(self.bytes@.subrange(p, p + 4) =~= self.bytes@.subrange(
                        0,
                        prior.len() as int,
                    ).subrange(p, p + 4));
                    assert(prior.subrange(p, p + 4) == spec_u32_to_le_bytes(self.shared@[i].2));
                }
            }
        }
        Ok(Place { pos, size })
    }
}

/// Overwrites `data@.len()` bytes at `pos`, leaving all other bytes as
/// they were.
pub fn store_at(buf: &mut Vec<u8>, pos: usize, data: &Vec<u8>)
    requires
        pos + data@.len() <= old(buf)@.len(),
    ensures
        final(buf)@.len() == old(buf)@.len(),
        final(buf)@.subrange(pos as int, pos + data@.len()) == data@,
        forall|j: int|
            0 <= j < old(buf)@.len() && !(pos <= j < pos + data@.len()) ==> final(buf)@[j] == old(
                buf,
            )@[j],
{
    let end = buf.len();
    let mut i: usize = 0;
    while i < data.len()
        invariant
            pos + data@.len() <= buf@.len(),
            buf@.len() == end,
            buf@.len() == old(buf)@.len(),
            0 <= i <= data@.len(),
            forall|j: int|
                0 <= j < buf@.len() && !(pos <= j < pos + data@.len()) ==> buf@[j] == old(
                    buf,
                )@[j],
            forall|j: int| 0 <= j < i ==> buf@[pos + j] == data@[j],
        decreases data@.len() - i,
    {
        let b = data[i];
        buf.set(pos + i, b);
        i = i + 1;
    }
    proof {
        assert(buf@.subrange(pos as int, pos + data@.len()) =~= data@);
    }
}

/// Overwrites the four bytes at `pos` with a 32-bit little-endian integer.
pub fn store_u32_at(buf: &mut Vec<u8>, pos: usize, x: u32)
    requires
        pos + 4 <= old(buf)@.len(),
    ensures
        final(buf)@.len() == old(buf)@.len(),
        final(buf)@.subrange(pos as int, pos + 4) == spec_u32_to_le_bytes(x),
        forall|j: int|
            0 <= j < old(buf)@.len() && !(pos <= j < pos + 4) ==> final(buf)@[j] == old(buf)@[j],
{
    let data = u32_to_le_bytes(x);
    store_at(buf, pos, &data)
}

/// Overwrites the eight bytes at `pos` with a 64-bit little-endian integer.
pub fn store_u64_at(buf: &mut Vec<u8>, pos: usize, x: u64)
    requires
        pos + 8 <= old(buf)@.len(),
    ensures
        final(buf)@.len() == old(buf)@.len(),
        final(buf)@.subrange(pos as int, pos + 8) == spec_u64_to_le_bytes(x),
        forall|j: int|
            0 <= j < old(buf)@.len() && !(pos <= j < pos + 8) ==> final(buf)@[j] == old(buf)@[j],
{
    let data = u64_to_le_bytes(x);
    store_at(buf, pos, &data)
}

/// Overwrites the byte at `pos`.
pub fn store_byte_at(buf: &mut Vec<u8>, pos: usize, b: u8)
    requires
        pos + 1 <= old(buf)@.len(),
    ensures
        final(buf)@.len() == old(buf)@.len(),
        final(buf)@.subrange(pos as int, pos + 1) == seq![b],
        forall|j: int|
            0 <= j < old(buf)@.len() && !(pos <= j < pos + 1) ==> final(buf)@[j] == old(buf)@[j],
{
    buf.set(pos, b);
    proof {
        assert(buf@.subrange(pos as int, pos + 1) =~= seq![b]);
    }
}

} // verus!

verus! {

/// Two stored words side by side are the concatenation of their byte
/// encodings.
pub proof fn lemma_two_words(buf: Seq<u8>, pos: int, a: u32, b: u32)
    requires
        0 <= pos,
        pos + 8 <= buf.len(),
        buf.subrange(pos, pos + 4) == spec_u32_to_le_bytes(a),
        buf.subrange(pos + 4, pos + 8) == spec_u32_to_le_bytes(b),
    ensures
        buf.subrange(pos, pos + 8) == spec_u32_to_le_bytes(a) + spec_u32_to_le_bytes(b),
{
    vstd::bytes::lemma_auto_spec_u32_to_from_le_bytes();
    assert(spec_u32_to_le_bytes(a).len() == 4);
    assert(spec_u32_to_le_bytes(b).len() == 4);
    assert(buf.subrange(pos, pos + 8) =~= spec_u32_to_le_bytes(a) + spec_u32_to_le_bytes(b));
}

/// Three stored words side by side are the concatenation of their byte
/// encodings.
pub proof fn lemma_three_words(buf: Seq<u8>, pos: int, a: u32, b: u32, c: u32)
    requires
        0 <= pos,
        pos + 12 <= buf.len(),
        buf.subrange(pos, pos + 4) == spec_u32_to_le_bytes(a),
        buf.subrange(pos + 4, pos + 8) == spec_u32_to_le_bytes(b),
        buf.subrange(pos + 8, pos + 12) == spec_u32_to_le_bytes(c),
    ensures
        buf.subrange(pos, pos + 12) == spec_u32_to_le_bytes(a) + spec_u32_to_le_bytes(b)
            + spec_u32_to_le_bytes(c),
{
    vstd::bytes::lemma_auto_spec_u32_to_from_le_bytes();
    assert(spec_u32_to_le_bytes(a).len() == 4);
    assert(spec_u32_to_le_bytes(b).len() == 4);
    assert(spec_u32_to_le_bytes(c).len() == 4);
    assert(buf.subrange(pos, pos + 12) =~= spec_u32_to_le_bytes(a) + spec_u32_to_le_bytes(b)
        + spec_u32_to_le_bytes(c));
}

/// A prefix of a prefix is the shorter prefix.
pub proof fn lemma_prefix_chain(big: Seq<u8>, mid: Seq<u8>, small_len: int)
    requires
        0 <= small_len <= mid.len() <= big.len(),
        big.subrange(0, mid.len() as int) == mid,
    ensures
        big.subrange(0, small_len) == mid.subrange(0, small_len),
{
    assert(big.subrange(0, small_len) =~= mid.subrange(0, small_len));
}

/// Serializes one field's out-of-line payload (if it has one), returning
/// the resolver that resolution will turn into a relative pointer. A
/// shared payload is written once per deduplication key: a repeated key
/// reuses the recorded position, and a repeated key with different
/// contents is a conflict error.
#[verifier::rlimit(100)]
#[verifier::loop_isolation(false)]
pub fn serialize_field(d: &FieldDesc, v: &FieldValue, s: &mut Serializer) -> (r: Result<
    FieldResolver,
    ArchiveError,
>)
    requires
        old(s).wf(),
        wf_value(*d, v@),
    ensures
        final(s).wf(),
        final(s).limit == old(s).limit,
        old(s).bytes@.len() <= final(s).bytes@.len(),
        final(s).bytes@.len() <= old(s).bytes@.len() + payload_bytes(*d, v@).len() + 16,
        final(s).bytes@.subrange(0, old(s).bytes@.len() as int) == old(s).bytes@,
        match r {
            Ok(res) => {
                &&& (!has_payload(*d, v@) ==> (match res {
                    FieldResolver::Unit => final(s).bytes@ == old(s).bytes@ && final(s).shared@
                        == old(s).shared@,
                    _ => false,
                }))
                &&& (has_payload(*d, v@) ==> (match res {
                    FieldResolver::Unit => false,
                    FieldResolver::Pos(t) => {
                    &&& payload_placed(*d, v@, final(s).bytes@, t as int)
                    &&& (claimed(*d, v@) ==> t as int >= old(s).bytes@.len() && final(s).shared@
                        == old(s).shared@)
                    &&& (is_shared(*d) ==> {
                        &&& skey_has(final(s).shared@, shared_key(*v))
                        &&& skey_pos(final(s).shared@, shared_key(*v)) == t as int
                        &&& skey_val(final(s).shared@, shared_key(*v)) == shared_val(*v)
                        &&& (skey_has(old(s).shared@, shared_key(*v)) ==> final(s).shared@ == old(
                            s,
                        ).shared@ && final(s).bytes@ == old(s).bytes@ && t as int == skey_pos(
                            old(s).shared@,
                            shared_key(*v),
                        ))
                        &&& (!skey_has(old(s).shared@, shared_key(*v)) ==> final(s).shared@ == old(
                            s,
                        ).shared@.push((shared_key(*v), t, shared_val(*v))) && t as int >= old(
                            s,
                        ).bytes@.len())
                    })
                },
                }))
            },
            Err(e) => match e {
                ArchiveError::Capacity { .. } => true,
                ArchiveError::SharedConflict { .. } => is_shared(*d) && skey_has(
                    old(s).shared@,
                    shared_key(*v),
                ) && skey_val(old(s).shared@, shared_key(*v)) != shared_val(*v),
                _ => false,
            },
        },
        (old(s).bytes@.len() + payload_bytes(*d, v@).len() + 16 <= old(s).limit && !(is_shared(*d)
            && skey_has(old(s).shared@, shared_key(*v)) && skey_val(old(s).shared@, shared_key(*v))
            != shared_val(*v))) ==> r is Ok,
        !has_payload(*d, v@) ==> r is Ok,
{
    let ghost prior = s.bytes@;
    match (d, v) {
        (FieldDesc::Str, FieldValue::Str(bv)) => {
            let t = s.pos();
            match s.write_slice(bv.as_slice()) {
                Ok(()) => {},
                Err(e) => {
                    proof {
                        assert(s.bytes@.subrange(0, prior.len() as int) =~= prior);
                    }
                    return Err(e);
                },
            }
            proof {
                assert(s.bytes@.subrange(0, prior.len() as int) =~= prior);
                assert(s.bytes@.subrange(t as int, t + bv@.len()) =~= bv@);
            }
            Ok(FieldResolver::Pos(t))
        },
        (FieldDesc::VecU32, FieldValue::VecU32(xs)) => {
            match s.align_to(4) {
                Ok(()) => {},
                Err(e) => {
                    proof {
                        assert(s.bytes@.subrange(0, prior.len() as int) =~= prior);
                    }
                    return Err(e);
                },
            }
            let ghost base = s.bytes@;
            let t = s.pos();
            proof {
                crate::encoding::lemma_concat_u32s_len(xs@);
            }
            let n = xs.len();
            if n > (s.limit - t) / 4 {
                proof {
                    crate::encoding::lemma_concat_u32s_len(xs@);
                    assert(s.bytes@.subrange(0, prior.len() as int) == prior);
                }
                return Err(ArchiveError::Capacity { needed: n, limit: s.limit });
            }
            let mut k: usize = 0;
            while k < n
                invariant
                    0 <= k <= n,
                    n == xs@.len(),
                    4 * xs@.len() <= crate::desc::MAX_PAYLOAD,
                    s.wf(),
                    s.limit == old(s).limit,
                    s.shared@ == old(s).shared@,
                    t == base.len(),
                    prior.len() <= base.len() <= prior.len() + 4,
                    base.len() + 4 * n <= s.limit,
                    base.subrange(0, prior.len() as int) == prior,
                    s.bytes@ == base + crate::encoding::concat_u32s(xs@.take(k as int)),
                    s.bytes@.len() == base.len() + 4 * k,
                decreases n - k,
            {
                proof {
                    crate::encoding::lemma_concat_u32s_len(xs@.take(k as int));
                    crate::encoding::lemma_concat_u32s_step(xs@, k as int);
                }
                let x = xs[k];
                match s.write_u32(x) {
                    Ok(()) => {},
                    Err(e) => {
                        proof {
                            assert(false);
                        }
                        return Err(e);
                    },
                }
                proof {
                    crate::encoding::lemma_concat_u32s_len(xs@.take(k as int + 1));
                    assert(s.bytes@ =~= base + crate::encoding::concat_u32s(
                        xs@.take(k as int + 1),
                    ));
                }
                k = k + 1;
            }
            proof {
                assert(xs@.take(n as int) =~= xs@);
                crate::encoding::lemma_concat_u32s_len(xs@);
                assert(s.bytes@.subrange(0, base.len() as int) =~= base);
                lemma_prefix_chain(s.bytes@, base, prior.len() as int);
                assert(s.bytes@.subrange(t as int, t + concat_u32s(xs@).len()) =~= concat_u32s(
                    xs@,
                ));
            }
            Ok(FieldResolver::Pos(t))
        },
        (FieldDesc::BoxU64, FieldValue::BoxU64(x)) => {
            match s.align_to(8) {
                Ok(()) => {},
                Err(e) => {
                    proof {
                        assert(s.bytes@.subrange(0, prior.len() as int) =~= prior);
                    }
                    return Err(e);
                },
            }
            let t = s.pos();
            let ghost base = s.bytes@;
            match s.write_u64(*x) {
                Ok(()) => {},
                Err(e) => {
                    proof {
                        assert(s.bytes@.subrange(0, prior.len() as int) =~= prior);
                    }
                    return Err(e);
                },
            }
            proof {
                vstd::bytes::lemma_auto_spec_u64_to_from_le_bytes();
                assert(spec_u64_to_le_bytes(*x).len() == 8);
                assert(s.bytes@.subrange(0, prior.len() as int) =~= prior);
                assert(s.bytes@.subrange(t as int, t + 8) =~= spec_u64_to_le_bytes(*x));
            }
            Ok(FieldResolver::Pos(t))
        },
        (FieldDesc::NichedBoxU64, FieldValue::NichedBoxU64(o)) => {
            match o {
                Some(x) => {
                    match s.align_to(8) {
                        Ok(()) => {},
                        Err(e) => {
                            proof {
                                assert(s.bytes@.subrange(0, prior.len() as int) =~= prior);
                            }
                            return Err(e);
                        },
                    }
                    let t = s.pos();
                    match s.write_u64(*x) {
                        Ok(()) => {},
                        Err(e) => {
                            proof {
                                assert(s.bytes@.subrange(0, prior.len() as int) =~= prior);
                            }
                            return Err(e);
                        },
                    }
                    proof {
                        vstd::bytes::lemma_auto_spec_u64_to_from_le_bytes();
                        assert(spec_u64_to_le_bytes(*x).len() == 8);
                        assert(s.bytes@.subrange(0, prior.len() as int) =~= prior);
                        assert(s.bytes@.subrange(t as int, t + 8) =~= spec_u64_to_le_bytes(*x));
                    }
                    Ok(FieldResolver::Pos(t))
                },
                None => {
                    proof {
                        assert(s.bytes@.subrange(0, prior.len() as int) =~= prior);
                    }
                    Ok(FieldResolver::Unit)
                },
            }
        },
        (FieldDesc::SharedU32 { type_id: _ }, FieldValue::SharedU32 { key, value }) => {
            let nentries: usize = s.shared.len();
            let mut i: usize = 0;
            while i < nentries
                invariant
                    0 <= i <= nentries,
                    nentries == s.shared@.len(),
                    forall|j: int| 0 <= j < i ==> s.shared@[j].0 != *key,
                    s.bytes@ == old(s).bytes@,
                    s.limit == old(s).limit,
                    s.shared@ == old(s).shared@,
                    s.wf(),
                decreases nentries - i,
            {
                let entry: (u64, usize, u32) = s.shared[i];
                if entry.0 == *key {
                    proof {
                        let sh = s.shared@;
                        assert(shared_keys_unique(sh));
                        assert(sh[i as int].0 == *key);
                        assert(skey_has(sh, *key));
                        let w = choose|j: int| 0 <= j < sh.len() && sh[j].0 == *key;
                        if w < i as int {
                            assert(sh[w].0 != sh[i as int].0);
                        } else if w > i as int {
                            assert(sh[i as int].0 != sh[w].0);
                        }
                        assert(w == i as int);
                        assert(skey_pos(sh, *key) == entry.1 as int);
                        assert(skey_val(sh, *key) == entry.2);
                        vstd::bytes::lemma_auto_spec_u32_to_from_le_bytes();
                        assert(spec_u32_to_le_bytes(entry.2).len() == 4);
                        assert(spec_u32_to_le_bytes(*value).len() == 4);
                        assert(s.bytes@ == prior);
                        assert(s.bytes@.subrange(0, prior.len() as int) =~= prior);
                    }
                    if entry.2 == *value {
                        proof {
                            assert(s.bytes@.subrange(entry.1 as int, entry.1 + 4)
                                == spec_u32_to_le_bytes(entry.2));
                        }
                        return Ok(FieldResolver::Pos(entry.1));
                    } else {
                        return Err(ArchiveError::SharedConflict { key: *key });
                    }
                }
                i = i + 1;
            }
            match s.align_to(4) {
                Ok(()) => {},
                Err(e) => {
                    proof {
                        assert(s.bytes@.subrange(0, prior.len() as int) =~= prior);
                    }
                    return Err(e);
                },
            }
            let t = s.pos();
            let ghost aligned = s.bytes@;
            match s.write_u32(*value) {
                Ok(()) => {},
                Err(e) => {
                    proof {
                        assert(s.bytes@.subrange(0, prior.len() as int) =~= prior);
                    }
                    return Err(e);
                },
            }
            proof {
                assert(s.bytes@.subrange(0, aligned.len() as int) =~= aligned);
                lemma_prefix_chain(s.bytes@, aligned, prior.len() as int);
                vstd::bytes::lemma_auto_spec_u32_to_from_le_bytes();
                assert(spec_u32_to_le_bytes(*value).len() == 4);
                assert(s.bytes@.subrange(t as int, t + 4) =~= spec_u32_to_le_bytes(*value));
            }
            let ghost before_push = s.shared@;
            s.shared.push((*key, t, *value));
            proof {
                let sh = s.shared@;
                assert forall|a: int, b: int| 0 <= a < b < sh.len() implies sh[a].0
                    != sh[b].0 by {
                    if b < sh.len() - 1 {
                        assert(before_push[a].0 != before_push[b].0);
                    }
                }
                assert forall|a: int, b: int| 0 <= a < b < sh.len() implies sh[a].1 + 4
                    <= sh[b].1 by {
                    if b < sh.len() - 1 {
                        assert(before_push[a].1 + 4 <= before_push[b].1);
                    }
                }
                assert forall|a: int| 0 <= a < sh.len() implies {
                    &&& sh[a].1 + 4 <= s.bytes@.len()
                    &&& sh[a].1 as int % 4 == 0
                    &&& s.bytes@.subrange(sh[a].1 as int, sh[a].1 + 4) == spec_u32_to_le_bytes(
                        sh[a].2,
                    )
                } by {
                    if a < sh.len() - 1 {
                        let p = sh[a].1 as int;
                        assert(before_push[a].1 + 4 <= prior.len());
                        assert(s.bytes@.subrange(p, p + 4) =~= s.bytes@.subrange(
                            0,
                            prior.len() as int,
                        ).subrange(p, p + 4));
                        assert(prior.subrange(p, p + 4) == spec_u32_to_le_bytes(sh[a].2));
                    } else {
                        assert(sh[a] == (*key, t, *value));
                        assert(s.bytes@.subrange(t as int, t + 4) == spec_u32_to_le_bytes(
                            *value,
                        ));
                    }
                }
                assert(sh[sh.len() - 1] == (*key, t, *value));
                assert(skey_has(sh, *key));
                let w = choose|j: int| 0 <= j < sh.len() && sh[j].0 == *key;
                if w < sh.len() - 1 {
                    assert(before_push[w].0 != *key);
                }
                assert(w == sh.len() - 1);
                assert(skey_pos(sh, *key) == t as int);
                assert(skey_val(sh, *key) == *value);
                vstd::bytes::lemma_auto_spec_u32_to_from_le_bytes();
                assert(spec_u32_to_le_bytes(*value).len() == 4);
                assert(s.bytes@.subrange(0, prior.len() as int) =~= prior);
                assert(s.bytes@.subrange(t as int, t + 4) =~= spec_u32_to_le_bytes(*value));
            }
            Ok(FieldResolver::Pos(t))
        },
        _ => {
            proof {
                assert(s.bytes@.subrange(0, prior.len() as int) =~= prior);
            }
            Ok(FieldResolver::Unit)
        },
    }
}

} // verus!

verus! {

/// Resolves one field: writes its fixed-size representation into the slot
/// at `pos`, turning the resolver's captured payload position into a
/// relative pointer. Resolution is infallible: every fallible step
/// happened during serialization, and the slot was already reserved.
#[verifier::rlimit(100)]
#[verifier::loop_isolation(false)]
pub fn resolve_field(
    d: &FieldDesc,
    v: &FieldValue,
    res: &FieldResolver,
    pos: usize,
    s: &mut Serializer,
)
    requires
        old(s).wf(),
        wf_value(*d, v@),
        pos as int % 4 == 0,
        pos + field_size(*d) <= old(s).bytes@.len(),
        has_payload(*d, v@) ==> (match *res {
            FieldResolver::Unit => false,
            FieldResolver::Pos(t) => {
                &&& t + payload_bytes(*d, v@).len() <= pos
                &&& t as int % payload_align(*d) == 0
                &&& old(s).bytes@.subrange(t as int, t + payload_bytes(*d, v@).len())
                    == payload_bytes(*d, v@)
            },
        }),
        forall|j: int| 0 <= j < old(s).shared@.len() ==> old(s).shared@[j].1 + 4 <= pos,
    ensures
        final(s).wf(),
        final(s).limit == old(s).limit,
        final(s).shared@ == old(s).shared@,
        final(s).bytes@.len() == old(s).bytes@.len(),
        forall|j: int|
            (0 <= j < old(s).bytes@.len() && !(pos <= j < pos + field_size(*d))) ==> final(s).bytes@[j] == old(s).bytes@[j],
        field_encoded(*d, v@, final(s).bytes@, pos as int, res_target(*res)),
{
    let ghost prior = s.bytes@;
    let ghost t_spec = res_target(*res);
    let t: usize = match res {
        FieldResolver::Pos(tv) => *tv,
        FieldResolver::Unit => 0,
    };
    match (d, v) {
        (FieldDesc::U32, FieldValue::U32(x)) => {
            store_u32_at(&mut s.bytes, pos, *x);
            proof {
                assert(header_bytes(*d, v@, pos as int, t_spec) == spec_u32_to_le_bytes(*x));
            }
        },
        (FieldDesc::U64, FieldValue::U64(x)) => {
            store_u64_at(&mut s.bytes, pos, *x);
            proof {
                assert(header_bytes(*d, v@, pos as int, t_spec) == spec_u64_to_le_bytes(*x));
            }
        },
        (FieldDesc::Bool, FieldValue::Bool(b)) => {
            let byte: u8 = if *b {
                1
            } else {
                0
            };
            store_byte_at(&mut s.bytes, pos, byte);
            proof {
                assert(header_bytes(*d, v@, pos as int, t_spec) == seq![byte]);
            }
        },
        (FieldDesc::F32Bits, FieldValue::F32Bits(w)) => {
            store_u32_at(&mut s.bytes, pos, *w);
            proof {
                assert(header_bytes(*d, v@, pos as int, t_spec) == spec_u32_to_le_bytes(*w));
            }
        },
        (FieldDesc::Uuid, FieldValue::Uuid(b)) => {
            store_at(&mut s.bytes, pos, b);
            proof {
                assert(header_bytes(*d, v@, pos as int, t_spec) == b@);
            }
        },
        (FieldDesc::Str, FieldValue::Str(bv)) => {
            let enc = make_rel_ptr(pos, t);
            store_u32_at(&mut s.bytes, pos, enc);
            let ghost mid = s.bytes@;
            store_u32_at(&mut s.bytes, pos + 4, bv.len() as u32);
            proof {
                assert(s.bytes@.subrange(pos as int, pos + 4) =~= mid.subrange(pos as int, pos
                    + 4));
                lemma_two_words(s.bytes@, pos as int, enc, bv.len() as u32);
                assert(header_bytes(*d, v@, pos as int, t_spec) == spec_u32_to_le_bytes(enc)
                    + spec_u32_to_le_bytes(bv.len() as u32));
            }
        },
        (FieldDesc::VecU32, FieldValue::VecU32(xs)) => {
            let enc = make_rel_ptr(pos, t);
            store_u32_at(&mut s.bytes, pos, enc);
            let ghost mid = s.bytes@;
            store_u32_at(&mut s.bytes, pos + 4, xs.len() as u32);
            proof {
                assert(s.bytes@.subrange(pos as int, pos + 4) =~= mid.subrange(pos as int, pos
                    + 4));
                lemma_two_words(s.bytes@, pos as int, enc, xs.len() as u32);
                assert(header_bytes(*d, v@, pos as int, t_spec) == spec_u32_to_le_bytes(enc)
                    + spec_u32_to_le_bytes(xs.len() as u32));
            }
        },
        (FieldDesc::NichedNonZeroU32, FieldValue::NichedNonZeroU32(o)) => {
            let w: u32 = match o {
                Some(x) => *x,
                None => Zero::resolve_niched(),
            };
            store_u32_at(&mut s.bytes, pos, w);
            proof {
                assert(header_bytes(*d, v@, pos as int, t_spec) == spec_u32_to_le_bytes(w));
            }
        },
        (FieldDesc::NichedBool, FieldValue::NichedBool(o)) => {
            let byte: u8 = match o {
                Some(b) => if *b {
                    1
                } else {
                    0
                },
                None => Bool::resolve_niched(),
            };
            store_byte_at(&mut s.bytes, pos, byte);
            proof {
                assert(header_bytes(*d, v@, pos as int, t_spec) == seq![byte]);
            }
        },
        (FieldDesc::NichedF32, FieldValue::NichedF32(o)) => {
            let w: u32 = match o {
                Some(x) => *x,
                None => NaN::resolve_niched(),
            };
            store_u32_at(&mut s.bytes, pos, w);
            proof {
                assert(header_bytes(*d, v@, pos as int, t_spec) == spec_u32_to_le_bytes(w));
            }
        },
        (FieldDesc::BoxU64, FieldValue::BoxU64(_)) => {
            let enc = make_rel_ptr(pos, t);
            store_u32_at(&mut s.bytes, pos, enc);
            proof {
                assert(header_bytes(*d, v@, pos as int, t_spec) == spec_u32_to_le_bytes(enc));
            }
        },
        (FieldDesc::NichedBoxU64, FieldValue::NichedBoxU64(o)) => {
            match o {
                Some(_) => {
                    let enc = make_rel_ptr(pos, t);
                    store_u32_at(&mut s.bytes, pos, enc);
                    proof {
                        assert(header_bytes(*d, v@, pos as int, t_spec) == spec_u32_to_le_bytes(
                            enc,
                        ));
                    }
                },
                None => {
                    store_u32_at(&mut s.bytes, pos, Zero::resolve_niched());
                    proof {
                        assert(header_bytes(*d, v@, pos as int, t_spec) == spec_u32_to_le_bytes(
                            0u32,
                        ));
                    }
                },
            }
        },
        (FieldDesc::SharedU32 { type_id: _ }, FieldValue::SharedU32 { key: _, value: _ }) => {
            let enc = make_rel_ptr(pos, t);
            store_u32_at(&mut s.bytes, pos, enc);
            proof {
                assert(header_bytes(*d, v@, pos as int, t_spec) == spec_u32_to_le_bytes(enc));
            }
        },
        (FieldDesc::NichedNichable { strat }, FieldValue::NichedNichable(o)) => {
            let words: (u32, u32, u32) = match o {
                Some((fw, nz, bv)) => (
                    *fw,
                    *nz,
                    if *bv {
                        1
                    } else {
                        0
                    },
                ),
                None => match strat {
                    crate::desc::NicheStrategy::Zero => (Zero::resolve_niched(), 0, 0),
                    crate::desc::NicheStrategy::NaN => (NaN::resolve_niched(), 0, 0),
                    crate::desc::NicheStrategy::Bool => (0, 0, Bool::resolve_niched() as u32),
                },
            };
            proof {
                assert(words.0 == nichable_float_word(*strat, *o));
                assert(words.1 == nichable_int_word(*o));
                assert(words.2 == nichable_bool_word(*strat, *o));
            }
            store_u32_at(&mut s.bytes, pos, words.0);
            let ghost mid1 = s.bytes@;
            store_u32_at(&mut s.bytes, pos + 4, words.1);
            let ghost mid2 = s.bytes@;
            store_u32_at(&mut s.bytes, pos + 8, words.2);
            proof {
                assert(s.bytes@.subrange(pos as int, pos + 4) =~= mid2.subrange(pos as int, pos
                    + 4));
                assert(mid2.subrange(pos as int, pos + 4) =~= mid1.subrange(pos as int, pos + 4));
                assert(s.bytes@.subrange(pos + 4, pos + 8) =~= mid2.subrange(pos + 4, pos + 8));
                lemma_three_words(s.bytes@, pos as int, words.0, words.1, words.2);
                assert(header_bytes(*d, v@, pos as int, t_spec)
                    == crate::encoding::nichable_bytes(*strat, *o));
                assert(crate::encoding::nichable_bytes(*strat, *o) == spec_u32_to_le_bytes(
                    words.0,
                ) + spec_u32_to_le_bytes(words.1) + spec_u32_to_le_bytes(words.2));
            }
        },
        _ => {
            proof {
                assert(false);
            }
        },
    }
    proof {
        if has_payload(*d, v@) {
            let plen = payload_bytes(*d, v@).len() as int;
            assert(s.bytes@.subrange(t_spec, t_spec + plen) =~= prior.subrange(
                t_spec,
                t_spec + plen,
            ));
        }
        assert forall|i: int| 0 <= i < s.shared@.len() implies {
            &&& s.shared@[i].1 + 4 <= s.bytes@.len()
            &&& s.shared@[i].1 as int % 4 == 0
            &&& s.bytes@.subrange(s.shared@[i].1 as int, s.shared@[i].1 + 4)
                == spec_u32_to_le_bytes(s.shared@[i].2)
        } by {
            let p = s.shared@[i].1 as int;
            assert(s.bytes@.subrange(p, p + 4) =~= prior.subrange(p, p + 4));
        }
        assert(0 <= pos as int);
        assert(pos + field_size(*d) <= s.bytes@.len());
        assert(s.bytes@.subrange(pos as int, pos + field_size(*d)) == header_bytes(
            *d,
            v@,
            pos as int,
            t_spec,
        ));
        if has_payload(*d, v@) {
            let plen = payload_bytes(*d, v@).len() as int;
            assert(0 <= t_spec);
            assert(t_spec + plen <= s.bytes@.len());
            assert(-0x8000_0000 <= t_spec - pos < 0x8000_0000);
            assert(t_spec % payload_align(*d) == 0);
            assert(s.bytes@.subrange(t_spec, t_spec + plen) == payload_bytes(*d, v@));
            if *d is NichedBoxU64 {
                assert(plen == 8) by {
                    vstd::bytes::lemma_auto_spec_u64_to_from_le_bytes();
                }
                assert(t_spec != pos);
            }
        }
        assert(field_encoded(*d, v@, s.bytes@, pos as int, t_spec));
    }
}

} // verus!

verus! {

/// The entry holding `key` is the one `skey_pos` and `skey_val` speak of.
pub proof fn lemma_skey_at(s: Seq<(u64, usize, u32)>, key: u64, i: int)
    requires
        shared_keys_unique(s),
        0 <= i < s.len(),
        s[i].0 == key,
    ensures
        skey_has(s, key),
        skey_pos(s, key) == s[i].1 as int,
        skey_val(s, key) == s[i].2,
{
    assert(skey_has(s, key));
    let w = choose|j: int| 0 <= j < s.len() && s[j].0 == key;
    if w < i {
        assert(s[w].0 != s[i].0);
    } else if w > i {
        assert(s[i].0 != s[w].0);
    }
    assert(w == i);
}

/// Recording a fresh key leaves every earlier key's entry in place.
pub proof fn lemma_skey_push(sh: Seq<(u64, usize, u32)>, e: (u64, usize, u32), key: u64)
    requires
        shared_keys_unique(sh),
        shared_keys_unique(sh.push(e)),
        skey_has(sh, key),
    ensures
        skey_has(sh.push(e), key),
        skey_pos(sh.push(e), key) == skey_pos(sh, key),
        skey_val(sh.push(e), key) == skey_val(sh, key),
{
    let w = choose|j: int| 0 <= j < sh.len() && sh[j].0 == key;
    lemma_skey_at(sh, key, w);
    assert(sh.push(e)[w] == sh[w]);
    lemma_skey_at(sh.push(e), key, w);
}

/// Two different keys are recorded at two different positions.
pub proof fn lemma_skey_distinct(sh: Seq<(u64, usize, u32)>, k1: u64, k2: u64)
    requires
        shared_keys_unique(sh),
        shared_entries_increasing(sh),
        skey_has(sh, k1),
        skey_has(sh, k2),
        k1 != k2,
    ensures
        skey_pos(sh, k1) != skey_pos(sh, k2),
{
    let w1 = choose|j: int| 0 <= j < sh.len() && sh[j].0 == k1;
    let w2 = choose|j: int| 0 <= j < sh.len() && sh[j].0 == k2;
    if w1 == w2 {
        assert(false);
    } else if w1 < w2 {
        assert(sh[w1].1 + 4 <= sh[w2].1);
    } else {
        assert(sh[w2].1 + 4 <= sh[w1].1);
    }
}

} // verus!
