//! Relative pointers: offset-encoded references.
//!
//! A relative pointer stores the signed distance from its own position to its
//! target as a fixed-width 32-bit word, so a buffer's internal references are
//! meaningful wherever the buffer is loaded. Dereferencing needs the
//! pointer's own position, never a separately stored base.

use vstd::prelude::*;

verus! {

/// Largest buffer length an archive may have. Keeping every position below
/// this bound keeps all position arithmetic inside the ranges of `usize`,
/// `i64` and the 32-bit pointer width.
pub const MAX_ARCHIVE: usize = 0x1000_0000;

/// The signed distance encoded by a stored relative-pointer word: words
/// below 2^31 mean themselves, the rest mean their value minus 2^32.
pub open spec fn rel_offset(enc: u32) -> int {
    if enc < 0x8000_0000u32 {
        enc as int
    } else {
        enc as int - 0x1_0000_0000
    }
}

/// The position that a relative pointer stored at `pos` refers to.
pub open spec fn rel_target(pos: int, enc: u32) -> int {
    pos + rel_offset(enc)
}

/// The stored word that encodes the distance from `from` to `to`.
pub open spec fn rel_enc(from: int, to: int) -> u32 {
    if to >= from {
        (to - from) as u32
    } else {
        (0x1_0000_0000 - (from - to)) as u32
    }
}

/// Encoding a representable distance and reading it back yields that
/// distance, so `rel_enc` and `rel_target` are inverse to one another.
pub proof fn lemma_rel_enc_target(from: int, to: int)
    requires
        -0x8000_0000 <= to - from < 0x8000_0000,
    ensures
        rel_offset(rel_enc(from, to)) == to - from,
        rel_target(from, rel_enc(from, to)) == to,
{
}

/// Builds the stored word for a pointer at `from` referring to `to`.
pub fn make_rel_ptr(from: usize, to: usize) -> (enc: u32)
    requires
        from <= MAX_ARCHIVE,
        to <= MAX_ARCHIVE,
    ensures
        enc == rel_enc(from as int, to as int),
        rel_target(from as int, enc) == to,
{
    proof {
        lemma_rel_enc_target(from as int, to as int);
    }
    if to >= from {
        (to - from) as u32
    } else {
        let d: u64 = (from - to) as u64;
        (0x1_0000_0000u64 - d) as u32
    }
}

/// Reads the signed distance out of a stored word.
pub fn rel_offset_of(enc: u32) -> (off: i64)
    ensures
        off == rel_offset(enc),
{
    if enc < 0x8000_0000u32 {
        enc as i64
    } else {
        enc as i64 - 0x1_0000_0000i64
    }
}

} // verus!
