//! The bounds- and layout-validating traversal context.
//!
//! A validator walks an archived buffer's declared structure without ever
//! trusting an embedded offset until it is checked. It keeps one active
//! subtree range; claiming a nested structure's span shrinks the active
//! range to exactly that span, and popping the returned token restores the
//! prior boundary so that sibling claims can never overlap:
//!
//! - a *prefix* claim `[root, end)` hands back the bytes below `root`, so
//!   later claims move downward through the buffer;
//! - a *suffix* claim `[start, root)` hands back the bytes from `root` up,
//!   so later claims move upward.
//!
//! Shared targets are registered once per position together with a type
//! identifier; a second registration under a different identifier is a
//! type-confusion error, never a silent re-check.

use vstd::prelude::*;
use crate::errors::ArchiveError;
use crate::relptr::MAX_ARCHIVE;

verus! {

/// A size and alignment requirement for a block of archived bytes.
#[derive(Clone, Copy, Debug, PartialEq, Eq)]
pub struct Layout {
    /// Number of bytes the block occupies.
    pub size: usize,
    /// Alignment its first byte must satisfy.
    pub align: usize,
}

impl Layout {
    /// A layout the validator accepts: a power-of-two alignment up to 16 and
    /// a size no larger than any archive can be.
    pub open spec fn wf(self) -> bool {
        &&& (self.align == 1 || self.align == 2 || self.align == 4 || self.align == 8
            || self.align == 16)
        &&& self.size <= MAX_ARCHIVE
    }
}

/// Token returned by a prefix claim: the range to restore when the claimed
/// subtree has been fully validated.
pub struct PrefixRange {
    /// Start of the range to restore.
    pub start: usize,
    /// End of the range to restore (the claimed subtree's first byte).
    pub end: usize,
}

/// Token returned by a suffix claim: the range to restore when the claimed
/// subtree has been fully validated.
pub struct SuffixRange {
    /// Start of the range to restore (just past the claimed subtree).
    pub start: usize,
    /// End of the range to restore.
    pub end: usize,
}

/// True when some registered entry records `ptr`.
pub open spec fn shared_has(s: Seq<(usize, u64)>, ptr: usize) -> bool {
    exists|j: int| 0 <= j < s.len() && s[j].0 == ptr
}

/// The type identifier registered for `ptr` (meaningful when `shared_has`
/// holds and the entries' positions are unique).
pub open spec fn shared_type_of(s: Seq<(usize, u64)>, ptr: usize) -> u64 {
    let j = choose|j: int| 0 <= j < s.len() && s[j].0 == ptr;
    s[j].1
}

/// True when no position is registered twice.
pub open spec fn unique_ptrs(s: Seq<(usize, u64)>) -> bool {
    forall|i: int, j: int| 0 <= i < j < s.len() ==> s[i].0 != s[j].0
}

/// The validation context for one archive buffer: its extent, the active
/// subtree range, the number of outstanding claims, and the registered
/// shared targets.
pub struct ArchiveValidator {
    /// Length of the buffer being validated.
    pub len: usize,
    /// Start of the active subtree range.
    pub cur_start: usize,
    /// End of the active subtree range.
    pub cur_end: usize,
    /// Number of claims pushed and not yet popped.
    pub depth: u64,
    /// Registered shared targets: position and type identifier.
    pub shared: Vec<(usize, u64)>,
}

impl ArchiveValidator {
    /// The validator's invariant: the active range lies inside the buffer
    /// and no shared position is registered twice.
    pub open spec fn wf(self) -> bool {
        &&& self.len <= MAX_ARCHIVE
        &&& self.cur_start <= self.cur_end <= self.len
        &&& unique_ptrs(self.shared@)
    }

    /// A fresh validator for a buffer of `len` bytes: the whole buffer is
    /// the active range, nothing is claimed, nothing is registered.
    pub fn new(len: usize) -> (v: ArchiveValidator)
        requires
            len <= MAX_ARCHIVE,
        ensures
            v.wf(),
            v.len == len,
            v.cur_start == 0,
            v.cur_end == len,
            v.depth == 0,
            v.shared@ =~= Seq::<(usize, u64)>::empty(),
    {
        ArchiveValidator { len, cur_start: 0, cur_end: len, depth: 0, shared: Vec::new() }
    }

    /// Checks that a relative pointer's target lies within the buffer and
    /// returns the target position; a target outside the buffer is a bounds
    /// error.
    pub fn bounds_check_ptr(&mut self, base: usize, offset: i64) -> (r: Result<
        usize,
        ArchiveError,
    >)
        requires
            old(self).wf(),
            base <= old(self).len,
            -0x1_0000_0000 <= offset <= 0x1_0000_0000,
        ensures
            *final(self) == *old(self),
            match r {
                Ok(t) => 0 <= base as int + offset && base as int + offset <= old(self).len
                    && t == base as int + offset,
                Err(e) => {
                    &&& !(0 <= base as int + offset && base as int + offset <= old(self).len)
                    &&& e matches ArchiveError::Bounds { base: b, offset: o } && b == base && o
                        == offset
                },
            },
    {
        let t: i64 = base as i64 + offset;
        if t < 0 || t > self.len as i64 {
            Err(ArchiveError::Bounds { base, offset })
        } else {
            Ok(t as usize)
        }
    }

    /// Checks that `addr .. addr + layout.size` lies within the buffer and
    /// that `addr` satisfies the alignment; bounds are checked first.
    pub fn bounds_check_layout(&mut self, addr: usize, layout: &Layout) -> (r: Result<
        (),
        ArchiveError,
    >)
        requires
            old(self).wf(),
            addr <= old(self).len,
            layout.wf(),
        ensures
            *final(self) == *old(self),
            match r {
                Ok(()) => addr + layout.size <= old(self).len && addr as int % layout.align as int
                    == 0,
                Err(e) => match e {
                    ArchiveError::Bounds { base, offset } => addr + layout.size > old(self).len
                        && base == addr && offset == layout.size as i64,
                    ArchiveError::Alignment { pos, align } => addr + layout.size <= old(self).len
                        && addr as int % layout.align as int != 0 && pos == addr && align
                        == layout.align,
                    _ => false,
                },
            },
    {
        if layout.size > self.len - addr {
            Err(ArchiveError::Bounds { base: addr, offset: layout.size as i64 })
        } else if addr % layout.align != 0 {
            Err(ArchiveError::Alignment { pos: addr, align: layout.align })
        } else {
            Ok(())
        }
    }

    /// Checks that `addr .. addr + layout.size` lies within the active
    /// subtree range and that `addr` satisfies the alignment.
    pub fn bounds_check_subtree_ptr_layout(&mut self, addr: usize, layout: &Layout) -> (r: Result<
        (),
        ArchiveError,
    >)
        requires
            old(self).wf(),
            addr <= old(self).len,
            layout.wf(),
        ensures
            *final(self) == *old(self),
            match r {
                Ok(()) => old(self).cur_start <= addr && addr + layout.size <= old(self).cur_end
                    && addr as int % layout.align as int == 0,
                Err(e) => match e {
                    ArchiveError::Bounds { base, offset } => !(old(self).cur_start <= addr && addr
                        + layout.size <= old(self).cur_end) && base == addr && offset
                        == layout.size as i64,
                    ArchiveError::Alignment { pos, align } => old(self).cur_start <= addr && addr
                        + layout.size <= old(self).cur_end && addr as int % layout.align as int
                        != 0 && pos == addr && align == layout.align,
                    _ => false,
                },
            },
    {
        if addr < self.cur_start || addr > self.cur_end || layout.size > self.cur_end - addr {
            Err(ArchiveError::Bounds { base: addr, offset: layout.size as i64 })
        } else if addr % layout.align != 0 {
            Err(ArchiveError::Alignment { pos: addr, align: layout.align })
        } else {
            Ok(())
        }
    }

    /// Claims the span `[root, end)` as a prefix subtree: the claim must lie
    /// within the active range; the active range becomes exactly the claim,
    /// and the returned token restores the bytes below `root`.
    pub fn push_prefix_subtree_range(&mut self, root: usize, end: usize) -> (r: Result<
        PrefixRange,
        ArchiveError,
    >)
        requires
            old(self).wf(),
            root <= old(self).len,
            end <= old(self).len,
        ensures
            final(self).len == old(self).len,
            final(self).shared@ == old(self).shared@,
            final(self).wf(),
            match r {
                Ok(tok) => {
                    &&& old(self).cur_start <= root <= end <= old(self).cur_end
                    &&& old(self).depth < u64::MAX
                    &&& tok.start == old(self).cur_start
                    &&& tok.end == root
                    &&& final(self).cur_start == root
                    &&& final(self).cur_end == end
                    &&& final(self).depth == old(self).depth + 1
                },
                Err(e) => {
                    &&& !(old(self).cur_start <= root <= end <= old(self).cur_end && old(
                        self,
                    ).depth < u64::MAX)
                    &&& e matches ArchiveError::RangeDiscipline { start: s, end: e2 } && s == root
                        && e2 == end
                    &&& *final(self) == *old(self)
                },
            },
    {
        if root <= end && self.cur_start <= root && end <= self.cur_end && self.depth < u64::MAX {
            let tok = PrefixRange { start: self.cur_start, end: root };
            self.cur_start = root;
            self.cur_end = end;
            self.depth = self.depth + 1;
            Ok(tok)
        } else {
            Err(ArchiveError::RangeDiscipline { start: root, end })
        }
    }

    /// Pops a prefix claim: the active range becomes the token's range, the
    /// bytes below the claimed subtree. Popping with no outstanding claim is
    /// a range-discipline error.
    pub fn pop_prefix_range(&mut self, range: PrefixRange) -> (r: Result<(), ArchiveError>)
        requires
            old(self).wf(),
            range.start <= range.end <= old(self).len,
        ensures
            final(self).len == old(self).len,
            final(self).shared@ == old(self).shared@,
            final(self).wf(),
            match r {
                Ok(()) => {
                    &&& old(self).depth >= 1
                    &&& final(self).cur_start == range.start
                    &&& final(self).cur_end == range.end
                    &&& final(self).depth == old(self).depth - 1
                },
                Err(e) => {
                    &&& old(self).depth == 0
                    &&& e matches ArchiveError::RangeDiscipline { .. }
                    &&& *final(self) == *old(self)
                },
            },
    {
        if self.depth >= 1 {
            self.cur_start = range.start;
            self.cur_end = range.end;
            self.depth = self.depth - 1;
            Ok(())
        } else {
            Err(ArchiveError::RangeDiscipline { start: range.start, end: range.end })
        }
    }

    /// Claims the span `[start, root)` as a suffix subtree: the claim must
    /// lie within the active range; the active range becomes exactly the
    /// claim, and the returned token restores the bytes from `root` up.
    pub fn push_suffix_subtree_range(&mut self, start: usize, root: usize) -> (r: Result<
        SuffixRange,
        ArchiveError,
    >)
        requires
            old(self).wf(),
            start <= old(self).len,
            root <= old(self).len,
        ensures
            final(self).len == old(self).len,
            final(self).shared@ == old(self).shared@,
            final(self).wf(),
            match r {
                Ok(tok) => {
                    &&& old(self).cur_start <= start <= root <= old(self).cur_end
                    &&& old(self).depth < u64::MAX
                    &&& tok.start == root
                    &&& tok.end == old(self).cur_end
                    &&& final(self).cur_start == start
                    &&& final(self).cur_end == root
                    &&& final(self).depth == old(self).depth + 1
                },
                Err(e) => {
                    &&& !(old(self).cur_start <= start <= root <= old(self).cur_end && old(
                        self,
                    ).depth < u64::MAX)
                    &&& e matches ArchiveError::RangeDiscipline { start: s, end: e2 } && s == start
                        && e2 == root
                    &&& *final(self) == *old(self)
                },
            },
    {
        if start <= root && self.cur_start <= start && root <= self.cur_end && self.depth
            < u64::MAX {
            let tok = SuffixRange { start: root, end: self.cur_end };
            self.cur_start = start;
            self.cur_end = root;
            self.depth = self.depth + 1;
            Ok(tok)
        } else {
            Err(ArchiveError::RangeDiscipline { start, end: root })
        }
    }

    /// Pops a suffix claim: the active range becomes the token's range, the
    /// bytes from the claimed subtree's end up.
    pub fn pop_suffix_range(&mut self, range: SuffixRange) -> (r: Result<(), ArchiveError>)
        requires
            old(self).wf(),
            range.start <= range.end <= old(self).len,
        ensures
            final(self).len == old(self).len,
            final(self).shared@ == old(self).shared@,
            final(self).wf(),
            match r {
                Ok(()) => {
                    &&& old(self).depth >= 1
                    &&& final(self).cur_start == range.start
                    &&& final(self).cur_end == range.end
                    &&& final(self).depth == old(self).depth - 1
                },
                Err(e) => {
                    &&& old(self).depth == 0
                    &&& e matches ArchiveError::RangeDiscipline { .. }
                    &&& *final(self) == *old(self)
                },
            },
    {
        if self.depth >= 1 {
            self.cur_start = range.start;
            self.cur_end = range.end;
            self.depth = self.depth - 1;
            Ok(())
        } else {
            Err(ArchiveError::RangeDiscipline { start: range.start, end: range.end })
        }
    }

    /// Verifies that every claim has been returned: a residue indicates a
    /// validator bug, not a malformed buffer.
    pub fn finish(&mut self) -> (r: Result<(), ArchiveError>)
        requires
            old(self).wf(),
        ensures
            *final(self) == *old(self),
            match r {
                Ok(()) => old(self).depth == 0,
                Err(e) => old(self).depth != 0 && e matches ArchiveError::RangeDiscipline { .. },
            },
    {
        if self.depth == 0 {
            Ok(())
        } else {
            Err(ArchiveError::RangeDiscipline { start: self.cur_start, end: self.cur_end })
        }
    }

    /// Registers `ptr` as a shared target with the given type identifier.
    /// Returns `true` on the first registration, `false` when `ptr` is
    /// already registered under the same identifier, and a type-confusion
    /// error when it is registered under a different one.
    pub fn register_shared_ptr(&mut self, ptr: usize, type_id: u64) -> (r: Result<
        bool,
        ArchiveError,
    >)
        requires
            old(self).wf(),
            ptr <= old(self).len,
        ensures
            final(self).len == old(self).len,
            final(self).cur_start == old(self).cur_start,
            final(self).cur_end == old(self).cur_end,
            final(self).depth == old(self).depth,
            final(self).wf(),
            match r {
                Ok(true) => !shared_has(old(self).shared@, ptr) && final(self).shared@ == old(
                    self,
                ).shared@.push((ptr, type_id)),
                Ok(false) => shared_has(old(self).shared@, ptr) && shared_type_of(
                    old(self).shared@,
                    ptr,
                ) == type_id && final(self).shared@ == old(self).shared@,
                Err(e) => {
                    &&& shared_has(old(self).shared@, ptr)
                    &&& shared_type_of(old(self).shared@, ptr) != type_id
                    &&& final(self).shared@ == old(self).shared@
                    &&& e matches ArchiveError::TypeConfusion { ptr: p, expected, found } && p
                        == ptr && expected == shared_type_of(old(self).shared@, ptr) && found
                        == type_id
                },
            },
    {
        let n: usize = self.shared.len();
        let mut i: usize = 0;
        while i < n
            invariant
                n == self.shared@.len(),
                0 <= i <= n,
                forall|j: int| 0 <= j < i ==> self.shared@[j].0 != ptr,
                self.shared@ == old(self).shared@,
                self.len == old(self).len,
                self.cur_start == old(self).cur_start,
                self.cur_end == old(self).cur_end,
                self.depth == old(self).depth,
                self.wf(),
                ptr <= self.len,
            decreases n - i,
        {
            let entry: (usize, u64) = self.shared[i];
            if entry.0 == ptr {
                proof {
                    let s = self.shared@;
                    assert(unique_ptrs(s));
                    assert(s[i as int].0 == ptr);
                    assert(shared_has(s, ptr));
                    let w = choose|j: int| 0 <= j < s.len() && s[j].0 == ptr;
                    if w < i as int {
                        assert(s[w].0 != s[i as int].0);
                    } else if w > i as int {
                        assert(s[i as int].0 != s[w].0);
                    }
                    assert(w == i as int);
                    assert(shared_type_of(s, ptr) == s[i as int].1);
                }
                if entry.1 == type_id {
                    return Ok(false);
                } else {
                    return Err(
                        ArchiveError::TypeConfusion { ptr, expected: entry.1, found: type_id },
                    );
                }
            }
            i = i + 1;
        }
        self.shared.push((ptr, type_id));
        proof {
            assert forall|a: int, b: int|
                0 <= a < b < self.shared@.len() implies self.shared@[a].0
                != self.shared@[b].0 by {
                if b < self.shared@.len() - 1 {
                    assert(old(self).shared@[a].0 != old(self).shared@[b].0);
                }
            }
        }
        Ok(true)
    }
}

} // verus!
