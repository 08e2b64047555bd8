//! Checking archived polymorphic values, and the object-safe indirection
//! that drives validation across a dynamic boundary.
//!
//! An archived polymorphic value stores a stable type identifier and an
//! optional cached vtable identifier (zero means "not cached"). Checking
//! it resolves the identifier through the implementation registry — an
//! unknown identifier is a hard error — verifies any cached vtable
//! against the registry, and only then checks the payload bytes with the
//! entry point registered for that vtable.

use vstd::prelude::*;
use crate::errors::{ArchiveError, DynMetadataError, CheckDynError};
use crate::relptr::MAX_ARCHIVE;
use crate::context::ArchiveValidator;
use crate::desc::wf_fields;
use crate::encoding::read_u64;
use crate::check::{read_u64_at, archive_checkable, validate_archive};
use crate::recover::copy_bytes;
use crate::registry::{ImplRegistry, CheckBytesRegistry, CheckBytesDynModel, impls_has, impls_at,
    reg_has, reg_at};

verus! {

/// A context that is object safe and suitable for driving validation of
/// most types through a dynamic boundary: the narrow capability set of
/// the concrete validator, consumable without naming its type.
pub trait DynContext {
    /// The implementor's invariant.
    spec fn dyn_wf(&self) -> bool;

    /// Length of the buffer being validated.
    spec fn dyn_len(&self) -> int;

    /// Start of the active subtree range.
    spec fn dyn_cur_start(&self) -> int;

    /// End of the active subtree range.
    spec fn dyn_cur_end(&self) -> int;

    /// Number of outstanding claims.
    spec fn dyn_depth(&self) -> int;

    /// The registered shared targets: position and type identifier.
    spec fn dyn_shared(&self) -> Seq<(usize, u64)>;

    /// Checks that a relative pointer's target lies within the buffer and
    /// returns it; a target outside the buffer is a bounds error.
    fn bounds_check_ptr_dyn(&mut self, base: usize, offset: i64) -> (r: Result<
        usize,
        ArchiveError,
    >)
        requires
            old(self).dyn_wf(),
            base as int <= old(self).dyn_len(),
            -0x1_0000_0000 <= offset <= 0x1_0000_0000,
        ensures
            final(self).dyn_wf(),
            final(self).dyn_len() == old(self).dyn_len(),
            final(self).dyn_cur_start() == old(self).dyn_cur_start(),
            final(self).dyn_cur_end() == old(self).dyn_cur_end(),
            final(self).dyn_depth() == old(self).dyn_depth(),
            final(self).dyn_shared() == old(self).dyn_shared(),
            match r {
                Ok(t) => 0 <= base as int + offset && base as int + offset <= old(self).dyn_len() && t as int == base as int + offset,
                Err(e) => {
                    &&& !(0 <= base as int + offset && base as int + offset <= old(self).dyn_len())
                    &&& e matches ArchiveError::Bounds { base: b, offset: o } && b == base && o
                        == offset
                },
            },
    ;

    /// Checks that a block's span lies within the buffer, aligned; bounds
    /// are checked first.
    fn bounds_check_layout_dyn(&mut self, addr: usize, layout: &crate::context::Layout) -> (r:
        Result<(), ArchiveError>)
        requires
            old(self).dyn_wf(),
            addr as int <= old(self).dyn_len(),
            layout.wf(),
        ensures
            final(self).dyn_wf(),
            final(self).dyn_len() == old(self).dyn_len(),
            final(self).dyn_cur_start() == old(self).dyn_cur_start(),
            final(self).dyn_cur_end() == old(self).dyn_cur_end(),
            final(self).dyn_depth() == old(self).dyn_depth(),
            final(self).dyn_shared() == old(self).dyn_shared(),
            match r {
                Ok(()) => addr + layout.size <= old(self).dyn_len() && addr as int
                    % layout.align as int == 0,
                Err(e) => match e {
                    ArchiveError::Bounds { .. } => addr + layout.size > old(self).dyn_len(),
                    ArchiveError::Alignment { .. } => addr + layout.size <= old(self).dyn_len()
                        && addr as int % layout.align as int != 0,
                    _ => false,
                },
            },
    ;

    /// Checks that a block's span lies within the active subtree range,
    /// aligned.
    fn bounds_check_subtree_ptr_layout_dyn(
        &mut self,
        addr: usize,
        layout: &crate::context::Layout,
    ) -> (r: Result<(), ArchiveError>)
        requires
            old(self).dyn_wf(),
            addr as int <= old(self).dyn_len(),
            layout.wf(),
        ensures
            final(self).dyn_wf(),
            final(self).dyn_len() == old(self).dyn_len(),
            final(self).dyn_cur_start() == old(self).dyn_cur_start(),
            final(self).dyn_cur_end() == old(self).dyn_cur_end(),
            final(self).dyn_depth() == old(self).dyn_depth(),
            final(self).dyn_shared() == old(self).dyn_shared(),
            match r {
                Ok(()) => old(self).dyn_cur_start() <= addr as int && addr + layout.size <= old(self).dyn_cur_end() && addr as int % layout.align as int == 0,
                Err(e) => match e {
                    ArchiveError::Bounds { .. } => !(old(self).dyn_cur_start() <= addr as int
                        && addr + layout.size <= old(self).dyn_cur_end()),
                    ArchiveError::Alignment { .. } => old(self).dyn_cur_start() <= addr as int
                        && addr + layout.size <= old(self).dyn_cur_end() && addr as int
                        % layout.align as int != 0,
                    _ => false,
                },
            },
    ;

    /// Claims a prefix subtree span: the active range becomes exactly the
    /// claim, and the token restores the bytes below it.
    fn push_prefix_subtree_range_dyn(&mut self, root: usize, end: usize) -> (r: Result<
        crate::context::PrefixRange,
        ArchiveError,
    >)
        requires
            old(self).dyn_wf(),
            root as int <= old(self).dyn_len(),
            end as int <= old(self).dyn_len(),
        ensures
            final(self).dyn_wf(),
            final(self).dyn_len() == old(self).dyn_len(),
            final(self).dyn_shared() == old(self).dyn_shared(),
            match r {
                Ok(tok) => {
                    &&& old(self).dyn_cur_start() <= root as int
                    &&& root as int <= end as int
                    &&& end as int <= old(self).dyn_cur_end()
                    &&& old(self).dyn_depth() < u64::MAX
                    &&& tok.start as int == old(self).dyn_cur_start()
                    &&& tok.end == root
                    &&& final(self).dyn_cur_start() == root as int
                    &&& final(self).dyn_cur_end() == end as int
                    &&& final(self).dyn_depth() == old(self).dyn_depth() + 1
                },
                Err(e) => {
                    &&& !(old(self).dyn_cur_start() <= root as int && root as int <= end as int
                        && end as int <= old(self).dyn_cur_end() && old(self).dyn_depth()
                        < u64::MAX)
                    &&& e matches ArchiveError::RangeDiscipline { .. }
                    &&& final(self).dyn_cur_start() == old(self).dyn_cur_start()
                    &&& final(self).dyn_cur_end() == old(self).dyn_cur_end()
                    &&& final(self).dyn_depth() == old(self).dyn_depth()
                },
            },
    ;

    /// Pops a prefix claim: the active range becomes the token's range.
    /// Popping with no outstanding claim is a range-discipline error.
    fn pop_prefix_range_dyn(&mut self, range: crate::context::PrefixRange) -> (r: Result<
        (),
        ArchiveError,
    >)
        requires
            old(self).dyn_wf(),
            range.start as int <= range.end as int,
            range.end as int <= old(self).dyn_len(),
        ensures
            final(self).dyn_wf(),
            final(self).dyn_len() == old(self).dyn_len(),
            final(self).dyn_shared() == old(self).dyn_shared(),
            match r {
                Ok(()) => {
                    &&& old(self).dyn_depth() >= 1
                    &&& final(self).dyn_cur_start() == range.start as int
                    &&& final(self).dyn_cur_end() == range.end as int
                    &&& final(self).dyn_depth() == old(self).dyn_depth() - 1
                },
                Err(e) => {
                    &&& old(self).dyn_depth() == 0
                    &&& e matches ArchiveError::RangeDiscipline { .. }
                    &&& final(self).dyn_cur_start() == old(self).dyn_cur_start()
                    &&& final(self).dyn_cur_end() == old(self).dyn_cur_end()
                    &&& final(self).dyn_depth() == old(self).dyn_depth()
                },
            },
    ;

    /// Claims a suffix subtree span: the active range becomes exactly the
    /// claim, and the token restores the bytes from its end up.
    fn push_suffix_subtree_range_dyn(&mut self, start: usize, root: usize) -> (r: Result<
        crate::context::SuffixRange,
        ArchiveError,
    >)
        requires
            old(self).dyn_wf(),
            start as int <= old(self).dyn_len(),
            root as int <= old(self).dyn_len(),
        ensures
            final(self).dyn_wf(),
            final(self).dyn_len() == old(self).dyn_len(),
            final(self).dyn_shared() == old(self).dyn_shared(),
            match r {
                Ok(tok) => {
                    &&& old(self).dyn_cur_start() <= start as int
                    &&& start as int <= root as int
                    &&& root as int <= old(self).dyn_cur_end()
                    &&& old(self).dyn_depth() < u64::MAX
                    &&& tok.start == root
                    &&& tok.end as int == old(self).dyn_cur_end()
                    &&& final(self).dyn_cur_start() == start as int
                    &&& final(self).dyn_cur_end() == root as int
                    &&& final(self).dyn_depth() == old(self).dyn_depth() + 1
                },
                Err(e) => {
                    &&& !(old(self).dyn_cur_start() <= start as int && start as int
                        <= root as int && root as int <= old(self).dyn_cur_end() && old(self).dyn_depth() < u64::MAX)
                    &&& e matches ArchiveError::RangeDiscipline { .. }
                    &&& final(self).dyn_cur_start() == old(self).dyn_cur_start()
                    &&& final(self).dyn_cur_end() == old(self).dyn_cur_end()
                    &&& final(self).dyn_depth() == old(self).dyn_depth()
                },
            },
    ;

    /// Pops a suffix claim: the active range becomes the token's range.
    fn pop_suffix_range_dyn(&mut self, range: crate::context::SuffixRange) -> (r: Result<
        (),
        ArchiveError,
    >)
        requires
            old(self).dyn_wf(),
            range.start as int <= range.end as int,
            range.end as int <= old(self).dyn_len(),
        ensures
            final(self).dyn_wf(),
            final(self).dyn_len() == old(self).dyn_len(),
            final(self).dyn_shared() == old(self).dyn_shared(),
            match r {
                Ok(()) => {
                    &&& old(self).dyn_depth() >= 1
                    &&& final(self).dyn_cur_start() == range.start as int
                    &&& final(self).dyn_cur_end() == range.end as int
                    &&& final(self).dyn_depth() == old(self).dyn_depth() - 1
                },
                Err(e) => {
                    &&& old(self).dyn_depth() == 0
                    &&& e matches ArchiveError::RangeDiscipline { .. }
                    &&& final(self).dyn_cur_start() == old(self).dyn_cur_start()
                    &&& final(self).dyn_cur_end() == old(self).dyn_cur_end()
                    &&& final(self).dyn_depth() == old(self).dyn_depth()
                },
            },
    ;

    /// Verifies that all outstanding claims have been returned.
    fn finish_dyn(&mut self) -> (r: Result<(), ArchiveError>)
        requires
            old(self).dyn_wf(),
        ensures
            final(self).dyn_wf(),
            final(self).dyn_len() == old(self).dyn_len(),
            final(self).dyn_cur_start() == old(self).dyn_cur_start(),
            final(self).dyn_cur_end() == old(self).dyn_cur_end(),
            final(self).dyn_depth() == old(self).dyn_depth(),
            final(self).dyn_shared() == old(self).dyn_shared(),
            r is Ok <==> old(self).dyn_depth() == 0,
            r matches Err(e) ==> e matches ArchiveError::RangeDiscipline { .. },
    ;

    /// Registers a shared target under a type identifier: `true` on the
    /// first registration, `false` on a repeat under the same identifier,
    /// and a type-confusion error under a different one.
    fn register_shared_ptr_dyn(&mut self, ptr: usize, type_id: u64) -> (r: Result<
        bool,
        ArchiveError,
    >)
        requires
            old(self).dyn_wf(),
            ptr as int <= old(self).dyn_len(),
        ensures
            final(self).dyn_wf(),
            final(self).dyn_len() == old(self).dyn_len(),
            final(self).dyn_cur_start() == old(self).dyn_cur_start(),
            final(self).dyn_cur_end() == old(self).dyn_cur_end(),
            final(self).dyn_depth() == old(self).dyn_depth(),
            match r {
                Ok(true) => !crate::context::shared_has(old(self).dyn_shared(), ptr) && final(self).dyn_shared() == old(self).dyn_shared().push((ptr, type_id)),
                Ok(false) => crate::context::shared_has(old(self).dyn_shared(), ptr)
                    && crate::context::shared_type_of(old(self).dyn_shared(), ptr) == type_id
                    && final(self).dyn_shared() == old(self).dyn_shared(),
                Err(e) => {
                    &&& crate::context::shared_has(old(self).dyn_shared(), ptr)
                    &&& crate::context::shared_type_of(old(self).dyn_shared(), ptr) != type_id
                    &&& final(self).dyn_shared() == old(self).dyn_shared()
                    &&& e matches ArchiveError::TypeConfusion { ptr: p, expected, found } && p
                        == ptr && expected == crate::context::shared_type_of(
                        old(self).dyn_shared(),
                        ptr,
                    ) && found == type_id
                },
            },
    ;
}

impl DynContext for ArchiveValidator {
    open spec fn dyn_wf(&self) -> bool {
        self.wf()
    }

    open spec fn dyn_len(&self) -> int {
        self.len as int
    }

    open spec fn dyn_cur_start(&self) -> int {
        self.cur_start as int
    }

    open spec fn dyn_cur_end(&self) -> int {
        self.cur_end as int
    }

    open spec fn dyn_depth(&self) -> int {
        self.depth as int
    }

    open spec fn dyn_shared(&self) -> Seq<(usize, u64)> {
        self.shared@
    }

    fn bounds_check_ptr_dyn(&mut self, base: usize, offset: i64) -> (r: Result<
        usize,
        ArchiveError,
    >) {
        self.bounds_check_ptr(base, offset)
    }

    fn bounds_check_layout_dyn(&mut self, addr: usize, layout: &crate::context::Layout) -> (r:
        Result<(), ArchiveError>) {
        self.bounds_check_layout(addr, layout)
    }

    fn bounds_check_subtree_ptr_layout_dyn(
        &mut self,
        addr: usize,
        layout: &crate::context::Layout,
    ) -> (r: Result<(), ArchiveError>) {
        self.bounds_check_subtree_ptr_layout(addr, layout)
    }

    fn push_prefix_subtree_range_dyn(&mut self, root: usize, end: usize) -> (r: Result<
        crate::context::PrefixRange,
        ArchiveError,
    >) {
        self.push_prefix_subtree_range(root, end)
    }

    fn pop_prefix_range_dyn(&mut self, range: crate::context::PrefixRange) -> (r: Result<
        (),
        ArchiveError,
    >) {
        self.pop_prefix_range(range)
    }

    fn push_suffix_subtree_range_dyn(&mut self, start: usize, root: usize) -> (r: Result<
        crate::context::SuffixRange,
        ArchiveError,
    >) {
        self.push_suffix_subtree_range(start, root)
    }

    fn pop_suffix_range_dyn(&mut self, range: crate::context::SuffixRange) -> (r: Result<
        (),
        ArchiveError,
    >) {
        self.pop_suffix_range(range)
    }

    fn finish_dyn(&mut self) -> (r: Result<(), ArchiveError>) {
        self.finish()
    }

    fn register_shared_ptr_dyn(&mut self, ptr: usize, type_id: u64) -> (r: Result<
        bool,
        ArchiveError,
    >) {
        self.register_shared_ptr(ptr, type_id)
    }
}

/// Bytes a dyn value's metadata occupies: type identifier and cached
/// vtable word.
pub const DYN_METADATA_SIZE: usize = 16;

/// Checks an archived dyn value's metadata at `pos`: the type identifier
/// must be registered, and a non-zero cached vtable must equal the
/// registered one (zero means "not yet cached, trust the registry"). On
/// success returns the registered vtable identifier.
pub fn check_dyn_metadata(buf: &Vec<u8>, pos: usize, impls: &ImplRegistry) -> (r: Result<
    u64,
    DynMetadataError,
>)
    requires
        pos + DYN_METADATA_SIZE <= buf@.len(),
        impls.wf(),
    ensures
        match r {
            Ok(vt) => {
                &&& impls_has(impls.entries@, read_u64(buf@, pos as int))
                &&& vt == impls_at(impls.entries@, read_u64(buf@, pos as int))
                &&& (read_u64(buf@, pos as int + 8) == 0 || read_u64(buf@, pos as int + 8) == vt)
            },
            Err(e) => match e {
                DynMetadataError::InvalidImplId(id) => id == read_u64(buf@, pos as int)
                    && !impls_has(impls.entries@, id),
                DynMetadataError::MismatchedCachedVtable { type_id, expected, found } => {
                    &&& type_id == read_u64(buf@, pos as int)
                    &&& impls_has(impls.entries@, type_id)
                    &&& expected == impls_at(impls.entries@, type_id)
                    &&& found == read_u64(buf@, pos as int + 8)
                    &&& found != 0
                    &&& found != expected
                },
            },
        },
{
    let total = buf.len();
    proof {
        assert(pos + 16 <= total);
    }
    let type_id = read_u64_at(buf, pos);
    let cached_vtable = read_u64_at(buf, pos + 8);
    match impls.get(type_id) {
        None => Err(DynMetadataError::InvalidImplId(type_id)),
        Some(vt) => {
            if cached_vtable == 0 || cached_vtable == vt {
                Ok(vt)
            } else {
                Err(
                    DynMetadataError::MismatchedCachedVtable {
                        type_id,
                        expected: vt,
                        found: cached_vtable,
                    },
                )
            }
        },
    }
}

/// The condition under which a whole archived dyn value is accepted:
/// the buffer is long enough for its metadata, the type identifier
/// resolves through the implementation registry, any cached vtable
/// matches the registered one, a checkable entry is registered for that
/// vtable, and the payload archive validates against the entry's record
/// descriptor.
pub open spec fn dyn_value_ok(
    buf: Seq<u8>,
    impls: Seq<(u64, u64)>,
    checks: Seq<(u64, crate::registry::ImplValidation)>,
) -> bool {
    let root = buf.len() - DYN_METADATA_SIZE as int;
    let type_id = read_u64(buf, root);
    let cached = read_u64(buf, root + 8);
    let vt = impls_at(impls, type_id);
    &&& buf.len() >= DYN_METADATA_SIZE
    &&& impls_has(impls, type_id)
    &&& (cached == 0 || cached == vt)
    &&& reg_has(checks, vt)
    &&& (reg_at(checks, vt).1 matches CheckBytesDynModel::Checkable(fs) && wf_fields(fs)
        && archive_checkable(fs, buf.subrange(0, root)))
}

/// Checks a whole archived dyn value: the buffer's last sixteen bytes are
/// its metadata, the rest is its payload archive. Returns `Ok` exactly
/// when [`dyn_value_ok`] holds: the metadata resolves through the
/// implementation registry, the vtable has a registered, implemented
/// byte-checking entry, and the payload validates against the entry's
/// record descriptor. An unresolvable identifier is rejected before any
/// vtable is used; other errors cross the boundary in the uniform tagged
/// representation.
pub fn check_archived_dyn(
    buf: &Vec<u8>,
    impls: &ImplRegistry,
    checks: &CheckBytesRegistry,
) -> (r: Result<(), CheckDynError>)
    requires
        impls.wf(),
        checks.wf(),
        buf@.len() <= MAX_ARCHIVE,
    ensures
        r is Ok <==> dyn_value_ok(buf@, impls.entries@, checks.vtable_to_check_bytes@),
        match r {
            Ok(()) => true,
            Err(e) => {
                let root = buf@.len() - DYN_METADATA_SIZE as int;
                let type_id = read_u64(buf@, root);
                let cached = read_u64(buf@, root + 8);
                let vt = impls_at(impls.entries@, type_id);
                match e {
                    CheckDynError::InvalidMetadata(id) => buf@.len() >= DYN_METADATA_SIZE && (
                    (!impls_has(impls.entries@, type_id) && id == type_id) || (impls_has(
                        impls.entries@,
                        type_id,
                    ) && (cached == 0 || cached == vt) && !reg_has(
                        checks.vtable_to_check_bytes@,
                        vt,
                    ) && id == vt)),
                    CheckDynError::CheckBytes(_) => buf@.len() < DYN_METADATA_SIZE || (cached != 0
                        && cached != vt) || (reg_at(checks.vtable_to_check_bytes@, vt).1 is
                        Unimplemented) || (reg_at(checks.vtable_to_check_bytes@, vt).1 matches
                        CheckBytesDynModel::Checkable(fs) && (!wf_fields(fs) || !archive_checkable(
                        fs,
                        buf@.subrange(0, root),
                    ))),
                }
            },
        },
{
    let len = buf.len();
    if len < DYN_METADATA_SIZE {
        return Err(
            CheckDynError::CheckBytes(
                ArchiveError::Bounds { base: len, offset: DYN_METADATA_SIZE as i64 },
            ),
        );
    }
    let root = len - DYN_METADATA_SIZE;
    let vt = match check_dyn_metadata(buf, root, impls) {
        Ok(vt) => vt,
        Err(DynMetadataError::InvalidImplId(id)) => {
            return Err(CheckDynError::InvalidMetadata(id));
        },
        Err(DynMetadataError::MismatchedCachedVtable { type_id: _, expected, found }) => {
            return Err(
                CheckDynError::CheckBytes(
                    ArchiveError::TypeConfusion { ptr: root, expected, found },
                ),
            );
        },
    };
    let validation = match checks.get(vt) {
        Some(v) => v,
        None => {
            return Err(CheckDynError::InvalidMetadata(vt));
        },
    };
    match &validation.check_bytes_dyn {
        crate::registry::CheckBytesDyn::Unimplemented => Err(
            CheckDynError::CheckBytes(ArchiveError::UnimplementedCheck),
        ),
        crate::registry::CheckBytesDyn::Checkable(fs) => {
            if fs.len() > crate::desc::MAX_FIELDS {
                return Err(
                    CheckDynError::CheckBytes(
                        ArchiveError::Capacity { needed: fs.len(), limit: crate::desc::MAX_FIELDS },
                    ),
                );
            }
            let payload = copy_bytes(buf, 0, root);
            match validate_archive(fs, &payload) {
                Ok(()) => Ok(()),
                Err(e) => Err(CheckDynError::CheckBytes(e)),
            }
        },
    }
}

} // verus!
