//! Error values for serialization and validation.
//!
//! Validation and serialization use a single pass-through error channel: the
//! first error aborts the pass, and no operation silently recovers from a
//! structural error.

use vstd::prelude::*;

verus! {

/// Errors raised while serializing into or validating an archive buffer.
#[derive(Clone, Copy, Debug, PartialEq, Eq)]
pub enum ArchiveError {
    /// The out-of-line writer ran out of permitted capacity.
    Capacity {
        /// Bytes the failed operation would have needed in all.
        needed: usize,
        /// The writer's fixed capacity limit.
        limit: usize,
    },
    /// A pointer or claimed layout falls outside the buffer or the active
    /// subtree range.
    Bounds {
        /// Base position the offending pointer was resolved from.
        base: usize,
        /// Signed distance that was applied to the base.
        offset: i64,
    },
    /// A computed position fails its required alignment.
    Alignment {
        /// The misaligned position.
        pos: usize,
        /// The alignment that was required.
        align: usize,
    },
    /// A nested claim is not contained in its parent's active range, or a
    /// pop or finish observed claims out of balance.
    RangeDiscipline {
        /// Start of the offending claim.
        start: usize,
        /// End of the offending claim.
        end: usize,
    },
    /// A shared target was registered again under a different type identity.
    TypeConfusion {
        /// Position of the shared target.
        ptr: usize,
        /// Type identifier recorded at the first registration.
        expected: u64,
        /// Type identifier of the conflicting registration.
        found: u64,
    },
    /// A byte holds a pattern the field's type can never produce.
    InvalidValue {
        /// Position of the offending byte.
        pos: usize,
    },
    /// One shared key was serialized twice with different contents.
    SharedConflict {
        /// The deduplication key that was reused.
        key: u64,
    },
    /// A registered implementation carries no byte-checking entry point.
    UnimplementedCheck,
}

/// Errors that can occur when checking the metadata of an archived
/// polymorphic value.
#[derive(Clone, Copy, Debug, PartialEq, Eq)]
pub enum DynMetadataError {
    /// The value carries a type identifier that is not registered.
    InvalidImplId(u64),
    /// The cached vtable does not match the vtable registered for the type
    /// identifier.
    MismatchedCachedVtable {
        /// The type identifier of the value.
        type_id: u64,
        /// The vtable the registry holds for that identifier.
        expected: u64,
        /// The vtable cached in the buffer.
        found: u64,
    },
}

/// Errors that can occur when checking an archived polymorphic value as a
/// whole: its metadata, its registry entry, and its payload bytes.
#[derive(Clone, Copy, Debug, PartialEq, Eq)]
pub enum CheckDynError {
    /// The recovered vtable matches no registered byte-checking entry.
    InvalidMetadata(u64),
    /// The payload bytes failed their check; the inner error is carried in
    /// the uniform representation used across the dynamic boundary.
    CheckBytes(ArchiveError),
}

} // verus!
