//! End-to-end tests of the archive core: the two-phase serializer, the
//! validating context, niching, shared pointers and the dynamic registry.

use zarc::desc::{FieldDesc, FieldValue, NicheStrategy};
use zarc::errors::{ArchiveError, CheckDynError};
use zarc::archive::serialize_then_resolve;
use zarc::check::{validate_archive, read_u32_at};
use zarc::recover::view_str;
use zarc::recover::recover_record;
use zarc::context::{ArchiveValidator, Layout};
use zarc::registry::{CheckBytesRegistry, CheckBytesEntry, CheckBytesDyn, ImplRegistry,
    IsCheckBytesDyn, NotCheckBytesDyn, OpaquePayload};
use zarc::dyncheck::check_dyn_metadata;
use zarc::dyncheck::check_archived_dyn;

/// The example scenario: a two-field record, validated, viewed, then
/// corrupted and rejected with a bounds error.
#[test]
fn two_field_record_scenario() {
    let fields = vec![FieldDesc::U32, FieldDesc::Str];
    let vals = vec![FieldValue::U32(10), FieldValue::Str(b"hello".to_vec())];
    let (mut buf, root) = serialize_then_resolve(&fields, &vals, 1024).unwrap();
    assert_eq!(root + 12, buf.len());
    assert!(validate_archive(&fields, &buf).is_ok());

    // view in place: field `a` at the root, field `b` through its
    // relative pointer, no copy for either
    assert_eq!(read_u32_at(&buf, root), 10);
    assert_eq!(view_str(&buf, root + 4), b"hello");
    let recovered = recover_record(&fields, &buf);
    assert_eq!(recovered[0], FieldValue::U32(10));
    assert_eq!(recovered[1], FieldValue::Str(b"hello".to_vec()));

    // corrupt the string's relative-pointer offset to point far outside
    buf[root + 4] = 0xff;
    buf[root + 5] = 0xff;
    buf[root + 6] = 0xff;
    buf[root + 7] = 0x00;
    match validate_archive(&fields, &buf) {
        Err(ArchiveError::Bounds { .. }) => {}
        other => panic!("expected a bounds error, got {:?}", other),
    }
}

/// Repeated views of the same bytes produce equal results and leave the
/// buffer unchanged.
#[test]
fn view_stability() {
    let fields = vec![FieldDesc::U32, FieldDesc::Str];
    let vals = vec![FieldValue::U32(7), FieldValue::Str(b"abc".to_vec())];
    let (buf, _root) = serialize_then_resolve(&fields, &vals, 1024).unwrap();
    let snapshot = buf.clone();
    let first = recover_record(&fields, &buf);
    let second = recover_record(&fields, &buf);
    assert_eq!(first, second);
    assert_eq!(buf, snapshot);
}

/// Niche correctness: absence is exactly the sentinel pattern, presence
/// never is.
#[test]
fn niche_sentinels_exact() {
    // zero niche for non-zero integers
    let fields = vec![FieldDesc::NichedNonZeroU32];
    let (buf, root) = serialize_then_resolve(
        &fields,
        &vec![FieldValue::NichedNonZeroU32(None)],
        64,
    )
    .unwrap();
    assert_eq!(&buf[root..root + 4], &[0, 0, 0, 0]);
    let (buf, root) =
        serialize_then_resolve(&fields, &vec![FieldValue::NichedNonZeroU32(Some(5))], 64).unwrap();
    assert_ne!(&buf[root..root + 4], &[0, 0, 0, 0]);

    // boolean niche
    let fields = vec![FieldDesc::NichedBool];
    let (buf, root) =
        serialize_then_resolve(&fields, &vec![FieldValue::NichedBool(None)], 64).unwrap();
    assert_eq!(buf[root], 2);
    for b in [false, true] {
        let (buf, root) =
            serialize_then_resolve(&fields, &vec![FieldValue::NichedBool(Some(b))], 64).unwrap();
        assert!(buf[root] <= 1);
    }

    // NaN niche: absence is the canonical quiet NaN's bit pattern
    let fields = vec![FieldDesc::NichedF32];
    let (buf, root) =
        serialize_then_resolve(&fields, &vec![FieldValue::NichedF32(None)], 64).unwrap();
    let word = u32::from_le_bytes([buf[root], buf[root + 1], buf[root + 2], buf[root + 3]]);
    assert!(f32::from_bits(word).is_nan());
    assert_eq!(word, 0x7fc0_0000);
    let present = 1.5f32.to_bits();
    let (buf, root) =
        serialize_then_resolve(&fields, &vec![FieldValue::NichedF32(Some(present))], 64).unwrap();
    let word = u32::from_le_bytes([buf[root], buf[root + 1], buf[root + 2], buf[root + 3]]);
    assert!(!f32::from_bits(word).is_nan());
}

/// Shared-pointer deduplication: two references to one allocation
/// serialize one target, validation registers it once, and re-registering
/// the same address under a different type identity is rejected.
#[test]
fn shared_pointer_dedup() {
    let fields = vec![
        FieldDesc::SharedU32 { type_id: 7 },
        FieldDesc::SharedU32 { type_id: 7 },
    ];
    let vals = vec![
        FieldValue::SharedU32 { key: 99, value: 42 },
        FieldValue::SharedU32 { key: 99, value: 42 },
    ];
    let (buf, root) = serialize_then_resolve(&fields, &vals, 256).unwrap();
    // one shared payload plus the eight-byte root record
    assert_eq!(buf.len(), root + 8);
    assert_eq!(root, 4);
    assert!(validate_archive(&fields, &buf).is_ok());
    let recovered = recover_record(&fields, &buf);
    for v in &recovered {
        match v {
            FieldValue::SharedU32 { value, .. } => assert_eq!(*value, 42),
            other => panic!("expected a shared value, got {:?}", other),
        }
    }

    // the same buffer, declared with two different type identities for
    // the one shared target, is type confusion
    let confused = vec![
        FieldDesc::SharedU32 { type_id: 7 },
        FieldDesc::SharedU32 { type_id: 8 },
    ];
    match validate_archive(&confused, &buf) {
        Err(ArchiveError::TypeConfusion { expected, found, .. }) => {
            assert_eq!(expected, 7);
            assert_eq!(found, 8);
        }
        other => panic!("expected type confusion, got {:?}", other),
    }

    // one key serialized twice with different contents is a conflict
    let conflict = vec![
        FieldValue::SharedU32 { key: 99, value: 42 },
        FieldValue::SharedU32 { key: 99, value: 43 },
    ];
    match serialize_then_resolve(&fields, &conflict, 256) {
        Err(ArchiveError::SharedConflict { key }) => assert_eq!(key, 99),
        other => panic!("expected a shared conflict, got {:?}", other),
    }
}

/// The validator's range discipline: a claim outside the active range is
/// refused, a pop restores the prior boundary, and finish demands
/// balance.
#[test]
fn range_discipline() {
    let mut ctx = ArchiveValidator::new(100);
    let tok = ctx.push_prefix_subtree_range(50, 60).unwrap();
    // the active range is now exactly the claim; a sibling span above it
    // is refused
    assert!(matches!(
        ctx.push_prefix_subtree_range(70, 80),
        Err(ArchiveError::RangeDiscipline { .. })
    ));
    assert!(matches!(ctx.finish(), Err(ArchiveError::RangeDiscipline { .. })));
    ctx.pop_prefix_range(tok).unwrap();
    // after the pop only the bytes below the claim remain claimable
    assert!(matches!(
        ctx.push_prefix_subtree_range(55, 58),
        Err(ArchiveError::RangeDiscipline { .. })
    ));
    let tok2 = ctx.push_prefix_subtree_range(10, 40).unwrap();
    ctx.pop_prefix_range(tok2).unwrap();
    assert!(ctx.finish().is_ok());

    // shared registration: once per target, type confusion on a second
    // identity
    assert_eq!(ctx.register_shared_ptr(30, 1).unwrap(), true);
    assert_eq!(ctx.register_shared_ptr(30, 1).unwrap(), false);
    assert!(matches!(
        ctx.register_shared_ptr(30, 2),
        Err(ArchiveError::TypeConfusion { .. })
    ));
}

/// A writer that runs out of capacity reports it rather than truncating.
#[test]
fn capacity_error_surfaces() {
    let fields = vec![FieldDesc::Str];
    let vals = vec![FieldValue::Str(vec![7u8; 64])];
    match serialize_then_resolve(&fields, &vals, 16) {
        Err(ArchiveError::Capacity { .. }) => {}
        other => panic!("expected a capacity error, got {:?}", other),
    }
}

/// Dynamic dispatch: a registered implementation validates and resolves
/// to its registered vtable; an unregistered or forged identifier is
/// rejected before any vtable is used; a stale cached vtable is rejected.
#[test]
fn dynamic_registry_checks() {
    let mut impls = ImplRegistry::new();
    assert!(impls.register_impl(11, 0xAA));
    assert!(!impls.register_impl(11, 0xBB));
    assert_eq!(impls.get(11), Some(0xAA));
    assert_eq!(impls.get(12), None);

    let mut checks = CheckBytesRegistry::new();
    let is_dyn = IsCheckBytesDyn { desc: vec![FieldDesc::U32] };
    let entry = CheckBytesEntry::new(0xAA, Layout { size: 4, align: 4 }, is_dyn.check_bytes_dyn());
    assert!(checks.add_entry(entry));
    assert!(checks.get(0xAA).is_some());
    assert!(checks.get(0xBB).is_none());

    // a payload archive with the metadata appended: type id 11, no cache
    let payload_fields = vec![FieldDesc::U32];
    let (payload, _root) =
        serialize_then_resolve(&payload_fields, &vec![FieldValue::U32(5)], 64).unwrap();
    let mut buf = payload.clone();
    buf.extend_from_slice(&11u64.to_le_bytes());
    buf.extend_from_slice(&0u64.to_le_bytes());
    assert!(check_archived_dyn(&buf, &impls, &checks).is_ok());

    // metadata check alone: cached vtable equal to the registry's is fine
    let meta_pos = buf.len() - 16;
    assert_eq!(check_dyn_metadata(&buf, meta_pos, &impls), Ok(0xAA));

    // forged type identifier: rejected before any vtable is used
    let mut forged = payload.clone();
    forged.extend_from_slice(&99u64.to_le_bytes());
    forged.extend_from_slice(&0u64.to_le_bytes());
    match check_archived_dyn(&forged, &impls, &checks) {
        Err(CheckDynError::InvalidMetadata(id)) => assert_eq!(id, 99),
        other => panic!("expected invalid metadata, got {:?}", other),
    }

    // stale cached vtable: rejected as type confusion
    let mut stale = payload.clone();
    stale.extend_from_slice(&11u64.to_le_bytes());
    stale.extend_from_slice(&0xBBu64.to_le_bytes());
    match check_archived_dyn(&stale, &impls, &checks) {
        Err(CheckDynError::CheckBytes(ArchiveError::TypeConfusion { expected, found, .. })) => {
            assert_eq!(expected, 0xAA);
            assert_eq!(found, 0xBB);
        }
        other => panic!("expected a vtable mismatch, got {:?}", other),
    }

    // an implementation registered without byte-checking logic rejects
    // every payload
    let opaque = OpaquePayload { layout: Layout { size: 4, align: 4 } };
    let entry2 = CheckBytesEntry::new(0xCC, opaque.layout, opaque.check_bytes_dyn());
    assert!(checks.add_entry(entry2));
    let mut impls2 = ImplRegistry::new();
    assert!(impls2.register_impl(12, 0xCC));
    let mut unimpl = payload.clone();
    unimpl.extend_from_slice(&12u64.to_le_bytes());
    unimpl.extend_from_slice(&0u64.to_le_bytes());
    match check_archived_dyn(&unimpl, &impls2, &checks) {
        Err(CheckDynError::CheckBytes(ArchiveError::UnimplementedCheck)) => {}
        other => panic!("expected an unimplemented check, got {:?}", other),
    }
}

/// Boxed payloads round-trip, and an archive holding several kinds of
/// fields validates with every claimed span accounted for.
#[test]
fn mixed_record_round_trip() {
    let fields = vec![
        FieldDesc::U64,
        FieldDesc::BoxU64,
        FieldDesc::VecU32,
        FieldDesc::Str,
        FieldDesc::Uuid,
        FieldDesc::NichedNichable { strat: NicheStrategy::Zero },
    ];
    let vals = vec![
        FieldValue::U64(0xDEAD_BEEF_0123_4567),
        FieldValue::BoxU64(77),
        FieldValue::VecU32(vec![1, 2, 3]),
        FieldValue::Str(b"tail".to_vec()),
        FieldValue::Uuid((0u8..16).collect()),
        FieldValue::NichedNichable(Some((2.5f32.to_bits(), 9, false))),
    ];
    let (buf, _root) = serialize_then_resolve(&fields, &vals, 4096).unwrap();
    assert!(validate_archive(&fields, &buf).is_ok());
    let recovered = recover_record(&fields, &buf);
    assert_eq!(recovered, vals);
}
