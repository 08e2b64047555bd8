//! Tests mirroring the per-type adapters: strings, identifiers, array
//! vectors, double-ended queues, and niched structures.

use arrayvec::ArrayVec;
use std::collections::VecDeque;
use smol_str::SmolStr;
use uuid::Uuid;

use zarc::desc::{FieldDesc, FieldValue, NicheStrategy};
use zarc::archive::serialize_then_resolve;
use zarc::check::validate_archive;
use zarc::recover::recover_record;
use zarc::smol::{archive_smol_str, recover_smol_str};
use zarc::uid::{archive_uuid, recover_uuid};

#[test]
fn smolstr() {
    let value = SmolStr::new("smol_str");
    let (buf, _root) = archive_smol_str(&value, 256).unwrap();
    let archived = recover_smol_str(&buf).unwrap();
    assert_eq!(archived, value);
    let deserialized: SmolStr = recover_smol_str(&buf).unwrap();
    assert_eq!(value, deserialized);
}

#[test]
fn smolstr_full_unicode() {
    // recovery covers every string, not only ASCII contents
    let value = SmolStr::new("sm\u{f6}l \u{2764} str");
    let (buf, _root) = archive_smol_str(&value, 256).unwrap();
    assert_eq!(recover_smol_str(&buf).unwrap(), value);

    // an archived byte string that is not UTF-8 recovers to nothing
    let fields = vec![FieldDesc::Str];
    let vals = vec![FieldValue::Str(vec![0xff, 0xfe])];
    let (bad, _root) = serialize_then_resolve(&fields, &vals, 256).unwrap();
    assert!(recover_smol_str(&bad).is_none());
}

#[test]
fn test_serialize_deserialize() {
    let uuid_str = "f9168c5e-ceb2-4faa-b6bf-329bf39fa1e4";
    let u = Uuid::parse_str(uuid_str).unwrap();

    let (buf, _root) = archive_uuid(&u, 256).expect("failed to archive uuid");
    let archived = recover_uuid(&buf);
    assert_eq!(u, archived);

    let deserialized = recover_uuid(&buf);
    assert_eq!(u, deserialized);

    // an identifier has no out-of-line data: serializing it succeeds with
    // exactly the room its record and bookkeeping need
    assert!(archive_uuid(&u, 36).is_ok());
}

#[test]
fn array_vec() {
    let value: ArrayVec<u32, 4> = ArrayVec::from([10, 20, 40, 80]);
    let elements: Vec<u32> = value.as_slice().to_vec();

    let fields = vec![FieldDesc::VecU32];
    let vals = vec![FieldValue::VecU32(elements.clone())];
    let (buf, _root) = serialize_then_resolve(&fields, &vals, 256).unwrap();
    assert!(validate_archive(&fields, &buf).is_ok());
    let recovered = recover_record(&fields, &buf);
    match &recovered[0] {
        FieldValue::VecU32(xs) => {
            assert_eq!(xs.as_slice(), &[10, 20, 40, 80]);
            let mut back: ArrayVec<u32, 4> = ArrayVec::new();
            for x in xs {
                back.push(*x);
            }
            assert_eq!(value, back);
        }
        other => panic!("expected a sequence, got {:?}", other),
    }
}

#[test]
fn vecdeque() {
    for n in 2u32..10 {
        for k in 1..n {
            // Construct `deque` as containing `0..n` split across two
            // slices `0..k` and `k..n`.
            let mut deque: VecDeque<u32> = VecDeque::with_capacity(n as usize + 1);
            for x in k..n {
                deque.push_back(x);
            }
            for x in (0..k).rev() {
                deque.push_front(x);
            }
            assert!(deque.iter().copied().eq(0..n));

            let (a, b) = deque.as_slices();
            assert!(a.iter().copied().eq(0..k));
            assert!(b.iter().copied().eq(k..n));

            // serialize the queue's elements in order, then recover and
            // verify that the round trip preserves `0..n`
            let elements: Vec<u32> = deque.iter().copied().collect();
            let fields = vec![FieldDesc::VecU32];
            let vals = vec![FieldValue::VecU32(elements)];
            let (buf, _root) = serialize_then_resolve(&fields, &vals, 256).unwrap();
            assert!(validate_archive(&fields, &buf).is_ok());
            let recovered = recover_record(&fields, &buf);
            match &recovered[0] {
                FieldValue::VecU32(xs) => {
                    assert!(xs.iter().copied().eq(0..n));
                    let deserialized: VecDeque<u32> = xs.iter().copied().collect();
                    assert_eq!(deque, deserialized);
                }
                other => panic!("expected a sequence, got {:?}", other),
            }
        }
    }
}

#[test]
fn with_struct() {
    // a three-field payload: a never-NaN float, a non-zero integer, a
    // boolean; optional at two positions under two distinct sentinel
    // strategies, so the two absences can never be confused
    let nichable = (123.456f32.to_bits(), 789u32, true);
    let fields = vec![
        FieldDesc::NichedNichable { strat: NicheStrategy::Zero },
        FieldDesc::NichedNichable { strat: NicheStrategy::NaN },
    ];

    // the archived pair of niched payloads carries no tag bytes: its size
    // is exactly twice one payload's size
    let both_absent = vec![
        FieldValue::NichedNichable(None),
        FieldValue::NichedNichable(None),
    ];
    let (buf, root) = serialize_then_resolve(&fields, &both_absent, 256).unwrap();
    assert_eq!(buf.len() - root, 24);
    assert!(validate_archive(&fields, &buf).is_ok());
    let recovered = recover_record(&fields, &buf);
    assert_eq!(recovered[0], FieldValue::NichedNichable(None));
    assert_eq!(recovered[1], FieldValue::NichedNichable(None));

    let second_present = vec![
        FieldValue::NichedNichable(None),
        FieldValue::NichedNichable(Some(nichable)),
    ];
    let (buf, _root) = serialize_then_resolve(&fields, &second_present, 256).unwrap();
    assert!(validate_archive(&fields, &buf).is_ok());
    let recovered = recover_record(&fields, &buf);
    assert_eq!(recovered[0], FieldValue::NichedNichable(None));
    match &recovered[1] {
        FieldValue::NichedNichable(Some((w, int, boolean))) => {
            assert_eq!(f32::from_bits(*w), 123.456);
            assert_eq!(*int, 789);
            assert_eq!(*boolean, true);
        }
        other => panic!("expected a present payload, got {:?}", other),
    }
}

#[test]
fn nicher_map() {
    // an optional boxed integer niched by the zero pointer word: absence
    // costs no more than the archived box itself
    let fields = vec![FieldDesc::NichedBoxU64];

    let absent = vec![FieldValue::NichedBoxU64(None)];
    let (buf, _root) = serialize_then_resolve(&fields, &absent, 256).unwrap();
    assert_eq!(buf.len(), 4);
    assert!(validate_archive(&fields, &buf).is_ok());
    let recovered = recover_record(&fields, &buf);
    assert_eq!(recovered[0], FieldValue::NichedBoxU64(None));

    let present = vec![FieldValue::NichedBoxU64(Some(42))];
    let (buf, _root) = serialize_then_resolve(&fields, &present, 256).unwrap();
    assert!(validate_archive(&fields, &buf).is_ok());
    let recovered = recover_record(&fields, &buf);
    match &recovered[0] {
        FieldValue::NichedBoxU64(Some(x)) => assert_eq!(*x, 42),
        other => panic!("expected a present box, got {:?}", other),
    }
}
