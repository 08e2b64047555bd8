//! Archiving `uuid` identifiers: sixteen portable bytes copied bit for
//! bit, with no padding and no out-of-line data.

use vstd::prelude::*;
use crate::errors::ArchiveError;
use crate::relptr::MAX_ARCHIVE;
use crate::desc::{FieldDesc, FieldValue, ValueModel, record_size};
use crate::encoding::{models_of, decode_record, wf_value};
use crate::check::archive_checkable;
use crate::recover::recover_record;
use crate::archive::serialize_then_resolve;

verus! {

#[verifier::external_type_specification]
#[verifier::external_body]
pub struct ExUuid(uuid::Uuid);

pub uninterp spec fn uuid_bytes(u: uuid::Uuid) -> Seq<u8>;

/// Relies on uuid::Uuid::into_bytes: hands out the identifier's sixteen
/// bytes, unchanged.
#[verifier::external_body]
fn uuid_to_bytes(u: &uuid::Uuid) -> (r: Vec<u8>)
    ensures
        r@ == uuid_bytes(*u),
        r@.len() == 16,
{
    u.into_bytes().to_vec()
}

/// Relies on uuid::Uuid::from_bytes: builds the identifier holding
/// exactly the given bytes, the inverse of `into_bytes`.
#[verifier::external_body]
fn uuid_from_bytes(b: &Vec<u8>) -> (r: uuid::Uuid)
    requires
        b@.len() == 16,
    ensures
        uuid_bytes(r) == b@,
{
    let mut a = [0u8; 16];
    a.copy_from_slice(b.as_slice());
    uuid::Uuid::from_bytes(a)
}

/// The descriptor of an identifier archive: one sixteen-byte field.
pub open spec fn uuid_fields() -> Seq<FieldDesc> {
    seq![FieldDesc::Uuid]
}

/// Serializes an identifier into an archive whose root record holds its
/// sixteen bytes.
pub fn archive_uuid(u: &uuid::Uuid, limit: usize) -> (r: Result<(Vec<u8>, usize), ArchiveError>)
    requires
        limit <= MAX_ARCHIVE,
    ensures
        match r {
            Ok(p) => {
                &&& p.0@.len() <= limit
                &&& p.1 + record_size(uuid_fields()) == p.0@.len()
                &&& archive_checkable(uuid_fields(), p.0@)
                &&& decode_record(uuid_fields(), p.0@, p.1 as int) =~= seq![
                    ValueModel::Uuid(uuid_bytes(*u)),
                ]
            },
            Err(e) => e matches ArchiveError::Capacity { .. },
        },
        36 <= limit ==> r is Ok,
{
    let bytes = uuid_to_bytes(u);
    let ghost ub = bytes@;
    let mut fields: Vec<FieldDesc> = Vec::new();
    fields.push(FieldDesc::Uuid);
    let mut vals: Vec<FieldValue> = Vec::new();
    vals.push(FieldValue::Uuid(bytes));
    proof {
        assert(fields@ =~= uuid_fields());
        assert(models_of(vals@) =~= seq![ValueModel::Uuid(ub)]);
        assert(wf_value(fields@[0], vals@[0]@));
        assert(crate::archive::serialize_cost(fields@, models_of(vals@), 1) == 0);
        assert(crate::encoding::payload_bytes(fields@[0], models_of(vals@)[0]) =~= Seq::<
            u8,
        >::empty());
        assert(crate::archive::serialize_cost(fields@, models_of(vals@), 0) == 16);
        assert(fields@.len() == 1);
        assert(fields@.last() == FieldDesc::Uuid);
        assert(fields@.drop_last() =~= Seq::<FieldDesc>::empty());
        assert(record_size(fields@.drop_last()) == 0);
        assert(crate::desc::slot_size(FieldDesc::Uuid) == 16);
        assert(record_size(fields@) == 16);
    }
    match serialize_then_resolve(&fields, &vals, limit) {
        Ok(p) => {
            proof {
                let ts = choose|ts: Seq<int>|
                    crate::encoding::archive_encoded(
                        fields@,
                        models_of(vals@),
                        ts,
                        p.0@,
                        p.1 as int,
                    );
                crate::check::lemma_validation_soundness(
                    fields@,
                    models_of(vals@),
                    ts,
                    p.0@,
                    p.1 as int,
                );
                crate::encoding::lemma_record_roundtrip(
                    fields@,
                    models_of(vals@),
                    ts,
                    p.0@,
                    p.1 as int,
                );
            }
            Ok(p)
        },
        Err(e) => {
            proof {
                assert(forall|k: int|
                    0 <= k < fields@.len() ==> !crate::encoding::is_shared(
                        #[trigger] fields@[k],
                    ));
            }
            Err(e)
        },
    }
}

/// Recovers an identifier from a checkable identifier archive: exactly
/// the sixteen bytes the buffer decodes to.
pub fn recover_uuid(buf: &Vec<u8>) -> (r: uuid::Uuid)
    requires
        buf@.len() <= MAX_ARCHIVE,
        archive_checkable(uuid_fields(), buf@),
    ensures
        ({
            let m = decode_record(uuid_fields(), buf@, buf@.len() - record_size(uuid_fields()))[0];
            m matches ValueModel::Uuid(bs) && uuid_bytes(r) == bs
        }),
{
    let mut fields: Vec<FieldDesc> = Vec::new();
    fields.push(FieldDesc::Uuid);
    proof {
        assert(fields@ =~= uuid_fields());
    }
    let vals = recover_record(&fields, buf);
    let ghost root = buf@.len() - record_size(uuid_fields());
    match &vals[0] {
        FieldValue::Uuid(bs) => {
            proof {
                assert(vals@[0]@ == decode_record(uuid_fields(), buf@, root)[0]);
            }
            uuid_from_bytes(bs)
        },
        _ => {
            proof {
                assert(false);
            }
            uuid_from_bytes(&Vec::new())
        },
    }
}

} // verus!
