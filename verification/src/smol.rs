//! Archiving `smol_str` strings: a string value serializes as a
//! single-field archive holding one byte string, and an ASCII archive
//! recovers into a fresh string.

use vstd::prelude::*;
use crate::errors::ArchiveError;
use crate::relptr::MAX_ARCHIVE;
use crate::desc::{FieldDesc, FieldValue, ValueModel, record_size, MAX_PAYLOAD};
use crate::encoding::{models_of, decode_record, wf_value};
use crate::check::archive_checkable;
use crate::recover::recover_record;
use crate::archive::serialize_then_resolve;

verus! {

#[verifier::external_type_specification]
#[verifier::external_body]
pub struct ExSmolStr(smol_str::SmolStr);

pub uninterp spec fn smol_str_bytes(s: smol_str::SmolStr) -> Seq<u8>;

pub uninterp spec fn is_utf8(b: Seq<u8>) -> bool;

/// Relies on smol_str::SmolStr::as_str: hands out the string's own bytes,
/// unchanged; a string slice's bytes are always valid UTF-8.
#[verifier::external_body]
fn smol_str_as_bytes(s: &smol_str::SmolStr) -> (r: Vec<u8>)
    ensures
        r@ == smol_str_bytes(*s),
        is_utf8(r@),
{
    s.as_str().as_bytes().to_vec()
}

/// Relies on core::str::from_utf8 and smol_str::SmolStr::new: exactly the
/// valid UTF-8 byte sequences convert to a string slice, and the built
/// string holds exactly the given bytes.
#[verifier::external_body]
fn smol_str_from_utf8(b: &Vec<u8>) -> (r: Option<smol_str::SmolStr>)
    ensures
        r is Some <==> is_utf8(b@),
        r matches Some(s) ==> smol_str_bytes(s) == b@,
{
    match core::str::from_utf8(b.as_slice()) {
        Ok(s) => Some(smol_str::SmolStr::new(s)),
        Err(_) => None,
    }
}

/// The descriptor of a string archive: one byte-string field.
pub open spec fn smol_fields() -> Seq<FieldDesc> {
    seq![FieldDesc::Str]
}

/// Serializes a string into an archive whose root record holds one
/// byte-string field; a string longer than a field's payload limit is a
/// capacity error.
pub fn archive_smol_str(s: &smol_str::SmolStr, limit: usize) -> (r: Result<
    (Vec<u8>, usize),
    ArchiveError,
>)
    requires
        limit <= MAX_ARCHIVE,
    ensures
        match r {
            Ok(p) => {
                &&& p.0@.len() <= limit
                &&& p.1 + record_size(smol_fields()) == p.0@.len()
                &&& archive_checkable(smol_fields(), p.0@)
                &&& decode_record(smol_fields(), p.0@, p.1 as int) =~= seq![
                    ValueModel::Str(smol_str_bytes(*s)),
                ]
            },
            Err(e) => e matches ArchiveError::Capacity { .. },
        },
        (smol_str_bytes(*s).len() + 28 <= limit && smol_str_bytes(*s).len()
            <= MAX_PAYLOAD) ==> r is Ok,
{
    let bytes = smol_str_as_bytes(s);
    if bytes.len() > MAX_PAYLOAD {
        return Err(ArchiveError::Capacity { needed: bytes.len(), limit: MAX_PAYLOAD });
    }
    let ghost sb = bytes@;
    let mut fields: Vec<FieldDesc> = Vec::new();
    fields.push(FieldDesc::Str);
    let mut vals: Vec<FieldValue> = Vec::new();
    vals.push(FieldValue::Str(bytes));
    proof {
        assert(fields@ =~= smol_fields());
        assert(models_of(vals@) =~= seq![ValueModel::Str(sb)]);
        assert(wf_value(fields@[0], vals@[0]@));
        assert(crate::archive::serialize_cost(fields@, models_of(vals@), 1) == 0);
        assert(crate::encoding::payload_bytes(fields@[0], models_of(vals@)[0]) == sb);
        assert(crate::archive::serialize_cost(fields@, models_of(vals@), 0) == sb.len() + 16);
        assert(fields@.len() == 1);
        assert(fields@.last() == FieldDesc::Str);
        assert(fields@.drop_last() =~= Seq::<FieldDesc>::empty());
        assert(record_size(fields@.drop_last()) == 0);
        assert(crate::desc::slot_size(FieldDesc::Str) == 8);
        assert(record_size(fields@) == 8);
    }
    match serialize_then_resolve(&fields, &vals, limit) {
        Ok(p) => {
            proof {
                let ts = choose|ts: Seq<int>|
                    crate::encoding::archive_encoded(
                        fields@,
                        models_of(vals@),
                        ts,
                        p.0@,
                        p.1 as int,
                    );
                crate::check::lemma_validation_soundness(
                    fields@,
                    models_of(vals@),
                    ts,
                    p.0@,
                    p.1 as int,
                );
                crate::encoding::lemma_record_roundtrip(
                    fields@,
                    models_of(vals@),
                    ts,
                    p.0@,
                    p.1 as int,
                );
            }
            Ok(p)
        },
        Err(e) => {
            proof {
                assert(forall|k: int|
                    0 <= k < fields@.len() ==> !crate::encoding::is_shared(
                        #[trigger] fields@[k],
                    ));
            }
            Err(e)
        },
    }
}

/// Recovers a string from a checkable string archive: the string exactly
/// when the archived bytes are valid UTF-8, and nothing otherwise. Every
/// archive produced by [`archive_smol_str`] recovers, since a string's
/// bytes are always valid UTF-8.
pub fn recover_smol_str(buf: &Vec<u8>) -> (r: Option<smol_str::SmolStr>)
    requires
        buf@.len() <= MAX_ARCHIVE,
        archive_checkable(smol_fields(), buf@),
    ensures
        ({
            let m = decode_record(smol_fields(), buf@, buf@.len() - record_size(smol_fields()))[0];
            match r {
                Some(s2) => m matches ValueModel::Str(bs) && is_utf8(bs) && smol_str_bytes(s2)
                    == bs,
                None => m matches ValueModel::Str(bs) && !is_utf8(bs),
            }
        }),
{
    let mut fields: Vec<FieldDesc> = Vec::new();
    fields.push(FieldDesc::Str);
    proof {
        assert(fields@ =~= smol_fields());
    }
    let vals = recover_record(&fields, buf);
    let ghost root = buf@.len() - record_size(smol_fields());
    match &vals[0] {
        FieldValue::Str(bs) => {
            proof {
                assert(vals@[0]@ == decode_record(smol_fields(), buf@, root)[0]);
            }
            smol_str_from_utf8(bs)
        },
        _ => {
            proof {
                assert(false);
            }
            None
        },
    }
}

} // verus!
