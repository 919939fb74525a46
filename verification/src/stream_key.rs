//! Stream keys: opaque 128-bit identifiers. Two keys name the same stream
//! exactly when their 128 bits are the same.

use uuid::Uuid;
use vstd::prelude::*;

verus! {

/// `uuid::Uuid`: sixteen bytes that verified code carries around without
/// looking inside.
#[verifier::external_type_specification]
#[verifier::external_body]
pub struct ExUuid(uuid::Uuid);

/// The 128 bits of an identifier, read as one big-endian number.
pub uninterp spec fn uuid_bits(id: Uuid) -> u128;

/// `Uuid::as_u128`: the sixteen bytes of the identifier packed into one
/// integer, first byte most significant.
#[verifier::external_body]
pub(crate) fn key_of(id: &Uuid) -> (key: u128)
    ensures
        key == uuid_bits(*id),
{
    id.as_u128()
}

/// `Uuid::from_u128`: the identifier whose sixteen bytes are the big-endian
/// bytes of `key`; `as_u128` gives `key` back.
#[verifier::external_body]
pub(crate) fn id_of(key: u128) -> (id: Uuid)
    ensures
        uuid_bits(id) == key,
{
    Uuid::from_u128(key)
}

} // verus!
