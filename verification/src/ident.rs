//! Unique identifiers for file systems.

use vstd::prelude::*;

verus! {

/// Whether sixteen bytes are marked as a randomly generated identifier: the
/// high half of byte 6 holds the version 4, and the two high bits of byte 8
/// hold the variant `10`. The other 122 bits are free.
pub open spec fn is_random_uuid(uuid: Seq<u8>) -> bool {
    &&& uuid.len() == 16
    &&& uuid[6] / 16 == 4
    &&& uuid[8] / 64 == 2
}

/// `Uuid::new_v4` of the crate `uuid`, and `Uuid::as_bytes` for its sixteen
/// bytes. The bits come from the random number generator of the operating
/// system, so two calls need not agree, and the contract claims only the
/// version and variant marks that `new_v4` sets on every identifier. It panics
/// where the operating system cannot deliver random bytes.
#[verifier::external_body]
pub(crate) fn random_uuid() -> (uuid: [u8; 16])
    ensures
        is_random_uuid(uuid@),
{
    *uuid::Uuid::new_v4().as_bytes()
}

} // verus!
