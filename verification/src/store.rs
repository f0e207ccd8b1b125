//! The envelope of the node's stored state: a version number in front of
//! the payload, so that state written by an incompatible version is
//! recognised before it is read.

use crate::error::Error;
use vstd::bytes::{
    lemma_auto_spec_u32_to_from_le_bytes, spec_u32_from_le_bytes, spec_u32_to_le_bytes,
    u32_from_le_bytes, u32_to_le_bytes,
};
use vstd::prelude::*;
use vstd::slice::slice_subrange;

verus! {

/// Version of the stored state that this library writes and reads.
pub const META_VERSION: u32 = 1;

/// The stored form of `payload`: the version, little-endian, then the
/// payload.
pub open spec fn sealed(payload: Seq<u8>) -> Seq<u8> {
    spec_u32_to_le_bytes(META_VERSION) + payload
}

/// The version that stored bytes announce; `None` where they are too short
/// to announce one.
pub open spec fn announced_version(stored: Seq<u8>) -> Option<u32> {
    if stored.len() < 4 {
        None
    } else {
        Some(spec_u32_from_le_bytes(stored.subrange(0, 4)))
    }
}

/// What opening stored bytes gives: the payload behind the version, if the
/// version is the one that this library reads.
pub open spec fn opened(stored: Seq<u8>) -> Result<Seq<u8>, Error> {
    match announced_version(stored) {
        None => Err(Error::MetadataNotFound),
        Some(version) => if version == META_VERSION {
            Ok(stored.subrange(4, stored.len() as int))
        } else {
            Err(Error::InvalidMetaVersion { detected_version: version })
        },
    }
}

/// Puts the version in front of a payload.
pub fn seal_metadata(payload: &[u8]) -> (stored: Vec<u8>)
    ensures
        stored@ == sealed(payload@),
{
    let mut stored = u32_to_le_bytes(META_VERSION);
    let mut i: usize = 0;
    while i < payload.len()
        invariant
            i <= payload@.len(),
            stored@ == spec_u32_to_le_bytes(META_VERSION) + payload@.take(i as int),
        decreases payload.len() - i,
    {
        stored.push(payload[i]);
        assert(payload@.take(i + 1) == payload@.take(i as int).push(payload@[i as int]));
        i += 1;
    }
    assert(payload@.take(i as int) == payload@);
    stored
}

/// Checks the version of stored bytes and hands out the payload behind it.
/// Bytes too short to hold a version count as missing state.
pub fn open_metadata(stored: &[u8]) -> (r: Result<&[u8], Error>)
    ensures
        match r {
            Ok(payload) => opened(stored@) == Ok::<Seq<u8>, Error>(payload@),
            Err(e) => opened(stored@) == Err::<Seq<u8>, Error>(e),
        },
{
    let len: usize = stored.len();
    if len < 4 {
        return Err(Error::MetadataNotFound);
    }
    let version = u32_from_le_bytes(slice_subrange(stored, 0, 4));
    if version == META_VERSION {
        Ok(slice_subrange(stored, 4, len))
    } else {
        Err(Error::InvalidMetaVersion { detected_version: version })
    }
}

/// What was sealed opens to the payload that was sealed.
pub proof fn lemma_open_sealed(payload: Seq<u8>)
    ensures
        opened(sealed(payload)) == Ok::<Seq<u8>, Error>(payload),
{
    lemma_auto_spec_u32_to_from_le_bytes();
    let stored = sealed(payload);
    assert(stored.subrange(0, 4) =~= spec_u32_to_le_bytes(META_VERSION));
    assert(stored.subrange(4, stored.len() as int) =~= payload);
}

} // verus!
