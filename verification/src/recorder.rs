//! The redirect recorder.
//!
//! A redirection that upstream answered with is kept as one artifact that
//! holds the `Location` value and nothing else. The value is kept only in
//! its normal form, as text made of visible ASCII, spaces and tabs; a value
//! that is not of that form is not recorded, and an artifact that holds
//! anything else is not served. The target itself is not examined.

use crate::key::CacheKey;
use crate::layout::redirect_name;
use crate::octets::option_view;
use crate::protocol::{Entry, Lookup};
use crate::wire::{header_value_is_text, is_header_text};
use vstd::prelude::*;

verus! {

/// The view of an optional entry.
pub open spec fn entry_view(entry: Option<Entry<Vec<u8>>>) -> Option<Entry<Seq<u8>>> {
    match entry {
        None => None,
        Some(e) => Some(e@),
    }
}

/// The artifact that records `location` for `key`, if the value can be
/// recorded.
pub open spec fn record_of(key: Seq<u8>, location: Seq<u8>) -> Option<Entry<Seq<u8>>> {
    if is_header_text(location) {
        Some(Entry { name: redirect_name(key), content: location })
    } else {
        None
    }
}

/// The `Location` to answer with, given what reading the redirect artifact
/// gave: the contents of an artifact that is there and holds text.
pub open spec fn reconstruct_of(stored: Lookup<Seq<u8>>) -> Option<Seq<u8>> {
    match stored {
        Lookup::Found(location) if is_header_text(location) => Some(location),
        _ => None,
    }
}

/// Prepares the artifact that records `location` for `key`.
pub fn record(key: &CacheKey, location: Vec<u8>) -> (entry: Option<Entry<Vec<u8>>>)
    ensures
        entry_view(entry) == record_of(key.view(), location@),
{
    if header_value_is_text(location.as_slice()) {
        Some(Entry { name: key.redirect_name(), content: location })
    } else {
        None
    }
}

/// Takes the `Location` to answer with from what reading the redirect
/// artifact gave.
pub fn reconstruct(stored: Lookup<Vec<u8>>) -> (location: Option<Vec<u8>>)
    ensures
        option_view(location) == reconstruct_of(stored@),
{
    match stored {
        Lookup::Found(location) => {
            if header_value_is_text(location.as_slice()) {
                Some(location)
            } else {
                None
            }
        },
        _ => None,
    }
}

/// What was recorded is what is answered: the contents of a recorded
/// artifact, read back, give the `Location` that was recorded.
pub proof fn lemma_record_round_trip(key: Seq<u8>, location: Seq<u8>)
    ensures
        record_of(key, location) matches Some(entry) ==> entry.name == redirect_name(key)
            && reconstruct_of(Lookup::Found(entry.content)) == Some(location),
        record_of(key, location) is Some <==> is_header_text(location),
{
}

} // verus!
