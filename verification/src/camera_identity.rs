//! Who a camera is, as far as its stream tells: cameras name their streams after their MAC.

use crate::amf::{MetadataView, StreamMetadata};
use crate::text::{chars_of, find_last_char, last_position, string_of, trim, trimmed};
use vstd::prelude::*;

verus! {

/// A camera's identity.
#[derive(Debug, Clone, PartialEq, Eq)]
pub struct CameraIdentity {
    /// The MAC, which stands in for a serial number.
    pub serial: String,
    /// The model, or nothing where it is not known.
    pub model: String,
}

/// What an identity stands for.
#[verifier::ext_equal]
pub struct IdentityView {
    pub serial: Seq<char>,
    pub model: Seq<char>,
}

impl View for CameraIdentity {
    type V = IdentityView;

    open spec fn view(&self) -> IdentityView {
        IdentityView { serial: self.serial@, model: self.model@ }
    }
}

/// `name` without its last `_` and what follows it.
pub open spec fn before_last_underscore(name: Seq<char>) -> Seq<char> {
    match last_position(name, '_') {
        Some(i) => name.take(i),
        None => name,
    }
}

/// The serial number in a stream name: what stands before the index. An empty one is none.
pub open spec fn serial_in(stream_name: Seq<char>) -> Option<Seq<char>> {
    let mac = before_last_underscore(trimmed(stream_name));
    if mac.len() == 0 {
        None
    } else {
        Some(mac)
    }
}

/// The serial number in a stream name such as `28704E11B531_0`.
pub fn serial_from_stream_name(stream_name: Option<&str>) -> (r: Option<String>)
    ensures
        match stream_name {
            None => r is None,
            Some(name) => match serial_in(name@) {
                None => r is None,
                Some(serial) => r matches Some(t) && t@ == serial,
            },
        },
{
    let name = match stream_name {
        None => return None,
        Some(name) => name,
    };
    let chars = chars_of(name);
    let bare = trim(chars.as_slice());
    let end: usize = match find_last_char(bare, '_') {
        Some(i) => i,
        None => bare.len(),
    };
    let mac = string_of(bare, 0, end);
    assert(mac@ =~= before_last_underscore(trimmed(name@)));
    if end == 0 {
        None
    } else {
        Some(mac)
    }
}

/// The identity that metadata gives.
pub open spec fn identity_in(meta: MetadataView) -> Option<IdentityView> {
    match meta.stream_name {
        None => None,
        Some(name) => match serial_in(name) {
            None => None,
            Some(serial) => Some(IdentityView { serial, model: Seq::empty() }),
        },
    }
}

/// The identity that metadata gives; none where it has no usable stream name.
pub fn from_metadata(meta: &StreamMetadata) -> (r: Option<CameraIdentity>)
    ensures
        match identity_in(meta@) {
            None => r is None,
            Some(identity) => r matches Some(c) && c@ == identity,
        },
{
    match &meta.stream_name {
        None => None,
        Some(name) => match serial_from_stream_name(Some(name.as_str())) {
            None => None,
            Some(serial) => Some(CameraIdentity { serial, model: String::new() }),
        },
    }
}

} // verus!
