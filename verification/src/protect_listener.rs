//! What a camera's upgrade request says of the session that follows: who the camera is, and where it
//! is to send its stream.

use crate::http::{extract_header_value, header_in_bytes};
use crate::protect_controller::text_option;
use crate::text::{chars_of, find_last_char, last_position, string_of, to_upper, upper_text};
use vstd::prelude::*;

verus! {

/// Port of the control connection.
pub const PROTECT_AVCLIENT_PORT: u16 = 7442;

/// Seconds that a silent connection is waited for.
pub const AVCLIENT_SESSION_DEADLINE_SECS: u64 = 30;

/// What a session is set up with.
#[derive(Debug, PartialEq, Eq)]
pub struct AdoptionContext {
    pub device_id: String,
    /// The camera's MAC and the index of the stream, where the request has the MAC.
    pub stream_name: Option<String>,
    /// Where the camera is told to send its stream.
    pub stream_destination: String,
}

/// `s` without its `c`s.
pub open spec fn without(s: Seq<char>, c: char) -> Seq<char>
    decreases s.len(),
{
    if s.len() == 0 {
        s
    } else if s.last() == c {
        without(s.drop_last(), c)
    } else {
        without(s.drop_last(), c).push(s.last())
    }
}

/// The name of the first stream of the camera with this MAC, in capitals; colons do not count.
pub open spec fn name_for_mac(mac: Seq<char>) -> Option<Seq<char>> {
    let bare = without(mac, ':');
    if bare.len() == 0 {
        None
    } else {
        Some(bare + "_0"@)
    }
}

/// The name of the first stream of the camera with this MAC.
pub fn stream_name_for(mac: &str) -> (r: Option<String>)
    ensures
        text_option(r) == name_for_mac(mac@),
{
    let chars = chars_of(mac);
    let mut bare = String::new();
    let mut any = false;
    let mut i: usize = 0;
    assert(mac@.take(0) =~= Seq::empty());
    while i < chars.len()
        invariant
            i <= chars@.len(),
            chars@ == mac@,
            bare@ == without(mac@.take(i as int), ':'),
            any == (bare@.len() > 0),
        decreases chars@.len() - i,
    {
        assert(mac@.take(i + 1).drop_last() =~= mac@.take(i as int));
        assert(mac@.take(i + 1).last() == chars@[i as int]);
        if chars[i] != ':' {
            bare.push(chars[i]);
            any = true;
        }
        i += 1;
    }
    assert(mac@.take(mac@.len() as int) =~= mac@);
    if !any {
        return None;
    }
    bare.append("_0");
    Some(bare)
}

/// The part of a `Host` field before its last colon.
pub open spec fn host_address(host: Seq<char>) -> Option<Seq<char>> {
    match last_position(host, ':') {
        Some(i) => Some(host.take(i)),
        None => None,
    }
}

/// The address that the camera can reach the proxy at: the one that it did reach, or else the one
/// that it names, or else the one that is set.
pub open spec fn controller_address(
    local_ip: Option<Seq<char>>,
    host: Option<Seq<char>>,
    advertised_ip: Seq<char>,
) -> Seq<char> {
    match local_ip {
        Some(ip) => ip,
        None => match host {
            Some(h) => match host_address(h) {
                Some(ip) => ip,
                None => advertised_ip,
            },
            None => advertised_ip,
        },
    }
}

/// The URI of the stream listener at an address.
pub open spec fn destination_at(ip: Seq<char>) -> Seq<char> {
    "tcp://"@ + ip + ":7550?retryInterval=1&connectTimeout=5"@
}

/// The MAC in a request, in capitals.
pub open spec fn mac_in(request: Seq<u8>) -> Seq<char> {
    upper_text(
        match header_in_bytes(request, "Camera-MAC"@) {
            Some(mac) => mac,
            None => ""@,
        },
    )
}

/// An optional borrowed text.
pub open spec fn str_option(t: Option<&str>) -> Option<Seq<char>> {
    match t {
        Some(s) => Some(s@),
        None => None,
    }
}

impl AdoptionContext {
    /// Reads the context from an upgrade request. `local_ip` is the address that the connection came
    /// in on, where it is known.
    pub fn from_request(request: &[u8], local_ip: Option<&str>, advertised_ip: &str) -> (r: AdoptionContext)
        ensures
            r.device_id@ == (match header_in_bytes(request@, "Device-ID"@) {
                Some(id) => id,
                None => "<unknown>"@,
            }),
            text_option(r.stream_name) == name_for_mac(mac_in(request@)),
            r.stream_destination@ == destination_at(
                controller_address(
                    str_option(local_ip),
                    header_in_bytes(request@, "Host"@),
                    advertised_ip@,
                ),
            ),
    {
        let device_id = match extract_header_value(request, "Device-ID") {
            Some(id) => id,
            None => "<unknown>".to_owned(),
        };
        let mac = match extract_header_value(request, "Camera-MAC") {
            Some(mac) => to_upper(mac.as_str()),
            None => to_upper(""),
        };
        let ip = match local_ip {
            Some(ip) => ip.to_owned(),
            None => match extract_header_value(request, "Host") {
                Some(host) => {
                    let chars = chars_of(host.as_str());
                    match find_last_char(chars.as_slice(), ':') {
                        Some(i) => {
                            let ip = string_of(chars.as_slice(), 0, i);
                            assert(ip@ =~= host@.take(i as int));
                            ip
                        },
                        None => advertised_ip.to_owned(),
                    }
                },
                None => advertised_ip.to_owned(),
            },
        };
        let mut stream_destination = "tcp://".to_owned();
        stream_destination.append(ip.as_str());
        stream_destination.append(":7550?retryInterval=1&connectTimeout=5");
        AdoptionContext { device_id, stream_name: stream_name_for(mac.as_str()), stream_destination }
    }
}

} // verus!
