//! The address shown to users for a bind address.
use vstd::prelude::*;

use crate::text::{owned, same_text};

verus! {

/// The host a client should use: the bind address itself, except for the
/// wildcard `0.0.0.0`, where it is this machine's LAN address (`lan_ip`, found
/// by the caller) or `127.0.0.1` when that is unknown.
pub open spec fn display_host_spec(bind_host: Seq<char>, lan_ip: Option<Seq<char>>) -> Seq<char> {
    if bind_host != "0.0.0.0"@ {
        bind_host
    } else {
        match lan_ip {
            Some(ip) => ip,
            None => "127.0.0.1"@,
        }
    }
}

/// The host a client should use for a server bound to `bind_host`.
pub fn display_host(bind_host: &str, lan_ip: Option<String>) -> (out: String)
    ensures
        out@ == display_host_spec(
            bind_host@,
            match lan_ip {
                Some(ip) => Some(ip@),
                None => None,
            },
        ),
{
    if !same_text(bind_host, "0.0.0.0") {
        return owned(bind_host);
    }
    match lan_ip {
        Some(ip) => ip,
        None => owned("127.0.0.1"),
    }
}

} // verus!
