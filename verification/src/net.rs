//! Address rules behind LAN discovery: the directed broadcast address of
//! an interface, and the host name a server announces.

use vstd::prelude::*;
use crate::text::{string_from_chars, trim_by, trim_white, unicode_white_space};

verus! {

/// The directed broadcast address of an IPv4 interface (`ip | !mask`, as
/// 32-bit words); `None` for a zero netmask, which has none.
pub fn directed_broadcast(ip: u32, mask: u32) -> (r: Option<u32>)
    ensures
        r == (if mask == 0 {
            None
        } else {
            Some(ip | !mask)
        }),
{
    if mask == 0 {
        None
    } else {
        Some(ip | !mask)
    }
}

/// `unknown`, announced when the machine's name cannot be read.
pub open spec fn unknown_host() -> Seq<char> {
    seq!['u', 'n', 'k', 'n', 'o', 'w', 'n']
}

/// The announced name: the configured name trimmed, or `unknown` when it is
/// missing or blank.
pub open spec fn announced_host(raw: Option<Seq<char>>) -> Seq<char> {
    match raw {
        Some(s) => {
            let t = trim_by(s, unicode_white_space());
            if t.len() == 0 {
                unknown_host()
            } else {
                t
            }
        },
        None => unknown_host(),
    }
}

/// The host name announced on the LAN, from the name the system reported
/// (`None` where it could not be read).
pub fn hostname_from(raw: Option<&str>) -> (h: String)
    ensures
        h@ == announced_host(match raw {
            Some(s) => Some(s@),
            None => None,
        }),
{
    let fallback: [char; 7] = ['u', 'n', 'k', 'n', 'o', 'w', 'n'];
    proof {
        assert(fallback@ =~= unknown_host());
    }
    match raw {
        Some(s) => {
            let t = trim_white(s);
            if t.len() == 0 {
                string_from_chars(&fallback)
            } else {
                string_from_chars(t.as_slice())
            }
        },
        None => string_from_chars(&fallback),
    }
}

} // verus!
