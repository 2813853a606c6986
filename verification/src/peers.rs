//! Which peers are served while the proxy listens on the whole network.
//!
//! The filter goes by the source address alone. It narrows who can reach the proxy, but
//! it is no authentication, and it enforces no particular subnet or interface.

use vstd::prelude::*;

verus! {

/// An IP address.
#[derive(Debug, Clone, Copy)]
pub enum IpAddr {
    /// Four octets.
    V4([u8; 4]),
    /// Eight groups of sixteen bits.
    V6([u16; 8]),
}

/// An IPv4 address that is loopback, private by RFC 1918, or link-local.
pub open spec fn lan_v4(a: u8, b: u8) -> bool {
    ||| a == 127
    ||| a == 10
    ||| a == 172 && 16 <= b <= 31
    ||| a == 192 && b == 168
    ||| a == 169 && b == 254
}

/// An address that is loopback, private by RFC 1918, or link-local. An IPv4 address that
/// is mapped into IPv6 counts as itself.
pub open spec fn lan_address(ip: IpAddr) -> bool {
    match ip {
        IpAddr::V4(o) => lan_v4(o@[0], o@[1]),
        IpAddr::V6(g) => {
            let zeros = g@[0] == 0 && g@[1] == 0 && g@[2] == 0 && g@[3] == 0 && g@[4] == 0;
            ||| zeros && g@[5] == 0 && g@[6] == 0 && g@[7] == 1
            ||| zeros && g@[5] == 0xffff && lan_v4((g@[6] / 256) as u8, (g@[6] % 256) as u8)
            ||| 0xfe80 <= g@[0] <= 0xfebf
        },
    }
}

/// Whether a source address is on the local network.
pub fn is_lan_source(ip: IpAddr) -> (r: bool)
    ensures
        r == lan_address(ip),
{
    match ip {
        IpAddr::V4(o) => is_lan_v4(o[0], o[1]),
        IpAddr::V6(g) => {
            let zeros: bool = g[0] == 0 && g[1] == 0 && g[2] == 0 && g[3] == 0 && g[4] == 0;
            (zeros && g[5] == 0 && g[6] == 0 && g[7] == 1) || (zeros && g[5] == 0xffff && is_lan_v4(
                (g[6] / 256) as u8,
                (g[6] % 256) as u8,
            )) || (0xfe80 <= g[0] && g[0] <= 0xfebf)
        },
    }
}

/// Whether an IPv4 address is loopback, private or link-local.
fn is_lan_v4(a: u8, b: u8) -> (r: bool)
    ensures
        r == lan_v4(a, b),
{
    a == 127 || a == 10 || (a == 172 && 16 <= b && b <= 31) || (a == 192 && b == 168) || (a == 169
        && b == 254)
}

/// Whether a connection is served.
pub open spec fn admitted(peer_filter: bool, ip: IpAddr) -> bool {
    !peer_filter || lan_address(ip)
}

/// Whether a connection is served: with the filter on, only from the local network.
pub fn admits(peer_filter: bool, ip: IpAddr) -> (r: bool)
    ensures
        r == admitted(peer_filter, ip),
{
    !peer_filter || is_lan_source(ip)
}

} // verus!
