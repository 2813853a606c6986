//! Laws of [`peers`](crate::peers).

use vstd::prelude::*;

use crate::peers::{admitted, lan_address, lan_v4, IpAddr};

verus! {

/// An IPv4 address is local exactly in 127.0.0.0/8, 10.0.0.0/8, 172.16.0.0/12,
/// 192.168.0.0/16 and 169.254.0.0/16, whatever its last two bytes are.
pub proof fn law_local_v4(octets: [u8; 4])
    ensures
        ({
            let n = octets@[0] * 256 + octets@[1];
            lan_address(IpAddr::V4(octets)) <==> (0x7f00 <= n <= 0x7fff || 0x0a00 <= n <= 0x0aff
                || 0xac10 <= n <= 0xac1f || n == 0xc0a8 || n == 0xa9fe)
        }),
{
}

/// An IPv6 address is local where it is `::1`, in fe80::/10, or a local IPv4 address that
/// is mapped into IPv6.
pub proof fn law_local_v6(groups: [u16; 8])
    ensures
        ({
            let zero = forall|i: int| 0 <= i < 5 ==> (#[trigger] groups@[i]) == 0;
            let a = groups@[6] / 256;
            let b = groups@[6] % 256;
            lan_address(IpAddr::V6(groups)) <==> (zero && groups@[5] == 0 && groups@[6] == 0
                && groups@[7] == 1) || groups@[0] / 64 == 0x3fa || (zero && groups@[5] == 0xffff
                && lan_v4(a as u8, b as u8))
        }),
{
    let g = groups@;
    if g[0] == 0 && g[1] == 0 && g[2] == 0 && g[3] == 0 && g[4] == 0 {
        assert forall|i: int| 0 <= i < 5 implies (#[trigger] g[i]) == 0 by {}
    }
    assert(0xfe80 <= g[0] <= 0xfebf <==> g[0] / 64 == 0x3fa);
}

/// Without the filter every connection is served, and with it those of the local network
/// alone.
pub proof fn law_connections_are_admitted(ip: IpAddr)
    ensures
        admitted(false, ip),
        admitted(true, ip) <==> lan_address(ip),
{
}

} // verus!
