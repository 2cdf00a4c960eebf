//! Internet addresses as plain numbers.

use vstd::prelude::*;

verus! {

/// An address of a host: the 32 bits of IPv4 or the 128 bits of IPv6, in network order.
#[derive(Clone, Copy, Debug, PartialEq, Eq, Structural, Hash)]
pub enum IpAddr {
    V4(u32),
    V6(u128),
}

/// An address of a host with a port. `flowinfo` and `scope_id` belong to IPv6 and are 0 for IPv4.
#[derive(Clone, Copy, Debug, PartialEq, Eq, Structural, Hash)]
pub struct SocketAddr {
    pub ip: IpAddr,
    pub port: u16,
    pub flowinfo: u32,
    pub scope_id: u32,
}

/// The address that stands for every address of the host (`0.0.0.0` or `::`).
pub open spec fn unspecified(ip: IpAddr) -> bool {
    match ip {
        IpAddr::V4(a) => a == 0,
        IpAddr::V6(a) => a == 0,
    }
}

/// The loopback addresses: `127.0.0.0/8` and `::1`.
pub open spec fn loopback(ip: IpAddr) -> bool {
    match ip {
        IpAddr::V4(a) => v4_loopback(a),
        IpAddr::V6(a) => a == 1,
    }
}

/// `127.0.0.0/8`.
pub open spec fn v4_loopback(a: u32) -> bool {
    0x7f00_0000 <= a <= 0x7fff_ffff
}

/// The private networks `10.0.0.0/8`, `172.16.0.0/12` and `192.168.0.0/16`.
pub open spec fn v4_private(a: u32) -> bool {
    ||| 0x0a00_0000 <= a <= 0x0aff_ffff
    ||| 0xac10_0000 <= a <= 0xac1f_ffff
    ||| 0xc0a8_0000 <= a <= 0xc0a8_ffff
}

/// The link-local network `169.254.0.0/16`.
pub open spec fn v4_link_local(a: u32) -> bool {
    0xa9fe_0000 <= a <= 0xa9fe_ffff
}

/// The IPv4 address that an address of `::ffff:0:0/96` stands for.
pub open spec fn v4_mapped(a: u128) -> Option<u32> {
    if 0xffff_0000_0000 <= a <= 0xffff_ffff_ffff {
        Some((a - 0xffff_0000_0000) as u32)
    } else {
        None
    }
}

/// The IPv4 addresses that are not to be reached from outside: loopback, private, link-local,
/// broadcast and unspecified.
pub open spec fn v4_local(a: u32) -> bool {
    ||| v4_loopback(a)
    ||| v4_private(a)
    ||| v4_link_local(a)
    ||| a == 0xffff_ffff
    ||| a == 0
}

/// The link-local network `fe80::/10`.
pub open spec fn v6_link_local(a: u128) -> bool {
    0xfe80_0000_0000_0000_0000_0000_0000_0000 <= a <= 0xfebf_ffff_ffff_ffff_ffff_ffff_ffff_ffff
}

/// The private network `fc00::/7`.
pub open spec fn v6_private(a: u128) -> bool {
    0xfc00_0000_0000_0000_0000_0000_0000_0000 <= a <= 0xfdff_ffff_ffff_ffff_ffff_ffff_ffff_ffff
}

/// Addresses that are not to be reached from outside: loopback, private, link-local and
/// unspecified, broadcast of IPv4, and the IPv6 forms of the IPv4 ones.
pub open spec fn local(ip: IpAddr) -> bool {
    match ip {
        IpAddr::V4(a) => v4_local(a),
        IpAddr::V6(a) => {
            ||| a == 1
            ||| a == 0
            ||| v6_private(a)
            ||| v6_link_local(a)
            ||| match v4_mapped(a) {
                Some(m) => v4_local(m),
                None => false,
            }
        },
    }
}

impl IpAddr {
    /// Tests for the unspecified address.
    pub fn is_unspecified(&self) -> (r: bool)
        ensures
            r == unspecified(*self),
    {
        match self {
            IpAddr::V4(a) => *a == 0,
            IpAddr::V6(a) => *a == 0,
        }
    }

    /// Tests for a loopback address.
    pub fn is_loopback(&self) -> (r: bool)
        ensures
            r == loopback(*self),
    {
        match self {
            IpAddr::V4(a) => is_v4_loopback(*a),
            IpAddr::V6(a) => *a == 1,
        }
    }

    /// `127.0.0.1`.
    pub fn localhost() -> (r: IpAddr)
        ensures
            r == IpAddr::V4(0x7f00_0001),
    {
        IpAddr::V4(0x7f00_0001)
    }
}

impl SocketAddr {
    /// The address of a port of a host, without flow information or scope.
    pub fn new(ip: IpAddr, port: u16) -> (r: SocketAddr)
        ensures
            r == (SocketAddr { ip, port, flowinfo: 0, scope_id: 0 }),
    {
        SocketAddr { ip, port, flowinfo: 0, scope_id: 0 }
    }

    /// Tests for an IPv6 address.
    pub fn is_ipv6(&self) -> (r: bool)
        ensures
            r == (self.ip is V6),
    {
        match self.ip {
            IpAddr::V4(_) => false,
            IpAddr::V6(_) => true,
        }
    }
}

/// Tests for `127.0.0.0/8`.
pub fn is_v4_loopback(a: u32) -> (r: bool)
    ensures
        r == v4_loopback(a),
{
    0x7f00_0000 <= a && a <= 0x7fff_ffff
}

/// Tests for a private network.
pub fn is_v4_private(a: u32) -> (r: bool)
    ensures
        r == v4_private(a),
{
    (0x0a00_0000 <= a && a <= 0x0aff_ffff) || (0xac10_0000 <= a && a <= 0xac1f_ffff) || (
    0xc0a8_0000 <= a && a <= 0xc0a8_ffff)
}

/// Tests for the link-local network.
pub fn is_v4_link_local(a: u32) -> (r: bool)
    ensures
        r == v4_link_local(a),
{
    0xa9fe_0000 <= a && a <= 0xa9fe_ffff
}

/// Tests for an IPv4 address that is not to be reached from outside.
pub fn is_v4_local(a: u32) -> (r: bool)
    ensures
        r == v4_local(a),
{
    is_v4_loopback(a) || is_v4_private(a) || is_v4_link_local(a) || a == 0xffff_ffff || a == 0
}

/// Tests for the IPv6 link-local network.
pub fn is_v6_link_local(a: u128) -> (r: bool)
    ensures
        r == v6_link_local(a),
{
    0xfe80_0000_0000_0000_0000_0000_0000_0000 <= a && a
        <= 0xfebf_ffff_ffff_ffff_ffff_ffff_ffff_ffff
}

/// Tests for the IPv6 private network.
pub fn is_v6_private(a: u128) -> (r: bool)
    ensures
        r == v6_private(a),
{
    0xfc00_0000_0000_0000_0000_0000_0000_0000 <= a && a
        <= 0xfdff_ffff_ffff_ffff_ffff_ffff_ffff_ffff
}

/// Tests whether an address is in a list.
pub fn contains_ip(ips: &Vec<IpAddr>, ip: IpAddr) -> (r: bool)
    ensures
        r == ips@.contains(ip),
{
    let n: usize = ips.len();
    let mut i: usize = 0;
    while i < n
        invariant
            i <= n,
            n == ips@.len(),
            forall|k: int| 0 <= k < i ==> #[trigger] ips@[k] != ip,
        decreases n - i,
    {
        if ips[i] == ip {
            return true;
        }
        i += 1;
    }
    false
}

/// Which IPv4 addresses `a.b.c.d` are local: loopback is `127.*`, the private networks are
/// `10.*`, `172.16.*` to `172.31.*` and `192.168.*`, the link-local network is `169.254.*`, and
/// there are `255.255.255.255` and `0.0.0.0`; all others can be reached from outside.
pub proof fn law_local_v4(a: u8, b: u8, c: u8, d: u8)
    ensures
        ({
            let ip = IpAddr::V4((a * 0x100_0000 + b * 0x1_0000 + c * 0x100 + d) as u32);
            &&& local(ip) <==> {
                ||| a == 127
                ||| a == 10
                ||| a == 172 && 16 <= b <= 31
                ||| a == 192 && b == 168
                ||| a == 169 && b == 254
                ||| a == 255 && b == 255 && c == 255 && d == 255
                ||| a == 0 && b == 0 && c == 0 && d == 0
            }
            &&& loopback(ip) <==> a == 127
            &&& unspecified(ip) <==> a == 0 && b == 0 && c == 0 && d == 0
        }),
{
}

/// Which IPv6 addresses are local: `::` and `::1`, those whose first ten bits are those of `fe80`,
/// those whose first seven bits are those of `fc00`, and those that stand for a local IPv4
/// address, after 80 bits of zero and 16 bits of one; all others can be reached from outside.
pub proof fn law_local_v6(a: u128)
    ensures
        ({
            let first = a as int / 0x1_0000_0000_0000_0000_0000_0000_0000;
            let ip = IpAddr::V6(a);
            &&& local(ip) <==> {
                ||| a == 0
                ||| a == 1
                ||| first / 64 == 0xfe80int / 64
                ||| first / 512 == 0xfc00int / 512
                ||| a as int / 0x1_0000_0000 == 0xffff && local(
                    IpAddr::V4((a as int % 0x1_0000_0000) as u32),
                )
            }
            &&& loopback(ip) <==> a == 1
            &&& unspecified(ip) <==> a == 0
        }),
{
}

} // verus!
