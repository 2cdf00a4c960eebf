//! The addresses of the host, and those that are offered to peers.

use vstd::prelude::*;
use vstd::utf8::{decode_utf8, valid_utf8};

use crate::net::{contains_ip, loopback, unspecified, IpAddr, SocketAddr};
use crate::text::{
    join_text, law_join, law_join_undoes_split, lines, lines_of, same_text, split, split_at_char,
    split_whitespace, string_views, utf8_text, views, words_of,
};

verus! {

/// The address that a line of `ip -o addr show` lists, such as `2: eth0    inet 192.168.1.5/24`.
pub open spec fn listed_address(line: Seq<char>) -> Option<Seq<char>> {
    let parts = words_of(line);
    if parts.len() >= 4 && (parts[2] == "inet"@ || parts[2] == "inet6"@) {
        Some(split_at_char(parts[3], '/')[0])
    } else {
        None
    }
}

/// The addresses that lines list, in order.
pub open spec fn addresses_in(lines: Seq<Seq<char>>) -> Seq<Seq<char>>
    decreases lines.len(),
{
    if lines.len() == 0 {
        seq![]
    } else {
        let before = addresses_in(lines.drop_last());
        match listed_address(lines.last()) {
            Some(a) => before.push(a),
            None => before,
        }
    }
}

/// Reads the output of `ip -o addr show`: the text of each address that it lists, without the
/// length of the network's prefix. An output that is not text lists nothing.
pub fn listed_addresses(output: &Vec<u8>) -> (r: Vec<String>)
    ensures
        string_views(r@) == (if valid_utf8(output@) {
            addresses_in(lines_of(decode_utf8(output@)))
        } else {
            seq![]
        }),
{
    let mut r: Vec<String> = Vec::new();
    assert(string_views(r@) =~= seq![]);
    let text = match utf8_text(output.as_slice()) {
        Some(text) => text,
        None => {
            return r;
        },
    };
    let all = lines(text);
    let ghost given = views(all@);
    let n: usize = all.len();
    let mut i: usize = 0;
    assert(given.take(0) =~= seq![]);
    while i < n
        invariant
            i <= n,
            n == all@.len(),
            given == views(all@),
            string_views(r@) == addresses_in(given.take(i as int)),
        decreases n - i,
    {
        let ghost before = r@;
        assert(given.take(i + 1).drop_last() =~= given.take(i as int));
        assert(given.take(i + 1).last() == all@[i as int]@);
        let parts = split_whitespace(all[i]);
        assert(views(parts@).len() == parts@.len());
        assert(forall|k: int| 0 <= k < parts@.len() ==> views(parts@)[k] == parts@[k]@);
        if parts.len() >= 4 && (same_text(parts[2], "inet") || same_text(parts[2], "inet6")) {
            let pieces = split(parts[3], '/');
            assert(split_at_char(parts@[3]@, '/').len() > 0);
            assert(views(pieces@).len() == pieces@.len());
            assert(views(pieces@)[0] == pieces@[0]@);
            r.push(pieces[0].to_string());
            assert(string_views(r@) =~= string_views(before).push(pieces@[0]@));
        }
        i += 1;
    }
    assert(given.take(n as int) =~= given);
    r
}

/// The addresses of the host: loopback, the one that the default route goes out from where it is
/// a proper one, and those listed that are proper addresses, each once.
pub open spec fn host_ips(default_ip: Option<IpAddr>, listed: Seq<Option<IpAddr>>) -> Seq<IpAddr>
    decreases listed.len(),
{
    if listed.len() == 0 {
        let first = seq![IpAddr::V4(0x7f00_0001)];
        match default_ip {
            Some(ip) if !unspecified(ip) && !loopback(ip) => first.push(ip),
            _ => first,
        }
    } else {
        let before = host_ips(default_ip, listed.drop_last());
        match listed.last() {
            Some(ip) if !unspecified(ip) && !before.contains(ip) => before.push(ip),
            _ => before,
        }
    }
}

/// Gather all non-unspecified IP addresses from local network interfaces. `default_ip` is the
/// address that the default route goes out from, and `listed` has the addresses of the
/// interfaces, `None` for one that is not well-formed.
pub fn gather_local_ips(default_ip: Option<IpAddr>, listed: &Vec<Option<IpAddr>>) -> (r: Vec<
    IpAddr,
>)
    ensures
        r@ == host_ips(default_ip, listed@),
{
    let mut ips: Vec<IpAddr> = Vec::new();
    ips.push(IpAddr::localhost());
    if let Some(ip) = default_ip {
        if !ip.is_unspecified() && !ip.is_loopback() {
            ips.push(ip);
        }
    }
    let n: usize = listed.len();
    let mut i: usize = 0;
    assert(listed@.take(0) =~= seq![]);
    assert(ips@ =~= host_ips(default_ip, seq![]));
    while i < n
        invariant
            i <= n,
            n == listed@.len(),
            ips@ == host_ips(default_ip, listed@.take(i as int)),
        decreases n - i,
    {
        assert(listed@.take(i + 1).drop_last() =~= listed@.take(i as int));
        if let Some(ip) = listed[i] {
            if !ip.is_unspecified() && !contains_ip(&ips, ip) {
                ips.push(ip);
            }
        }
        i += 1;
    }
    assert(listed@.take(n as int) =~= listed@);
    ips
}

/// The addresses of the host always have loopback first, never have the unspecified address, and
/// have none twice.
pub proof fn law_host_ips(default_ip: Option<IpAddr>, listed: Seq<Option<IpAddr>>)
    ensures
        ({
            let ips = host_ips(default_ip, listed);
            &&& ips.len() > 0 && ips[0] == IpAddr::V4(0x7f00_0001)
            &&& ips.no_duplicates()
            &&& forall|i: int| 0 <= i < ips.len() ==> !unspecified(#[trigger] ips[i])
            &&& forall|i: int|
                0 <= i < listed.len() ==> ((#[trigger] listed[i]) matches Some(ip) ==> unspecified(
                    ip,
                ) || ips.contains(ip))
        }),
    decreases listed.len(),
{
    if listed.len() > 0 {
        let head = listed.drop_last();
        law_host_ips(default_ip, head);
        let before = host_ips(default_ip, head);
        let ips = host_ips(default_ip, listed);
        assert forall|i: int| 0 <= i < listed.len() implies ((#[trigger] listed[i]) matches Some(ip)
            ==> unspecified(ip) || ips.contains(ip)) by {
            if let Some(ip) = listed[i] {
                if i < head.len() {
                    assert(head[i] == listed[i]);
                    if before.contains(ip) {
                        let k = choose|k: int| 0 <= k < before.len() && before[k] == ip;
                        assert(ips[k] == ip);
                    }
                } else if !unspecified(ip) && !before.contains(ip) {
                    assert(ips[ips.len() - 1] == ip);
                }
            }
        }
    }
}

/// The addresses to which a datagram may have been sent: where the socket is bound to every
/// address, those of the host; otherwise the one it is bound to.
pub open spec fn destinations(local_addr: SocketAddr, gathered: Seq<IpAddr>) -> Seq<SocketAddr> {
    let ips = if unspecified(local_addr.ip) {
        gathered
    } else {
        seq![local_addr.ip]
    };
    ips.map_values(|ip: IpAddr| SocketAddr { ip, port: local_addr.port, flowinfo: 0, scope_id: 0 })
}

/// The addresses to which a datagram may have been sent.
pub fn receive_addresses(local_addr: SocketAddr, gathered: &Vec<IpAddr>) -> (r: Vec<SocketAddr>)
    ensures
        r@ == destinations(local_addr, gathered@),
{
    let mut r: Vec<SocketAddr> = Vec::new();
    if local_addr.ip.is_unspecified() {
        let n: usize = gathered.len();
        let mut i: usize = 0;
        while i < n
            invariant
                i <= n,
                n == gathered@.len(),
                unspecified(local_addr.ip),
                r@ == destinations(local_addr, gathered@).take(i as int),
            decreases n - i,
        {
            r.push(SocketAddr::new(gathered[i], local_addr.port));
            i += 1;
        }
    } else {
        r.push(SocketAddr::new(local_addr.ip, local_addr.port));
    }
    assert(r@ =~= destinations(local_addr, gathered@));
    r
}

/// The addresses without those that came before.
pub open spec fn distinct_ips(ips: Seq<IpAddr>) -> Seq<IpAddr>
    decreases ips.len(),
{
    if ips.len() == 0 {
        seq![]
    } else {
        let before = distinct_ips(ips.drop_last());
        if before.contains(ips.last()) {
            before
        } else {
            before.push(ips.last())
        }
    }
}

/// The host candidates that are offered to a peer: where the socket is bound to every address,
/// those of the host and the one that the peer came from, each once; otherwise the one it is
/// bound to.
pub open spec fn candidates(
    local_addr: Option<SocketAddr>,
    gathered: Seq<IpAddr>,
    peer_ip: IpAddr,
) -> Seq<SocketAddr> {
    match local_addr {
        None => seq![],
        Some(addr) => if unspecified(addr.ip) {
            distinct_ips(gathered.push(peer_ip)).map_values(
                |ip: IpAddr| SocketAddr { ip, port: addr.port, flowinfo: 0, scope_id: 0 },
            )
        } else {
            seq![addr]
        },
    }
}

/// The host candidates that are offered to a peer.
pub fn host_candidates(
    local_addr: Option<SocketAddr>,
    gathered: &Vec<IpAddr>,
    peer_ip: IpAddr,
) -> (r: Vec<SocketAddr>)
    ensures
        r@ == candidates(local_addr, gathered@, peer_ip),
{
    let mut r: Vec<SocketAddr> = Vec::new();
    if let Some(addr) = local_addr {
        if addr.ip.is_unspecified() {
            let ghost all = gathered@.push(peer_ip);
            let mut added: Vec<IpAddr> = Vec::new();
            let n: usize = gathered.len();
            let mut i: usize = 0;
            assert(all.take(0) =~= seq![]);
            while i < n
                invariant
                    i <= n,
                    n == gathered@.len(),
                    all == gathered@.push(peer_ip),
                    added@ == distinct_ips(all.take(i as int)),
                decreases n - i,
            {
                assert(all.take(i + 1).drop_last() =~= all.take(i as int));
                if !contains_ip(&added, gathered[i]) {
                    added.push(gathered[i]);
                }
                i += 1;
            }
            assert(all.drop_last() =~= all.take(n as int));
            if !contains_ip(&added, peer_ip) {
                added.push(peer_ip);
            }
            assert(added@ == distinct_ips(all));
            r = receive_addresses(addr, &added);
        } else {
            r.push(addr);
        }
    }
    assert(r@ =~= candidates(local_addr, gathered@, peer_ip));
    r
}

proof fn lemma_distinct_ips(ips: Seq<IpAddr>, ip: IpAddr)
    ensures
        distinct_ips(ips).no_duplicates(),
        distinct_ips(ips).contains(ip) <==> ips.contains(ip),
    decreases ips.len(),
{
    if ips.len() > 0 {
        let head = ips.drop_last();
        let before = distinct_ips(head);
        lemma_distinct_ips(head, ip);
        if ips.contains(ip) && ip != ips.last() {
            let k = choose|k: int| 0 <= k < ips.len() && ips[k] == ip;
            assert(head[k] == ip);
        }
        if head.contains(ip) {
            let k = choose|k: int| 0 <= k < head.len() && head[k] == ip;
            assert(ips[k] == ip);
        }
        assert(ips[ips.len() - 1] == ips.last());
        if !before.contains(ips.last()) {
            let after = before.push(ips.last());
            assert(after[after.len() - 1] == ips.last());
            if before.contains(ip) {
                let k = choose|k: int| 0 <= k < before.len() && before[k] == ip;
                assert(after[k] == ip);
            }
            if after.contains(ip) && ip != ips.last() {
                let k = choose|k: int| 0 <= k < after.len() && after[k] == ip;
                assert(before[k] == ip);
            }
        }
    }
}

/// A socket that is bound to every address is offered at each address of the host and at the one
/// that the peer came from, each once, and at no other.
pub proof fn law_candidates_cover(
    local_addr: SocketAddr,
    gathered: Seq<IpAddr>,
    peer_ip: IpAddr,
    ip: IpAddr,
)
    requires
        unspecified(local_addr.ip),
    ensures
        ({
            let c = candidates(Some(local_addr), gathered, peer_ip);
            let addr = SocketAddr { ip, port: local_addr.port, flowinfo: 0, scope_id: 0 };
            &&& c.no_duplicates()
            &&& c.contains(addr) <==> gathered.contains(ip) || ip == peer_ip
        }),
{
    let all = gathered.push(peer_ip);
    let d = distinct_ips(all);
    let c = candidates(Some(local_addr), gathered, peer_ip);
    let addr = SocketAddr { ip, port: local_addr.port, flowinfo: 0, scope_id: 0 };
    lemma_distinct_ips(all, ip);
    assert(all[all.len() - 1] == peer_ip);
    if gathered.contains(ip) {
        let k = choose|k: int| 0 <= k < gathered.len() && gathered[k] == ip;
        assert(all[k] == ip);
    }
    if all.contains(ip) && ip != peer_ip {
        let k = choose|k: int| 0 <= k < all.len() && all[k] == ip;
        assert(gathered[k] == ip);
    }
    assert(c.len() == d.len());
    assert(forall|k: int| 0 <= k < c.len() ==> (#[trigger] c[k]).ip == d[k]);
    if d.contains(ip) {
        let k = choose|k: int| 0 <= k < d.len() && d[k] == ip;
        assert(c[k] == addr);
    }
    if c.contains(addr) {
        let k = choose|k: int| 0 <= k < c.len() && c[k] == addr;
        assert(d[k] == ip);
    }
}

/// A line lists an address exactly where it has four words or more, of which the third is `inet`
/// or `inet6`: the fourth, up to a slash where it has one.
pub proof fn law_listed_address(line: Seq<char>)
    ensures
        ({
            let words = words_of(line);
            match listed_address(line) {
                None => words.len() < 4 || words[2] != "inet"@ && words[2] != "inet6"@,
                Some(address) => {
                    &&& words.len() >= 4
                    &&& words[2] == "inet"@ || words[2] == "inet6"@
                    &&& !address.contains('/')
                    &&& words[3] == address || exists|rest: Seq<char>|
                        words[3] == #[trigger] (address.push('/') + rest)
                },
            }
        }),
{
    let words = words_of(line);
    if let Some(address) = listed_address(line) {
        let pieces = split_at_char(words[3], '/');
        law_join_undoes_split(words[3], '/');
        assert(pieces[0] == address);
        if pieces.len() == 1 {
            assert(pieces =~= seq![address]);
            law_join(pieces, pieces, seq!['/'], address);
        } else {
            let rest = pieces.drop_first();
            assert(pieces =~= seq![address] + rest);
            law_join(seq![address], rest, seq!['/'], address);
            let tail = join_text(rest, seq!['/']);
            assert(words[3] =~= address.push('/') + tail);
        }
    }
}

/// The addresses that lines list are those of each line, in order, whatever the other lines are.
pub proof fn law_addresses_in(first: Seq<Seq<char>>, second: Seq<Seq<char>>, line: Seq<char>)
    ensures
        addresses_in(first + second) == addresses_in(first) + addresses_in(second),
        addresses_in(seq![line]) == (match listed_address(line) {
            Some(a) => seq![a],
            None => seq![],
        }),
        addresses_in(Seq::<Seq<char>>::empty()) == Seq::<Seq<char>>::empty(),
    decreases second.len(),
{
    reveal_with_fuel(addresses_in, 2);
    assert(seq![line].drop_last() =~= Seq::<Seq<char>>::empty());
    assert(addresses_in(seq![line]) =~= (match listed_address(line) {
        Some(a) => seq![a],
        None => seq![],
    }));
    let all = first + second;
    if second.len() == 0 {
        assert(all =~= first);
        assert(addresses_in(first) + addresses_in(second) =~= addresses_in(first));
    } else {
        law_addresses_in(first, second.drop_last(), line);
        assert(all.drop_last() =~= first + second.drop_last());
        assert(addresses_in(all) =~= addresses_in(first) + addresses_in(second));
    }
}

/// The addresses of the host are loopback, the one of the default route where it is a proper one,
/// and every proper one that is listed; there are no others.
pub proof fn law_host_ips_are_these(
    default_ip: Option<IpAddr>,
    listed: Seq<Option<IpAddr>>,
    ip: IpAddr,
)
    ensures
        host_ips(default_ip, listed).contains(ip) <==> {
            ||| ip == IpAddr::V4(0x7f00_0001)
            ||| default_ip == Some(ip) && !unspecified(ip) && !loopback(ip)
            ||| listed.contains(Some(ip)) && !unspecified(ip)
        },
    decreases listed.len(),
{
    let ips = host_ips(default_ip, listed);
    if listed.len() == 0 {
        assert(ips[0] == IpAddr::V4(0x7f00_0001));
        if default_ip == Some(ip) && !unspecified(ip) && !loopback(ip) {
            assert(ips[1] == ip);
        }
    } else {
        let head = listed.drop_last();
        let before = host_ips(default_ip, head);
        law_host_ips_are_these(default_ip, head, ip);
        assert(listed[listed.len() - 1] == listed.last());
        if head.contains(Some(ip)) {
            let k = choose|k: int| 0 <= k < head.len() && head[k] == Some(ip);
            assert(listed[k] == Some(ip));
        }
        if listed.contains(Some(ip)) && listed.last() != Some(ip) {
            let k = choose|k: int| 0 <= k < listed.len() && listed[k] == Some(ip);
            assert(head[k] == Some(ip));
        }
        if before.contains(ip) {
            let k = choose|k: int| 0 <= k < before.len() && before[k] == ip;
            assert(ips[k] == ip);
        }
        if ips.contains(ip) && !before.contains(ip) {
            let k = choose|k: int| 0 <= k < ips.len() && ips[k] == ip;
            if k < before.len() {
                assert(before[k] == ip);
            }
        }
        if listed.last() == Some(ip) && !unspecified(ip) && !before.contains(ip) {
            assert(ips[ips.len() - 1] == ip);
        }
    }
}

/// A datagram may have been sent to each address of the host, in their order, where the socket is
/// bound to every address, and else to the one that it is bound to, always at the port of the
/// socket.
pub proof fn law_destinations(local_addr: SocketAddr, gathered: Seq<IpAddr>, i: int)
    ensures
        ({
            let d = destinations(local_addr, gathered);
            &&& unspecified(local_addr.ip) ==> d.len() == gathered.len() && (0 <= i < d.len()
                ==> d[i].ip == gathered[i])
            &&& !unspecified(local_addr.ip) ==> d.len() == 1 && d[0].ip == local_addr.ip
            &&& 0 <= i < d.len() ==> d[i].port == local_addr.port && d[i].flowinfo == 0
                && d[i].scope_id == 0
        }),
{
}

/// A socket that is bound to one address is offered at that address and at no other; where there
/// is no socket nothing is offered. Every candidate has the port of the socket.
pub proof fn law_candidates_of_one(
    local_addr: SocketAddr,
    gathered: Seq<IpAddr>,
    peer_ip: IpAddr,
    i: int,
)
    ensures
        !unspecified(local_addr.ip) ==> candidates(Some(local_addr), gathered, peer_ip) == seq![
            local_addr,
        ],
        candidates(None, gathered, peer_ip).len() == 0,
        0 <= i < candidates(Some(local_addr), gathered, peer_ip).len() ==> candidates(
            Some(local_addr),
            gathered,
            peer_ip,
        )[i].port == local_addr.port,
{
}

} // verus!
