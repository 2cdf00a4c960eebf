//! WebSocket-to-TCP relay.
//!
//! Decides which WebSocket upgrades at `/socket/{ip}:{port}` are relayed to the TCP address they
//! name. This enables browser clients (which cannot open raw TCP sockets) to reach Tor relays.
//!
//! Only targets present in the current consensus relay allowlist are permitted. Local/private
//! IPs are also rejected as a defence-in-depth measure.
//!
//! Connections are subject to configurable limits: max total connections, per-IP cap, idle
//! timeout, and max lifetime.

use std::collections::HashMap;
use vstd::prelude::*;

use crate::http::{text_reply, BodyView, Reply, ReplyView};
use crate::net::{is_v4_local, is_v6_link_local, is_v6_private, local, IpAddr, SocketAddr};
use crate::time::{Duration, NANOS_PER_SEC};

verus! {

broadcast use vstd::std_specs::hash::group_hash_axioms;

/// The set of relay addresses from the current consensus.
#[derive(Debug)]
pub struct RelayAllowlist {
    addrs: Vec<SocketAddr>,
}

impl View for RelayAllowlist {
    type V = Set<SocketAddr>;

    closed spec fn view(&self) -> Set<SocketAddr> {
        self.addrs@.to_set()
    }
}

impl RelayAllowlist {
    /// A list that permits nothing.
    pub fn new() -> (r: RelayAllowlist)
        ensures
            r@ == Set::<SocketAddr>::empty(),
    {
        let r = RelayAllowlist { addrs: Vec::new() };
        assert(r@ =~= Set::empty());
        r
    }

    /// Permits these addresses and no others.
    pub fn replace(&mut self, addrs: Vec<SocketAddr>)
        ensures
            final(self)@ == addrs@.to_set(),
    {
        self.addrs = addrs;
    }

    /// Permits the addresses of a list and no others; what is no address is passed over.
    pub fn permit(&mut self, listed: &Vec<Option<SocketAddr>>)
        ensures
            forall|a: SocketAddr| #[trigger]
                final(self)@.contains(a) <==> listed@.contains(Some(a)),
    {
        let mut addrs: Vec<SocketAddr> = Vec::new();
        let n: usize = listed.len();
        let mut i: usize = 0;
        while i < n
            invariant
                i <= n,
                n == listed@.len(),
                forall|a: SocketAddr| #[trigger]
                    addrs@.contains(a) <==> listed@.take(i as int).contains(Some(a)),
            decreases n - i,
        {
            let ghost before = addrs@;
            let ghost head = listed@.take(i as int);
            let ghost more = listed@.take(i + 1);
            assert(more =~= head.push(listed@[i as int]));
            if let Some(addr) = listed[i] {
                addrs.push(addr);
            }
            assert forall|a: SocketAddr| #[trigger] addrs@.contains(a) <==> more.contains(
                Some(a),
            ) by {
                if before.contains(a) {
                    let k = choose|k: int| 0 <= k < before.len() && before[k] == a;
                    assert(addrs@[k] == a);
                }
                if head.contains(Some(a)) {
                    let k = choose|k: int| 0 <= k < head.len() && head[k] == Some(a);
                    assert(more[k] == Some(a));
                }
                if addrs@.contains(a) && !before.contains(a) {
                    let k = choose|k: int| 0 <= k < addrs@.len() && addrs@[k] == a;
                    if k < before.len() {
                        assert(before[k] == a);
                    }
                    assert(more[i as int] == Some(a));
                }
                if more.contains(Some(a)) && !head.contains(Some(a)) {
                    let k = choose|k: int| 0 <= k < more.len() && more[k] == Some(a);
                    if k < head.len() {
                        assert(head[k] == Some(a));
                    }
                    assert(addrs@[addrs@.len() - 1] == a);
                }
            }
            i += 1;
        }
        assert(listed@.take(n as int) =~= listed@);
        self.replace(addrs);
    }

    /// Tests whether an address is permitted.
    pub fn contains(&self, addr: SocketAddr) -> (r: bool)
        ensures
            r == self@.contains(addr),
    {
        let n: usize = self.addrs.len();
        let mut i: usize = 0;
        while i < n
            invariant
                i <= n,
                n == self.addrs@.len(),
                forall|k: int| 0 <= k < i ==> #[trigger] self.addrs@[k] != addr,
            decreases n - i,
        {
            if self.addrs[i] == addr {
                assert(self.addrs@.contains(self.addrs@[i as int]));
                return true;
            }
            i += 1;
        }
        assert(!self.addrs@.contains(addr));
        false
    }
}

/// Configuration for WS relay limits.
#[derive(Clone, Copy, Debug)]
pub struct WsLimits {
    pub max_connections: usize,
    pub per_ip_limit: usize,
    pub idle_timeout: Duration,
    pub max_lifetime: Duration,
}

/// The limits that hold where nothing else is configured: 8192 connections, 16 of one address,
/// five minutes without traffic, an hour in all.
pub open spec fn default_limits() -> WsLimits {
    WsLimits {
        max_connections: 8192,
        per_ip_limit: 16,
        idle_timeout: Duration { nanos: (300 * NANOS_PER_SEC) as u128 },
        max_lifetime: Duration { nanos: (3600 * NANOS_PER_SEC) as u128 },
    }
}

impl Default for WsLimits {
    fn default() -> (r: Self)
        ensures
            r == default_limits(),
    {
        WsLimits {
            max_connections: 8192,
            per_ip_limit: 16,
            idle_timeout: Duration::from_secs(300),
            max_lifetime: Duration::from_secs(3600),
        }
    }
}

/// The number that a map has for a key, 0 where it has none.
pub open spec fn count_of<K>(m: Map<K, usize>, k: K) -> nat {
    if m.contains_key(k) {
        m[k] as nat
    } else {
        0
    }
}

/// The sum of the numbers of a map.
pub open spec fn sum_of<K>(m: Map<K, usize>) -> nat
    decreases m.dom().len(),
{
    if m.dom().len() == 0 || !m.dom().finite() {
        0
    } else {
        let k = m.dom().choose();
        m[k] as nat + sum_of(m.remove(k))
    }
}

/// Which key is taken out first does not matter to the sum.
proof fn lemma_sum_remove<K>(m: Map<K, usize>, k: K)
    requires
        m.dom().finite(),
        m.contains_key(k),
    ensures
        sum_of(m) == m[k] + sum_of(m.remove(k)),
    decreases m.dom().len(),
{
    let c = m.dom().choose();
    if c != k {
        assert(m.remove(c).remove(k) =~= m.remove(k).remove(c));
        lemma_sum_remove(m.remove(c), k);
        lemma_sum_remove(m.remove(k), c);
    }
}

/// What an entry adds to the sum.
proof fn lemma_sum_insert<K>(m: Map<K, usize>, k: K, v: usize)
    requires
        m.dom().finite(),
    ensures
        sum_of(m.insert(k, v)) + count_of(m, k) == sum_of(m) + v,
        sum_of(m.remove(k)) + count_of(m, k) == sum_of(m),
{
    lemma_sum_remove(m.insert(k, v), k);
    if m.contains_key(k) {
        lemma_sum_remove(m, k);
        assert(m.insert(k, v).remove(k) =~= m.remove(k));
    } else {
        assert(m.insert(k, v).remove(k) =~= m);
        assert(m.remove(k) =~= m);
    }
}

/// How often an address is in a list.
pub open spec fn occurrences(ips: Seq<IpAddr>, ip: IpAddr) -> nat
    decreases ips.len(),
{
    if ips.len() == 0 {
        0
    } else {
        occurrences(ips.drop_last(), ip) + (if ips.last() == ip {
            1nat
        } else {
            0
        })
    }
}

/// Tracks active WS connections globally and per-IP.
pub struct ConnectionTracker {
    total: usize,
    per_v4: HashMap<u32, usize>,
    per_v6: HashMap<u128, usize>,
}

impl ConnectionTracker {
    /// The number of slots taken.
    pub closed spec fn total(self) -> nat {
        self.total as nat
    }

    /// The number of slots that an address has taken.
    pub closed spec fn held(self, ip: IpAddr) -> nat {
        match ip {
            IpAddr::V4(a) => count_of(self.per_v4@, a),
            IpAddr::V6(a) => count_of(self.per_v6@, a),
        }
    }

    /// Every slot taken is held by an address: the total is the sum over all addresses.
    pub closed spec fn balanced(self) -> bool {
        self.total == sum_of(self.per_v4@) + sum_of(self.per_v6@)
    }

    /// No more slots taken than the limits allow.
    pub open spec fn within(self, limits: WsLimits) -> bool {
        &&& self.total() <= limits.max_connections
        &&& forall|ip: IpAddr| #[trigger] self.held(ip) <= limits.per_ip_limit
    }

    /// The same slots taken.
    pub open spec fn same_as(self, other: ConnectionTracker) -> bool {
        &&& self.total() == other.total()
        &&& forall|ip: IpAddr| #[trigger] self.held(ip) == other.held(ip)
        &&& self.balanced() == other.balanced()
    }

    /// Whether an address may take a slot.
    pub open spec fn admits(self, ip: IpAddr, limits: WsLimits) -> bool {
        self.total() < limits.max_connections && self.held(ip) < limits.per_ip_limit
    }

    /// The state after `ip` has taken `n` slots more than in `before`.
    pub open spec fn takes(self, before: ConnectionTracker, ip: IpAddr, n: nat) -> bool {
        &&& self.total() == before.total() + n
        &&& forall|a: IpAddr| #[trigger]
            self.held(a) == before.held(a) + (if a == ip {
                n
            } else {
                0
            })
        &&& before.balanced() ==> self.balanced()
    }

    /// The state after `ip` has given back one slot. The total wraps around at 0; an address
    /// that holds nothing keeps holding nothing.
    pub open spec fn gives_back(self, before: ConnectionTracker, ip: IpAddr) -> bool {
        &&& self.total() == (if before.total() == 0 {
            usize::MAX as nat
        } else {
            (before.total() - 1) as nat
        })
        &&& forall|a: IpAddr| #[trigger]
            self.held(a) == (if a == ip && before.held(a) > 0 {
                (before.held(a) - 1) as nat
            } else {
                before.held(a)
            })
        &&& before.balanced() && before.held(ip) > 0 ==> self.balanced()
    }

    /// The state after each of these addresses has given back a slot, one after the other.
    pub open spec fn gives_back_each(self, before: ConnectionTracker, ips: Seq<IpAddr>) -> bool {
        &&& self.total() == (before.total() - ips.len()) % (usize::MAX + 1)
        &&& forall|a: IpAddr| #[trigger]
            self.held(a) == (if before.held(a) >= occurrences(ips, a) {
                (before.held(a) - occurrences(ips, a)) as nat
            } else {
                0
            })
        &&& before.balanced() && (forall|a: IpAddr| #[trigger]
            occurrences(ips, a) <= before.held(a)) ==> self.balanced()
    }

    /// A tracker with no slot taken.
    pub fn new() -> (r: Self)
        ensures
            r.total() == 0,
            forall|ip: IpAddr| #[trigger] r.held(ip) == 0,
            r.balanced(),
    {
        ConnectionTracker { total: 0, per_v4: HashMap::new(), per_v6: HashMap::new() }
    }

    /// The number of slots that an address has taken.
    pub fn count(&self, ip: IpAddr) -> (r: usize)
        ensures
            r == self.held(ip),
    {
        let found = match ip {
            IpAddr::V4(a) => self.per_v4.get(&a),
            IpAddr::V6(a) => self.per_v6.get(&a),
        };
        match found {
            Some(n) => *n,
            None => 0,
        }
    }

    /// The number of slots taken.
    pub fn active(&self) -> (r: usize)
        ensures
            r == self.total(),
    {
        self.total
    }

    fn set_count(&mut self, ip: IpAddr, n: usize)
        ensures
            final(self).total == old(self).total,
            forall|a: IpAddr| #[trigger]
                final(self).held(a) == (if a == ip {
                    n as nat
                } else {
                    old(self).held(a)
                }),
            sum_of(final(self).per_v4@) + sum_of(final(self).per_v6@) + old(self).held(ip)
                == sum_of(old(self).per_v4@) + sum_of(old(self).per_v6@) + n,
    {
        match ip {
            IpAddr::V4(a) => {
                proof {
                    lemma_sum_insert(self.per_v4@, a, n);
                }
                if n == 0 {
                    self.per_v4.remove(&a);
                } else {
                    self.per_v4.insert(a, n);
                }
            },
            IpAddr::V6(a) => {
                proof {
                    lemma_sum_insert(self.per_v6@, a, n);
                }
                if n == 0 {
                    self.per_v6.remove(&a);
                } else {
                    self.per_v6.insert(a, n);
                }
            },
        }
    }

    /// Try to acquire a slot. Returns false if a limit would be exceeded.
    pub fn acquire(&mut self, ip: IpAddr, limits: &WsLimits) -> (r: bool)
        ensures
            r == old(self).admits(ip, *limits),
            r ==> final(self).takes(*old(self), ip, 1),
            !r ==> final(self).same_as(*old(self)),
            old(self).within(*limits) ==> final(self).within(*limits),
    {
        if self.total >= limits.max_connections {
            return false;
        }
        let count: usize = self.count(ip);
        if count >= limits.per_ip_limit {
            return false;
        }
        self.total = self.total + 1;
        self.set_count(ip, count + 1);
        true
    }

    /// Give back a slot.
    pub fn release(&mut self, ip: IpAddr)
        ensures
            final(self).gives_back(*old(self), ip),
    {
        self.total = self.total.wrapping_sub(1);
        let count: usize = self.count(ip);
        if count > 0 {
            proof {
                lemma_held_in_sum(*self, ip);
            }
            self.set_count(ip, count - 1);
        }
    }
}

/// An address holds no more slots than all addresses together.
proof fn lemma_held_in_sum(t: ConnectionTracker, ip: IpAddr)
    ensures
        t.held(ip) <= sum_of(t.per_v4@) + sum_of(t.per_v6@),
{
    match ip {
        IpAddr::V4(a) => {
            lemma_sum_insert(t.per_v4@, a, 0);
        },
        IpAddr::V6(a) => {
            lemma_sum_insert(t.per_v6@, a, 0);
        },
    }
}

/// No address holds more slots than are taken in all.
pub proof fn law_held_within_total(t: ConnectionTracker, ip: IpAddr)
    requires
        t.balanced(),
    ensures
        t.held(ip) <= t.total(),
{
    lemma_held_in_sum(t, ip);
}

/// Giving back a slot that is held keeps the limits.
pub proof fn law_release_keeps_limits(
    before: ConnectionTracker,
    after: ConnectionTracker,
    ip: IpAddr,
    limits: WsLimits,
)
    requires
        before.balanced(),
        before.within(limits),
        before.held(ip) > 0,
        after.gives_back(before, ip),
    ensures
        after.within(limits),
        after.balanced(),
{
    law_held_within_total(before, ip);
    assert forall|a: IpAddr| #[trigger] after.held(a) <= limits.per_ip_limit by {
        assert(before.held(a) <= limits.per_ip_limit);
    }
}

/// Giving back a slot undoes taking it.
pub proof fn law_release_undoes_acquire(
    before: ConnectionTracker,
    during: ConnectionTracker,
    after: ConnectionTracker,
    ip: IpAddr,
)
    requires
        before.balanced(),
        during.takes(before, ip, 1),
        after.gives_back(during, ip),
    ensures
        after.same_as(before),
{
    assert(during.held(ip) == before.held(ip) + 1);
    assert(after.balanced());
    assert forall|a: IpAddr| #[trigger] after.held(a) == before.held(a) by {
        assert(during.held(a) == before.held(a) + (if a == ip {
            1nat
        } else {
            0
        }));
    }
}

/// One slot more given back.
pub proof fn lemma_gives_back_next(
    before: ConnectionTracker,
    during: ConnectionTracker,
    after: ConnectionTracker,
    ips: Seq<IpAddr>,
    ip: IpAddr,
)
    requires
        during.gives_back_each(before, ips),
        after.gives_back(during, ip),
    ensures
        after.gives_back_each(before, ips.push(ip)),
{
    let more = ips.push(ip);
    assert(more.drop_last() =~= ips);
    let m = usize::MAX + 1;
    let x = before.total() - ips.len();
    let q = x / m;
    vstd::arithmetic::div_mod::lemma_fundamental_div_mod(x, m);
    if x % m == 0 {
        assert(x - 1 == (q - 1) * m + (m - 1)) by (nonlinear_arith)
            requires
                x == m * q,
        ;
        vstd::arithmetic::div_mod::lemma_fundamental_div_mod_converse(x - 1, m, q - 1, m - 1);
    } else {
        assert(x - 1 == q * m + (x % m - 1)) by (nonlinear_arith)
            requires
                x == m * q + x % m,
        ;
        vstd::arithmetic::div_mod::lemma_fundamental_div_mod_converse(x - 1, m, q, x % m - 1);
    }
    assert forall|a: IpAddr| #[trigger]
        after.held(a) == (if before.held(a) >= occurrences(more, a) {
            (before.held(a) - occurrences(more, a)) as nat
        } else {
            0
        }) by {
        assert(during.held(a) == (if before.held(a) >= occurrences(ips, a) {
            (before.held(a) - occurrences(ips, a)) as nat
        } else {
            0
        }));
    }
    if before.balanced() && (forall|a: IpAddr| #[trigger]
        occurrences(more, a) <= before.held(a)) {
        assert forall|a: IpAddr| #[trigger] occurrences(ips, a) <= before.held(a) by {
            assert(occurrences(more, a) <= before.held(a));
        }
        assert(occurrences(more, ip) <= before.held(ip));
        assert(during.held(ip) > 0);
    }
}

/// Some slots given back, and then some more.
pub proof fn lemma_gives_back_append(
    before: ConnectionTracker,
    during: ConnectionTracker,
    after: ConnectionTracker,
    first: Seq<IpAddr>,
    second: Seq<IpAddr>,
)
    requires
        during.gives_back_each(before, first),
        after.gives_back_each(during, second),
    ensures
        after.gives_back_each(before, first + second),
{
    let all = first + second;
    let m = usize::MAX + 1;
    let x = before.total() - first.len();
    let k = second.len() as int;
    vstd::arithmetic::div_mod::lemma_sub_mod_noop(x, k, m);
    vstd::arithmetic::div_mod::lemma_sub_mod_noop(x % m, k, m);
    vstd::arithmetic::div_mod::lemma_mod_twice(x, m);
    assert forall|a: IpAddr| #[trigger]
        after.held(a) == (if before.held(a) >= occurrences(all, a) {
            (before.held(a) - occurrences(all, a)) as nat
        } else {
            0
        }) by {
        lemma_occurrences_append(first, second, a);
        assert(during.held(a) == (if before.held(a) >= occurrences(first, a) {
            (before.held(a) - occurrences(first, a)) as nat
        } else {
            0
        }));
    }
    if before.balanced() && (forall|a: IpAddr| #[trigger]
        occurrences(all, a) <= before.held(a)) {
        assert forall|a: IpAddr| #[trigger] occurrences(first, a) <= before.held(a) by {
            lemma_occurrences_append(first, second, a);
            assert(occurrences(all, a) <= before.held(a));
        }
        assert forall|a: IpAddr| #[trigger] occurrences(second, a) <= during.held(a) by {
            lemma_occurrences_append(first, second, a);
            assert(occurrences(all, a) <= before.held(a));
        }
    }
}

/// As many slots as addresses give back were taken, where each holds what it gives back.
pub proof fn lemma_given_back_within_total(t: ConnectionTracker, ips: Seq<IpAddr>)
    requires
        t.balanced(),
        forall|a: IpAddr| #[trigger] occurrences(ips, a) <= t.held(a),
    ensures
        ips.len() <= t.total(),
{
    assert forall|a: u32| #[trigger] occurrences(ips, IpAddr::V4(a)) <= count_of(t.per_v4@, a) by {
        assert(occurrences(ips, IpAddr::V4(a)) <= t.held(IpAddr::V4(a)));
    }
    assert forall|a: u128| #[trigger] occurrences(ips, IpAddr::V6(a)) <= count_of(t.per_v6@, a) by {
        assert(occurrences(ips, IpAddr::V6(a)) <= t.held(IpAddr::V6(a)));
    }
    lemma_list_within_sums(t.per_v4@, t.per_v6@, ips);
}

proof fn lemma_list_within_sums(m4: Map<u32, usize>, m6: Map<u128, usize>, ips: Seq<IpAddr>)
    requires
        m4.dom().finite(),
        m6.dom().finite(),
        forall|a: u32| #[trigger] occurrences(ips, IpAddr::V4(a)) <= count_of(m4, a),
        forall|a: u128| #[trigger] occurrences(ips, IpAddr::V6(a)) <= count_of(m6, a),
    ensures
        ips.len() <= sum_of(m4) + sum_of(m6),
    decreases ips.len(),
{
    if ips.len() > 0 {
        let head = ips.drop_last();
        match ips.last() {
            IpAddr::V4(k) => {
                assert(occurrences(ips, IpAddr::V4(k)) <= count_of(m4, k));
                let less = m4.insert(k, (count_of(m4, k) - 1) as usize);
                lemma_sum_insert(m4, k, (count_of(m4, k) - 1) as usize);
                assert forall|a: u32| #[trigger]
                    occurrences(head, IpAddr::V4(a)) <= count_of(less, a) by {
                    assert(occurrences(ips, IpAddr::V4(a)) <= count_of(m4, a));
                }
                assert forall|a: u128| #[trigger]
                    occurrences(head, IpAddr::V6(a)) <= count_of(m6, a) by {
                    assert(occurrences(ips, IpAddr::V6(a)) <= count_of(m6, a));
                }
                lemma_list_within_sums(less, m6, head);
            },
            IpAddr::V6(k) => {
                assert(occurrences(ips, IpAddr::V6(k)) <= count_of(m6, k));
                let less = m6.insert(k, (count_of(m6, k) - 1) as usize);
                lemma_sum_insert(m6, k, (count_of(m6, k) - 1) as usize);
                assert forall|a: u128| #[trigger]
                    occurrences(head, IpAddr::V6(a)) <= count_of(less, a) by {
                    assert(occurrences(ips, IpAddr::V6(a)) <= count_of(m6, a));
                }
                assert forall|a: u32| #[trigger]
                    occurrences(head, IpAddr::V4(a)) <= count_of(m4, a) by {
                    assert(occurrences(ips, IpAddr::V4(a)) <= count_of(m4, a));
                }
                lemma_list_within_sums(m4, less, head);
            },
        }
    }
}

/// How often an address is in two lists.
pub proof fn lemma_occurrences_append(first: Seq<IpAddr>, second: Seq<IpAddr>, ip: IpAddr)
    ensures
        occurrences(first + second, ip) == occurrences(first, ip) + occurrences(second, ip),
    decreases second.len(),
{
    if second.len() == 0 {
        assert(first + second =~= first);
    } else {
        lemma_occurrences_append(first, second.drop_last(), ip);
        assert((first + second).drop_last() =~= first + second.drop_last());
    }
}

/// Nothing given back.
pub proof fn lemma_gives_back_none(t: ConnectionTracker)
    ensures
        t.gives_back_each(t, seq![]),
{
    assert(t.total() <= usize::MAX);
    vstd::arithmetic::div_mod::lemma_small_mod(t.total(), (usize::MAX + 1) as nat);
}

/// Returns true if the IP is non-routable (loopback, private, link-local, etc.).
pub fn is_local(ip: IpAddr) -> (r: bool)
    ensures
        r == local(ip),
{
    match ip {
        IpAddr::V4(a) => is_v4_local(a),
        IpAddr::V6(a) => {
            if a == 1 || a == 0 || is_v6_private(a) || is_v6_link_local(a) {
                true
            } else if 0xffff_0000_0000 <= a && a <= 0xffff_ffff_ffff {
                is_v4_local((a - 0xffff_0000_0000) as u32)
            } else {
                false
            }
        },
    }
}

/// Why a WebSocket upgrade is refused, in the order in which the checks are made: a target that
/// is no address, a local target, a target that is no relay, and no free slot.
pub open spec fn socket_refusal(
    target: Option<SocketAddr>,
    peer_ip: IpAddr,
    allowed: Set<SocketAddr>,
    tracker: ConnectionTracker,
    limits: WsLimits,
) -> Option<ReplyView> {
    match target {
        None => Some(text_reply(400, "invalid target address"@)),
        Some(addr) => if local(addr.ip) {
            Some(text_reply(403, "connections to local addresses are forbidden"@))
        } else if !allowed.contains(addr) {
            Some(text_reply(403, "target is not an advertised Tor relay"@))
        } else if !tracker.admits(peer_ip, limits) {
            Some(text_reply(503, "connection limit reached"@))
        } else {
            None
        },
    }
}

/// Decides on `GET /socket/:target`: the address to relay to, with a slot taken for the peer, or
/// the reply that refuses the upgrade. `target` is the address that the path names, `None` where
/// it names none.
pub fn handle_socket(
    target: Option<SocketAddr>,
    peer_ip: IpAddr,
    allowlist: &RelayAllowlist,
    tracker: &mut ConnectionTracker,
    limits: &WsLimits,
) -> (r: Result<SocketAddr, Reply>)
    ensures
        match (r, socket_refusal(target, peer_ip, allowlist@, *old(tracker), *limits)) {
            (Ok(addr), None) => target == Some(addr) && final(tracker).takes(
                *old(tracker),
                peer_ip,
                1,
            ),
            (Err(reply), Some(refusal)) => reply@ == refusal && final(tracker).same_as(
                *old(tracker),
            ),
            _ => false,
        },
        old(tracker).within(*limits) ==> final(tracker).within(*limits),
{
    let addr = match target {
        Some(addr) => addr,
        None => {
            return Err(Reply::text(400, "invalid target address"));
        },
    };
    if is_local(addr.ip) {
        return Err(Reply::text(403, "connections to local addresses are forbidden"));
    }
    if !allowlist.contains(addr) {
        return Err(Reply::text(403, "target is not an advertised Tor relay"));
    }
    if !tracker.acquire(peer_ip, limits) {
        return Err(Reply::text(503, "connection limit reached"));
    }
    Ok(addr)
}

/// A WebSocket is relayed only to an address that is an advertised relay and is not local, for an
/// address that may take a slot; and every such request is relayed.
pub proof fn law_relayed_only_to_relays(
    target: Option<SocketAddr>,
    peer_ip: IpAddr,
    allowed: Set<SocketAddr>,
    tracker: ConnectionTracker,
    limits: WsLimits,
)
    ensures
        socket_refusal(target, peer_ip, allowed, tracker, limits) is None <==> (
        target matches Some(addr) && allowed.contains(addr) && !local(addr.ip) && tracker.admits(
            peer_ip,
            limits,
        )),
{
}

/// The most bytes that are read from TCP at a time.
pub const CHUNK_SIZE: usize = 16384;

/// What the WebSocket side of a relay yields within the idle timeout.
pub enum WsEvent {
    /// Nothing came within the idle timeout.
    IdleTimeout,
    /// The stream of messages ended.
    Ended,
    /// A binary message.
    Binary(Vec<u8>),
    /// A close message.
    Close,
    /// The connection failed.
    Failed,
    /// A message of another kind.
    Other,
}

/// What the TCP side of a relay yields within the idle timeout.
pub enum TcpEvent {
    /// Nothing came within the idle timeout.
    IdleTimeout,
    /// The connection failed.
    Failed,
    /// This many bytes were read into the buffer; 0 at the end of the stream.
    Read(usize),
}

/// What one direction of a relay does next.
pub enum Pump {
    /// Hand these bytes to the other side, and go on where that succeeds.
    Forward(Vec<u8>),
    /// Wait for the next event.
    Skip,
    /// End this direction.
    Stop,
}

/// What `Pump` says.
pub enum PumpView {
    Forward(Seq<u8>),
    Skip,
    Stop,
}

impl View for Pump {
    type V = PumpView;

    open spec fn view(&self) -> PumpView {
        match self {
            Pump::Forward(b) => PumpView::Forward(b@),
            Pump::Skip => PumpView::Skip,
            Pump::Stop => PumpView::Stop,
        }
    }
}

/// What becomes of an event of the WebSocket side: the payload of a binary message goes to TCP,
/// a message of another kind is passed over, anything else ends the direction.
pub open spec fn ws_pump(event: WsEvent) -> PumpView {
    match event {
        WsEvent::Binary(data) => PumpView::Forward(data@),
        WsEvent::Other => PumpView::Skip,
        _ => PumpView::Stop,
    }
}

/// What becomes of an event of the TCP side: the bytes read go to the WebSocket, anything else
/// ends the direction.
pub open spec fn tcp_pump(event: TcpEvent, buf: Seq<u8>) -> PumpView {
    match event {
        TcpEvent::Read(n) if n > 0 => PumpView::Forward(buf.take(n as int)),
        _ => PumpView::Stop,
    }
}

/// One step of the direction from WebSocket to TCP.
pub fn ws_to_tcp(event: WsEvent) -> (r: Pump)
    ensures
        r@ == ws_pump(event),
{
    match event {
        WsEvent::Binary(data) => Pump::Forward(data),
        WsEvent::Other => Pump::Skip,
        _ => Pump::Stop,
    }
}

/// The first `n` bytes of a buffer.
pub fn prefix(buf: &Vec<u8>, n: usize) -> (r: Vec<u8>)
    requires
        n <= buf@.len(),
    ensures
        r@ == buf@.take(n as int),
{
    let mut r: Vec<u8> = Vec::new();
    let mut i: usize = 0;
    while i < n
        invariant
            i <= n,
            n <= buf@.len(),
            r@ == buf@.take(i as int),
        decreases n - i,
    {
        r.push(buf[i]);
        i += 1;
    }
    r
}

/// One step of the direction from TCP to WebSocket, with the bytes read at the start of `buf`.
pub fn tcp_to_ws(event: TcpEvent, buf: &Vec<u8>) -> (r: Pump)
    requires
        event matches TcpEvent::Read(n) ==> n <= buf@.len(),
    ensures
        r@ == tcp_pump(event, buf@),
{
    match event {
        TcpEvent::Read(n) => if n > 0 {
            Pump::Forward(prefix(buf, n))
        } else {
            Pump::Stop
        },
        _ => Pump::Stop,
    }
}

/// The bytes that a direction hands on while it takes these steps: up to the first `Stop`.
pub open spec fn handed_on(steps: Seq<PumpView>) -> Seq<u8>
    decreases steps.len(),
{
    if steps.len() == 0 {
        seq![]
    } else {
        match steps[0] {
            PumpView::Stop => seq![],
            PumpView::Skip => handed_on(steps.drop_first()),
            PumpView::Forward(b) => b + handed_on(steps.drop_first()),
        }
    }
}

/// The payloads of the binary messages, one after the other.
pub open spec fn payloads(events: Seq<WsEvent>) -> Seq<u8>
    decreases events.len(),
{
    if events.len() == 0 {
        seq![]
    } else {
        match events[0] {
            WsEvent::Binary(data) => data@ + payloads(events.drop_first()),
            _ => payloads(events.drop_first()),
        }
    }
}

/// While no event ends the direction, TCP gets the payloads of the binary messages, whole and in
/// order, and nothing else; what comes after the event that ends it is not handed on.
pub proof fn law_ws_payloads_reach_tcp(events: Seq<WsEvent>, end: WsEvent, later: Seq<WsEvent>)
    requires
        forall|i: int| 0 <= i < events.len() ==> !(ws_pump(#[trigger] events[i]) is Stop),
        ws_pump(end) is Stop,
    ensures
        handed_on((events.push(end) + later).map_values(|e: WsEvent| ws_pump(e))) == payloads(
            events,
        ),
    decreases events.len(),
{
    let all = events.push(end) + later;
    let f = |e: WsEvent| ws_pump(e);
    assert(all.map_values(f).drop_first() =~= all.drop_first().map_values(f));
    if events.len() > 0 {
        let rest = events.drop_first();
        assert(all.drop_first() =~= rest.push(end) + later);
        assert(all[0] == events[0]);
        assert forall|i: int| 0 <= i < rest.len() implies !(ws_pump(#[trigger] rest[i]) is Stop) by {
            assert(rest[i] == events[i + 1]);
        }
        law_ws_payloads_reach_tcp(rest, end, later);
    } else {
        assert(all[0] == end);
    }
}

/// What was read, one read after the other; each event comes with the buffer that was read into.
pub open spec fn reads(events: Seq<(TcpEvent, Seq<u8>)>) -> Seq<u8>
    decreases events.len(),
{
    if events.len() == 0 {
        seq![]
    } else {
        match events[0].0 {
            TcpEvent::Read(n) => events[0].1.take(n as int) + reads(events.drop_first()),
            _ => reads(events.drop_first()),
        }
    }
}

/// While no event ends the direction, the WebSocket gets what was read from TCP, whole and in
/// order, and nothing else; what comes after the event that ends it is not handed on.
pub proof fn law_tcp_payloads_reach_ws(
    events: Seq<(TcpEvent, Seq<u8>)>,
    end: (TcpEvent, Seq<u8>),
    later: Seq<(TcpEvent, Seq<u8>)>,
)
    requires
        forall|i: int|
            0 <= i < events.len() ==> !(tcp_pump((#[trigger] events[i]).0, events[i].1) is Stop),
        tcp_pump(end.0, end.1) is Stop,
    ensures
        handed_on(
            (events.push(end) + later).map_values(|e: (TcpEvent, Seq<u8>)| tcp_pump(e.0, e.1)),
        ) == reads(events),
    decreases events.len(),
{
    let all = events.push(end) + later;
    let f = |e: (TcpEvent, Seq<u8>)| tcp_pump(e.0, e.1);
    assert(all.map_values(f).drop_first() =~= all.drop_first().map_values(f));
    if events.len() > 0 {
        let rest = events.drop_first();
        assert(all.drop_first() =~= rest.push(end) + later);
        assert(all[0] == events[0]);
        assert forall|i: int| 0 <= i < rest.len() implies !(tcp_pump(
            (#[trigger] rest[i]).0,
            rest[i].1,
        ) is Stop) by {
            assert(rest[i] == events[i + 1]);
        }
        assert(!(tcp_pump(events[0].0, events[0].1) is Stop));
        law_tcp_payloads_reach_ws(rest, end, later);
    } else {
        assert(all[0] == end);
    }
}

/// How far the relay of a WebSocket is.
#[derive(Clone, Copy, Debug, PartialEq, Eq, Structural)]
pub enum RelayStage {
    Connecting,
    Relaying,
    Ended,
}

/// What a relay meets with.
pub enum RelayEvent {
    /// The TCP connection was made.
    Connected,
    /// The TCP connection could not be made.
    ConnectFailed,
    /// What the WebSocket side yields.
    FromWs(WsEvent),
    /// What the TCP side yields.
    FromTcp(TcpEvent),
    /// TCP could not be written.
    WriteFailed,
    /// The WebSocket could not be written.
    SendFailed,
    /// The relay has been there for the maximum lifetime.
    LifetimeReached,
}

/// What a relay does next.
pub enum RelayAction {
    /// Wait for the next event.
    Wait,
    /// Write data to TCP.
    Write(Vec<u8>),
    /// Send data as a binary message.
    Send(Vec<u8>),
    /// End: shut down the write half of TCP, or send a close message, where these say so.
    Finish { shutdown: bool, close: bool },
}

/// What an action says.
pub enum RelayActionView {
    Wait,
    Write(Seq<u8>),
    Send(Seq<u8>),
    Finish { shutdown: bool, close: bool },
}

impl View for RelayAction {
    type V = RelayActionView;

    open spec fn view(&self) -> RelayActionView {
        match self {
            RelayAction::Wait => RelayActionView::Wait,
            RelayAction::Write(b) => RelayActionView::Write(b@),
            RelayAction::Send(b) => RelayActionView::Send(b@),
            RelayAction::Finish { shutdown, close } => RelayActionView::Finish {
                shutdown: *shutdown,
                close: *close,
            },
        }
    }
}

/// The end of a relay.
pub open spec fn relay_end(shutdown: bool, close: bool) -> (RelayStage, RelayActionView) {
    (RelayStage::Ended, RelayActionView::Finish { shutdown, close })
}

/// What comes of an event of a relay, with what was read from TCP at the start of `buf`: once TCP
/// is connected, what comes on one side goes to the other, until either side ends or the lifetime
/// is over.
pub open spec fn relay_step(stage: RelayStage, event: RelayEvent, buf: Seq<u8>) -> (
    RelayStage,
    RelayActionView,
) {
    match (stage, event) {
        (RelayStage::Connecting, RelayEvent::Connected) => (
            RelayStage::Relaying,
            RelayActionView::Wait,
        ),
        (RelayStage::Connecting, RelayEvent::ConnectFailed) => relay_end(false, false),
        (RelayStage::Relaying, RelayEvent::FromWs(e)) => match ws_pump(e) {
            PumpView::Forward(b) => (stage, RelayActionView::Write(b)),
            PumpView::Skip => (stage, RelayActionView::Wait),
            PumpView::Stop => relay_end(true, false),
        },
        (RelayStage::Relaying, RelayEvent::FromTcp(e)) => match tcp_pump(e, buf) {
            PumpView::Forward(b) => (stage, RelayActionView::Send(b)),
            PumpView::Skip => (stage, RelayActionView::Wait),
            PumpView::Stop => relay_end(false, true),
        },
        (RelayStage::Relaying, RelayEvent::WriteFailed) => relay_end(true, false),
        (RelayStage::Relaying, RelayEvent::SendFailed) => relay_end(false, true),
        (RelayStage::Relaying, RelayEvent::LifetimeReached) => relay_end(false, false),
        _ => (stage, RelayActionView::Wait),
    }
}

fn end_relay(shutdown: bool, close: bool) -> (r: (RelayStage, RelayAction))
    ensures
        (r.0, r.1@) == relay_end(shutdown, close),
{
    (RelayStage::Ended, RelayAction::Finish { shutdown, close })
}

fn relay_inner(stage: RelayStage, event: RelayEvent, buf: &Vec<u8>) -> (r: (
    RelayStage,
    RelayAction,
))
    requires
        event matches RelayEvent::FromTcp(TcpEvent::Read(n)) ==> n <= buf@.len(),
    ensures
        (r.0, r.1@) == relay_step(stage, event, buf@),
{
    match (stage, event) {
        (RelayStage::Connecting, RelayEvent::Connected) => {
            (RelayStage::Relaying, RelayAction::Wait)
        },
        (RelayStage::Connecting, RelayEvent::ConnectFailed) => end_relay(false, false),
        (RelayStage::Relaying, RelayEvent::FromWs(e)) => {
            match ws_to_tcp(e) {
                Pump::Forward(b) => (stage, RelayAction::Write(b)),
                Pump::Skip => (stage, RelayAction::Wait),
                Pump::Stop => end_relay(true, false),
            }
        },
        (RelayStage::Relaying, RelayEvent::FromTcp(e)) => {
            match tcp_to_ws(e, buf) {
                Pump::Forward(b) => (stage, RelayAction::Send(b)),
                Pump::Skip => (stage, RelayAction::Wait),
                Pump::Stop => end_relay(false, true),
            }
        },
        (RelayStage::Relaying, RelayEvent::WriteFailed) => end_relay(true, false),
        (RelayStage::Relaying, RelayEvent::SendFailed) => end_relay(false, true),
        (RelayStage::Relaying, RelayEvent::LifetimeReached) => end_relay(false, false),
        _ => (stage, RelayAction::Wait),
    }
}

/// Relays between a WebSocket and TCP for the client at `peer_ip`: one step, with what was read
/// from TCP at the start of `buf`. The slot of the client is given back at the end.
pub fn relay(
    stage: RelayStage,
    event: RelayEvent,
    buf: &Vec<u8>,
    peer_ip: IpAddr,
    tracker: &mut ConnectionTracker,
) -> (r: (RelayStage, RelayAction))
    requires
        event matches RelayEvent::FromTcp(TcpEvent::Read(n)) ==> n <= buf@.len() && n <= CHUNK_SIZE,
    ensures
        (r.0, r.1@) == relay_step(stage, event, buf@),
        r.1@ matches RelayActionView::Send(chunk) ==> 0 < chunk.len() <= CHUNK_SIZE,
        r.1@ is Finish ==> final(tracker).gives_back(*old(tracker), peer_ip),
        !(r.1@ is Finish) ==> final(tracker).same_as(*old(tracker)),
{
    let (next, action) = relay_inner(stage, event, buf);
    if let RelayAction::Finish { .. } = &action {
        tracker.release(peer_ip);
    }
    (next, action)
}

/// The stage of a relay after these events, and how often it has ended.
pub open spec fn relay_run(events: Seq<(RelayEvent, Seq<u8>)>) -> (RelayStage, int)
    decreases events.len(),
{
    if events.len() == 0 {
        (RelayStage::Connecting, 0)
    } else {
        let (stage, ends) = relay_run(events.drop_last());
        let (next, action) = relay_step(stage, events.last().0, events.last().1);
        (
            next,
            ends + (if action is Finish {
                1int
            } else {
                0
            }),
        )
    }
}

/// Whatever a relay meets with, its slot is given back once when it ends, and never before.
pub proof fn law_relay_ends_once(events: Seq<(RelayEvent, Seq<u8>)>)
    ensures
        ({
            let (stage, ends) = relay_run(events);
            ends == (if stage == RelayStage::Ended {
                1int
            } else {
                0
            })
        }),
    decreases events.len(),
{
    if events.len() > 0 {
        law_relay_ends_once(events.drop_last());
    }
}

/// What came from the WebSocket, binary message by binary message.
pub open spec fn from_ws(events: Seq<(RelayEvent, Seq<u8>)>) -> Seq<Seq<u8>>
    decreases events.len(),
{
    if events.len() == 0 {
        seq![]
    } else {
        let before = from_ws(events.drop_last());
        match events.last().0 {
            RelayEvent::FromWs(WsEvent::Binary(data)) => before.push(data@),
            _ => before,
        }
    }
}

/// What came from TCP, read by read.
pub open spec fn from_tcp(events: Seq<(RelayEvent, Seq<u8>)>) -> Seq<Seq<u8>>
    decreases events.len(),
{
    if events.len() == 0 {
        seq![]
    } else {
        let before = from_tcp(events.drop_last());
        match events.last().0 {
            RelayEvent::FromTcp(TcpEvent::Read(n)) => before.push(events.last().1.take(n as int)),
            _ => before,
        }
    }
}

/// What a relay has done at the last of these events.
pub open spec fn last_action(events: Seq<(RelayEvent, Seq<u8>)>) -> RelayActionView {
    relay_step(relay_run(events.drop_last()).0, events.last().0, events.last().1).1
}

/// What a relay has written to TCP after these events.
pub open spec fn relay_written(events: Seq<(RelayEvent, Seq<u8>)>) -> Seq<Seq<u8>>
    decreases events.len(),
{
    if events.len() == 0 {
        seq![]
    } else {
        let before = relay_written(events.drop_last());
        match last_action(events) {
            RelayActionView::Write(data) => before.push(data),
            _ => before,
        }
    }
}

/// What a relay has sent on the WebSocket after these events.
pub open spec fn relay_sent(events: Seq<(RelayEvent, Seq<u8>)>) -> Seq<Seq<u8>>
    decreases events.len(),
{
    if events.len() == 0 {
        seq![]
    } else {
        let before = relay_sent(events.drop_last());
        match last_action(events) {
            RelayActionView::Send(data) => before.push(data),
            _ => before,
        }
    }
}

/// Once a relay is connected, whatever it meets with, TCP gets what came from the WebSocket, and
/// the WebSocket what was read from TCP, each unchanged, in order and without a gap, and nothing
/// else; as long as the relay goes on, it is all that came.
pub proof fn law_relay_hands_on(events: Seq<(RelayEvent, Seq<u8>)>)
    requires
        events.len() > 0,
        events[0].0 is Connected,
    ensures
        relay_written(events).is_prefix_of(from_ws(events)),
        relay_sent(events).is_prefix_of(from_tcp(events)),
        relay_run(events).0 == RelayStage::Relaying ==> relay_written(events) == from_ws(events)
            && relay_sent(events) == from_tcp(events),
        relay_run(events).0 != RelayStage::Connecting,
    decreases events.len(),
{
    let head = events.drop_last();
    if head.len() == 0 {
        reveal_with_fuel(relay_run, 2);
        reveal_with_fuel(relay_written, 2);
        reveal_with_fuel(relay_sent, 2);
        reveal_with_fuel(from_ws, 2);
        reveal_with_fuel(from_tcp, 2);
        assert(events.last() == events[0]);
    } else {
        assert(head[0] == events[0]);
        law_relay_hands_on(head);
    }
}

/// Every binary message is handed on whole, whatever its length, and a message of another kind is
/// passed over; the direction ends at a timeout, at the end of the stream, at a close message and
/// at a failure, and at nothing else.
pub proof fn law_ws_events(event: WsEvent)
    ensures
        ws_pump(event) is Stop <==> event is IdleTimeout || event is Ended || event is Close
            || event is Failed,
        event matches WsEvent::Binary(data) ==> ws_pump(event) == PumpView::Forward(data@),
        event is Other ==> ws_pump(event) is Skip,
{
}

/// Every read is handed on, byte for byte, however many bytes it has; the direction ends at a
/// timeout, at a failure and at a read of nothing, and at nothing else.
pub proof fn law_tcp_events(event: TcpEvent, buf: Seq<u8>)
    requires
        event matches TcpEvent::Read(n) ==> n <= buf.len(),
    ensures
        tcp_pump(event, buf) is Stop <==> event is IdleTimeout || event is Failed || event
            == TcpEvent::Read(0),
        event matches TcpEvent::Read(n) ==> n > 0 ==> {
            &&& tcp_pump(event, buf) matches PumpView::Forward(sent)
            &&& sent.len() == n
            &&& forall|i: int| 0 <= i < n ==> #[trigger] sent[i] == buf[i]
        },
        !(tcp_pump(event, buf) is Skip),
{
}

/// A relay begins once it is connected. It goes on at every binary message, which it writes to
/// TCP, at every message of another kind, and at every read of some bytes, which it sends on; it
/// ends at anything else, and does nothing once it has ended. TCP is shut down where the WebSocket
/// ended or TCP could not be written, and a close message is sent where TCP ended or the WebSocket
/// could not be written.
pub proof fn law_relay_steps(event: RelayEvent, buf: Seq<u8>)
    requires
        event matches RelayEvent::FromTcp(TcpEvent::Read(n)) ==> n <= buf.len(),
    ensures
        relay_step(RelayStage::Connecting, event, buf) == (match event {
            RelayEvent::Connected => (RelayStage::Relaying, RelayActionView::Wait),
            RelayEvent::ConnectFailed => (
                RelayStage::Ended,
                RelayActionView::Finish { shutdown: false, close: false },
            ),
            _ => (RelayStage::Connecting, RelayActionView::Wait),
        }),
        relay_step(RelayStage::Ended, event, buf) == (RelayStage::Ended, RelayActionView::Wait),
        ({
            let (next, action) = relay_step(RelayStage::Relaying, event, buf);
            match event {
                RelayEvent::FromWs(WsEvent::Binary(data)) => next == RelayStage::Relaying && action
                    == RelayActionView::Write(data@),
                RelayEvent::FromWs(WsEvent::Other) => next == RelayStage::Relaying && action
                    is Wait,
                RelayEvent::FromWs(_) | RelayEvent::WriteFailed => next == RelayStage::Ended
                    && action == (RelayActionView::Finish { shutdown: true, close: false }),
                RelayEvent::FromTcp(TcpEvent::Read(n)) => if n > 0 {
                    next == RelayStage::Relaying && action == RelayActionView::Send(
                        buf.subrange(0, n as int),
                    )
                } else {
                    next == RelayStage::Ended && action == (RelayActionView::Finish {
                        shutdown: false,
                        close: true,
                    })
                },
                RelayEvent::FromTcp(_) | RelayEvent::SendFailed => next == RelayStage::Ended
                    && action == (RelayActionView::Finish { shutdown: false, close: true }),
                RelayEvent::LifetimeReached => next == RelayStage::Ended && action == (
                RelayActionView::Finish { shutdown: false, close: false }),
                RelayEvent::Connected | RelayEvent::ConnectFailed => next == RelayStage::Relaying
                    && action is Wait,
            }
        }),
{
    if let RelayEvent::FromTcp(TcpEvent::Read(n)) = event {
        assert(buf.take(n as int) =~= buf.subrange(0, n as int));
    }
}

/// An address may take a slot exactly where the limits are kept with one slot more: neither all
/// addresses together nor the address itself then hold more than they may.
pub proof fn law_admission(
    t: ConnectionTracker,
    after: ConnectionTracker,
    ip: IpAddr,
    limits: WsLimits,
)
    ensures
        t.admits(ip, limits) <==> t.total() + 1 <= limits.max_connections && t.held(ip) + 1
            <= limits.per_ip_limit,
        t.within(limits) && after.takes(t, ip, 1) ==> (t.admits(ip, limits) <==> after.within(
            limits,
        )),
        t.within(limits) <==> t.total() <= limits.max_connections && forall|a: IpAddr|
            #[trigger] t.held(a) <= limits.per_ip_limit,
{
    if t.within(limits) && after.takes(t, ip, 1) {
        assert(after.held(ip) == t.held(ip) + 1);
        if t.admits(ip, limits) {
            assert forall|a: IpAddr| #[trigger] after.held(a) <= limits.per_ip_limit by {
                assert(t.held(a) <= limits.per_ip_limit);
            }
        }
        if after.within(limits) {
            assert(after.held(ip) <= limits.per_ip_limit);
        }
    }
}

/// A slot that is taken is one more for the address and in all, and a slot that is given back is
/// one less; no other address is affected.
pub proof fn law_slots(
    before: ConnectionTracker,
    after: ConnectionTracker,
    ip: IpAddr,
    other: IpAddr,
)
    requires
        other != ip,
    ensures
        after.takes(before, ip, 1) ==> {
            &&& after.total() == before.total() + 1
            &&& after.held(ip) == before.held(ip) + 1
            &&& after.held(other) == before.held(other)
        },
        after.gives_back(before, ip) && before.total() > 0 && before.held(ip) > 0 ==> {
            &&& after.total() == before.total() - 1
            &&& after.held(ip) == before.held(ip) - 1
            &&& after.held(other) == before.held(other)
        },
        after.same_as(before) ==> {
            &&& after.total() == before.total()
            &&& after.held(ip) == before.held(ip)
            &&& after.held(other) == before.held(other)
        },
{
}

/// Where addresses that hold enough slots give some back, each holds as many less as it is in the
/// list, and in all there are as many less as the list is long.
pub proof fn law_slots_of_many(
    before: ConnectionTracker,
    after: ConnectionTracker,
    ips: Seq<IpAddr>,
    ip: IpAddr,
)
    requires
        before.balanced(),
        forall|a: IpAddr| #[trigger] occurrences(ips, a) <= before.held(a),
        after.gives_back_each(before, ips),
    ensures
        after.total() == before.total() - ips.len(),
        after.held(ip) == before.held(ip) - occurrences(ips, ip),
{
    lemma_given_back_within_total(before, ips);
    assert(occurrences(ips, ip) <= before.held(ip));
    assert(before.total() <= usize::MAX);
    vstd::arithmetic::div_mod::lemma_small_mod(
        (before.total() - ips.len()) as nat,
        (usize::MAX + 1) as nat,
    );
}

/// An address occurs in a list as often as there are places where it stands.
pub proof fn law_occurrences(first: Seq<IpAddr>, second: Seq<IpAddr>, one: IpAddr, ip: IpAddr)
    ensures
        occurrences(first + second, ip) == occurrences(first, ip) + occurrences(second, ip),
        occurrences(seq![one], ip) == (if one == ip {
            1nat
        } else {
            0
        }),
        occurrences(Seq::<IpAddr>::empty(), ip) == 0,
{
    lemma_occurrences_append(first, second, ip);
    reveal_with_fuel(occurrences, 2);
    assert(seq![one].drop_last() =~= Seq::<IpAddr>::empty());
}

/// A WebSocket is refused as a bad request where its target is no address; as forbidden where the
/// target is local, or is no relay; and as unavailable where there is no free slot: the first of
/// these that holds decides.
pub proof fn law_socket_refusals(
    target: Option<SocketAddr>,
    peer_ip: IpAddr,
    allowed: Set<SocketAddr>,
    tracker: ConnectionTracker,
    limits: WsLimits,
)
    ensures
        match socket_refusal(target, peer_ip, allowed, tracker, limits) {
            None => target is Some,
            Some(r) => {
                &&& r.headers.len() == 0
                &&& match target {
                    None => r.status == 400 && r.body == BodyView::Text("invalid target address"@),
                    Some(addr) => if local(addr.ip) {
                        r.status == 403 && r.body == BodyView::Text(
                            "connections to local addresses are forbidden"@,
                        )
                    } else if !allowed.contains(addr) {
                        r.status == 403 && r.body == BodyView::Text(
                            "target is not an advertised Tor relay"@,
                        )
                    } else {
                        &&& r.status == 503
                        &&& r.body == BodyView::Text("connection limit reached"@)
                        &&& tracker.total() >= limits.max_connections || tracker.held(peer_ip)
                            >= limits.per_ip_limit
                    },
                }
            },
        },
{
}

/// The limits that hold where nothing else is configured.
pub proof fn law_defaults()
    ensures
        default_limits().max_connections == 8192,
        default_limits().per_ip_limit == 16,
        default_limits().idle_timeout.nanos == 300_000_000_000,
        default_limits().max_lifetime.nanos == 3_600_000_000_000,
{
}

/// What actions of a relay say is what they hold, whole.
pub proof fn law_relay_views(action: RelayAction, pump: Pump)
    ensures
        match action {
            RelayAction::Wait => action@ is Wait,
            RelayAction::Write(data) => action@ == RelayActionView::Write(data@),
            RelayAction::Send(data) => action@ == RelayActionView::Send(data@),
            RelayAction::Finish { shutdown, close } => action@ == (RelayActionView::Finish {
                shutdown,
                close,
            }),
        },
        match pump {
            Pump::Forward(data) => pump@ == PumpView::Forward(data@),
            Pump::Skip => pump@ is Skip,
            Pump::Stop => pump@ is Stop,
        },
{
}

} // verus!
