//! Why no slot is lost: what the event loop does to the slots of the peers and to the tracker
//! always agrees.

use vstd::prelude::*;

use super::bridge::{channel_of, TcpMsgView};
use super::event_loop::{
    dropped_slots, event_fits, kept_peers, law_loop_keeps_channels_distinct, lemma_owner_has,
    lemma_receiver, loop_step, owner_of, peers_wf, receiver, stays, tcp_step, tracker_change,
    LoopEventView,
};
use super::peer::{
    event_step, fresh_for, fresh_peer, law_event_keeps_account, peer_slots, slots_change, slots_of,
    PeerEventView, PeerStep, PeerView,
};
use crate::net::{IpAddr, SocketAddr};
use crate::time::Duration;
use crate::ws_proxy::{
    law_held_within_total, lemma_given_back_within_total, lemma_occurrences_append, occurrences,
    ConnectionTracker, WsLimits,
};

verus! {

/// The number of slots that the peers from an address hold.
pub open spec fn slots_held(peers: Seq<PeerView>, ip: IpAddr) -> nat
    decreases peers.len(),
{
    if peers.len() == 0 {
        0
    } else {
        slots_held(peers.drop_last(), ip) + (if peers.last().peer_ip == ip {
            slots_of(peers.last())
        } else {
            0
        })
    }
}

/// Whether every slot that the peers hold is taken: an address holds what its peers hold, and
/// what it holds otherwise.
pub open spec fn backed(
    tracker: ConnectionTracker,
    peers: Seq<PeerView>,
    others: spec_fn(IpAddr) -> nat,
) -> bool {
    &&& tracker.balanced()
    &&& forall|ip: IpAddr| #[trigger] tracker.held(ip) == others(ip) + slots_held(peers, ip)
}

proof fn lemma_slots_held_update(peers: Seq<PeerView>, i: int, peer: PeerView, ip: IpAddr)
    requires
        0 <= i < peers.len(),
        peer.peer_ip == peers[i].peer_ip,
    ensures
        slots_held(peers.update(i, peer), ip) + (if peer.peer_ip == ip {
            slots_of(peers[i])
        } else {
            0
        }) == slots_held(peers, ip) + (if peer.peer_ip == ip {
            slots_of(peer)
        } else {
            0
        }),
    decreases peers.len(),
{
    let after = peers.update(i, peer);
    if i == peers.len() - 1 {
        assert(after.drop_last() =~= peers.drop_last());
    } else {
        assert(after.drop_last() =~= peers.drop_last().update(i, peer));
        lemma_slots_held_update(peers.drop_last(), i, peer, ip);
    }
}

proof fn lemma_peer_slots(peer: PeerView, n: int, ip: IpAddr)
    requires
        0 <= n <= slots_of(peer),
    ensures
        occurrences(peer_slots(peer).take(n), ip) == (if peer.peer_ip == ip {
            n
        } else {
            0
        }),
    decreases n,
{
    if n > 0 {
        lemma_peer_slots(peer, n - 1, ip);
        assert(peer_slots(peer).take(n).drop_last() =~= peer_slots(peer).take(n - 1));
    }
}

proof fn lemma_dropped_slots(peers: Seq<PeerView>, keep: Seq<bool>, ip: IpAddr)
    requires
        keep.len() == peers.len(),
    ensures
        slots_held(peers, ip) == slots_held(kept_peers(peers, keep), ip) + occurrences(
            dropped_slots(peers, keep),
            ip,
        ),
    decreases peers.len(),
{
    if peers.len() > 0 {
        let head = peers.drop_last();
        let last = peers.last();
        lemma_dropped_slots(head, keep.drop_last(), ip);
        if keep.last() {
            let kept = kept_peers(head, keep.drop_last());
            assert(kept.push(last).drop_last() =~= kept);
        } else {
            lemma_occurrences_append(
                dropped_slots(head, keep.drop_last()),
                peer_slots(last),
                ip,
            );
            lemma_peer_slots(last, slots_of(last) as int, ip);
            assert(peer_slots(last).take(slots_of(last) as int) =~= peer_slots(last));
        }
    }
}

/// A step of one peer that takes or gives back a slot together with the tracker leaves every slot
/// that the peers hold taken.
proof fn lemma_step_stays_backed(
    before: ConnectionTracker,
    after: ConnectionTracker,
    peers: Seq<PeerView>,
    i: int,
    step: PeerStep,
    others: spec_fn(IpAddr) -> nat,
)
    requires
        0 <= i < peers.len(),
        backed(before, peers, others),
        step.peer.peer_ip == peers[i].peer_ip,
        slots_of(step.peer) == slots_of(peers[i]) + step.slots,
        -1 <= step.slots <= 1,
        slots_change(after, before, peers[i].peer_ip, step.slots),
    ensures
        backed(after, peers.update(i, step.peer), others),
{
    let own = peers[i].peer_ip;
    let next = peers.update(i, step.peer);
    lemma_slots_held_update(peers, i, step.peer, own);
    assert(before.held(own) == others(own) + slots_held(peers, own));
    assert forall|ip: IpAddr| #[trigger] after.held(ip) == others(ip) + slots_held(next, ip) by {
        lemma_slots_held_update(peers, i, step.peer, ip);
        assert(before.held(ip) == others(ip) + slots_held(peers, ip));
    }
}

/// What else an address holds, once one of its slots is that of a peer.
pub open spec fn handed_over(others: spec_fn(IpAddr) -> nat, ip: IpAddr) -> spec_fn(IpAddr) -> nat {
    |a: IpAddr|
        if a == ip {
            (others(a) - 1) as nat
        } else {
            others(a)
        }
}

/// A new peer brings the slot that was taken for it in signaling.
proof fn lemma_new_peer_stays_backed(
    tracker: ConnectionTracker,
    peers: Seq<PeerView>,
    ip: IpAddr,
    now: Duration,
    others: spec_fn(IpAddr) -> nat,
)
    requires
        backed(tracker, peers, others),
        others(ip) > 0,
    ensures
        backed(tracker, peers.push(fresh_peer(ip, now)), handed_over(others, ip)),
{
    let more = peers.push(fresh_peer(ip, now));
    assert(more.drop_last() =~= peers);
    assert(slots_of(fresh_peer(ip, now)) == 1);
    assert forall|a: IpAddr| #[trigger] tracker.held(a) == handed_over(others, ip)(a) + slots_held(
        more,
        a,
    ) by {
        assert(tracker.held(a) == others(a) + slots_held(peers, a));
    }
}

/// Whatever a peer reports, every slot that the peers hold stays taken, and no slot is taken that
/// nobody holds, as long as a channel that opens is not one that is open.
proof fn lemma_event_stays_backed(
    before: ConnectionTracker,
    after: ConnectionTracker,
    peers: Seq<PeerView>,
    i: int,
    event: PeerEventView,
    has_ipv6: bool,
    allowed: Set<SocketAddr>,
    admitted: bool,
    now: Duration,
    others: spec_fn(IpAddr) -> nat,
)
    requires
        0 <= i < peers.len(),
        peers[i].wf(),
        backed(before, peers, others),
        fresh_for(peers[i], event),
        slots_change(
            after,
            before,
            peers[i].peer_ip,
            event_step(peers[i], event, has_ipv6, allowed, admitted, now).slots,
        ),
    ensures
        backed(
            after,
            peers.update(i, event_step(peers[i], event, has_ipv6, allowed, admitted, now).peer),
            others,
        ),
{
    law_event_keeps_account(peers[i], event, has_ipv6, allowed, admitted, now);
    let step = event_step(peers[i], event, has_ipv6, allowed, admitted, now);
    lemma_step_stays_backed(before, after, peers, i, step, others);
}

/// Whatever a TCP bridge reports, every slot that the peers hold stays taken, and no slot is
/// taken that nobody holds.
proof fn lemma_tcp_stays_backed(
    before: ConnectionTracker,
    after: ConnectionTracker,
    peers: Seq<PeerView>,
    msg: TcpMsgView,
    sctp_id: Option<u16>,
    now: Duration,
    others: spec_fn(IpAddr) -> nat,
)
    requires
        owner_of(peers, channel_of(msg)) < peers.len(),
        peers[owner_of(peers, channel_of(msg))].wf(),
        backed(before, peers, others),
        ({
            let peer = peers[owner_of(peers, channel_of(msg))];
            slots_change(after, before, peer.peer_ip, tcp_step(peer, msg, sctp_id, now).slots)
        }),
    ensures
        ({
            let i = owner_of(peers, channel_of(msg));
            backed(after, peers.update(i, tcp_step(peers[i], msg, sctp_id, now).peer), others)
        }),
{
    lemma_owner_has(peers, channel_of(msg));
    let i = owner_of(peers, channel_of(msg));
    let step = tcp_step(peers[i], msg, sctp_id, now);
    lemma_step_stays_backed(before, after, peers, i, step, others);
}

/// Peers that are removed give back exactly the slots they held: those that stay are still
/// backed, and nobody else loses a slot.
proof fn lemma_removal_stays_backed(
    before: ConnectionTracker,
    after: ConnectionTracker,
    peers: Seq<PeerView>,
    keep: Seq<bool>,
    others: spec_fn(IpAddr) -> nat,
)
    requires
        keep.len() == peers.len(),
        backed(before, peers, others),
        after.gives_back_each(before, dropped_slots(peers, keep)),
    ensures
        backed(after, kept_peers(peers, keep), others),
{
    let gone = dropped_slots(peers, keep);
    assert forall|ip: IpAddr| #[trigger] occurrences(gone, ip) <= before.held(ip) by {
        lemma_dropped_slots(peers, keep, ip);
        assert(before.held(ip) == others(ip) + slots_held(peers, ip));
    }
    assert forall|ip: IpAddr| #[trigger]
        after.held(ip) == others(ip) + slots_held(kept_peers(peers, keep), ip) by {
        lemma_dropped_slots(peers, keep, ip);
        assert(before.held(ip) == others(ip) + slots_held(peers, ip));
    }
}

proof fn lemma_unchanged_stays_backed(
    before: ConnectionTracker,
    after: ConnectionTracker,
    peers: Seq<PeerView>,
    others: spec_fn(IpAddr) -> nat,
)
    requires
        backed(before, peers, others),
        after.same_as(before),
    ensures
        backed(after, peers, others),
{
    assert forall|ip: IpAddr| #[trigger] after.held(ip) == others(ip) + slots_held(peers, ip) by {
        assert(before.held(ip) == others(ip) + slots_held(peers, ip));
    }
}

/// What an address holds beside its peers after an event: a new peer brings a slot with it.
pub open spec fn others_after(event: LoopEventView, others: spec_fn(IpAddr) -> nat) -> spec_fn(
    IpAddr,
) -> nat {
    match event {
        LoopEventView::Accepted(ip) => handed_over(others, ip),
        _ => others,
    }
}

/// Whatever the loop meets with, an address holds exactly the slots of its peers and their
/// channels beside those it holds otherwise: no slot is lost and none is given back twice. A new
/// peer brings the slot that was taken for it. The peers stay well-formed.
pub proof fn law_loop_keeps_account(
    before: ConnectionTracker,
    after: ConnectionTracker,
    peers: Seq<PeerView>,
    event: LoopEventView,
    limits: WsLimits,
    has_ipv6: bool,
    allowed: Set<SocketAddr>,
    now: Duration,
    others: spec_fn(IpAddr) -> nat,
)
    requires
        peers_wf(peers),
        event_fits(peers, event),
        event matches LoopEventView::Accepted(ip) ==> others(ip) > 0,
        backed(before, peers, others),
        tracker_change(
            after,
            before,
            loop_step(peers, event, before, limits, has_ipv6, allowed, now).change,
        ),
    ensures
        backed(
            after,
            loop_step(peers, event, before, limits, has_ipv6, allowed, now).peers,
            others_after(event, others),
        ),
        peers_wf(loop_step(peers, event, before, limits, has_ipv6, allowed, now).peers),
{
    law_loop_keeps_channels_distinct(peers, event, before, limits, has_ipv6, allowed, now);
    match event {
        LoopEventView::Accepted(ip) => {
            lemma_unchanged_stays_backed(before, after, peers, others);
            lemma_new_peer_stays_backed(after, peers, ip, now, others);
        },
        LoopEventView::Reported { at, event } => {
            assert(fresh_for(peers[at], event));
            lemma_event_stays_backed(
                before,
                after,
                peers,
                at,
                event,
                has_ipv6,
                allowed,
                before.admits(peers[at].peer_ip, limits),
                now,
                others,
            );
        },
        LoopEventView::FromTcp { msg, sctp_id } => {
            lemma_owner_has(peers, channel_of(msg));
            let at = owner_of(peers, channel_of(msg));
            if at < peers.len() {
                lemma_tcp_stays_backed(before, after, peers, msg, sctp_id, now, others);
            } else {
                lemma_unchanged_stays_backed(before, after, peers, others);
            }
        },
        LoopEventView::Timeouts => {
            let keep = stays(peers, limits, now);
            lemma_removal_stays_backed(before, after, peers, keep, others);
        },
        LoopEventView::Alive(keep) => {
            lemma_removal_stays_backed(before, after, peers, keep, others);
        },
        LoopEventView::Datagram(offers) => {
            lemma_receiver(peers.len(), offers);
            match receiver(offers) {
                Some((_, peer)) => {
                    let step = PeerStep {
                        peer: PeerView { last_activity: now, ..peers[peer] },
                        actions: seq![],
                        slots: 0,
                    };
                    lemma_step_stays_backed(before, after, peers, peer, step, others);
                },
                None => {
                    lemma_unchanged_stays_backed(before, after, peers, others);
                },
            }
        },
    }
}

proof fn lemma_slots_held_at(peers: Seq<PeerView>, i: int)
    requires
        0 <= i < peers.len(),
    ensures
        slots_held(peers, peers[i].peer_ip) >= 1,
    decreases peers.len(),
{
    if i < peers.len() - 1 {
        lemma_slots_held_at(peers.drop_last(), i);
    }
}

/// Whatever the loop meets with, the limits on slots are kept.
pub proof fn law_loop_keeps_limits(
    before: ConnectionTracker,
    after: ConnectionTracker,
    peers: Seq<PeerView>,
    event: LoopEventView,
    limits: WsLimits,
    has_ipv6: bool,
    allowed: Set<SocketAddr>,
    now: Duration,
    others: spec_fn(IpAddr) -> nat,
)
    requires
        event_fits(peers, event),
        backed(before, peers, others),
        before.within(limits),
        tracker_change(
            after,
            before,
            loop_step(peers, event, before, limits, has_ipv6, allowed, now).change,
        ),
    ensures
        after.within(limits),
{
    match event {
        LoopEventView::Reported { at, .. } => {
            lemma_slots_held_at(peers, at);
            let ip = peers[at].peer_ip;
            law_held_within_total(before, ip);
            assert(before.held(ip) == others(ip) + slots_held(peers, ip));
        },
        LoopEventView::FromTcp { msg, .. } => {
            lemma_owner_has(peers, channel_of(msg));
            let at = owner_of(peers, channel_of(msg));
            if at < peers.len() {
                lemma_slots_held_at(peers, at);
                let ip = peers[at].peer_ip;
                law_held_within_total(before, ip);
                assert(before.held(ip) == others(ip) + slots_held(peers, ip));
            }
        },
        LoopEventView::Timeouts => {
            lemma_removal_keeps_limits(
                before,
                after,
                peers,
                stays(peers, limits, now),
                limits,
                others,
            );
        },
        LoopEventView::Alive(keep) => {
            lemma_removal_keeps_limits(before, after, peers, keep, limits, others);
        },
        _ => {},
    }
    assert forall|ip: IpAddr| #[trigger] after.held(ip) <= limits.per_ip_limit by {
        assert(before.held(ip) <= limits.per_ip_limit);
    }
}

proof fn lemma_removal_keeps_limits(
    before: ConnectionTracker,
    after: ConnectionTracker,
    peers: Seq<PeerView>,
    keep: Seq<bool>,
    limits: WsLimits,
    others: spec_fn(IpAddr) -> nat,
)
    requires
        keep.len() == peers.len(),
        backed(before, peers, others),
        before.within(limits),
        after.gives_back_each(before, dropped_slots(peers, keep)),
    ensures
        after.within(limits),
{
    let gone = dropped_slots(peers, keep);
    assert forall|ip: IpAddr| #[trigger] occurrences(gone, ip) <= before.held(ip) by {
        lemma_dropped_slots(peers, keep, ip);
        assert(before.held(ip) == others(ip) + slots_held(peers, ip));
    }
    lemma_given_back_within_total(before, gone);
    let left = before.total() - gone.len();
    vstd::arithmetic::div_mod::lemma_small_mod(left as nat, (usize::MAX + 1) as nat);
    assert forall|ip: IpAddr| #[trigger] after.held(ip) <= limits.per_ip_limit by {
        assert(before.held(ip) <= limits.per_ip_limit);
    }
}

} // verus!
