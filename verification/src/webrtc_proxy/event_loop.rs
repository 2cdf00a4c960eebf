//! The event loop that drives all peers.

use vstd::prelude::*;

use super::bridge::{channel_of, TcpMsg, TcpMsgView};
use super::messages::closed_members;
use super::peer::{
    elapsed, event_step, fresh_for, fresh_peer, handle_peer_event, handle_tcp_closed,
    law_event_keeps_account, may_stay, peer_actions, peer_slots, release_slots, saturating_since,
    signaled, slots_change, Peer, PeerAction, PeerActionView, PeerEvent, PeerEventView, PeerStep,
    PeerView,
};
use crate::json::json_object_text;
use crate::net::{IpAddr, SocketAddr};
use crate::time::Duration;
use crate::ws_proxy::{
    lemma_gives_back_append, lemma_gives_back_none, ConnectionTracker, RelayAllowlist, WsLimits,
};

verus! {

/// What peers say.
pub open spec fn peer_views(v: Seq<Peer>) -> Seq<PeerView> {
    v.map_values(|p: Peer| p@)
}

/// Whether no two peers use one number for their channels.
pub open spec fn distinct_channels(peers: Seq<PeerView>) -> bool {
    forall|i: int, j: int, cid: u64|
        #![trigger peers[i].uses(cid), peers[j].uses(cid)]
        0 <= i < peers.len() && 0 <= j < peers.len() && peers[i].uses(cid) && peers[j].uses(cid)
            ==> i == j
}

/// Whether every peer is well-formed and no two use one number.
pub open spec fn peers_wf(peers: Seq<PeerView>) -> bool {
    &&& forall|i: int| 0 <= i < peers.len() ==> (#[trigger] peers[i]).wf()
    &&& distinct_channels(peers)
}

/// The first peer that has a channel bridged, or the number of peers where none has.
pub open spec fn owner_of(peers: Seq<PeerView>, cid: u64) -> int
    decreases peers.len(),
{
    if peers.len() == 0 || peers[0].channels.contains_key(cid) {
        0
    } else {
        1 + owner_of(peers.drop_first(), cid)
    }
}

proof fn lemma_owner_of(peers: Seq<PeerView>, cid: u64, n: int)
    requires
        0 <= n <= peers.len(),
        forall|i: int| 0 <= i < n ==> !(#[trigger] peers[i]).channels.contains_key(cid),
        n < peers.len() ==> peers[n].channels.contains_key(cid),
    ensures
        owner_of(peers, cid) == n,
    decreases peers.len(),
{
    if n > 0 {
        let rest = peers.drop_first();
        assert(!peers[0].channels.contains_key(cid));
        assert forall|i: int| 0 <= i < n - 1 implies !(#[trigger] rest[i]).channels.contains_key(
            cid,
        ) by {
            assert(rest[i] == peers[i + 1]);
        }
        lemma_owner_of(rest, cid, n - 1);
    }
}

/// The owner has the channel, and nobody before it.
pub proof fn lemma_owner_has(peers: Seq<PeerView>, cid: u64)
    ensures
        0 <= owner_of(peers, cid) <= peers.len(),
        owner_of(peers, cid) < peers.len() ==> peers[owner_of(peers, cid)].channels.contains_key(
            cid,
        ),
        forall|i: int|
            0 <= i < owner_of(peers, cid) ==> !(#[trigger] peers[i]).channels.contains_key(cid),
    decreases peers.len(),
{
    if peers.len() > 0 && !peers[0].channels.contains_key(cid) {
        let rest = peers.drop_first();
        lemma_owner_has(rest, cid);
        let n = owner_of(rest, cid);
        if n < rest.len() {
            assert(rest[n] == peers[n + 1]);
        }
        assert forall|i: int| 0 <= i < n + 1 implies !(#[trigger] peers[i]).channels.contains_key(
            cid,
        ) by {
            if i > 0 {
                assert(peers[i] == rest[i - 1]);
            }
        }
    }
}

/// Finds the first peer that has a channel bridged.
pub fn channel_owner(peers: &Vec<Peer>, cid: u64) -> (r: Option<usize>)
    ensures
        match r {
            Some(i) => {
                &&& i == owner_of(peer_views(peers@), cid) < peers@.len()
                &&& peers@[i as int]@.channels.contains_key(cid)
            },
            None => owner_of(peer_views(peers@), cid) == peers@.len(),
        },
{
    let ghost all = peer_views(peers@);
    let n: usize = peers.len();
    let mut i: usize = 0;
    while i < n
        invariant
            i <= n,
            n == peers@.len(),
            all == peer_views(peers@),
            forall|k: int| 0 <= k < i ==> !(#[trigger] all[k]).channels.contains_key(cid),
        decreases n - i,
    {
        if peers[i].has_channel(cid) {
            proof {
                lemma_owner_of(all, cid, i as int);
            }
            return Some(i);
        }
        i += 1;
    }
    proof {
        lemma_owner_of(all, cid, n as int);
    }
    None
}

/// What comes of a message for the peer that has the channel: data is written to the channel; at
/// the end of the connection the channel is closed, which the client is told, and its slot is
/// given back.
pub open spec fn tcp_step(
    peer: PeerView,
    msg: TcpMsgView,
    sctp_id: Option<u16>,
    now: Duration,
) -> PeerStep {
    match msg {
        TcpMsgView::Data(cid, data) => PeerStep {
            peer: PeerView { last_activity: now, ..peer },
            actions: seq![PeerActionView::ToChannel { cid, data }],
            slots: 0,
        },
        TcpMsgView::Closed(cid) => PeerStep {
            peer: PeerView { channels: peer.channels.remove(cid), ..peer },
            actions: seq![PeerActionView::CloseChannel { cid }] + signaled(
                peer.signal_cid,
                closed_members(peer.channels[cid], sctp_id.unwrap_or(0)),
            ),
            slots: -1,
        },
    }
}

/// Handles a message from a TCP bridge task: gives the peer that has the channel and what is to be
/// done for it. A message about a channel that no peer has is dropped. `sctp_id` is the stream of
/// the channel, where it has one.
pub fn handle_tcp_msg(
    peers: &mut Vec<Peer>,
    msg: TcpMsg,
    sctp_id: Option<u16>,
    connection_tracker: &mut ConnectionTracker,
    now: Duration,
) -> (r: Option<(usize, Vec<PeerAction>)>)
    requires
        distinct_channels(peer_views(old(peers)@)),
    ensures
        ({
            let before = peer_views(old(peers)@);
            let after = peer_views(final(peers)@);
            let i = owner_of(before, channel_of(msg@));
            match r {
                None => {
                    &&& i == before.len()
                    &&& after == before
                    &&& final(connection_tracker).same_as(*old(connection_tracker))
                },
                Some((at, actions)) => {
                    let step = tcp_step(before[i], msg@, sctp_id, now);
                    &&& at == i < before.len()
                    &&& after == before.update(i, step.peer)
                    &&& peer_actions(actions@) == step.actions
                    &&& slots_change(
                        *final(connection_tracker),
                        *old(connection_tracker),
                        before[i].peer_ip,
                        step.slots,
                    )
                },
            }
        }),
{
    let cid: u64 = match &msg {
        TcpMsg::Data(cid, _) => *cid,
        TcpMsg::Closed(cid) => *cid,
    };
    let ghost before = peer_views(peers@);
    let at: usize = match channel_owner(peers, cid) {
        Some(at) => at,
        None => {
            return None;
        },
    };
    let actions = match msg {
        TcpMsg::Data(_, data) => {
            peers[at].touch(now);
            let mut r: Vec<PeerAction> = Vec::new();
            r.push(PeerAction::ToChannel { cid, data });
            assert(peer_actions(r@) =~= seq![PeerActionView::ToChannel { cid, data: data@ }]);
            r
        },
        TcpMsg::Closed(_) => handle_tcp_closed(
            &mut peers[at],
            cid,
            sctp_id,
            connection_tracker,
        ),
    };
    assert(peer_views(peers@) =~= before.update(
        at as int,
        tcp_step(before[at as int], msg@, sctp_id, now).peer,
    ));
    Some((at, actions))
}

/// The peers that are kept, in their order.
pub open spec fn kept_peers(peers: Seq<PeerView>, keep: Seq<bool>) -> Seq<PeerView>
    decreases peers.len(),
{
    if peers.len() == 0 {
        seq![]
    } else {
        let head = kept_peers(peers.drop_last(), keep.drop_last());
        if keep.last() {
            head.push(peers.last())
        } else {
            head
        }
    }
}

/// The slots of the peers that are not kept.
pub open spec fn dropped_slots(peers: Seq<PeerView>, keep: Seq<bool>) -> Seq<IpAddr>
    decreases peers.len(),
{
    if peers.len() == 0 {
        seq![]
    } else {
        let head = dropped_slots(peers.drop_last(), keep.drop_last());
        if keep.last() {
            head
        } else {
            head + peer_slots(peers.last())
        }
    }
}

/// Removes the peers that are not to be kept, such as those that are disconnected, and gives back
/// their slots.
pub fn retain_peers(
    peers: &mut Vec<Peer>,
    keep: &Vec<bool>,
    connection_tracker: &mut ConnectionTracker,
)
    requires
        keep@.len() == old(peers)@.len(),
    ensures
        peer_views(final(peers)@) == kept_peers(peer_views(old(peers)@), keep@),
        final(connection_tracker).gives_back_each(
            *old(connection_tracker),
            dropped_slots(peer_views(old(peers)@), keep@),
        ),
{
    let ghost all = peer_views(peers@);
    let ghost start = *connection_tracker;
    let n: usize = keep.len();
    let mut at: usize = 0;
    let mut i: usize = 0;
    proof {
        lemma_gives_back_none(start);
        assert(all.skip(0) =~= all);
        assert(kept_peers(all.take(0), keep@.take(0)) + all =~= all);
    }
    while i < n
        invariant
            i <= n,
            n == keep@.len(),
            n == all.len(),
            at <= i,
            at == kept_peers(all.take(i as int), keep@.take(i as int)).len(),
            peer_views(peers@) == kept_peers(all.take(i as int), keep@.take(i as int)) + all.skip(
                i as int,
            ),
            connection_tracker.gives_back_each(
                start,
                dropped_slots(all.take(i as int), keep@.take(i as int)),
            ),
        decreases n - i,
    {
        let ghost head = kept_peers(all.take(i as int), keep@.take(i as int));
        let ghost before = peers@;
        proof {
            assert(all.take(i + 1).drop_last() =~= all.take(i as int));
            assert(keep@.take(i + 1).drop_last() =~= keep@.take(i as int));
            assert(peer_views(peers@).len() == peers@.len());
            assert(peer_views(peers@)[at as int] == all[i as int]);
        }
        if keep[i] {
            proof {
                assert(head.push(all[i as int]) + all.skip(i + 1) =~= head + all.skip(i as int));
            }
            at += 1;
        } else {
            let ghost during = *connection_tracker;
            release_slots(&peers[at], connection_tracker);
            peers.remove(at);
            proof {
                lemma_gives_back_append(
                    start,
                    during,
                    *connection_tracker,
                    dropped_slots(all.take(i as int), keep@.take(i as int)),
                    peer_slots(all[i as int]),
                );
                assert(peer_views(peers@) =~= peer_views(before).remove(at as int));
                assert(peer_views(peers@) =~= head + all.skip(i + 1));
            }
        }
        i += 1;
    }
    proof {
        assert(all.take(n as int) =~= all);
        assert(keep@.take(n as int) =~= keep@);
        assert(kept_peers(all, keep@) + all.skip(n as int) =~= kept_peers(all, keep@));
    }
}

/// For each peer, whether it may stay.
pub open spec fn stays(peers: Seq<PeerView>, limits: WsLimits, now: Duration) -> Seq<bool> {
    peers.map_values(|p: PeerView| may_stay(p, limits, now))
}

/// Enforce idle timeout and max lifetime: removes the peers that may not stay, and gives back
/// their slots. Tells of each peer whether it stays.
pub fn enforce_timeouts(
    peers: &mut Vec<Peer>,
    ws_limits: &WsLimits,
    connection_tracker: &mut ConnectionTracker,
    now: Duration,
) -> (r: Vec<bool>)
    ensures
        r@ == stays(peer_views(old(peers)@), *ws_limits, now),
        peer_views(final(peers)@) == kept_peers(peer_views(old(peers)@), r@),
        final(connection_tracker).gives_back_each(
            *old(connection_tracker),
            dropped_slots(peer_views(old(peers)@), r@),
        ),
{
    let ghost all = peer_views(peers@);
    let mut keep: Vec<bool> = Vec::new();
    let n: usize = peers.len();
    let mut i: usize = 0;
    while i < n
        invariant
            i <= n,
            n == peers@.len(),
            all == peer_views(peers@),
            keep@ == stays(all, *ws_limits, now).take(i as int),
        decreases n - i,
    {
        let peer = &peers[i];
        assert(all[i as int] == peer@);
        keep.push(peer.stays(ws_limits, now));
        i += 1;
    }
    assert(keep@ =~= stays(all, *ws_limits, now));
    retain_peers(peers, &keep, connection_tracker);
    keep
}

/// After the timeouts were enforced, every peer that is left may stay, and every peer that may
/// stay is left.
pub proof fn law_timeouts_enforced(
    peers: Seq<PeerView>,
    limits: WsLimits,
    now: Duration,
    peer: PeerView,
)
    ensures
        kept_peers(peers, stays(peers, limits, now)).contains(peer) <==> peers.contains(peer)
            && may_stay(peer, limits, now),
    decreases peers.len(),
{
    if peers.len() > 0 {
        let head = peers.drop_last();
        let last = peers.last();
        let keep = stays(peers, limits, now);
        law_timeouts_enforced(head, limits, now, peer);
        assert(keep.drop_last() =~= stays(head, limits, now));
        let before = kept_peers(head, keep.drop_last());
        let after = kept_peers(peers, keep);
        if head.contains(peer) {
            let k = choose|k: int| 0 <= k < head.len() && head[k] == peer;
            assert(peers[k] == peer);
        }
        if peers.contains(peer) && peer != last {
            let k = choose|k: int| 0 <= k < peers.len() && peers[k] == peer;
            assert(head[k] == peer);
        }
        assert(peers[peers.len() - 1] == last);
        if keep.last() {
            assert(after[after.len() - 1] == last);
            if before.contains(peer) {
                let k = choose|k: int| 0 <= k < before.len() && before[k] == peer;
                assert(after[k] == peer);
            }
            if after.contains(peer) && peer != last {
                let k = choose|k: int| 0 <= k < after.len() && after[k] == peer;
                assert(before[k] == peer);
            }
        }
    }
}

/// The earliest of a time and others.
pub open spec fn earliest_of(first: int, times: Seq<Duration>) -> int
    decreases times.len(),
{
    if times.len() == 0 {
        first
    } else {
        let before = earliest_of(first, times.drop_last());
        if times.last().nanos < before {
            times.last().nanos as int
        } else {
            before
        }
    }
}

/// A tenth of a second.
pub const MAX_WAIT_NANOS: u128 = 100_000_000;

/// A thousandth of a second.
pub const MIN_WAIT_NANOS: u128 = 1_000_000;

/// When the loop has to go on at the latest: at the first timeout of a peer, and in a tenth of a
/// second otherwise.
pub fn earliest_timeout(now: Duration, timeouts: &Vec<Duration>) -> (r: Duration)
    requires
        now.wf(),
    ensures
        r.nanos == earliest_of(now.nanos + MAX_WAIT_NANOS, timeouts@),
{
    let mut earliest: u128 = now.nanos + MAX_WAIT_NANOS;
    let n: usize = timeouts.len();
    let mut i: usize = 0;
    assert(timeouts@.take(0) =~= seq![]);
    while i < n
        invariant
            i <= n,
            n == timeouts@.len(),
            earliest == earliest_of(now.nanos + MAX_WAIT_NANOS, timeouts@.take(i as int)),
        decreases n - i,
    {
        assert(timeouts@.take(i + 1).drop_last() =~= timeouts@.take(i as int));
        if timeouts[i].nanos < earliest {
            earliest = timeouts[i].nanos;
        }
        i += 1;
    }
    assert(timeouts@.take(n as int) =~= timeouts@);
    Duration { nanos: earliest }
}

/// How long to wait for a datagram: until the earliest timeout, but at least a thousandth of a
/// second.
pub open spec fn wait_nanos(earliest: Duration, now: Duration) -> int {
    if elapsed(now, earliest) > MIN_WAIT_NANOS {
        elapsed(now, earliest)
    } else {
        MIN_WAIT_NANOS as int
    }
}

/// How long to wait for a datagram.
pub fn poll_wait(earliest: Duration, now: Duration) -> (r: Duration)
    ensures
        r.nanos == wait_nanos(earliest, now),
{
    let wait = saturating_since(earliest, now);
    if wait.nanos > MIN_WAIT_NANOS {
        wait
    } else {
        Duration { nanos: MIN_WAIT_NANOS }
    }
}

/// The earliest of some times is one of them, and none is before it.
pub proof fn law_earliest(first: int, times: Seq<Duration>)
    ensures
        earliest_of(first, times) <= first,
        forall|i: int|
            0 <= i < times.len() ==> earliest_of(first, times) <= (#[trigger] times[i]).nanos,
        earliest_of(first, times) == first || exists|i: int|
            0 <= i < times.len() && earliest_of(first, times) == (#[trigger] times[i]).nanos,
    decreases times.len(),
{
    if times.len() > 0 {
        let head = times.drop_last();
        law_earliest(first, head);
        assert forall|i: int| 0 <= i < times.len() implies earliest_of(first, times) <= (
        #[trigger] times[i]).nanos by {
            if i < head.len() {
                assert(times[i] == head[i]);
            }
        }
        if earliest_of(first, head) == first || times.last().nanos < earliest_of(first, head) {
            assert(times[times.len() - 1] == times.last());
        } else {
            let i = choose|i: int|
                0 <= i < head.len() && earliest_of(first, head) == (#[trigger] head[i]).nanos;
            assert(times[i] == head[i]);
        }
    }
}

/// While the earliest timeout is the one that was computed now, the loop waits between a
/// thousandth and a tenth of a second.
pub proof fn law_wait_is_bounded(now: Duration, timeouts: Seq<Duration>, earliest: Duration)
    requires
        earliest.nanos == earliest_of(now.nanos + MAX_WAIT_NANOS, timeouts),
    ensures
        MIN_WAIT_NANOS <= wait_nanos(earliest, now) <= MAX_WAIT_NANOS,
{
    law_earliest(now.nanos + MAX_WAIT_NANOS, timeouts);
}

/// Where the first `true` stands, or the length where there is none.
pub open spec fn first_true(flags: Seq<bool>) -> int
    decreases flags.len(),
{
    if flags.len() == 0 || flags[0] {
        0
    } else {
        1 + first_true(flags.drop_first())
    }
}

/// Which peer gets a datagram. For each address to which it may have been sent, `offers` has
/// which peers accept it as sent there, or `None` where it cannot be read as sent there. The
/// first address that any peer accepts decides, and the first such peer.
pub open spec fn receiver(offers: Seq<Option<Seq<bool>>>) -> Option<(int, int)>
    decreases offers.len(),
{
    if offers.len() == 0 {
        None
    } else {
        match offers[0] {
            Some(flags) if first_true(flags) < flags.len() => Some((0, first_true(flags))),
            _ => match receiver(offers.drop_first()) {
                Some((at, peer)) => Some((at + 1, peer)),
                None => None,
            },
        }
    }
}

/// What offers say.
pub open spec fn offer_views(v: Seq<Option<Vec<bool>>>) -> Seq<Option<Seq<bool>>> {
    v.map_values(
        |o: Option<Vec<bool>>|
            match o {
                Some(flags) => Some(flags@),
                None => None,
            },
    )
}

fn position(flags: &Vec<bool>) -> (r: Option<usize>)
    ensures
        match r {
            Some(i) => i == first_true(flags@) < flags@.len(),
            None => first_true(flags@) == flags@.len(),
        },
{
    let n: usize = flags.len();
    let mut i: usize = 0;
    assert(flags@.skip(0) =~= flags@);
    while i < n
        invariant
            i <= n,
            n == flags@.len(),
            first_true(flags@) == i + first_true(flags@.skip(i as int)),
        decreases n - i,
    {
        if flags[i] {
            return Some(i);
        }
        assert(flags@.skip(i as int).drop_first() =~= flags@.skip(i + 1));
        i += 1;
    }
    None
}

/// Hands a datagram to the peer that accepts it, which has been active then: gives which address
/// it was sent to and which peer gets it; `None` where no peer accepts it.
pub fn handle_datagram(peers: &mut Vec<Peer>, offers: &Vec<Option<Vec<bool>>>, now: Duration) -> (r:
    Option<(usize, usize)>)
    requires
        forall|i: int|
            0 <= i < offers@.len() ==> ((#[trigger] offers@[i]) matches Some(flags) ==> flags@.len()
                == old(peers)@.len()),
    ensures
        match (r, receiver(offer_views(offers@))) {
            (Some((at, peer)), Some((a, p))) => {
                let before = peer_views(old(peers)@);
                &&& at == a < offers@.len() && peer == p < before.len()
                &&& peer_views(final(peers)@) == before.update(
                    p,
                    PeerView { last_activity: now, ..before[p] },
                )
            },
            (None, None) => peer_views(final(peers)@) == peer_views(old(peers)@),
            _ => false,
        },
{
    let ghost all = offer_views(offers@);
    let ghost before = peer_views(peers@);
    let n: usize = offers.len();
    let mut i: usize = 0;
    assert(all.skip(0) =~= all);
    while i < n
        invariant
            i <= n,
            n == offers@.len(),
            all == offer_views(offers@),
            before == peer_views(peers@),
            peers@ == old(peers)@,
            forall|k: int|
                0 <= k < offers@.len() ==> ((#[trigger] offers@[k]) matches Some(flags)
                    ==> flags@.len() == peers@.len()),
            receiver(all) == (match receiver(all.skip(i as int)) {
                Some((at, peer)) => Some((at + i, peer)),
                None => None,
            }),
        decreases n - i,
    {
        assert(all.skip(i as int).drop_first() =~= all.skip(i + 1));
        assert(all.skip(i as int)[0] == all[i as int]);
        if let Some(flags) = &offers[i] {
            assert(all[i as int] == Some(flags@));
            if let Some(p) = position(flags) {
                peers[p].touch(now);
                assert(peer_views(peers@) =~= before.update(
                    p as int,
                    PeerView { last_activity: now, ..before[p as int] },
                ));
                return Some((i, p));
            }
        }
        i += 1;
    }
    None
}

/// A newly negotiated peer, sent from the HTTP signaling handler to the UDP loop.
pub struct NewPeer {
    pub peer_ip: IpAddr,
}

/// What the UDP event loop meets with.
pub enum LoopEvent {
    /// The signaling handler has handed over a peer.
    Accepted(NewPeer),
    /// The WebRTC stack of the peer `at` has something to report.
    Reported { at: usize, event: PeerEvent },
    /// A TCP bridge has sent a message about a channel with the stream `sctp_id`.
    FromTcp { msg: TcpMsg, sctp_id: Option<u16> },
    /// It is time to enforce the timeouts.
    Timeouts,
    /// Which peers are still connected.
    Alive(Vec<bool>),
    /// A datagram came; for each address to which it may have been sent, which peers accept it.
    Datagram(Vec<Option<Vec<bool>>>),
}

/// What an event says.
pub enum LoopEventView {
    Accepted(IpAddr),
    Reported { at: int, event: PeerEventView },
    FromTcp { msg: TcpMsgView, sctp_id: Option<u16> },
    Timeouts,
    Alive(Seq<bool>),
    Datagram(Seq<Option<Seq<bool>>>),
}

impl View for LoopEvent {
    type V = LoopEventView;

    open spec fn view(&self) -> LoopEventView {
        match self {
            LoopEvent::Accepted(new_peer) => LoopEventView::Accepted(new_peer.peer_ip),
            LoopEvent::Reported { at, event } => LoopEventView::Reported {
                at: *at as int,
                event: event@,
            },
            LoopEvent::FromTcp { msg, sctp_id } => LoopEventView::FromTcp {
                msg: msg@,
                sctp_id: *sctp_id,
            },
            LoopEvent::Timeouts => LoopEventView::Timeouts,
            LoopEvent::Alive(keep) => LoopEventView::Alive(keep@),
            LoopEvent::Datagram(offers) => LoopEventView::Datagram(offer_views(offers@)),
        }
    }
}

/// What the caller does next.
pub enum LoopOutcome {
    /// Nothing.
    Nothing,
    /// These actions for the peer `at`, in order.
    Act { at: usize, actions: Vec<PeerAction> },
    /// Let go of the peers that are not kept.
    Kept(Vec<bool>),
    /// Hand the datagram, as sent to this address, to this peer.
    Deliver { address: usize, peer: usize },
}

/// What an outcome says.
pub enum LoopOutcomeView {
    Nothing,
    Act { at: int, actions: Seq<PeerActionView> },
    Kept(Seq<bool>),
    Deliver { address: int, peer: int },
}

impl View for LoopOutcome {
    type V = LoopOutcomeView;

    open spec fn view(&self) -> LoopOutcomeView {
        match self {
            LoopOutcome::Nothing => LoopOutcomeView::Nothing,
            LoopOutcome::Act { at, actions } => LoopOutcomeView::Act {
                at: *at as int,
                actions: peer_actions(actions@),
            },
            LoopOutcome::Kept(keep) => LoopOutcomeView::Kept(keep@),
            LoopOutcome::Deliver { address, peer } => LoopOutcomeView::Deliver {
                address: *address as int,
                peer: *peer as int,
            },
        }
    }
}

/// The slots that a step takes or gives back: one of an address or none, or many given back.
pub enum SlotsChange {
    Of { ip: IpAddr, slots: int },
    Each(Seq<IpAddr>),
}

/// The change that a step makes to the slots.
pub open spec fn tracker_change(
    after: ConnectionTracker,
    before: ConnectionTracker,
    change: SlotsChange,
) -> bool {
    match change {
        SlotsChange::Of { ip, slots } => slots_change(after, before, ip, slots),
        SlotsChange::Each(ips) => after.gives_back_each(before, ips),
    }
}

/// What comes of an event of the loop.
pub struct LoopStep {
    pub peers: Seq<PeerView>,
    pub outcome: LoopOutcomeView,
    pub change: SlotsChange,
}

/// The step that changes one peer.
pub open spec fn one_peer(peers: Seq<PeerView>, at: int, step: PeerStep) -> LoopStep {
    LoopStep {
        peers: peers.update(at, step.peer),
        outcome: LoopOutcomeView::Act { at, actions: step.actions },
        change: SlotsChange::Of { ip: peers[at].peer_ip, slots: step.slots },
    }
}

/// The step that keeps some peers.
pub open spec fn some_peers(peers: Seq<PeerView>, keep: Seq<bool>) -> LoopStep {
    LoopStep {
        peers: kept_peers(peers, keep),
        outcome: LoopOutcomeView::Kept(keep),
        change: SlotsChange::Each(dropped_slots(peers, keep)),
    }
}

/// The step that changes nothing.
pub open spec fn unchanged(peers: Seq<PeerView>) -> LoopStep {
    LoopStep {
        peers,
        outcome: LoopOutcomeView::Nothing,
        change: SlotsChange::Of { ip: IpAddr::V4(0), slots: 0 },
    }
}

/// What comes of an event of the loop.
pub open spec fn loop_step(
    peers: Seq<PeerView>,
    event: LoopEventView,
    tracker: ConnectionTracker,
    limits: WsLimits,
    has_ipv6: bool,
    allowed: Set<SocketAddr>,
    now: Duration,
) -> LoopStep {
    match event {
        LoopEventView::Accepted(ip) => LoopStep {
            peers: peers.push(fresh_peer(ip, now)),
            outcome: LoopOutcomeView::Nothing,
            change: SlotsChange::Of { ip, slots: 0 },
        },
        LoopEventView::Reported { at, event } => one_peer(
            peers,
            at,
            event_step(
                peers[at],
                event,
                has_ipv6,
                allowed,
                tracker.admits(peers[at].peer_ip, limits),
                now,
            ),
        ),
        LoopEventView::FromTcp { msg, sctp_id } => {
            let at = owner_of(peers, channel_of(msg));
            if at < peers.len() {
                one_peer(peers, at, tcp_step(peers[at], msg, sctp_id, now))
            } else {
                unchanged(peers)
            }
        },
        LoopEventView::Timeouts => some_peers(peers, stays(peers, limits, now)),
        LoopEventView::Alive(keep) => some_peers(peers, keep),
        LoopEventView::Datagram(offers) => match receiver(offers) {
            Some((address, peer)) => LoopStep {
                peers: peers.update(peer, PeerView { last_activity: now, ..peers[peer] }),
                outcome: LoopOutcomeView::Deliver { address, peer },
                change: SlotsChange::Of { ip: peers[peer].peer_ip, slots: 0 },
            },
            None => unchanged(peers),
        },
    }
}

/// Whether offers are about as many peers as there are.
pub open spec fn offers_fit(n: nat, offers: Seq<Option<Seq<bool>>>) -> bool {
    forall|i: int|
        0 <= i < offers.len() ==> ((#[trigger] offers[i]) matches Some(flags) ==> flags.len() == n)
}

/// Whether no peer uses a number yet.
pub open spec fn unused(peers: Seq<PeerView>, cid: u64) -> bool {
    forall|k: int| 0 <= k < peers.len() ==> !(#[trigger] peers[k]).uses(cid)
}

/// Whether an event is about peers that there are, and a channel that opens has a number that no
/// peer uses.
pub open spec fn event_fits(peers: Seq<PeerView>, event: LoopEventView) -> bool {
    match event {
        LoopEventView::Reported { at, event } => 0 <= at < peers.len() && (
        event matches PeerEventView::ChannelOpen { cid, .. } ==> unused(peers, cid)),
        LoopEventView::Alive(keep) => keep.len() == peers.len(),
        LoopEventView::Datagram(offers) => offers_fit(peers.len(), offers),
        _ => true,
    }
}

/// The UDP event loop that drives all WebRTC peers: one step. It takes in new peers, handles what
/// peers and TCP bridges report, removes peers that are idle, too old or disconnected, and finds
/// the peer that a datagram is for.
pub fn run_udp_loop(
    peers: &mut Vec<Peer>,
    event: LoopEvent,
    relay_allowlist: &RelayAllowlist,
    connection_tracker: &mut ConnectionTracker,
    ws_limits: &WsLimits,
    has_ipv6: bool,
    now: Duration,
) -> (r: LoopOutcome)
    requires
        peers_wf(peer_views(old(peers)@)),
        event_fits(peer_views(old(peers)@), event@),
    ensures
        peers_wf(peer_views(final(peers)@)),
        ({
            let step = loop_step(
                peer_views(old(peers)@),
                event@,
                *old(connection_tracker),
                *ws_limits,
                has_ipv6,
                relay_allowlist@,
                now,
            );
            &&& peer_views(final(peers)@) == step.peers
            &&& r@ == step.outcome
            &&& tracker_change(*final(connection_tracker), *old(connection_tracker), step.change)
        }),
{
    let ghost before = peer_views(peers@);
    proof {
        law_loop_keeps_channels_distinct(
            before,
            event@,
            *connection_tracker,
            *ws_limits,
            has_ipv6,
            relay_allowlist@,
            now,
        );
    }
    match event {
        LoopEvent::Accepted(new_peer) => {
            let peer = Peer::new(new_peer.peer_ip, now);
            peers.push(peer);
            assert(peer_views(peers@) =~= before.push(fresh_peer(new_peer.peer_ip, now)));
            LoopOutcome::Nothing
        },
        LoopEvent::Reported { at, event } => {
            let actions = handle_peer_event(
                &mut peers[at],
                event,
                relay_allowlist,
                connection_tracker,
                ws_limits,
                has_ipv6,
                now,
            );
            assert(peer_views(peers@) =~= before.update(at as int, peers@[at as int]@));
            LoopOutcome::Act { at, actions }
        },
        LoopEvent::FromTcp { msg, sctp_id } => {
            match handle_tcp_msg(peers, msg, sctp_id, connection_tracker, now) {
                Some((at, actions)) => LoopOutcome::Act { at, actions },
                None => LoopOutcome::Nothing,
            }
        },
        LoopEvent::Timeouts => LoopOutcome::Kept(
            enforce_timeouts(peers, ws_limits, connection_tracker, now),
        ),
        LoopEvent::Alive(keep) => {
            retain_peers(peers, &keep, connection_tracker);
            LoopOutcome::Kept(keep)
        },
        LoopEvent::Datagram(offers) => {
            assert forall|i: int| 0 <= i < offers@.len() implies ((
            #[trigger] offers@[i]) matches Some(flags) ==> flags@.len() == peers@.len()) by {
                assert(offer_views(offers@)[i] == (match offers@[i] {
                    Some(flags) => Some(flags@),
                    None => None,
                }));
            }
            match handle_datagram(peers, &offers, now) {
                Some((address, peer)) => LoopOutcome::Deliver { address, peer },
                None => LoopOutcome::Nothing,
            }
        },
    }
}

proof fn lemma_first_true(flags: Seq<bool>)
    ensures
        0 <= first_true(flags) <= flags.len(),
    decreases flags.len(),
{
    if flags.len() > 0 {
        lemma_first_true(flags.drop_first());
    }
}

/// The peer that gets a datagram is one of those there are.
pub proof fn lemma_receiver(n: nat, offers: Seq<Option<Seq<bool>>>)
    requires
        offers_fit(n, offers),
    ensures
        receiver(offers) matches Some((at, peer)) ==> 0 <= at < offers.len() && 0 <= peer < n,
    decreases offers.len(),
{
    if offers.len() > 0 {
        let rest = offers.drop_first();
        if let Some(flags) = offers[0] {
            lemma_first_true(flags);
        }
        assert forall|i: int| 0 <= i < rest.len() implies ((#[trigger] rest[i]) matches Some(flags)
            ==> flags.len() == n) by {
            assert(rest[i] == offers[i + 1]);
        }
        lemma_receiver(n, rest);
    }
}

/// A peer that is kept is one of those there were.
proof fn lemma_kept_among(peers: Seq<PeerView>, keep: Seq<bool>, k: int)
    requires
        keep.len() == peers.len(),
        0 <= k < kept_peers(peers, keep).len(),
    ensures
        exists|i: int| 0 <= i < peers.len() && #[trigger] peers[i] == kept_peers(peers, keep)[k],
    decreases peers.len(),
{
    let head = peers.drop_last();
    let before = kept_peers(head, keep.drop_last());
    if k < before.len() {
        lemma_kept_among(head, keep.drop_last(), k);
        let i = choose|i: int| 0 <= i < head.len() && #[trigger] head[i] == before[k];
        assert(peers[i] == head[i]);
    } else {
        assert(peers[peers.len() - 1] == peers.last());
    }
}

proof fn lemma_kept_wf(peers: Seq<PeerView>, keep: Seq<bool>)
    requires
        keep.len() == peers.len(),
        peers_wf(peers),
    ensures
        peers_wf(kept_peers(peers, keep)),
    decreases peers.len(),
{
    let kept = kept_peers(peers, keep);
    if peers.len() > 0 {
        let head = peers.drop_last();
        let last = peers.last();
        let before = kept_peers(head, keep.drop_last());
        assert(peers_wf(head)) by {
            assert forall|i: int| 0 <= i < head.len() implies (#[trigger] head[i]).wf() by {
                assert(head[i] == peers[i]);
            }
            assert forall|i: int, j: int, cid: u64|
                #![trigger head[i].uses(cid), head[j].uses(cid)]
                0 <= i < head.len() && 0 <= j < head.len() && head[i].uses(cid) && head[j].uses(
                    cid,
                ) implies i == j by {
                assert(peers[i].uses(cid) && peers[j].uses(cid));
            }
        }
        lemma_kept_wf(head, keep.drop_last());
        if keep.last() {
            assert forall|k: int| 0 <= k < kept.len() implies (#[trigger] kept[k]).wf() by {
                if k < before.len() {
                    assert(kept[k] == before[k]);
                } else {
                    assert(peers[peers.len() - 1].wf());
                }
            }
            assert forall|k: int, cid: u64| 0 <= k < before.len() && #[trigger] before[k].uses(
                cid,
            ) implies !last.uses(cid) by {
                lemma_kept_among(head, keep.drop_last(), k);
                let i = choose|i: int| 0 <= i < head.len() && #[trigger] head[i] == before[k];
                assert(peers[i].uses(cid));
                if last.uses(cid) {
                    assert(peers[peers.len() - 1].uses(cid));
                }
            }
            assert forall|i: int, j: int, cid: u64|
                #![trigger kept[i].uses(cid), kept[j].uses(cid)]
                0 <= i < kept.len() && 0 <= j < kept.len() && kept[i].uses(cid) && kept[j].uses(
                    cid,
                ) implies i == j by {
                if i < before.len() && j < before.len() {
                    assert(before[i].uses(cid) && before[j].uses(cid));
                } else if i < before.len() {
                    assert(before[i].uses(cid));
                } else if j < before.len() {
                    assert(before[j].uses(cid));
                }
            }
        }
    }
}

/// A peer may change as long as it takes no number that another peer uses.
proof fn lemma_update_wf(peers: Seq<PeerView>, i: int, peer: PeerView)
    requires
        peers_wf(peers),
        0 <= i < peers.len(),
        peer.wf(),
        forall|cid: u64| #[trigger] peer.uses(cid) ==> peers[i].uses(cid) || unused(peers, cid),
    ensures
        peers_wf(peers.update(i, peer)),
{
    let after = peers.update(i, peer);
    assert forall|a: int, b: int, cid: u64|
        #![trigger after[a].uses(cid), after[b].uses(cid)]
        0 <= a < after.len() && 0 <= b < after.len() && after[a].uses(cid) && after[b].uses(
            cid,
        ) implies a == b by {
        if a != i && b != i {
            assert(peers[a].uses(cid) && peers[b].uses(cid));
        } else if a != b {
            let other = if a == i {
                b
            } else {
                a
            };
            assert(peers[other].uses(cid));
            assert(peer.uses(cid));
            assert(peers[i].uses(cid));
        }
    }
}

/// Whatever the loop meets with, the peers stay well-formed and no two use one number.
pub proof fn law_loop_keeps_channels_distinct(
    peers: Seq<PeerView>,
    event: LoopEventView,
    tracker: ConnectionTracker,
    limits: WsLimits,
    has_ipv6: bool,
    allowed: Set<SocketAddr>,
    now: Duration,
)
    requires
        peers_wf(peers),
        event_fits(peers, event),
    ensures
        peers_wf(loop_step(peers, event, tracker, limits, has_ipv6, allowed, now).peers),
{
    let step = loop_step(peers, event, tracker, limits, has_ipv6, allowed, now);
    match event {
        LoopEventView::Accepted(ip) => {
            let new = fresh_peer(ip, now);
            let after = step.peers;
            assert forall|i: int| 0 <= i < after.len() implies (#[trigger] after[i]).wf() by {
                if i < peers.len() {
                    assert(after[i] == peers[i]);
                }
            }
            assert forall|i: int, j: int, cid: u64|
                #![trigger after[i].uses(cid), after[j].uses(cid)]
                0 <= i < after.len() && 0 <= j < after.len() && after[i].uses(cid)
                    && after[j].uses(cid) implies i == j by {
                assert(!new.uses(cid));
                assert(peers[i].uses(cid) && peers[j].uses(cid));
            }
        },
        LoopEventView::Reported { at, event } => {
            let peer = peers[at];
            let admitted = tracker.admits(peer.peer_ip, limits);
            let next = event_step(peer, event, has_ipv6, allowed, admitted, now).peer;
            assert(fresh_for(peer, event));
            law_event_keeps_account(peer, event, has_ipv6, allowed, admitted, now);
            lemma_update_wf(peers, at, next);
        },
        LoopEventView::FromTcp { msg, sctp_id } => {
            lemma_owner_has(peers, channel_of(msg));
            let at = owner_of(peers, channel_of(msg));
            if at < peers.len() {
                lemma_update_wf(peers, at, tcp_step(peers[at], msg, sctp_id, now).peer);
            }
        },
        LoopEventView::Timeouts => {
            lemma_kept_wf(peers, stays(peers, limits, now));
        },
        LoopEventView::Alive(keep) => {
            lemma_kept_wf(peers, keep);
        },
        LoopEventView::Datagram(offers) => {
            lemma_receiver(peers.len(), offers);
            if let Some((_, p)) = receiver(offers) {
                lemma_update_wf(peers, p, PeerView { last_activity: now, ..peers[p] });
            }
        },
    }
}

/// What TCP yields for a channel comes to the peer that has the channel, and no other peer
/// changes. Data is written to that channel and to no other.
pub proof fn law_tcp_reaches_owner(
    peers: Seq<PeerView>,
    i: int,
    msg: TcpMsgView,
    sctp_id: Option<u16>,
    tracker: ConnectionTracker,
    limits: WsLimits,
    has_ipv6: bool,
    allowed: Set<SocketAddr>,
    now: Duration,
)
    requires
        distinct_channels(peers),
        0 <= i < peers.len(),
        peers[i].channels.contains_key(channel_of(msg)),
    ensures
        ({
            let event = LoopEventView::FromTcp { msg, sctp_id };
            let step = loop_step(peers, event, tracker, limits, has_ipv6, allowed, now);
            let own = tcp_step(peers[i], msg, sctp_id, now);
            &&& step.outcome == (LoopOutcomeView::Act { at: i, actions: own.actions })
            &&& step.peers.len() == peers.len()
            &&& step.peers[i] == own.peer
            &&& forall|k: int|
                0 <= k < peers.len() && k != i ==> #[trigger] step.peers[k] == peers[k]
            &&& msg matches TcpMsgView::Data(cid, data) ==> own.actions == seq![
                PeerActionView::ToChannel { cid, data },
            ]
        }),
{
    let cid = channel_of(msg);
    lemma_owner_has(peers, cid);
    let n = owner_of(peers, cid);
    assert(peers[i].uses(cid));
    if n < peers.len() {
        assert(peers[n].uses(cid));
    }
}

/// What comes of data that TCP yields for a channel, one read after the other: the peers, and the
/// actions with the peers that they are for. Each read comes with its time.
pub open spec fn tcp_run(
    peers: Seq<PeerView>,
    cid: u64,
    reads: Seq<(Seq<u8>, Duration)>,
    tracker: ConnectionTracker,
    limits: WsLimits,
    has_ipv6: bool,
    allowed: Set<SocketAddr>,
) -> (Seq<PeerView>, Seq<LoopOutcomeView>)
    decreases reads.len(),
{
    if reads.len() == 0 {
        (peers, seq![])
    } else {
        let (before, outcomes) = tcp_run(
            peers,
            cid,
            reads.drop_last(),
            tracker,
            limits,
            has_ipv6,
            allowed,
        );
        let (data, now) = reads.last();
        let event = LoopEventView::FromTcp { msg: TcpMsgView::Data(cid, data), sctp_id: None };
        let step = loop_step(before, event, tracker, limits, has_ipv6, allowed, now);
        (step.peers, outcomes.push(step.outcome))
    }
}

/// What TCP yields for a channel is written to it, read by read, unchanged and in order; no other
/// peer changes.
pub proof fn law_tcp_payloads_reach_channel(
    peers: Seq<PeerView>,
    i: int,
    cid: u64,
    reads: Seq<(Seq<u8>, Duration)>,
    tracker: ConnectionTracker,
    limits: WsLimits,
    has_ipv6: bool,
    allowed: Set<SocketAddr>,
)
    requires
        peers_wf(peers),
        0 <= i < peers.len(),
        peers[i].channels.contains_key(cid),
    ensures
        ({
            let (after, outcomes) = tcp_run(peers, cid, reads, tracker, limits, has_ipv6, allowed);
            &&& peers_wf(after)
            &&& after.len() == peers.len()
            &&& after[i].channels == peers[i].channels
            &&& forall|k: int| 0 <= k < peers.len() && k != i ==> #[trigger] after[k] == peers[k]
            &&& outcomes.len() == reads.len()
            &&& forall|n: int|
                0 <= n < reads.len() ==> #[trigger] outcomes[n] == (LoopOutcomeView::Act {
                    at: i,
                    actions: seq![PeerActionView::ToChannel { cid, data: reads[n].0 }],
                })
        }),
    decreases reads.len(),
{
    if reads.len() > 0 {
        let head = reads.drop_last();
        law_tcp_payloads_reach_channel(
            peers,
            i,
            cid,
            head,
            tracker,
            limits,
            has_ipv6,
            allowed,
        );
        let (before, outcomes) = tcp_run(peers, cid, head, tracker, limits, has_ipv6, allowed);
        let (data, now) = reads.last();
        let msg = TcpMsgView::Data(cid, data);
        let event = LoopEventView::FromTcp { msg, sctp_id: None };
        law_tcp_reaches_owner(before, i, msg, None, tracker, limits, has_ipv6, allowed, now);
        law_loop_keeps_channels_distinct(
            before,
            event,
            tracker,
            limits,
            has_ipv6,
            allowed,
            now,
        );
        let (_, all) = tcp_run(peers, cid, reads, tracker, limits, has_ipv6, allowed);
        assert forall|n: int| 0 <= n < reads.len() implies #[trigger] all[n] == (
        LoopOutcomeView::Act {
            at: i,
            actions: seq![PeerActionView::ToChannel { cid, data: reads[n].0 }],
        }) by {
            if n < head.len() {
                assert(all[n] == outcomes[n]);
                assert(head[n] == reads[n]);
            }
        }
    }
}

/// The first `true` is one, with none before it.
pub proof fn law_first_true(flags: Seq<bool>)
    ensures
        0 <= first_true(flags) <= flags.len(),
        first_true(flags) < flags.len() ==> flags[first_true(flags)],
        forall|i: int| 0 <= i < first_true(flags) ==> !(#[trigger] flags[i]),
    decreases flags.len(),
{
    if flags.len() > 0 && !flags[0] {
        let rest = flags.drop_first();
        law_first_true(rest);
        assert forall|i: int| 0 <= i < first_true(flags) implies !(#[trigger] flags[i]) by {
            if i > 0 {
                assert(flags[i] == rest[i - 1]);
            }
        }
    }
}

/// Whether any peer accepts a datagram as sent to an address.
pub open spec fn accepted_at(offer: Option<Seq<bool>>) -> bool {
    offer matches Some(flags) && flags.contains(true)
}

/// A datagram is delivered wherever some peer accepts it as sent to some address: to the first
/// peer that accepts it as sent to the first address at which any does. It is dropped only where
/// no peer accepts it at any address.
pub proof fn law_receiver(offers: Seq<Option<Seq<bool>>>)
    ensures
        match receiver(offers) {
            None => forall|i: int| 0 <= i < offers.len() ==> !accepted_at(#[trigger] offers[i]),
            Some((address, peer)) => {
                &&& 0 <= address < offers.len()
                &&& offers[address] matches Some(flags)
                &&& 0 <= peer < flags.len()
                &&& flags[peer]
                &&& forall|i: int| 0 <= i < peer ==> !(#[trigger] flags[i])
                &&& forall|i: int| 0 <= i < address ==> !accepted_at(#[trigger] offers[i])
            },
        },
    decreases offers.len(),
{
    if offers.len() > 0 {
        let rest = offers.drop_first();
        law_receiver(rest);
        let here = match offers[0] {
            Some(flags) => {
                law_first_true(flags);
                if first_true(flags) == flags.len() {
                    assert(!flags.contains(true));
                }
                first_true(flags) < flags.len()
            },
            None => false,
        };
        if !here {
            assert(!accepted_at(offers[0]));
            match receiver(rest) {
                None => {
                    assert forall|i: int| 0 <= i < offers.len() implies !accepted_at(
                        #[trigger] offers[i],
                    ) by {
                        if i > 0 {
                            assert(offers[i] == rest[i - 1]);
                        }
                    }
                },
                Some((address, peer)) => {
                    assert(offers[address + 1] == rest[address]);
                    assert forall|i: int| 0 <= i < address + 1 implies !accepted_at(
                        #[trigger] offers[i],
                    ) by {
                        if i > 0 {
                            assert(offers[i] == rest[i - 1]);
                        }
                    }
                },
            }
        }
    }
}

/// A datagram that some peer accepts is handed to that peer, which has been active then; no other
/// peer changes, and no slot is taken or given back. One that no peer accepts changes nothing.
pub proof fn law_datagram(
    peers: Seq<PeerView>,
    offers: Seq<Option<Seq<bool>>>,
    tracker: ConnectionTracker,
    limits: WsLimits,
    has_ipv6: bool,
    allowed: Set<SocketAddr>,
    now: Duration,
)
    requires
        offers_fit(peers.len(), offers),
    ensures
        ({
            let event = LoopEventView::Datagram(offers);
            let step = loop_step(peers, event, tracker, limits, has_ipv6, allowed, now);
            &&& step.change matches SlotsChange::Of { slots, .. } && slots == 0
            &&& match step.outcome {
                LoopOutcomeView::Nothing => {
                    &&& step.peers == peers
                    &&& forall|i: int|
                        0 <= i < offers.len() ==> !accepted_at(#[trigger] offers[i])
                },
                LoopOutcomeView::Deliver { address, peer } => {
                    &&& 0 <= address < offers.len()
                    &&& offers[address] matches Some(flags)
                    &&& 0 <= peer < peers.len()
                    &&& flags[peer]
                    &&& forall|i: int| 0 <= i < peer ==> !(#[trigger] flags[i])
                    &&& forall|i: int| 0 <= i < address ==> !accepted_at(#[trigger] offers[i])
                    &&& step.peers.len() == peers.len()
                    &&& forall|i: int|
                        0 <= i < peers.len() && i != peer ==> #[trigger] step.peers[i] == peers[i]
                    &&& step.peers[peer].last_activity == now
                    &&& step.peers[peer].channels == peers[peer].channels
                    &&& step.peers[peer].signal_cid == peers[peer].signal_cid
                    &&& step.peers[peer].peer_ip == peers[peer].peer_ip
                    &&& step.peers[peer].created_at == peers[peer].created_at
                },
                _ => false,
            }
        }),
{
    law_receiver(offers);
    lemma_receiver(peers.len(), offers);
}

/// A peer that is handed over comes after those there are, without any channel, and changes
/// nothing else.
pub proof fn law_accepted(
    peers: Seq<PeerView>,
    ip: IpAddr,
    tracker: ConnectionTracker,
    limits: WsLimits,
    has_ipv6: bool,
    allowed: Set<SocketAddr>,
    now: Duration,
)
    ensures
        ({
            let event = LoopEventView::Accepted(ip);
            let step = loop_step(peers, event, tracker, limits, has_ipv6, allowed, now);
            let new = step.peers.last();
            &&& step.peers.len() == peers.len() + 1
            &&& forall|i: int| 0 <= i < peers.len() ==> #[trigger] step.peers[i] == peers[i]
            &&& new.peer_ip == ip
            &&& new.channels.dom() =~= Set::<u64>::empty()
            &&& new.signal_cid is None
            &&& new.created_at == now
            &&& new.last_activity == now
            &&& step.outcome is Nothing
            &&& step.change matches SlotsChange::Of { slots, .. } && slots == 0
        }),
{
}

/// What a peer reports comes to that peer, and to no other; the actions are for it, and so are the
/// slots. It may take a slot where the limits leave one.
pub proof fn law_reported(
    peers: Seq<PeerView>,
    at: int,
    event: PeerEventView,
    tracker: ConnectionTracker,
    limits: WsLimits,
    has_ipv6: bool,
    allowed: Set<SocketAddr>,
    now: Duration,
)
    requires
        0 <= at < peers.len(),
    ensures
        ({
            let step = loop_step(
                peers,
                LoopEventView::Reported { at, event },
                tracker,
                limits,
                has_ipv6,
                allowed,
                now,
            );
            let ip = peers[at].peer_ip;
            let free = tracker.total() < limits.max_connections && tracker.held(ip)
                < limits.per_ip_limit;
            let own = event_step(peers[at], event, has_ipv6, allowed, free, now);
            &&& step.peers.len() == peers.len()
            &&& step.peers[at] == own.peer
            &&& forall|i: int|
                0 <= i < peers.len() && i != at ==> #[trigger] step.peers[i] == peers[i]
            &&& step.outcome == (LoopOutcomeView::Act { at, actions: own.actions })
            &&& step.change == (SlotsChange::Of { ip, slots: own.slots })
        }),
{
}

/// What TCP yields for a channel: data is written to the channel, whole, and makes the peer
/// active; at the end of the connection the channel is closed and is none of the peer's any more,
/// with its slot, which the client is told on its signal channel. A message about a channel that
/// no peer has changes nothing.
pub proof fn law_tcp_yields(
    peers: Seq<PeerView>,
    i: int,
    cid: u64,
    data: Seq<u8>,
    sctp_id: Option<u16>,
    tracker: ConnectionTracker,
    limits: WsLimits,
    has_ipv6: bool,
    allowed: Set<SocketAddr>,
    now: Duration,
)
    requires
        distinct_channels(peers),
        0 <= i < peers.len(),
    ensures
        ({
            let msg = TcpMsgView::Data(cid, data);
            let event = LoopEventView::FromTcp { msg, sctp_id };
            let step = loop_step(peers, event, tracker, limits, has_ipv6, allowed, now);
            peers[i].channels.contains_key(cid) ==> {
                &&& step.outcome == (LoopOutcomeView::Act {
                    at: i,
                    actions: seq![PeerActionView::ToChannel { cid, data }],
                })
                &&& step.peers[i].last_activity == now
                &&& step.peers[i].channels == peers[i].channels
                &&& step.peers[i].signal_cid == peers[i].signal_cid
                &&& step.change == (SlotsChange::Of { ip: peers[i].peer_ip, slots: 0 })
            }
        }),
        ({
            let msg = TcpMsgView::Closed(cid);
            let event = LoopEventView::FromTcp { msg, sctp_id };
            let step = loop_step(peers, event, tracker, limits, has_ipv6, allowed, now);
            let stream = match sctp_id {
                Some(s) => s,
                None => 0,
            };
            &&& peers[i].channels.contains_key(cid) ==> {
                &&& !step.peers[i].channels.contains_key(cid)
                &&& forall|other: u64|
                    other != cid ==> (#[trigger] step.peers[i].channels.contains_key(other)
                        <==> peers[i].channels.contains_key(other))
                &&& step.peers[i].last_activity == peers[i].last_activity
                &&& step.peers[i].signal_cid == peers[i].signal_cid
                &&& step.change == (SlotsChange::Of { ip: peers[i].peer_ip, slots: -1 })
                &&& step.outcome matches LoopOutcomeView::Act { at, actions }
                &&& at == i
                &&& actions[0] == (PeerActionView::CloseChannel { cid })
                &&& match peers[i].signal_cid {
                    None => actions.len() == 1,
                    Some(signal) => actions.len() == 2 && actions[1] == (PeerActionView::Signal {
                        cid: signal,
                        text: json_object_text(closed_members(peers[i].channels[cid], stream)),
                    }),
                }
            }
            &&& (forall|k: int|
                0 <= k < peers.len() ==> !(#[trigger] peers[k]).channels.contains_key(cid)) ==> {
                &&& step.peers == peers
                &&& step.outcome is Nothing
                &&& step.change matches SlotsChange::Of { slots, .. } && slots == 0
            }
        }),
{
    lemma_owner_has(peers, cid);
    if peers[i].channels.contains_key(cid) {
        let msg = TcpMsgView::Data(cid, data);
        law_tcp_reaches_owner(peers, i, msg, sctp_id, tracker, limits, has_ipv6, allowed, now);
        let end = TcpMsgView::Closed(cid);
        law_tcp_reaches_owner(peers, i, end, sctp_id, tracker, limits, has_ipv6, allowed, now);
        let n = owner_of(peers, cid);
        assert(n == i) by {
            assert(peers[i].uses(cid));
            if n < peers.len() {
                assert(peers[n].uses(cid));
            }
        }
    }
}

/// The peers that are kept are kept in their order, each as it is, and no other is; the slots that
/// are given back are all those of the peers that are not kept.
pub proof fn law_kept_in_order(
    first: Seq<PeerView>,
    keep_first: Seq<bool>,
    second: Seq<PeerView>,
    keep_second: Seq<bool>,
    peer: PeerView,
)
    requires
        first.len() == keep_first.len(),
        second.len() == keep_second.len(),
    ensures
        kept_peers(first + second, keep_first + keep_second) == kept_peers(first, keep_first)
            + kept_peers(second, keep_second),
        kept_peers(seq![peer], seq![true]) == seq![peer],
        kept_peers(seq![peer], seq![false]) == Seq::<PeerView>::empty(),
        dropped_slots(first + second, keep_first + keep_second) == dropped_slots(first, keep_first)
            + dropped_slots(second, keep_second),
        dropped_slots(seq![peer], seq![true]) == Seq::<IpAddr>::empty(),
        dropped_slots(seq![peer], seq![false]) == peer_slots(peer),
    decreases second.len(),
{
    reveal_with_fuel(kept_peers, 2);
    reveal_with_fuel(dropped_slots, 2);
    assert(seq![peer].drop_last() =~= Seq::<PeerView>::empty());
    assert(kept_peers(seq![peer], seq![true]) =~= seq![peer]);
    assert(dropped_slots(seq![peer], seq![false]) =~= peer_slots(peer));
    let all = first + second;
    let keep = keep_first + keep_second;
    if second.len() == 0 {
        assert(all =~= first);
        assert(keep =~= keep_first);
        assert(kept_peers(first, keep_first) + kept_peers(second, keep_second) =~= kept_peers(
            first,
            keep_first,
        ));
        assert(dropped_slots(first, keep_first) + dropped_slots(second, keep_second)
            =~= dropped_slots(first, keep_first));
    } else {
        law_kept_in_order(first, keep_first, second.drop_last(), keep_second.drop_last(), peer);
        assert(all.drop_last() =~= first + second.drop_last());
        assert(keep.drop_last() =~= keep_first + keep_second.drop_last());
        assert(kept_peers(all, keep) =~= kept_peers(first, keep_first) + kept_peers(
            second,
            keep_second,
        ));
        assert(dropped_slots(all, keep) =~= dropped_slots(first, keep_first) + dropped_slots(
            second,
            keep_second,
        ));
    }
}

/// When the timeouts are enforced, a peer is kept exactly where neither the idle timeout since it
/// was last active nor the maximum lifetime since it came is over; and when it is told which peers
/// are connected, the loop keeps exactly those.
pub proof fn law_peers_are_kept(
    peers: Seq<PeerView>,
    alive: Seq<bool>,
    tracker: ConnectionTracker,
    limits: WsLimits,
    has_ipv6: bool,
    allowed: Set<SocketAddr>,
    now: Duration,
)
    ensures
        ({
            let event = LoopEventView::Timeouts;
            let step = loop_step(peers, event, tracker, limits, has_ipv6, allowed, now);
            &&& step.outcome matches LoopOutcomeView::Kept(keep)
            &&& keep.len() == peers.len()
            &&& forall|i: int|
                0 <= i < peers.len() ==> (#[trigger] keep[i] <==> now.nanos
                    <= peers[i].last_activity.nanos + limits.idle_timeout.nanos && now.nanos
                    <= peers[i].created_at.nanos + limits.max_lifetime.nanos)
            &&& step.peers == kept_peers(peers, keep)
            &&& step.change == SlotsChange::Each(dropped_slots(peers, keep))
        }),
        ({
            let event = LoopEventView::Alive(alive);
            let step = loop_step(peers, event, tracker, limits, has_ipv6, allowed, now);
            &&& step.outcome == LoopOutcomeView::Kept(alive)
            &&& step.peers == kept_peers(peers, alive)
            &&& step.change == SlotsChange::Each(dropped_slots(peers, alive))
        }),
{
}

/// The loop waits until the earliest timeout, and a thousandth of a second where that is nearer
/// than that or past.
pub proof fn law_wait(earliest: Duration, now: Duration)
    ensures
        earliest.nanos > now.nanos + 1_000_000 ==> now.nanos + wait_nanos(earliest, now)
            == earliest.nanos,
        earliest.nanos <= now.nanos + 1_000_000 ==> wait_nanos(earliest, now) == 1_000_000,
        MAX_WAIT_NANOS == 100_000_000,
{
}

/// A step takes one slot of its address, gives one back, gives back those of a list, or leaves the
/// slots as they are.
pub proof fn law_tracker_change(
    after: ConnectionTracker,
    before: ConnectionTracker,
    ip: IpAddr,
    ips: Seq<IpAddr>,
)
    ensures
        tracker_change(after, before, SlotsChange::Of { ip, slots: 1 }) <==> after.takes(
            before,
            ip,
            1,
        ),
        tracker_change(after, before, SlotsChange::Of { ip, slots: 0 }) <==> after.same_as(before),
        tracker_change(after, before, SlotsChange::Of { ip, slots: -1 }) <==> after.gives_back(
            before,
            ip,
        ),
        tracker_change(after, before, SlotsChange::Each(ips)) <==> after.gives_back_each(
            before,
            ips,
        ),
{
}

/// What events and outcomes of the loop say is what they hold, whole.
pub proof fn law_loop_views(event: LoopEvent, outcome: LoopOutcome, peers: Seq<Peer>, i: int)
    ensures
        match event {
            LoopEvent::Accepted(new_peer) => event@ == LoopEventView::Accepted(new_peer.peer_ip),
            LoopEvent::Reported { at, event: e } => event@ == (LoopEventView::Reported {
                at: at as int,
                event: e@,
            }),
            LoopEvent::FromTcp { msg, sctp_id } => event@ == (LoopEventView::FromTcp {
                msg: msg@,
                sctp_id,
            }),
            LoopEvent::Timeouts => event@ is Timeouts,
            LoopEvent::Alive(keep) => event@ == LoopEventView::Alive(keep@),
            LoopEvent::Datagram(offers) => {
                &&& event@ matches LoopEventView::Datagram(said)
                &&& said.len() == offers@.len()
                &&& 0 <= i < said.len() ==> match (offers@[i], said[i]) {
                    (Some(a), Some(b)) => a@ == b,
                    (None, None) => true,
                    _ => false,
                }
            },
        },
        match outcome {
            LoopOutcome::Nothing => outcome@ is Nothing,
            LoopOutcome::Act { at, actions } => outcome@ == (LoopOutcomeView::Act {
                at: at as int,
                actions: peer_actions(actions@),
            }),
            LoopOutcome::Kept(keep) => outcome@ == LoopOutcomeView::Kept(keep@),
            LoopOutcome::Deliver { address, peer } => outcome@ == (LoopOutcomeView::Deliver {
                address: address as int,
                peer: peer as int,
            }),
        },
        peer_views(peers).len() == peers.len(),
        0 <= i < peers.len() ==> peer_views(peers)[i] == peers[i]@,
{
}

} // verus!
