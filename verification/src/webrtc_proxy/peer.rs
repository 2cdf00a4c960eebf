//! What a peer reports, and what is done for it.

use std::collections::HashMap;
use vstd::prelude::*;
use vstd::utf8::{decode_utf8, valid_utf8};

use super::messages::{
    closed_members, closed_message, hello_members, hello_message, pong_members, pong_message,
    rejected_members, rejected_message,
};
use crate::json::{json_object_text, json_text_member, text_member, JsonFieldView};
use crate::net::{local, IpAddr, SocketAddr};
use crate::text::{same_text, utf8_text};
use crate::time::Duration;
use crate::ws_proxy::{
    is_local, lemma_gives_back_next, lemma_gives_back_none, socket_refusal, ConnectionTracker,
    RelayAllowlist, WsLimits,
};

verus! {

broadcast use vstd::std_specs::hash::group_hash_axioms;

/// Per-peer state in the UDP event loop.
pub struct Peer {
    peer_ip: IpAddr,
    /// Data channel -> label.
    channels: HashMap<u64, String>,
    /// The `_signal` control channel, if open.
    signal_cid: Option<u64>,
    created_at: Duration,
    last_activity: Duration,
}

/// What the state of a peer says.
#[verifier::ext_equal]
pub struct PeerView {
    pub peer_ip: IpAddr,
    pub channels: Map<u64, Seq<char>>,
    pub signal_cid: Option<u64>,
    pub created_at: Duration,
    pub last_activity: Duration,
}

impl PeerView {
    /// Whether a channel of the peer has this number.
    pub open spec fn uses(self, cid: u64) -> bool {
        self.channels.contains_key(cid) || self.signal_cid == Some(cid)
    }

    /// The signal channel is none of the bridged ones, and there are finitely many of these.
    pub open spec fn wf(self) -> bool {
        &&& self.channels.dom().finite()
        &&& self.signal_cid matches Some(s) ==> !self.channels.contains_key(s)
    }
}

impl View for Peer {
    type V = PeerView;

    closed spec fn view(&self) -> PeerView {
        PeerView {
            peer_ip: self.peer_ip,
            channels: self.channels@.map_values(|label: String| label@),
            signal_cid: self.signal_cid,
            created_at: self.created_at,
            last_activity: self.last_activity,
        }
    }
}

/// A peer without any channel.
pub open spec fn fresh_peer(peer_ip: IpAddr, now: Duration) -> PeerView {
    PeerView {
        peer_ip,
        channels: Map::empty(),
        signal_cid: None,
        created_at: now,
        last_activity: now,
    }
}

/// The time from one point to another; 0 where they are in reverse.
pub open spec fn elapsed(from: Duration, to: Duration) -> int {
    if from.nanos <= to.nanos {
        to.nanos - from.nanos
    } else {
        0
    }
}

/// The time from one point to another; 0 where they are in reverse.
pub fn saturating_since(to: Duration, from: Duration) -> (r: Duration)
    ensures
        r.nanos == elapsed(from, to),
{
    if from.nanos <= to.nanos {
        Duration { nanos: to.nanos - from.nanos }
    } else {
        Duration { nanos: 0 }
    }
}

/// Whether a peer may stay: it was active within the idle timeout, and has not been there for
/// longer than the maximum lifetime.
pub open spec fn may_stay(peer: PeerView, limits: WsLimits, now: Duration) -> bool {
    &&& elapsed(peer.last_activity, now) <= limits.idle_timeout.nanos
    &&& elapsed(peer.created_at, now) <= limits.max_lifetime.nanos
}

impl Peer {
    /// A newly negotiated peer.
    pub fn new(peer_ip: IpAddr, now: Duration) -> (r: Peer)
        ensures
            r@ == fresh_peer(peer_ip, now),
            r@.wf(),
    {
        let r = Peer {
            peer_ip,
            channels: HashMap::new(),
            signal_cid: None,
            created_at: now,
            last_activity: now,
        };
        assert(r@.channels =~= Map::empty());
        r
    }

    /// The address from which the peer connected.
    pub fn ip(&self) -> (r: IpAddr)
        ensures
            r == self@.peer_ip,
    {
        self.peer_ip
    }

    /// Tests whether a channel of the peer is bridged.
    pub fn has_channel(&self, cid: u64) -> (r: bool)
        ensures
            r == self@.channels.contains_key(cid),
    {
        self.channels.contains_key(&cid)
    }

    /// Notes that the peer is active.
    pub fn touch(&mut self, now: Duration)
        ensures
            final(self)@ == (PeerView { last_activity: now, ..old(self)@ }),
    {
        self.last_activity = now;
    }

    /// Tests whether the peer may stay.
    pub fn stays(&self, limits: &WsLimits, now: Duration) -> (r: bool)
        ensures
            r == may_stay(self@, *limits, now),
    {
        let idle = saturating_since(now, self.last_activity).nanos > limits.idle_timeout.nanos;
        let expired = saturating_since(now, self.created_at).nanos > limits.max_lifetime.nanos;
        !(idle || expired)
    }
}

/// The number of slots that a peer holds: one for itself and one for each bridged channel.
pub open spec fn slots_of(peer: PeerView) -> nat {
    peer.channels.len() + 1
}

/// The slots that a peer holds, as often as it holds one.
pub open spec fn peer_slots(peer: PeerView) -> Seq<IpAddr> {
    Seq::new(slots_of(peer), |i: int| peer.peer_ip)
}

/// Gives back every slot of a peer: those of its channels, and the one from signaling.
pub fn release_slots(peer: &Peer, connection_tracker: &mut ConnectionTracker)
    ensures
        final(connection_tracker).gives_back_each(*old(connection_tracker), peer_slots(peer@)),
{
    let n: usize = peer.channels.len();
    let ip = peer.peer_ip;
    let ghost start = *connection_tracker;
    let ghost all = peer_slots(peer@);
    assert(peer@.channels.dom() =~= peer.channels@.dom());
    proof {
        lemma_gives_back_none(start);
        assert(all.take(0) =~= seq![]);
    }
    let mut i: usize = 0;
    while i < n
        invariant
            i <= n,
            n + 1 == all.len(),
            all == peer_slots(peer@),
            ip == peer@.peer_ip,
            connection_tracker.gives_back_each(start, all.take(i as int)),
        decreases n - i,
    {
        let ghost during = *connection_tracker;
        connection_tracker.release(ip);
        proof {
            lemma_gives_back_next(start, during, *connection_tracker, all.take(i as int), ip);
            assert(all.take(i as int).push(ip) =~= all.take(i + 1));
        }
        i += 1;
    }
    let ghost during = *connection_tracker;
    connection_tracker.release(ip);
    proof {
        lemma_gives_back_next(start, during, *connection_tracker, all.take(n as int), ip);
        assert(all.take(n as int).push(ip) =~= all);
    }
}

/// What a peer's WebRTC stack reports.
pub enum PeerEvent {
    /// A data channel opened. `sctp_id` is its stream, where it has one; `target` is the address
    /// that its label writes, where it writes one.
    ChannelOpen { cid: u64, label: String, sctp_id: Option<u16>, target: Option<SocketAddr> },
    /// Data came on a channel.
    ChannelData { cid: u64, data: Vec<u8> },
    /// A channel was closed by the remote side.
    ChannelClose { cid: u64 },
    /// Anything else.
    Other,
}

/// What an event says.
pub enum PeerEventView {
    ChannelOpen { cid: u64, label: Seq<char>, sctp_id: Option<u16>, target: Option<SocketAddr> },
    ChannelData { cid: u64, data: Seq<u8> },
    ChannelClose { cid: u64 },
    Other,
}

impl View for PeerEvent {
    type V = PeerEventView;

    open spec fn view(&self) -> PeerEventView {
        match self {
            PeerEvent::ChannelOpen { cid, label, sctp_id, target } => PeerEventView::ChannelOpen {
                cid: *cid,
                label: label@,
                sctp_id: *sctp_id,
                target: *target,
            },
            PeerEvent::ChannelData { cid, data } => PeerEventView::ChannelData {
                cid: *cid,
                data: data@,
            },
            PeerEvent::ChannelClose { cid } => PeerEventView::ChannelClose { cid: *cid },
            PeerEvent::Other => PeerEventView::Other,
        }
    }
}

/// What the caller does for a peer.
pub enum PeerAction {
    /// Write a text to a channel, where the peer has it.
    Signal { cid: u64, text: String },
    /// Close a channel.
    CloseChannel { cid: u64 },
    /// Start to bridge a channel to a TCP connection.
    Bridge { cid: u64, target: SocketAddr },
    /// Hand data to the TCP connection of a channel, after what was handed to it before.
    ToTcp { cid: u64, data: Vec<u8> },
    /// Write data to a channel, where the peer has it.
    ToChannel { cid: u64, data: Vec<u8> },
}

/// What an action says.
pub enum PeerActionView {
    Signal { cid: u64, text: Seq<char> },
    CloseChannel { cid: u64 },
    Bridge { cid: u64, target: SocketAddr },
    ToTcp { cid: u64, data: Seq<u8> },
    ToChannel { cid: u64, data: Seq<u8> },
}

impl View for PeerAction {
    type V = PeerActionView;

    open spec fn view(&self) -> PeerActionView {
        match self {
            PeerAction::Signal { cid, text } => PeerActionView::Signal { cid: *cid, text: text@ },
            PeerAction::CloseChannel { cid } => PeerActionView::CloseChannel { cid: *cid },
            PeerAction::Bridge { cid, target } => PeerActionView::Bridge {
                cid: *cid,
                target: *target,
            },
            PeerAction::ToTcp { cid, data } => PeerActionView::ToTcp { cid: *cid, data: data@ },
            PeerAction::ToChannel { cid, data } => PeerActionView::ToChannel {
                cid: *cid,
                data: data@,
            },
        }
    }
}

/// What actions say.
pub open spec fn peer_actions(v: Seq<PeerAction>) -> Seq<PeerActionView> {
    v.map_values(|a: PeerAction| a@)
}

/// What comes of an event: the peer, the actions, and how many slots it takes or gives back.
pub struct PeerStep {
    pub peer: PeerView,
    pub actions: Seq<PeerActionView>,
    pub slots: int,
}

/// The message on the signal channel, where there is one.
pub open spec fn signaled(signal_cid: Option<u64>, members: Seq<(Seq<char>, JsonFieldView)>) -> Seq<
    PeerActionView,
> {
    match signal_cid {
        Some(cid) => seq![PeerActionView::Signal { cid, text: json_object_text(members) }],
        None => seq![],
    }
}

/// Why a channel is refused, in the order in which the checks are made: a label that is no
/// address, an IPv6 address where there is no IPv6, a local address, an address that is no relay,
/// and no free slot.
pub open spec fn rejection(
    target: Option<SocketAddr>,
    has_ipv6: bool,
    allowed: Set<SocketAddr>,
    admitted: bool,
) -> Option<Seq<char>> {
    match target {
        None => Some("invalid target address"@),
        Some(addr) => if addr.ip is V6 && !has_ipv6 {
            Some("IPv6 not supported on this server"@)
        } else if local(addr.ip) {
            Some("local addresses forbidden"@)
        } else if !allowed.contains(addr) {
            Some("not an advertised relay"@)
        } else if !admitted {
            Some("connection limit reached"@)
        } else {
            None
        },
    }
}

/// What comes of a channel that opens. `_signal` is the control channel, and is greeted; `_init`
/// is closed; any other is bridged to the address that its label writes, or refused.
pub open spec fn open_step(
    peer: PeerView,
    cid: u64,
    label: Seq<char>,
    sctp_id: Option<u16>,
    target: Option<SocketAddr>,
    has_ipv6: bool,
    allowed: Set<SocketAddr>,
    admitted: bool,
    now: Duration,
) -> PeerStep {
    if label == "_signal"@ {
        PeerStep {
            peer: PeerView { signal_cid: Some(cid), ..peer },
            actions: signaled(Some(cid), hello_members(has_ipv6)),
            slots: 0,
        }
    } else if label == "_init"@ {
        PeerStep { peer, actions: seq![PeerActionView::CloseChannel { cid }], slots: 0 }
    } else {
        match rejection(target, has_ipv6, allowed, admitted) {
            Some(reason) => PeerStep {
                peer,
                actions: signaled(
                    peer.signal_cid,
                    rejected_members(label, sctp_id.unwrap_or(0), reason),
                ).push(PeerActionView::CloseChannel { cid }),
                slots: 0,
            },
            None => PeerStep {
                peer: PeerView {
                    channels: peer.channels.insert(cid, label),
                    last_activity: now,
                    ..peer
                },
                actions: seq![PeerActionView::Bridge { cid, target: target.unwrap() }],
                slots: 1,
            },
        }
    }
}

/// What comes of data on a channel: a ping on the signal channel is answered, any other message
/// there is passed over, and data of a bridged channel goes to TCP.
pub open spec fn data_step(peer: PeerView, cid: u64, data: Seq<u8>, now: Duration) -> PeerStep {
    let actions = if peer.signal_cid == Some(cid) {
        if valid_utf8(data) && json_text_member(decode_utf8(data), "type"@) == Some("ping"@) {
            signaled(peer.signal_cid, pong_members(decode_utf8(data)))
        } else {
            seq![]
        }
    } else if peer.channels.contains_key(cid) {
        seq![PeerActionView::ToTcp { cid, data }]
    } else {
        seq![]
    };
    PeerStep { peer: PeerView { last_activity: now, ..peer }, actions, slots: 0 }
}

/// What comes of a channel that the remote side closes.
pub open spec fn close_step(peer: PeerView, cid: u64) -> PeerStep {
    if peer.signal_cid == Some(cid) {
        PeerStep { peer: PeerView { signal_cid: None, ..peer }, actions: seq![], slots: 0 }
    } else if peer.channels.contains_key(cid) {
        PeerStep {
            peer: PeerView { channels: peer.channels.remove(cid), ..peer },
            actions: seq![],
            slots: -1,
        }
    } else {
        PeerStep { peer, actions: seq![], slots: 0 }
    }
}

/// What comes of an event.
pub open spec fn event_step(
    peer: PeerView,
    event: PeerEventView,
    has_ipv6: bool,
    allowed: Set<SocketAddr>,
    admitted: bool,
    now: Duration,
) -> PeerStep {
    match event {
        PeerEventView::ChannelOpen { cid, label, sctp_id, target } => open_step(
            peer,
            cid,
            label,
            sctp_id,
            target,
            has_ipv6,
            allowed,
            admitted,
            now,
        ),
        PeerEventView::ChannelData { cid, data } => data_step(peer, cid, data, now),
        PeerEventView::ChannelClose { cid } => close_step(peer, cid),
        PeerEventView::Other => PeerStep { peer, actions: seq![], slots: 0 },
    }
}

/// Whether a channel that opens has a number that the peer does not use yet.
pub open spec fn fresh_for(peer: PeerView, event: PeerEventView) -> bool {
    event matches PeerEventView::ChannelOpen { cid, .. } ==> !peer.uses(cid)
}

/// The change that a step makes to the slots of an address.
pub open spec fn slots_change(
    after: ConnectionTracker,
    before: ConnectionTracker,
    ip: IpAddr,
    slots: int,
) -> bool {
    if slots > 0 {
        after.takes(before, ip, 1)
    } else if slots < 0 {
        after.gives_back(before, ip)
    } else {
        after.same_as(before)
    }
}

/// Sends a message on the signal channel, where there is one.
fn signal_send(signal_cid: Option<u64>, text: String) -> (r: Vec<PeerAction>)
    ensures
        peer_actions(r@) == (match signal_cid {
            Some(cid) => seq![PeerActionView::Signal { cid, text: text@ }],
            None => seq![],
        }),
{
    let mut r: Vec<PeerAction> = Vec::new();
    if let Some(cid) = signal_cid {
        r.push(PeerAction::Signal { cid, text });
    }
    assert(peer_actions(r@) =~= (match signal_cid {
        Some(cid) => seq![PeerActionView::Signal { cid, text: text@ }],
        None => seq![],
    }));
    r
}

fn handle_channel_open(
    peer: &mut Peer,
    cid: u64,
    label: String,
    sctp_id: Option<u16>,
    target: Option<SocketAddr>,
    relay_allowlist: &RelayAllowlist,
    connection_tracker: &mut ConnectionTracker,
    ws_limits: &WsLimits,
    has_ipv6: bool,
    now: Duration,
) -> (r: Vec<PeerAction>)
    ensures
        ({
            let step = open_step(
                old(peer)@,
                cid,
                label@,
                sctp_id,
                target,
                has_ipv6,
                relay_allowlist@,
                old(connection_tracker).admits(old(peer)@.peer_ip, *ws_limits),
                now,
            );
            &&& final(peer)@ == step.peer
            &&& peer_actions(r@) == step.actions
            &&& slots_change(
                *final(connection_tracker),
                *old(connection_tracker),
                old(peer)@.peer_ip,
                step.slots,
            )
        }),
        old(connection_tracker).within(*ws_limits) ==> final(connection_tracker).within(*ws_limits),
{
    if same_text(label.as_str(), "_signal") {
        peer.signal_cid = Some(cid);
        return signal_send(Some(cid), hello_message(has_ipv6));
    }
    let mut actions: Vec<PeerAction> = Vec::new();
    if same_text(label.as_str(), "_init") {
        actions.push(PeerAction::CloseChannel { cid });
        assert(peer_actions(actions@) =~= seq![PeerActionView::CloseChannel { cid }]);
        return actions;
    }
    let stream: u16 = match sctp_id {
        Some(s) => s,
        None => 0,
    };
    let reason = match target {
        None => "invalid target address",
        Some(addr) => {
            if addr.is_ipv6() && !has_ipv6 {
                "IPv6 not supported on this server"
            } else if is_local(addr.ip) {
                "local addresses forbidden"
            } else if !relay_allowlist.contains(addr) {
                "not an advertised relay"
            } else if !connection_tracker.acquire(peer.peer_ip, ws_limits) {
                "connection limit reached"
            } else {
                actions.push(PeerAction::Bridge { cid, target: addr });
                assert(peer_actions(actions@) =~= seq![
                    PeerActionView::Bridge { cid, target: addr },
                ]);
                peer.channels.insert(cid, label);
                peer.last_activity = now;
                assert(peer@.channels =~= old(peer)@.channels.insert(cid, label@));
                return actions;
            }
        },
    };
    let mut r = signal_send(
        peer.signal_cid,
        rejected_message(label.as_str(), stream, reason),
    );
    let ghost before = r@;
    r.push(PeerAction::CloseChannel { cid });
    assert(peer_actions(r@) =~= peer_actions(before).push(PeerActionView::CloseChannel { cid }));
    r
}

fn handle_channel_data(peer: &mut Peer, cid: u64, data: Vec<u8>, now: Duration) -> (r: Vec<
    PeerAction,
>)
    ensures
        final(peer)@ == data_step(old(peer)@, cid, data@, now).peer,
        peer_actions(r@) == data_step(old(peer)@, cid, data@, now).actions,
{
    peer.last_activity = now;
    let mut r: Vec<PeerAction> = Vec::new();
    assert(peer_actions(r@) =~= seq![]);
    let on_signal = match peer.signal_cid {
        Some(s) => s == cid,
        None => false,
    };
    if on_signal {
        if let Some(text) = utf8_text(data.as_slice()) {
            if let Some(kind) = text_member(text, "type") {
                if same_text(kind.as_str(), "ping") {
                    return signal_send(peer.signal_cid, pong_message(text));
                }
            }
        }
        return r;
    }
    if peer.channels.contains_key(&cid) {
        r.push(PeerAction::ToTcp { cid, data });
        assert(peer_actions(r@) =~= seq![PeerActionView::ToTcp { cid, data: data@ }]);
    }
    r
}

/// Handle an event from a peer's WebRTC stack.
pub fn handle_peer_event(
    peer: &mut Peer,
    event: PeerEvent,
    relay_allowlist: &RelayAllowlist,
    connection_tracker: &mut ConnectionTracker,
    ws_limits: &WsLimits,
    has_ipv6: bool,
    now: Duration,
) -> (r: Vec<PeerAction>)
    ensures
        ({
            let step = event_step(
                old(peer)@,
                event@,
                has_ipv6,
                relay_allowlist@,
                old(connection_tracker).admits(old(peer)@.peer_ip, *ws_limits),
                now,
            );
            &&& final(peer)@ == step.peer
            &&& peer_actions(r@) == step.actions
            &&& slots_change(
                *final(connection_tracker),
                *old(connection_tracker),
                old(peer)@.peer_ip,
                step.slots,
            )
        }),
        old(peer)@.wf() && fresh_for(old(peer)@, event@) ==> final(peer)@.wf(),
{
    match event {
        PeerEvent::ChannelOpen { cid, label, sctp_id, target } => handle_channel_open(
            peer,
            cid,
            label,
            sctp_id,
            target,
            relay_allowlist,
            connection_tracker,
            ws_limits,
            has_ipv6,
            now,
        ),
        PeerEvent::ChannelData { cid, data } => handle_channel_data(peer, cid, data, now),
        PeerEvent::ChannelClose { cid } => {
            let on_signal = match peer.signal_cid {
                Some(s) => s == cid,
                None => false,
            };
            if on_signal {
                peer.signal_cid = None;
            } else {
                match peer.channels.remove(&cid) {
                    Some(_) => {
                        connection_tracker.release(peer.peer_ip);
                        assert(peer@.channels =~= old(peer)@.channels.remove(cid));
                    },
                    None => {
                        assert(peer@.channels =~= old(peer)@.channels);
                    },
                }
            }
            let r: Vec<PeerAction> = Vec::new();
            assert(peer_actions(r@) =~= seq![]);
            r
        },
        PeerEvent::Other => {
            let r: Vec<PeerAction> = Vec::new();
            assert(peer_actions(r@) =~= seq![]);
            r
        },
    }
}

/// Handles the end of the TCP connection of a channel.
pub fn handle_tcp_closed(
    peer: &mut Peer,
    cid: u64,
    sctp_id: Option<u16>,
    connection_tracker: &mut ConnectionTracker,
) -> (r: Vec<PeerAction>)
    requires
        old(peer)@.channels.contains_key(cid),
    ensures
        final(peer)@ == (PeerView {
            channels: old(peer)@.channels.remove(cid),
            ..old(peer)@
        }),
        peer_actions(r@) == seq![PeerActionView::CloseChannel { cid }] + signaled(
            old(peer)@.signal_cid,
            closed_members(old(peer)@.channels[cid], sctp_id.unwrap_or(0)),
        ),
        final(connection_tracker).gives_back(*old(connection_tracker), old(peer)@.peer_ip),
{
    let stream: u16 = match sctp_id {
        Some(s) => s,
        None => 0,
    };
    let mut r: Vec<PeerAction> = Vec::new();
    r.push(PeerAction::CloseChannel { cid });
    if let Some(label) = peer.channels.remove(&cid) {
        if let Some(signal) = peer.signal_cid {
            r.push(
                PeerAction::Signal { cid: signal, text: closed_message(label.as_str(), stream) },
            );
        }
    }
    connection_tracker.release(peer.peer_ip);
    assert(peer@.channels =~= old(peer)@.channels.remove(cid));
    assert(peer_actions(r@) =~= seq![PeerActionView::CloseChannel { cid }] + signaled(
        old(peer)@.signal_cid,
        closed_members(old(peer)@.channels[cid], sctp_id.unwrap_or(0)),
    ));
    r
}

/// An event changes the slots that a peer holds by what it takes or gives back, as long as a
/// channel that opens is not one that is open.
pub proof fn law_event_keeps_account(
    peer: PeerView,
    event: PeerEventView,
    has_ipv6: bool,
    allowed: Set<SocketAddr>,
    admitted: bool,
    now: Duration,
)
    requires
        peer.wf(),
        fresh_for(peer, event),
    ensures
        ({
            let step = event_step(peer, event, has_ipv6, allowed, admitted, now);
            &&& slots_of(step.peer) == slots_of(peer) + step.slots
            &&& step.peer.peer_ip == peer.peer_ip
            &&& step.peer.wf()
        }),
{
}

/// A channel is bridged only to an address that is an advertised relay and is not local, for an
/// address that may take a slot, and over IPv6 only where there is IPv6.
pub proof fn law_bridged_only_to_relays(
    peer: PeerView,
    event: PeerEventView,
    has_ipv6: bool,
    allowed: Set<SocketAddr>,
    admitted: bool,
    now: Duration,
    i: int,
)
    ensures
        ({
            let actions = event_step(peer, event, has_ipv6, allowed, admitted, now).actions;
            0 <= i < actions.len() ==> (actions[i] matches PeerActionView::Bridge { target, .. }
                ==> {
                &&& allowed.contains(target)
                &&& !local(target.ip)
                &&& admitted
                &&& target.ip is V6 ==> has_ipv6
            })
        }),
{
}

/// What comes of data that comes on a channel, one message after the other: the peer, the actions,
/// and the slots taken or given back. Each message comes with its time.
pub open spec fn data_run(
    peer: PeerView,
    cid: u64,
    messages: Seq<(Seq<u8>, Duration)>,
    has_ipv6: bool,
    allowed: Set<SocketAddr>,
    admitted: bool,
) -> (PeerView, Seq<PeerActionView>, Seq<int>)
    decreases messages.len(),
{
    if messages.len() == 0 {
        (peer, seq![], seq![])
    } else {
        let (before, actions, slots) = data_run(
            peer,
            cid,
            messages.drop_last(),
            has_ipv6,
            allowed,
            admitted,
        );
        let (data, now) = messages.last();
        let event = PeerEventView::ChannelData { cid, data };
        let step = event_step(before, event, has_ipv6, allowed, admitted, now);
        (step.peer, actions + step.actions, slots.push(step.slots))
    }
}

/// What comes on a bridged channel is handed to its TCP connection, message by message, unchanged
/// and in order, and nowhere else; the channels stay as they are, and no slot is taken or given
/// back.
pub proof fn law_channel_payloads_reach_tcp(
    peer: PeerView,
    cid: u64,
    messages: Seq<(Seq<u8>, Duration)>,
    has_ipv6: bool,
    allowed: Set<SocketAddr>,
    admitted: bool,
)
    requires
        peer.wf(),
        peer.channels.contains_key(cid),
    ensures
        ({
            let (after, actions, slots) = data_run(
                peer,
                cid,
                messages,
                has_ipv6,
                allowed,
                admitted,
            );
            &&& actions == messages.map_values(
                |m: (Seq<u8>, Duration)| PeerActionView::ToTcp { cid, data: m.0 },
            )
            &&& after.channels == peer.channels
            &&& after.signal_cid == peer.signal_cid
            &&& forall|i: int| 0 <= i < slots.len() ==> #[trigger] slots[i] == 0
        }),
    decreases messages.len(),
{
    let f = |m: (Seq<u8>, Duration)| PeerActionView::ToTcp { cid, data: m.0 };
    let (_, actions, _) = data_run(peer, cid, messages, has_ipv6, allowed, admitted);
    if messages.len() > 0 {
        let head = messages.drop_last();
        law_channel_payloads_reach_tcp(peer, cid, head, has_ipv6, allowed, admitted);
        assert(head.map_values(f) + seq![f(messages.last())] =~= messages.map_values(f));
    } else {
        assert(actions =~= messages.map_values(f));
    }
}

/// The checks on a channel are those on a WebSocket: where there is IPv6 if the target needs it,
/// a channel is bridged exactly where a WebSocket would be relayed.
pub proof fn law_same_checks_as_websocket(
    target: Option<SocketAddr>,
    peer_ip: IpAddr,
    has_ipv6: bool,
    allowed: Set<SocketAddr>,
    tracker: ConnectionTracker,
    limits: WsLimits,
)
    requires
        target matches Some(addr) ==> (addr.ip is V6 ==> has_ipv6),
    ensures
        rejection(target, has_ipv6, allowed, tracker.admits(peer_ip, limits)) is None
            <==> socket_refusal(target, peer_ip, allowed, tracker, limits) is None,
{
}

/// A peer may stay until the idle timeout after it was last active, and until the maximum lifetime
/// after it came, whichever is over first.
pub proof fn law_may_stay(peer: PeerView, limits: WsLimits, now: Duration)
    ensures
        may_stay(peer, limits, now) <==> now.nanos <= peer.last_activity.nanos
            + limits.idle_timeout.nanos && now.nanos <= peer.created_at.nanos
            + limits.max_lifetime.nanos,
{
}

/// The time from one point to a later one is what lies between them.
pub proof fn law_elapsed(from: Duration, to: Duration)
    ensures
        from.nanos <= to.nanos ==> from.nanos + elapsed(from, to) == to.nanos,
        to.nanos <= from.nanos ==> elapsed(from, to) == 0,
{
}

/// A new peer has no channel, and has come and been active now.
pub proof fn law_fresh_peer(ip: IpAddr, now: Duration, cid: u64)
    ensures
        ({
            let p = fresh_peer(ip, now);
            &&& p.peer_ip == ip
            &&& !p.uses(cid)
            &&& p.signal_cid is None
            &&& p.created_at == now
            &&& p.last_activity == now
        }),
{
}

/// A peer holds a slot of its address for itself and one for each bridged channel.
pub proof fn law_peer_slots(peer: PeerView, i: int)
    ensures
        peer_slots(peer).len() == peer.channels.len() + 1,
        slots_of(peer) == peer.channels.len() + 1,
        0 <= i < peer_slots(peer).len() ==> peer_slots(peer)[i] == peer.peer_ip,
{
}

/// A step that takes a slot takes one of the address, one that gives one back gives one back, and
/// any other leaves the slots as they are.
pub proof fn law_slots_change(after: ConnectionTracker, before: ConnectionTracker, ip: IpAddr)
    ensures
        slots_change(after, before, ip, 1) <==> after.takes(before, ip, 1),
        slots_change(after, before, ip, 0) <==> after.same_as(before),
        slots_change(after, before, ip, -1) <==> after.gives_back(before, ip),
{
}

/// A message goes to the signal channel, where there is one, and nowhere else.
pub proof fn law_signaled(cid: u64, members: Seq<(Seq<char>, JsonFieldView)>)
    ensures
        signaled(Some(cid), members) == seq![
            PeerActionView::Signal { cid, text: json_object_text(members) },
        ],
        signaled(None, members) == Seq::<PeerActionView>::empty(),
{
}

/// A channel is refused for the first of these that holds: its label is no address, its address is
/// of IPv6 and there is none, it is local, it is no relay, there is no free slot. Where none holds
/// it is not refused.
pub proof fn law_rejections(
    target: Option<SocketAddr>,
    has_ipv6: bool,
    allowed: Set<SocketAddr>,
    admitted: bool,
)
    ensures
        rejection(target, has_ipv6, allowed, admitted) is None <==> (target matches Some(addr) && (
        addr.ip is V6 ==> has_ipv6) && !local(addr.ip) && allowed.contains(addr) && admitted),
        rejection(target, has_ipv6, allowed, admitted) matches Some(reason) ==> reason == (
        match target {
            None => "invalid target address"@,
            Some(addr) => if addr.ip is V6 && !has_ipv6 {
                "IPv6 not supported on this server"@
            } else if local(addr.ip) {
                "local addresses forbidden"@
            } else if !allowed.contains(addr) {
                "not an advertised relay"@
            } else {
                "connection limit reached"@
            },
        }),
{
}

/// A channel to a relay that may be reached, for an address with a free slot, is bridged to that
/// relay, whatever its label; it is one of the peer's channels then, and holds a slot. Any other
/// channel is closed, the client is told why on its signal channel, and nothing else changes. The
/// signal channel is taken as such and greeted, and the initial channel is closed.
pub proof fn law_channel_opens(
    peer: PeerView,
    cid: u64,
    label: Seq<char>,
    sctp_id: Option<u16>,
    target: Option<SocketAddr>,
    has_ipv6: bool,
    allowed: Set<SocketAddr>,
    admitted: bool,
    now: Duration,
)
    ensures
        ({
            let event = PeerEventView::ChannelOpen { cid, label, sctp_id, target };
            let step = event_step(peer, event, has_ipv6, allowed, admitted, now);
            let relayed = target matches Some(addr) && (addr.ip is V6 ==> has_ipv6) && !local(
                addr.ip,
            ) && allowed.contains(addr) && admitted;
            &&& step.peer.peer_ip == peer.peer_ip
            &&& step.peer.created_at == peer.created_at
            &&& if label == "_signal"@ {
                &&& step.peer.signal_cid == Some(cid)
                &&& step.peer.channels == peer.channels
                &&& step.peer.last_activity == peer.last_activity
                &&& step.slots == 0
                &&& step.actions == seq![
                    PeerActionView::Signal {
                        cid,
                        text: json_object_text(hello_members(has_ipv6)),
                    },
                ]
            } else if label == "_init"@ {
                &&& step.peer == peer
                &&& step.slots == 0
                &&& step.actions == seq![PeerActionView::CloseChannel { cid }]
            } else if relayed {
                &&& step.peer.channels == peer.channels.insert(cid, label)
                &&& step.peer.signal_cid == peer.signal_cid
                &&& step.peer.last_activity == now
                &&& step.slots == 1
                &&& step.actions == seq![
                    PeerActionView::Bridge { cid, target: target.unwrap() },
                ]
            } else {
                &&& step.peer == peer
                &&& step.slots == 0
                &&& step.actions.last() == (PeerActionView::CloseChannel { cid })
                &&& match peer.signal_cid {
                    None => step.actions.len() == 1,
                    Some(signal) => step.actions.len() == 2 && step.actions[0] == (
                    PeerActionView::Signal {
                        cid: signal,
                        text: json_object_text(
                            rejected_members(
                                label,
                                match sctp_id {
                                    Some(stream) => stream,
                                    None => 0,
                                },
                                rejection(target, has_ipv6, allowed, admitted).unwrap(),
                            ),
                        ),
                    }),
                }
            }
        }),
{
    let event = PeerEventView::ChannelOpen { cid, label, sctp_id, target };
    law_rejections(target, has_ipv6, allowed, admitted);
    reveal_strlit("_signal");
    reveal_strlit("_init");
    assert("_signal"@.len() != "_init"@.len());
}

/// Data of any length makes the peer active, and changes nothing else of it. A ping on the signal
/// channel is answered there, with its time stamp, and nothing else on it is; data of a bridged
/// channel goes to its TCP connection, whole; data of any other channel goes nowhere.
pub proof fn law_data_comes(
    peer: PeerView,
    cid: u64,
    data: Seq<u8>,
    has_ipv6: bool,
    allowed: Set<SocketAddr>,
    admitted: bool,
    now: Duration,
)
    requires
        peer.wf(),
    ensures
        ({
            let event = PeerEventView::ChannelData { cid, data };
            let step = event_step(peer, event, has_ipv6, allowed, admitted, now);
            let ping = valid_utf8(data) && json_text_member(decode_utf8(data), "type"@) == Some(
                "ping"@,
            );
            &&& step.peer.channels == peer.channels
            &&& step.peer.signal_cid == peer.signal_cid
            &&& step.peer.peer_ip == peer.peer_ip
            &&& step.peer.created_at == peer.created_at
            &&& step.peer.last_activity == now
            &&& step.slots == 0
            &&& peer.channels.contains_key(cid) ==> step.actions == seq![
                PeerActionView::ToTcp { cid, data },
            ]
            &&& peer.signal_cid == Some(cid) && ping ==> step.actions == seq![
                PeerActionView::Signal {
                    cid,
                    text: json_object_text(pong_members(decode_utf8(data))),
                },
            ]
            &&& peer.signal_cid == Some(cid) && !ping ==> step.actions.len() == 0
            &&& !peer.uses(cid) ==> step.actions.len() == 0
        }),
{
}

/// A channel that is closed is gone, with its slot where it was bridged; no other channel is. An
/// event of another kind changes nothing.
pub proof fn law_channel_closes(
    peer: PeerView,
    cid: u64,
    other: u64,
    has_ipv6: bool,
    allowed: Set<SocketAddr>,
    admitted: bool,
    now: Duration,
)
    requires
        peer.wf(),
        other != cid,
    ensures
        ({
            let step = event_step(
                peer,
                PeerEventView::ChannelClose { cid },
                has_ipv6,
                allowed,
                admitted,
                now,
            );
            &&& !step.peer.uses(cid)
            &&& step.peer.uses(other) == peer.uses(other)
            &&& peer.channels.contains_key(other) ==> step.peer.channels.contains_key(other)
                && step.peer.channels[other] == peer.channels[other]
            &&& step.slots == (if peer.channels.contains_key(cid) {
                -1int
            } else {
                0
            })
            &&& step.actions.len() == 0
            &&& step.peer.peer_ip == peer.peer_ip
            &&& step.peer.created_at == peer.created_at
            &&& step.peer.last_activity == peer.last_activity
        }),
        ({
            let step = event_step(peer, PeerEventView::Other, has_ipv6, allowed, admitted, now);
            step.peer == peer && step.actions.len() == 0 && step.slots == 0
        }),
{
}

/// What events and actions of a peer say is what they hold, whole.
pub proof fn law_peer_views(event: PeerEvent, action: PeerAction, actions: Seq<PeerAction>, i: int)
    ensures
        match event {
            PeerEvent::ChannelOpen { cid, label, sctp_id, target } => event@
                == (PeerEventView::ChannelOpen { cid, label: label@, sctp_id, target }),
            PeerEvent::ChannelData { cid, data } => event@ == (PeerEventView::ChannelData {
                cid,
                data: data@,
            }),
            PeerEvent::ChannelClose { cid } => event@ == (PeerEventView::ChannelClose { cid }),
            PeerEvent::Other => event@ is Other,
        },
        match action {
            PeerAction::Signal { cid, text } => action@ == (PeerActionView::Signal {
                cid,
                text: text@,
            }),
            PeerAction::CloseChannel { cid } => action@ == (PeerActionView::CloseChannel { cid }),
            PeerAction::Bridge { cid, target } => action@ == (PeerActionView::Bridge {
                cid,
                target,
            }),
            PeerAction::ToTcp { cid, data } => action@ == (PeerActionView::ToTcp {
                cid,
                data: data@,
            }),
            PeerAction::ToChannel { cid, data } => action@ == (PeerActionView::ToChannel {
                cid,
                data: data@,
            }),
        },
        peer_actions(actions).len() == actions.len(),
        0 <= i < actions.len() ==> peer_actions(actions)[i] == actions[i]@,
{
}

} // verus!
