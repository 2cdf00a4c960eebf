//! WebRTC peers: signaling, data channels and the event loop.

use tor_js_gateway::http::{Body, Reply};
use tor_js_gateway::net::{IpAddr, SocketAddr};
use tor_js_gateway::time::Duration;
use tor_js_gateway::webrtc_proxy::bridge::{
    tcp_bridge_task, BridgeAction, BridgeEvent, BridgeStage, TcpMsg,
};
use tor_js_gateway::webrtc_proxy::event_loop::{
    channel_owner, earliest_timeout, poll_wait, run_udp_loop, LoopEvent, LoopOutcome, NewPeer,
};
use tor_js_gateway::webrtc_proxy::host::{
    gather_local_ips, host_candidates, listed_addresses, receive_addresses,
};
use tor_js_gateway::webrtc_proxy::messages::{
    answer_message, closed_message, hello_message, pong_message, rejected_message,
};
use tor_js_gateway::webrtc_proxy::peer::{handle_peer_event, Peer, PeerAction, PeerEvent};
use tor_js_gateway::webrtc_proxy::signaling::{
    handle_rtc_connect, ConnectAction, ConnectEvent, ConnectStage,
};
use tor_js_gateway::ws_proxy::{handle_socket, ConnectionTracker, RelayAllowlist, WsLimits};

const CLIENT: IpAddr = IpAddr::V4(0xcb00_7105);
const OTHER: IpAddr = IpAddr::V4(0xcb00_7106);
const RELAY: SocketAddr =
    SocketAddr { ip: IpAddr::V4(0xc000_020a), port: 9001, flowinfo: 0, scope_id: 0 };
const RELAY_V6: SocketAddr = SocketAddr {
    ip: IpAddr::V6(0x2001_0db8_0000_0000_0000_0000_0000_0010),
    port: 9001,
    flowinfo: 0,
    scope_id: 0,
};

fn secs(n: u64) -> Duration {
    Duration::from_secs(n)
}

fn limits(max_connections: usize, per_ip_limit: usize) -> WsLimits {
    WsLimits {
        max_connections,
        per_ip_limit,
        idle_timeout: secs(300),
        max_lifetime: secs(3600),
    }
}

fn allowlist() -> RelayAllowlist {
    let mut list = RelayAllowlist::new();
    list.replace(vec![RELAY, RELAY_V6]);
    list
}

fn json(text: &str) -> serde_json::Value {
    serde_json::from_str(text).unwrap()
}

fn open(cid: u64, label: &str, target: Option<SocketAddr>) -> PeerEvent {
    PeerEvent::ChannelOpen { cid, label: label.to_string(), sctp_id: Some(cid as u16 + 100), target }
}

fn shown(actions: &[PeerAction]) -> Vec<String> {
    let one = |a: &PeerAction| match a {
        PeerAction::Signal { cid, text } => format!("signal {} {}", cid, json(text)["type"]),
        PeerAction::CloseChannel { cid } => format!("close {}", cid),
        PeerAction::Bridge { cid, target } => format!("bridge {} {}", cid, target.port),
        PeerAction::ToTcp { cid, data } => format!("tcp {} {:?}", cid, data),
        PeerAction::ToChannel { cid, data } => format!("channel {} {:?}", cid, data),
    };
    actions.iter().map(one).collect()
}

/// A peer with its trackers, as the loop has them.
struct Scene {
    peer: Peer,
    tracker: ConnectionTracker,
    limits: WsLimits,
    ipv6: bool,
}

impl Scene {
    fn new(limits: WsLimits) -> Scene {
        let mut tracker = ConnectionTracker::new();
        assert!(tracker.acquire(CLIENT, &limits));
        Scene { peer: Peer::new(CLIENT, secs(0)), tracker, limits, ipv6: false }
    }

    fn send(&mut self, event: PeerEvent) -> Vec<PeerAction> {
        handle_peer_event(
            &mut self.peer,
            event,
            &allowlist(),
            &mut self.tracker,
            &self.limits,
            self.ipv6,
            secs(1),
        )
    }

    /// Opens the signal channel 0 and a channel 1, and gives the message about the latter.
    fn refused(&mut self, label: &str, target: Option<SocketAddr>) -> serde_json::Value {
        self.send(open(0, "_signal", None));
        let actions = self.send(open(1, label, target));
        assert_eq!(shown(&actions), vec!["signal 0 \"rejected\"", "close 1"]);
        assert!(!self.peer.has_channel(1));
        match &actions[0] {
            PeerAction::Signal { text, .. } => json(text),
            _ => unreachable!(),
        }
    }
}

#[test]
fn messages_are_json_objects() {
    let m = json(&hello_message(true));
    assert_eq!(m["type"], "hello");
    assert_eq!(m["server"], "tor-js-gateway");
    assert_eq!(m["ipv6"], true);
    assert_eq!(m.as_object().unwrap().len(), 3);

    let m = json(&rejected_message("a\"b", 7, "why"));
    assert_eq!(m["type"], "rejected");
    assert_eq!(m["channel"], "a\"b");
    assert_eq!(m["sctp_id"], 7);
    assert_eq!(m["reason"], "why");
    assert_eq!(m.as_object().unwrap().len(), 4);

    let m = json(&closed_message("1.2.3.4:5", 9));
    assert_eq!(m["type"], "closed");
    assert_eq!(m["channel"], "1.2.3.4:5");
    assert_eq!(m["sctp_id"], 9);
    assert_eq!(m.as_object().unwrap().len(), 3);

    let m = json(&answer_message("v=0\r\n"));
    assert_eq!(m["type"], "answer");
    assert_eq!(m["sdp"], "v=0\r\n");
    assert_eq!(m.as_object().unwrap().len(), 2);
}

#[test]
fn a_pong_has_the_time_stamp_of_the_ping() {
    assert_eq!(json(&pong_message("{\"type\":\"ping\",\"ts\":[1,\"x\"]}"))["ts"][1], "x");
    assert_eq!(json(&pong_message("{\"type\":\"ping\",\"ts\":\"a\\n\"}"))["ts"], "a\n");
    assert!(json(&pong_message("no json"))["ts"].is_null());
    let m = json(&pong_message("{\"type\":\"ping\"}"));
    assert_eq!(m["type"], "pong");
    assert!(m.as_object().unwrap().contains_key("ts"));
    assert!(m["ts"].is_null());
}

#[test]
fn the_signal_channel_is_greeted() {
    let mut s = Scene::new(limits(9, 9));
    let actions = s.send(open(4, "_signal", None));
    assert_eq!(shown(&actions), vec!["signal 4 \"hello\""]);
    assert!(!s.peer.has_channel(4));
    assert_eq!(s.tracker.active(), 1);
}

#[test]
fn the_init_channel_is_closed() {
    let mut s = Scene::new(limits(9, 9));
    assert_eq!(shown(&s.send(open(4, "_init", None))), vec!["close 4"]);
    assert_eq!(s.tracker.active(), 1);
}

#[test]
fn a_channel_to_a_relay_is_bridged() {
    let mut s = Scene::new(limits(9, 9));
    let actions = s.send(open(4, "192.0.2.10:9001", Some(RELAY)));
    assert_eq!(shown(&actions), vec!["bridge 4 9001"]);
    assert!(s.peer.has_channel(4));
    assert_eq!(s.tracker.count(CLIENT), 2);
    let data = PeerEvent::ChannelData { cid: 4, data: vec![5, 6] };
    assert_eq!(shown(&s.send(data)), vec!["tcp 4 [5, 6]"]);
    assert!(s.send(PeerEvent::ChannelData { cid: 5, data: vec![1] }).is_empty());
    assert!(s.send(PeerEvent::ChannelClose { cid: 4 }).is_empty());
    assert!(!s.peer.has_channel(4));
    assert_eq!(s.tracker.count(CLIENT), 1);
    assert!(s.send(PeerEvent::ChannelClose { cid: 4 }).is_empty());
    assert_eq!(s.tracker.count(CLIENT), 1);
    assert!(s.send(PeerEvent::Other).is_empty());
}

#[test]
fn refusals_come_in_order() {
    let mut s = Scene::new(limits(9, 1));
    let m = s.refused("nowhere", None);
    assert_eq!(m["reason"], "invalid target address");
    assert_eq!(m["channel"], "nowhere");
    assert_eq!(m["sctp_id"], 101);

    let local_v6 = SocketAddr::new(IpAddr::V6(1), 80);
    let m = s.refused("[::1]:80", Some(local_v6));
    assert_eq!(m["reason"], "IPv6 not supported on this server");
    s.ipv6 = true;
    let m = s.refused("[::1]:80", Some(local_v6));
    assert_eq!(m["reason"], "local addresses forbidden");
    let m = s.refused("192.0.2.99:1", Some(SocketAddr::new(IpAddr::V4(0xc000_0263), 1)));
    assert_eq!(m["reason"], "not an advertised relay");
    let m = s.refused("192.0.2.10:9001", Some(RELAY));
    assert_eq!(m["reason"], "connection limit reached");
    assert_eq!(s.tracker.active(), 1);

    let mut s = Scene::new(limits(9, 9));
    s.ipv6 = true;
    let actions = s.send(open(1, "[2001:db8::10]:9001", Some(RELAY_V6)));
    assert_eq!(shown(&actions), vec!["bridge 1 9001"]);
}

#[test]
fn a_refusal_without_a_signal_channel_only_closes() {
    let mut s = Scene::new(limits(9, 9));
    assert_eq!(shown(&s.send(open(1, "nowhere", None))), vec!["close 1"]);
    s.send(open(0, "_signal", None));
    s.send(PeerEvent::ChannelClose { cid: 0 });
    assert_eq!(shown(&s.send(open(1, "nowhere", None))), vec!["close 1"]);
}

#[test]
fn a_channel_without_a_stream_is_reported_as_stream_0() {
    let mut s = Scene::new(limits(9, 9));
    s.send(open(0, "_signal", None));
    let event =
        PeerEvent::ChannelOpen { cid: 1, label: "x".to_string(), sctp_id: None, target: None };
    match &s.send(event)[0] {
        PeerAction::Signal { text, .. } => assert_eq!(json(text)["sctp_id"], 0),
        _ => panic!("not told"),
    }
}

#[test]
fn only_pings_are_answered_on_the_signal_channel() {
    let mut s = Scene::new(limits(9, 9));
    s.send(open(0, "_signal", None));
    let mut on_signal = |text: &[u8]| {
        s.send(PeerEvent::ChannelData { cid: 0, data: text.to_vec() })
    };
    let actions = on_signal(b"{\"type\": \"ping\", \"ts\": 12}");
    assert_eq!(shown(&actions), vec!["signal 0 \"pong\""]);
    match &actions[0] {
        PeerAction::Signal { text, .. } => assert_eq!(json(text)["ts"], 12),
        _ => unreachable!(),
    }
    assert!(on_signal(b"{\"type\": \"pong\"}").is_empty());
    assert!(on_signal(b"{\"type\": 1}").is_empty());
    assert!(on_signal(b"{\"type\": \"ping\"").is_empty());
    assert!(on_signal(b"[\"ping\"]").is_empty());
    assert!(on_signal(b"\xff").is_empty());
}

/// A loop with peers, as the caller has it.
struct Loop {
    peers: Vec<Peer>,
    tracker: ConnectionTracker,
    limits: WsLimits,
}

impl Loop {
    fn new(ips: &[IpAddr]) -> Loop {
        let tracker = ConnectionTracker::new();
        let mut l = Loop { peers: Vec::new(), tracker, limits: limits(99, 99) };
        for ip in ips {
            assert!(l.tracker.acquire(*ip, &l.limits));
            let r = l.step(LoopEvent::Accepted(NewPeer { peer_ip: *ip }), 0);
            assert!(matches!(r, LoopOutcome::Nothing));
        }
        l
    }

    fn step(&mut self, event: LoopEvent, now: u64) -> LoopOutcome {
        run_udp_loop(
            &mut self.peers,
            event,
            &allowlist(),
            &mut self.tracker,
            &self.limits,
            true,
            secs(now),
        )
    }

    fn bridge(&mut self, at: usize, cid: u64, now: u64) {
        let event = open(cid, "192.0.2.10:9001", Some(RELAY));
        match self.step(LoopEvent::Reported { at, event }, now) {
            LoopOutcome::Act { at: peer, actions } => {
                assert_eq!(peer, at);
                assert_eq!(shown(&actions), vec![format!("bridge {} 9001", cid)]);
            }
            _ => panic!("not bridged"),
        }
    }
}

#[test]
fn data_from_tcp_goes_to_the_channel() {
    let mut l = Loop::new(&[CLIENT, OTHER]);
    l.bridge(0, 1, 0);
    l.bridge(1, 2, 0);
    assert_eq!(channel_owner(&l.peers, 2), Some(1));
    assert_eq!(channel_owner(&l.peers, 3), None);
    match l.step(LoopEvent::FromTcp { msg: TcpMsg::Data(2, vec![7]), sctp_id: None }, 1) {
        LoopOutcome::Act { at, actions } => {
            assert_eq!(at, 1);
            assert_eq!(shown(&actions), vec!["channel 2 [7]"]);
        }
        _ => panic!("lost"),
    }
    let r = l.step(LoopEvent::FromTcp { msg: TcpMsg::Data(3, vec![7]), sctp_id: None }, 1);
    assert!(matches!(r, LoopOutcome::Nothing));
}

#[test]
fn data_of_one_peer_does_not_touch_another() {
    let mut l = Loop::new(&[CLIENT, OTHER]);
    l.bridge(0, 1, 0);
    l.bridge(1, 2, 0);
    for (n, now) in [(7, 200), (8, 201)] {
        let msg = TcpMsg::Data(2, vec![n]);
        match l.step(LoopEvent::FromTcp { msg, sctp_id: None }, now) {
            LoopOutcome::Act { at, actions } => {
                assert_eq!(at, 1);
                assert_eq!(shown(&actions), vec![format!("channel 2 [{}]", n)]);
            }
            _ => panic!("lost"),
        }
    }
    // The first peer has not been active.
    match l.step(LoopEvent::Timeouts, 400) {
        LoopOutcome::Kept(keep) => assert_eq!(keep, vec![false, true]),
        _ => panic!("nothing enforced"),
    }
}

#[test]
fn data_of_a_channel_is_handed_on_in_order() {
    let mut s = Scene::new(limits(9, 9));
    s.send(open(0, "_signal", None));
    s.send(open(1, "192.0.2.10:9001", Some(RELAY)));
    s.send(open(2, "192.0.2.10:9001", Some(RELAY)));
    let mut all = Vec::new();
    for n in 0..100 {
        let actions = s.send(PeerEvent::ChannelData { cid: 1, data: vec![n] });
        all.extend(shown(&actions));
    }
    let expected: Vec<String> = (0..100).map(|n| format!("tcp 1 [{}]", n)).collect();
    assert_eq!(all, expected);
    assert_eq!(s.tracker.count(CLIENT), 3);
}

#[test]
fn the_end_of_tcp_closes_the_channel_and_frees_its_slot() {
    let mut l = Loop::new(&[CLIENT]);
    l.step(LoopEvent::Reported { at: 0, event: open(0, "_signal", None) }, 0);
    l.bridge(0, 1, 0);
    assert_eq!(l.tracker.count(CLIENT), 2);
    match l.step(LoopEvent::FromTcp { msg: TcpMsg::Closed(1), sctp_id: Some(5) }, 1) {
        LoopOutcome::Act { at, actions } => {
            assert_eq!(at, 0);
            assert_eq!(shown(&actions), vec!["close 1", "signal 0 \"closed\""]);
            match &actions[1] {
                PeerAction::Signal { text, .. } => {
                    assert_eq!(json(text)["channel"], "192.0.2.10:9001");
                    assert_eq!(json(text)["sctp_id"], 5);
                }
                _ => unreachable!(),
            }
        }
        _ => panic!("lost"),
    }
    assert_eq!(l.tracker.count(CLIENT), 1);
    let r = l.step(LoopEvent::FromTcp { msg: TcpMsg::Closed(1), sctp_id: None }, 1);
    assert!(matches!(r, LoopOutcome::Nothing));
    assert_eq!(l.tracker.count(CLIENT), 1);
}

#[test]
fn idle_and_old_peers_are_removed_with_their_slots() {
    let mut l = Loop::new(&[CLIENT, OTHER, CLIENT]);
    l.bridge(0, 1, 0);
    l.bridge(0, 2, 0);
    l.bridge(1, 3, 10);
    assert_eq!(l.tracker.active(), 6);
    match l.step(LoopEvent::Timeouts, 300) {
        LoopOutcome::Kept(keep) => assert_eq!(keep, vec![true, true, true]),
        _ => panic!("nothing enforced"),
    }
    match l.step(LoopEvent::Timeouts, 301) {
        LoopOutcome::Kept(keep) => assert_eq!(keep, vec![false, true, false]),
        _ => panic!("nothing enforced"),
    }
    assert_eq!(l.peers.len(), 1);
    assert_eq!(l.peers[0].ip(), OTHER);
    assert_eq!((l.tracker.active(), l.tracker.count(CLIENT), l.tracker.count(OTHER)), (2, 0, 2));
    let touch = PeerEvent::ChannelData { cid: 3, data: Vec::new() };
    l.step(LoopEvent::Reported { at: 0, event: touch }, 3600);
    match l.step(LoopEvent::Timeouts, 3601) {
        LoopOutcome::Kept(keep) => assert_eq!(keep, vec![false]),
        _ => panic!("nothing enforced"),
    }
    assert_eq!(l.tracker.active(), 0);
}

#[test]
fn disconnected_peers_are_removed_with_their_slots() {
    let mut l = Loop::new(&[CLIENT, OTHER, CLIENT]);
    l.bridge(2, 1, 0);
    match l.step(LoopEvent::Alive(vec![true, false, false]), 1) {
        LoopOutcome::Kept(keep) => assert_eq!(keep, vec![true, false, false]),
        _ => panic!("nothing removed"),
    }
    assert_eq!(l.peers.len(), 1);
    assert_eq!((l.tracker.active(), l.tracker.count(CLIENT), l.tracker.count(OTHER)), (1, 1, 0));
}

#[test]
fn a_datagram_goes_to_the_first_peer_that_accepts_it() {
    let mut l = Loop::new(&[CLIENT, OTHER]);
    let offers = vec![None, Some(vec![false, false]), Some(vec![false, true]), Some(vec![true, true])];
    match l.step(LoopEvent::Datagram(offers), 200) {
        LoopOutcome::Deliver { address, peer } => assert_eq!((address, peer), (2, 1)),
        _ => panic!("lost"),
    }
    // The peer has been active; the other one has not.
    match l.step(LoopEvent::Timeouts, 400) {
        LoopOutcome::Kept(keep) => assert_eq!(keep, vec![false, true]),
        _ => panic!("nothing enforced"),
    }
    let r = l.step(LoopEvent::Datagram(vec![None, Some(vec![false])]), 400);
    assert!(matches!(r, LoopOutcome::Nothing));
    let r = l.step(LoopEvent::Datagram(Vec::new()), 400);
    assert!(matches!(r, LoopOutcome::Nothing));
}

#[test]
fn the_loop_waits_for_the_first_timeout() {
    let ms = |n: u128| Duration { nanos: n * 1_000_000 };
    assert_eq!(earliest_timeout(ms(1000), &Vec::new()), ms(1100));
    assert_eq!(earliest_timeout(ms(1000), &vec![ms(1070), ms(1050), ms(1090)]), ms(1050));
    assert_eq!(earliest_timeout(ms(1000), &vec![ms(5000)]), ms(1100));
    assert_eq!(poll_wait(ms(1100), ms(1000)), ms(100));
    assert_eq!(poll_wait(ms(1000), ms(1000)), ms(1));
    assert_eq!(poll_wait(ms(900), ms(1000)), ms(1));
}

#[test]
fn addresses_are_read_from_the_list_of_interfaces() {
    let output = b"1: lo    inet 127.0.0.1/8 scope host lo\\       valid_lft forever\n1: lo    inet6 ::1/128 scope host\n2: eth0    inet 192.168.1.5/24 brd 192.168.1.255\n3: x link\n4: y    ether aa:bb\n5: tun0    inet 10.8.0.2 peer 10.8.0.1/32\n".to_vec();
    assert_eq!(listed_addresses(&output), vec!["127.0.0.1", "::1", "192.168.1.5", "10.8.0.2"]);
    assert!(listed_addresses(&vec![0xff]).is_empty());
    assert!(listed_addresses(&Vec::new()).is_empty());
}

#[test]
fn local_addresses_are_gathered_once() {
    let loopback = IpAddr::localhost();
    assert_eq!(gather_local_ips(None, &Vec::new()), vec![loopback]);
    let zero = IpAddr::V4(0);
    assert_eq!(gather_local_ips(Some(zero), &vec![Some(zero), None]), vec![loopback]);
    assert_eq!(gather_local_ips(Some(loopback), &Vec::new()), vec![loopback]);
    let v6_loopback = IpAddr::V6(1);
    assert_eq!(
        gather_local_ips(
            Some(CLIENT),
            &vec![Some(loopback), Some(OTHER), None, Some(CLIENT), Some(v6_loopback), Some(OTHER)]
        ),
        vec![loopback, CLIENT, OTHER, v6_loopback]
    );
}

#[test]
fn candidates_are_all_addresses_of_the_host_and_the_peers() {
    let any = SocketAddr::new(IpAddr::V4(0), 7000);
    let at = |ip| SocketAddr::new(ip, 7000);
    let gathered = vec![IpAddr::localhost(), OTHER, OTHER];
    assert_eq!(
        host_candidates(Some(any), &gathered, CLIENT),
        vec![at(IpAddr::localhost()), at(OTHER), at(CLIENT)]
    );
    assert_eq!(
        host_candidates(Some(any), &gathered, OTHER),
        vec![at(IpAddr::localhost()), at(OTHER)]
    );
    assert_eq!(host_candidates(Some(RELAY), &gathered, CLIENT), vec![RELAY]);
    assert!(host_candidates(None, &gathered, CLIENT).is_empty());

    assert_eq!(
        receive_addresses(any, &gathered),
        vec![at(IpAddr::localhost()), at(OTHER), at(OTHER)]
    );
    assert_eq!(receive_addresses(RELAY, &gathered), vec![RELAY]);
}

const SDP: &str = "v=0\r\no=- 6684365987727163472 2 IN IP4 127.0.0.1\r\ns=-\r\nt=0 0\r\na=group:BUNDLE 0\r\na=extmap-allow-mixed\r\na=msid-semantic: WMS\r\nm=application 9 UDP/DTLS/SCTP webrtc-datachannel\r\nc=IN IP4 0.0.0.0\r\na=ice-ufrag:aBcD\r\na=ice-pwd:abcdefghijklmnopqrstuvwx\r\na=ice-options:trickle\r\na=fingerprint:sha-256 00:01:02:03:04:05:06:07:08:09:0A:0B:0C:0D:0E:0F:10:11:12:13:14:15:16:17:18:19:1A:1B:1C:1D:1E:1F\r\na=setup:actpass\r\na=mid:0\r\na=sctp-port:5000\r\na=max-message-size:262144\r\n";

/// A request on its way, with its tracker.
struct Request {
    stage: Option<ConnectStage>,
    tracker: ConnectionTracker,
    limits: WsLimits,
}

impl Request {
    fn new(limits: WsLimits) -> Request {
        Request {
            stage: Some(ConnectStage::AwaitRequest),
            tracker: ConnectionTracker::new(),
            limits,
        }
    }

    fn send(&mut self, event: ConnectEvent) -> ConnectAction {
        let (stage, action) = handle_rtc_connect(
            self.stage.take().unwrap(),
            event,
            CLIENT,
            Some(SocketAddr::new(IpAddr::V4(0), 7000)),
            &mut self.tracker,
            &self.limits,
        );
        self.stage = Some(stage);
        action
    }

    fn offer(&mut self, sdp: Option<&str>) -> ConnectAction {
        let r = self.send(ConnectEvent::Request { enabled: true });
        assert!(matches!(r, ConnectAction::ReadOffer));
        assert_eq!(self.tracker.count(CLIENT), 1);
        self.send(ConnectEvent::Offer {
            sdp: sdp.map(|s| s.to_string()),
            gathered: vec![IpAddr::localhost()],
        })
    }

    /// Goes up to where the peer is handed to the event loop.
    fn accepted(&mut self) {
        match self.offer(Some(SDP)) {
            ConnectAction::Accept { sdp, candidates } => {
                assert_eq!(sdp, SDP);
                let at = |ip| SocketAddr::new(ip, 7000);
                assert_eq!(candidates, vec![at(IpAddr::localhost()), at(CLIENT)]);
            }
            _ => panic!("not accepted"),
        }
        let r = self.send(ConnectEvent::Answer { sdp: Some("v=0 answer".to_string()) });
        assert!(matches!(r, ConnectAction::HandOff));
    }

    fn refused(&self, action: ConnectAction) -> (u16, String) {
        assert!(matches!(self.stage, Some(ConnectStage::Done)));
        assert_eq!(self.tracker.active(), 0);
        match action {
            ConnectAction::Respond { reply: Reply { status, headers, body } } => {
                assert!(headers.is_empty());
                match body {
                    Body::Text(t) => (status, t),
                    Body::Empty => (status, String::new()),
                    Body::Bytes(_) => panic!("bytes"),
                }
            }
            _ => panic!("not refused"),
        }
    }
}

#[test]
fn an_offer_is_answered_and_holds_one_slot() {
    let mut r = Request::new(limits(9, 9));
    r.accepted();
    match r.send(ConnectEvent::HandedOff { taken: true }) {
        ConnectAction::Respond { reply } => {
            assert_eq!(reply.status, 200);
            assert_eq!(
                reply.headers,
                vec![("content-type".to_string(), "application/json".to_string())]
            );
            match reply.body {
                Body::Text(t) => {
                    assert_eq!(json(&t)["type"], "answer");
                    assert_eq!(json(&t)["sdp"], "v=0 answer");
                }
                _ => panic!("no text"),
            }
        }
        _ => panic!("not answered"),
    }
    assert_eq!(r.tracker.count(CLIENT), 1);
}

#[test]
fn every_refusal_gives_the_slot_back() {
    let mut r = Request::new(limits(9, 9));
    let a = r.send(ConnectEvent::Request { enabled: false });
    assert_eq!(r.refused(a), (404, "WebRTC not enabled".to_string()));

    let mut r = Request::new(limits(0, 9));
    let a = r.send(ConnectEvent::Request { enabled: true });
    assert_eq!(r.refused(a), (503, "connection limit reached".to_string()));

    let mut r = Request::new(limits(9, 9));
    let a = r.offer(None);
    assert_eq!(r.refused(a), (400, "invalid SDP offer".to_string()));

    let mut r = Request::new(limits(9, 9));
    let a = r.offer(Some("no sdp"));
    assert_eq!(r.refused(a), (400, "invalid SDP".to_string()));

    let mut r = Request::new(limits(9, 9));
    r.offer(Some(SDP));
    let a = r.send(ConnectEvent::Answer { sdp: None });
    assert_eq!(r.refused(a), (400, "failed to process SDP offer".to_string()));

    let mut r = Request::new(limits(9, 9));
    r.accepted();
    let a = r.send(ConnectEvent::HandedOff { taken: false });
    assert_eq!(r.refused(a), (500, String::new()));

    let mut r = Request::new(limits(9, 9));
    r.offer(Some(SDP));
    let a = r.send(ConnectEvent::HandedOff { taken: true });
    assert_eq!(r.refused(a), (500, String::new()));
}

fn bridged(stage: BridgeStage, event: BridgeEvent) -> (BridgeStage, String) {
    let (next, action) = tcp_bridge_task(stage, event, 3);
    let msg = |m: TcpMsg| match m {
        TcpMsg::Data(cid, data) => format!("data {} {:?}", cid, data),
        TcpMsg::Closed(cid) => format!("closed {}", cid),
    };
    let text = match action {
        BridgeAction::Relay => "relay".to_string(),
        BridgeAction::Write(d) => format!("write {:?}", d),
        BridgeAction::Send(m) => format!("send {}", msg(m)),
        BridgeAction::Finish { shutdown, last } => format!("finish {} {}", shutdown, msg(last)),
        BridgeAction::Nothing => "nothing".to_string(),
    };
    (next, text)
}

#[test]
fn a_bridge_hands_data_on_until_a_side_ends() {
    let end = |shutdown: bool| (BridgeStage::Ended, format!("finish {} closed 3", shutdown));
    assert_eq!(bridged(BridgeStage::Connecting, BridgeEvent::Connected), (BridgeStage::Relaying, "relay".to_string()));
    assert_eq!(bridged(BridgeStage::Connecting, BridgeEvent::ConnectFailed), end(false));
    assert_eq!(bridged(BridgeStage::Connecting, BridgeEvent::ConnectTimedOut), end(false));
    assert_eq!(
        bridged(BridgeStage::Relaying, BridgeEvent::FromChannel(vec![1])),
        (BridgeStage::Relaying, "write [1]".to_string())
    );
    assert_eq!(
        bridged(BridgeStage::Relaying, BridgeEvent::Read(vec![2, 3])),
        (BridgeStage::Relaying, "send data 3 [2, 3]".to_string())
    );
    assert_eq!(bridged(BridgeStage::Relaying, BridgeEvent::ChannelEnded), end(true));
    assert_eq!(bridged(BridgeStage::Relaying, BridgeEvent::WriteFailed), end(true));
    assert_eq!(bridged(BridgeStage::Relaying, BridgeEvent::Read(Vec::new())), end(false));
    assert_eq!(bridged(BridgeStage::Relaying, BridgeEvent::ReadFailed), end(false));
    assert_eq!(bridged(BridgeStage::Relaying, BridgeEvent::SendFailed), end(false));
    assert_eq!(bridged(BridgeStage::Ended, BridgeEvent::ReadFailed), (BridgeStage::Ended, "nothing".to_string()));
    assert_eq!(bridged(BridgeStage::Connecting, BridgeEvent::ReadFailed), (BridgeStage::Connecting, "nothing".to_string()));
}

#[test]
fn a_bridge_reports_its_end_once() {
    let mut stage = BridgeStage::Connecting;
    let mut sent = Vec::new();
    for event in [
        BridgeEvent::Connected,
        BridgeEvent::Read(vec![1]),
        BridgeEvent::FromChannel(vec![2]),
        BridgeEvent::Read(Vec::new()),
        BridgeEvent::ChannelEnded,
        BridgeEvent::Read(vec![3]),
    ] {
        let (next, text) = bridged(stage, event);
        stage = next;
        if text.starts_with("send") || text.starts_with("finish") {
            sent.push(text);
        }
    }
    assert_eq!(stage, BridgeStage::Ended);
    assert_eq!(sent, vec!["send data 3 [1]", "finish false closed 3"]);
}

#[test]
fn a_channel_is_bridged_where_a_websocket_would_be_relayed() {
    let targets = [
        None,
        Some(RELAY),
        Some(RELAY_V6),
        Some(SocketAddr::new(IpAddr::localhost(), 9001)),
        Some(SocketAddr::new(OTHER, 9001)),
    ];
    for per_ip in [1, 9] {
        for target in targets {
            let mut s = Scene::new(limits(9, per_ip));
            s.ipv6 = true;
            let bridged = match s.send(open(1, "x", target)).first() {
                Some(PeerAction::Bridge { .. }) => true,
                _ => false,
            };
            let mut t = ConnectionTracker::new();
            t.acquire(CLIENT, &limits(9, per_ip));
            let r = handle_socket(target, CLIENT, &allowlist(), &mut t, &limits(9, per_ip));
            assert_eq!(bridged, r.is_ok());
        }
    }
}

#[test]
fn the_loop_keeps_the_limits() {
    let mut l = Loop::new(&[CLIENT]);
    l.limits = limits(2, 9);
    l.bridge(0, 1, 0);
    let event = open(2, "192.0.2.10:9001", Some(RELAY));
    match l.step(LoopEvent::Reported { at: 0, event }, 0) {
        LoopOutcome::Act { actions, .. } => assert_eq!(shown(&actions), vec!["close 2"]),
        _ => panic!("nothing done"),
    }
    assert_eq!(l.tracker.active(), 2);
    l.step(LoopEvent::Alive(vec![false]), 0);
    assert_eq!(l.tracker.active(), 0);
}

#[test]
fn a_bridge_hands_on_what_comes_until_it_ends() {
    let mut stage = BridgeStage::Connecting;
    let (mut written, mut sent) = (Vec::new(), Vec::new());
    for event in [
        BridgeEvent::Connected,
        BridgeEvent::FromChannel(vec![1]),
        BridgeEvent::Read(vec![7]),
        BridgeEvent::FromChannel(vec![2]),
        BridgeEvent::Read(vec![8, 9]),
        BridgeEvent::Read(Vec::new()),
        BridgeEvent::FromChannel(vec![3]),
        BridgeEvent::Read(vec![5]),
    ] {
        let (next, action) = tcp_bridge_task(stage, event, 4);
        stage = next;
        match action {
            BridgeAction::Write(data) => written.push(data),
            BridgeAction::Send(TcpMsg::Data(cid, data)) => sent.push((cid, data)),
            BridgeAction::Finish { last: TcpMsg::Closed(cid), .. } => sent.push((cid, Vec::new())),
            _ => {}
        }
    }
    assert_eq!(written, vec![vec![1], vec![2]]);
    assert_eq!(sent, vec![(4, vec![7]), (4, vec![8, 9]), (4, Vec::new())]);
    assert_eq!(stage, BridgeStage::Ended);
}
