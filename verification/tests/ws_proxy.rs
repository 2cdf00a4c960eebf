//! Which WebSockets are relayed, and how.

use tor_js_gateway::http::{Body, Reply};
use tor_js_gateway::net::{contains_ip, IpAddr, SocketAddr};
use tor_js_gateway::time::Duration;
use tor_js_gateway::ws_proxy::{
    handle_socket, is_local, relay, tcp_to_ws, ws_to_tcp, ConnectionTracker, Pump, RelayAction,
    RelayAllowlist, RelayEvent, RelayStage, TcpEvent, WsEvent, WsLimits,
};

const RELAY: SocketAddr =
    SocketAddr { ip: IpAddr::V4(0xc000_020a), port: 9001, flowinfo: 0, scope_id: 0 };
const CLIENT: IpAddr = IpAddr::V4(0xcb00_7105);
const OTHER: IpAddr = IpAddr::V6(0x2001_0db8_0000_0000_0000_0000_0000_0001);

fn limits(max_connections: usize, per_ip_limit: usize) -> WsLimits {
    WsLimits {
        max_connections,
        per_ip_limit,
        idle_timeout: Duration::from_secs(300),
        max_lifetime: Duration::from_secs(3600),
    }
}

fn allowlist() -> RelayAllowlist {
    let mut list = RelayAllowlist::new();
    list.replace(vec![RELAY]);
    list
}

fn refusal(r: Result<SocketAddr, Reply>) -> (u16, String) {
    match r {
        Err(Reply { status, headers, body: Body::Text(text) }) => {
            assert!(headers.is_empty());
            (status, text)
        }
        _ => panic!("not refused"),
    }
}

#[test]
fn a_new_list_permits_nothing() {
    let mut list = RelayAllowlist::new();
    assert!(!list.contains(RELAY));
    list.replace(vec![RELAY]);
    assert!(list.contains(RELAY));
    assert!(!list.contains(SocketAddr { port: 9002, ..RELAY }));
    list.replace(Vec::new());
    assert!(!list.contains(RELAY));
    let second = SocketAddr { port: 9002, ..RELAY };
    list.permit(&vec![Some(RELAY), None, Some(second), Some(RELAY)]);
    assert!(list.contains(RELAY) && list.contains(second));
    list.permit(&vec![None, Some(second)]);
    assert!(!list.contains(RELAY) && list.contains(second));
}

#[test]
fn limits_hold_in_all_and_for_each_address() {
    let mut t = ConnectionTracker::new();
    let l = limits(3, 2);
    assert!(t.acquire(CLIENT, &l));
    assert!(t.acquire(CLIENT, &l));
    assert!(!t.acquire(CLIENT, &l));
    assert!(t.acquire(OTHER, &l));
    assert!(!t.acquire(OTHER, &l));
    assert_eq!((t.active(), t.count(CLIENT), t.count(OTHER)), (3, 2, 1));
    t.release(CLIENT);
    assert_eq!((t.active(), t.count(CLIENT), t.count(OTHER)), (2, 1, 1));
    assert!(t.acquire(OTHER, &l));
    assert!(!ConnectionTracker::new().acquire(CLIENT, &limits(0, 9)));
    assert!(!ConnectionTracker::new().acquire(CLIENT, &limits(9, 0)));
}

#[test]
fn giving_back_undoes_taking() {
    let mut t = ConnectionTracker::new();
    let l = limits(8, 8);
    t.acquire(OTHER, &l);
    t.acquire(CLIENT, &l);
    t.release(CLIENT);
    assert_eq!((t.active(), t.count(CLIENT), t.count(OTHER)), (1, 0, 1));
}

#[test]
fn local_addresses_are_told_from_others() {
    for a in [
        0x7f00_0001, 0x7fff_ffff, 0x0a00_0000, 0x0aff_ffff, 0xac10_0000, 0xac1f_ffff, 0xc0a8_0000,
        0xc0a8_ffff, 0xa9fe_0000, 0xa9fe_ffff, 0xffff_ffff, 0,
    ] {
        assert!(is_local(IpAddr::V4(a)));
    }
    for a in [
        0x7eff_ffff, 0x8000_0000, 0x09ff_ffff, 0x0b00_0000, 0xac0f_ffff, 0xac20_0000, 0xc0a7_ffff,
        0xc0a9_0000, 0xa9fd_ffff, 0xa9ff_0000, 0xffff_fffe, 1,
    ] {
        assert!(!is_local(IpAddr::V4(a)));
    }
    assert!(is_local(IpAddr::V6(0)));
    assert!(is_local(IpAddr::V6(1)));
    assert!(!is_local(IpAddr::V6(2)));
    assert!(is_local(IpAddr::V6(0xffff_7f00_0001)));
    assert!(is_local(IpAddr::V6(0xffff_0a00_0001)));
    assert!(is_local(IpAddr::V6(0xffff_a9fe_0001)));
    assert!(is_local(IpAddr::V6(0xffff_0000_0000)));
    assert!(is_local(IpAddr::V6(0xffff_ffff_ffff)));
    assert!(!is_local(IpAddr::V6(0xffff_0808_0808)));
    assert!(is_local(IpAddr::V6(0xfe80 << 112 | 1)));
    assert!(is_local(IpAddr::V6(0xfebf << 112)));
    assert!(is_local(IpAddr::V6(0xfc00 << 112)));
    assert!(is_local(IpAddr::V6(0xfdff << 112 | 7)));
    assert!(!is_local(IpAddr::V6(0xfe7f << 112)));
    assert!(!is_local(IpAddr::V6(0xfec0 << 112)));
    assert!(!is_local(IpAddr::V6(0xfbff << 112)));
    assert!(!is_local(IpAddr::V6(0x1_ffff_7f00_0001)));
    assert!(!is_local(OTHER));
}

#[test]
fn addresses_are_found_in_a_list() {
    assert!(contains_ip(&vec![CLIENT, OTHER], OTHER));
    assert!(!contains_ip(&vec![CLIENT], OTHER));
    assert!(!contains_ip(&Vec::new(), OTHER));
    assert!(IpAddr::localhost().is_loopback());
    assert!(!IpAddr::localhost().is_unspecified());
    assert!(!SocketAddr::new(CLIENT, 1).is_ipv6());
    assert!(SocketAddr::new(OTHER, 1).is_ipv6());
}

#[test]
fn only_relays_are_relayed_to() {
    let mut t = ConnectionTracker::new();
    let l = limits(1, 1);
    let list = allowlist();
    assert_eq!(
        refusal(handle_socket(None, CLIENT, &list, &mut t, &l)),
        (400, "invalid target address".to_string())
    );
    let local = SocketAddr::new(IpAddr::localhost(), 80);
    assert_eq!(
        refusal(handle_socket(Some(local), CLIENT, &list, &mut t, &l)),
        (403, "connections to local addresses are forbidden".to_string())
    );
    let stranger = SocketAddr { port: 443, ..RELAY };
    assert_eq!(
        refusal(handle_socket(Some(stranger), CLIENT, &list, &mut t, &l)),
        (403, "target is not an advertised Tor relay".to_string())
    );
    assert_eq!(t.active(), 0);
    match handle_socket(Some(RELAY), CLIENT, &list, &mut t, &l) {
        Ok(addr) => assert_eq!(addr, RELAY),
        Err(_) => panic!("refused"),
    }
    assert_eq!((t.active(), t.count(CLIENT)), (1, 1));
    assert_eq!(
        refusal(handle_socket(Some(RELAY), OTHER, &list, &mut t, &l)),
        (503, "connection limit reached".to_string())
    );
    assert_eq!((t.active(), t.count(OTHER)), (1, 0));
}

#[test]
fn a_local_relay_is_refused_even_where_it_is_advertised() {
    let local = SocketAddr::new(IpAddr::V4(0x0a00_0001), 9001);
    let mut list = RelayAllowlist::new();
    list.replace(vec![local]);
    let mut t = ConnectionTracker::new();
    let r = handle_socket(Some(local), CLIENT, &list, &mut t, &limits(9, 9));
    assert_eq!(refusal(r).0, 403);
}

#[test]
fn binary_messages_go_to_tcp_and_others_do_not() {
    match ws_to_tcp(WsEvent::Binary(vec![1, 2])) {
        Pump::Forward(b) => assert_eq!(b, vec![1, 2]),
        _ => panic!("not handed on"),
    }
    assert!(matches!(ws_to_tcp(WsEvent::Other), Pump::Skip));
    for end in [WsEvent::IdleTimeout, WsEvent::Ended, WsEvent::Close, WsEvent::Failed] {
        assert!(matches!(ws_to_tcp(end), Pump::Stop));
    }
}

#[test]
fn what_is_read_from_tcp_goes_to_the_websocket() {
    let buf = vec![1, 2, 3, 4];
    match tcp_to_ws(TcpEvent::Read(3), &buf) {
        Pump::Forward(b) => assert_eq!(b, vec![1, 2, 3]),
        _ => panic!("not handed on"),
    }
    for end in [TcpEvent::Read(0), TcpEvent::Failed, TcpEvent::IdleTimeout] {
        assert!(matches!(tcp_to_ws(end, &buf), Pump::Stop));
    }
}

fn relayed(stage: RelayStage, event: RelayEvent) -> (RelayStage, String, usize) {
    let mut t = ConnectionTracker::new();
    t.acquire(CLIENT, &limits(9, 9));
    let (next, action) = relay(stage, event, &vec![1, 2, 3], CLIENT, &mut t);
    let text = match action {
        RelayAction::Wait => "wait".to_string(),
        RelayAction::Write(b) => format!("write {:?}", b),
        RelayAction::Send(b) => format!("send {:?}", b),
        RelayAction::Finish { shutdown, close } => format!("finish {} {}", shutdown, close),
    };
    (next, text, t.count(CLIENT))
}

#[test]
fn a_relay_ends_with_either_side_and_gives_its_slot_back() {
    let goes_on = |stage, text: &str| (stage, text.to_string(), 1);
    let ends = |text: &str| (RelayStage::Ended, text.to_string(), 0);
    let c = RelayStage::Connecting;
    let r = RelayStage::Relaying;
    assert_eq!(relayed(c, RelayEvent::Connected), goes_on(r, "wait"));
    assert_eq!(relayed(c, RelayEvent::ConnectFailed), ends("finish false false"));
    assert_eq!(
        relayed(r, RelayEvent::FromWs(WsEvent::Binary(vec![9]))),
        goes_on(r, "write [9]")
    );
    assert_eq!(relayed(r, RelayEvent::FromWs(WsEvent::Other)), goes_on(r, "wait"));
    assert_eq!(relayed(r, RelayEvent::FromWs(WsEvent::Close)), ends("finish true false"));
    assert_eq!(relayed(r, RelayEvent::FromTcp(TcpEvent::Read(2))), goes_on(r, "send [1, 2]"));
    assert_eq!(relayed(r, RelayEvent::FromTcp(TcpEvent::Read(0))), ends("finish false true"));
    assert_eq!(
        relayed(r, RelayEvent::FromTcp(TcpEvent::IdleTimeout)),
        ends("finish false true")
    );
    assert_eq!(relayed(r, RelayEvent::WriteFailed), ends("finish true false"));
    assert_eq!(relayed(r, RelayEvent::SendFailed), ends("finish false true"));
    assert_eq!(relayed(r, RelayEvent::LifetimeReached), ends("finish false false"));
    let e = RelayStage::Ended;
    assert_eq!(relayed(e, RelayEvent::LifetimeReached), goes_on(e, "wait"));
}

#[test]
fn a_relay_hands_on_what_comes_until_it_ends() {
    let ws = |b: u8| RelayEvent::FromWs(WsEvent::Binary(vec![b]));
    let tcp = |n: usize| RelayEvent::FromTcp(TcpEvent::Read(n));
    let mut t = ConnectionTracker::new();
    t.acquire(CLIENT, &limits(9, 9));
    let mut stage = RelayStage::Connecting;
    let (mut written, mut sent) = (Vec::new(), Vec::new());
    for event in [
        RelayEvent::Connected,
        ws(1),
        tcp(2),
        ws(2),
        RelayEvent::FromWs(WsEvent::Other),
        tcp(3),
        ws(3),
        RelayEvent::LifetimeReached,
        ws(4),
        tcp(1),
    ] {
        let (next, action) = relay(stage, event, &vec![7, 8, 9], CLIENT, &mut t);
        stage = next;
        match action {
            RelayAction::Write(b) => written.push(b),
            RelayAction::Send(b) => sent.push(b),
            _ => {}
        }
    }
    assert_eq!(written, vec![vec![1], vec![2], vec![3]]);
    assert_eq!(sent, vec![vec![7, 8], vec![7, 8, 9]]);
    assert_eq!(stage, RelayStage::Ended);
    assert_eq!(t.count(CLIENT), 0);
}
