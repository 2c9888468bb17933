use triangle::config::{Config, Forward};
use triangle::error::ProxyError;
use triangle::proxy::{DialPlan, IpAddress, ProxyTransport, SocketAddress};
use triangle::session::{Action, Event, Session, Stage};

fn u16_bytes(n: usize) -> [u8; 2] {
    [(n / 256) as u8, (n % 256) as u8]
}

fn hello_for(host: &str) -> Vec<u8> {
    let name = host.as_bytes();
    let mut entry = vec![0u8];
    entry.extend_from_slice(&u16_bytes(name.len()));
    entry.extend_from_slice(name);
    let mut data = u16_bytes(entry.len()).to_vec();
    data.extend_from_slice(&entry);
    let mut ext = vec![0u8, 0];
    ext.extend_from_slice(&u16_bytes(data.len()));
    ext.extend_from_slice(&data);
    let mut body = vec![3u8, 3];
    body.extend_from_slice(&[1u8; 32]);
    body.push(0);
    body.extend_from_slice(&[0, 2, 0x13, 0x01]);
    body.extend_from_slice(&[1, 0]);
    body.extend_from_slice(&u16_bytes(ext.len()));
    body.extend_from_slice(&ext);
    let n = body.len();
    let mut msg = vec![1u8, (n >> 16) as u8, (n >> 8) as u8, n as u8];
    msg.extend_from_slice(&body);
    let mut rec = vec![22u8, 3, 1];
    rec.extend_from_slice(&u16_bytes(msg.len()));
    rec.extend_from_slice(&msg);
    rec
}

fn config(rules: Vec<(Vec<&str>, Vec<ProxyTransport>)>) -> Config {
    Config {
        listen_addr: SocketAddress { ip: IpAddress::V4(0), port: 8443 },
        timeout_ms: 2500,
        forwards: rules
            .into_iter()
            .map(|(src, dst)| Forward { src: src.into_iter().map(String::from).collect(), dst })
            .collect(),
    }
}

fn relay() -> SocketAddress {
    SocketAddress { ip: IpAddress::V4(0x7f00_0001), port: 1080 }
}

fn started(config: &Config) -> Session {
    let (session, action) = Session::new().step(config, Event::Start);
    assert_eq!(action, Action::Sniff { deadline_ms: config.timeout_ms });
    session
}

#[test]
fn stalled_client_times_out() {
    let c = config(vec![(vec!["example.com"], vec![ProxyTransport::Direct])]);
    let session = started(&c);
    let (session, action) = session.step(&c, Event::Read(vec![22]));
    assert_eq!(action, Action::ReadMore);
    assert!(!session.is_over());
    let (session, action) = session.step(&c, Event::Deadline);
    assert_eq!(action, Action::Close);
    assert_eq!(session, Session::Failed(Stage::Sniffing, ProxyError::Timeout));
    assert_eq!(session.failure(), Some((Stage::Sniffing, &ProxyError::Timeout)));
    assert!(session.is_over());
}

#[test]
fn direct_rule_dials_the_host_and_replays_the_prefix_first() {
    let c = config(vec![(vec!["example.com"], vec![ProxyTransport::Direct])]);
    let mut stream = hello_for("example.com");
    stream.extend_from_slice(b"and more");
    let (first, second) = stream.split_at(20);
    let session = started(&c);
    let (session, action) = session.step(&c, Event::Read(first.to_vec()));
    assert_eq!(action, Action::ReadMore);
    let (session, action) = session.step(&c, Event::Read(second.to_vec()));
    assert_eq!(action, Action::Dial(DialPlan::Tcp { host: "example.com".into(), port: 443 }));
    assert_eq!(session, Session::Dialing { prefix: stream.clone() });
    let (session, action) = session.step(&c, Event::Dialed);
    assert_eq!(action, Action::Replay(stream));
    assert_eq!(session, Session::Replaying);
    let (session, action) = session.step(&c, Event::Replayed);
    assert_eq!(action, Action::Relay);
    assert_eq!(session, Session::Relaying);
    let (session, action) = session.step(&c, Event::RelayEnded { error: None });
    assert_eq!(action, Action::Close);
    assert_eq!(session, Session::Closed);
    assert_eq!(session.failure(), None);
    assert!(session.is_over());
}

#[test]
fn socks_rule_asks_the_relay_for_the_host() {
    let c = config(vec![(vec!["*.internal"], vec![ProxyTransport::Socks5(vec![relay()])])]);
    let session = started(&c);
    let (session, action) = session.step(&c, Event::Read(hello_for("svc.internal")));
    assert_eq!(
        action,
        Action::Dial(DialPlan::Socks5 {
            relays: vec![relay()],
            host: "svc.internal".into(),
            port: 443
        })
    );
    assert_eq!(session, Session::Dialing { prefix: hello_for("svc.internal") });
}

#[test]
fn only_the_first_transport_of_a_rule_is_used() {
    let c = config(vec![(
        vec!["*"],
        vec![ProxyTransport::Socks5(vec![relay()]), ProxyTransport::Direct],
    )]);
    let (_, action) = started(&c).step(&c, Event::Read(hello_for("example.com")));
    assert!(matches!(action, Action::Dial(DialPlan::Socks5 { .. })));
}

#[test]
fn unmatched_host_is_dropped_without_dialing() {
    let c = config(vec![
        (vec!["example.com"], vec![ProxyTransport::Direct]),
        (vec!["*.internal"], vec![ProxyTransport::Socks5(vec![relay()])]),
    ]);
    let (session, action) = started(&c).step(&c, Event::Read(hello_for("unmatched.example")));
    assert_eq!(action, Action::Close);
    assert_eq!(session, Session::Failed(Stage::Routing, ProxyError::NoMatch("unmatched.example".into())));
    // Nothing that comes later brings the connection back.
    let (session, action) = session.step(&c, Event::Dialed);
    assert_eq!(action, Action::Nothing);
    assert_eq!(session, Session::Failed(Stage::Routing, ProxyError::NoMatch("unmatched.example".into())));
}

#[test]
fn garbage_then_end_of_stream_fails_without_dialing() {
    let c = config(vec![(vec!["*"], vec![ProxyTransport::Direct])]);
    let (session, action) = started(&c).step(&c, Event::Read(vec![22, 3, 1]));
    assert_eq!(action, Action::ReadMore);
    let (session, action) = session.step(&c, Event::EndOfStream);
    assert_eq!(action, Action::Close);
    assert_eq!(session, Session::Failed(Stage::Sniffing, ProxyError::IncompleteHandshake));

    let (session, action) = started(&c).step(&c, Event::Read(vec![0x47, 0x45, 0x54]));
    assert_eq!(action, Action::ReadMore);
    let (session, action) = session.step(&c, Event::Read(vec![0x20, 0x2f]));
    assert_eq!(action, Action::Close);
    assert_eq!(session, Session::Failed(Stage::Sniffing, ProxyError::ParseError));
}

#[test]
fn stalled_client_times_out_whatever_its_one_byte() {
    let c = config(vec![(vec!["*"], vec![ProxyTransport::Direct])]);
    for byte in [0u8, 0x16, 0x17, 0x47, 0xff] {
        let (session, action) = started(&c).step(&c, Event::Read(vec![byte]));
        assert_eq!(action, Action::ReadMore, "byte {byte}");
        assert!(!session.is_over());
        let (session, action) = session.step(&c, Event::Deadline);
        assert_eq!(action, Action::Close);
        assert_eq!(session, Session::Failed(Stage::Sniffing, ProxyError::Timeout));
    }
}

#[test]
fn failed_read_while_sniffing_is_an_io_error() {
    let c = config(vec![(vec!["*"], vec![ProxyTransport::Direct])]);
    let (session, action) = started(&c).step(&c, Event::ReadFailed("reset by peer".into()));
    assert_eq!(action, Action::Close);
    assert_eq!(session, Session::Failed(Stage::Sniffing, ProxyError::IO("reset by peer".into())));
}

#[test]
fn localhost_is_refused_before_dialing() {
    let c = config(vec![(vec!["*"], vec![ProxyTransport::Direct])]);
    let (session, action) = started(&c).step(&c, Event::Read(hello_for("localhost")));
    assert_eq!(action, Action::Close);
    assert_eq!(session, Session::Failed(Stage::Dialing, ProxyError::InfiniteLoop));
}

#[test]
fn dial_failure_ends_the_connection_with_its_error() {
    let c = config(vec![(vec!["*"], vec![ProxyTransport::Direct])]);
    let (session, _) = started(&c).step(&c, Event::Read(hello_for("example.com")));
    let (session, action) =
        session.step(&c, Event::DialFailed(ProxyError::Socks("command rejected".into())));
    assert_eq!(action, Action::Close);
    assert_eq!(session, Session::Failed(Stage::Dialing, ProxyError::Socks("command rejected".into())));
}

#[test]
fn replay_and_relay_failures_are_io_errors() {
    let c = config(vec![(vec!["*"], vec![ProxyTransport::Direct])]);
    let (session, _) = started(&c).step(&c, Event::Read(hello_for("example.com")));
    let (session, _) = session.step(&c, Event::Dialed);
    let (failed, action) = session.step(&c, Event::ReplayFailed("short write".into()));
    assert_eq!(action, Action::Close);
    assert_eq!(failed, Session::Failed(Stage::Replaying, ProxyError::IO("short write".into())));

    let (session, _) = started(&c).step(&c, Event::Read(hello_for("example.com")));
    let (session, _) = session.step(&c, Event::Dialed);
    let (session, _) = session.step(&c, Event::Replayed);
    let (failed, action) = session.step(&c, Event::RelayEnded { error: Some("reset".into()) });
    assert_eq!(action, Action::Close);
    assert_eq!(failed, Session::Failed(Stage::Relaying, ProxyError::IO("reset".into())));
}

#[test]
fn events_out_of_turn_change_nothing() {
    let c = config(vec![(vec!["*"], vec![ProxyTransport::Direct])]);
    let (session, action) = Session::new().step(&c, Event::Read(hello_for("example.com")));
    assert_eq!((&session, &action), (&Session::Accepted, &Action::Nothing));
    let (session, _) = started(&c).step(&c, Event::Read(hello_for("example.com")));
    // The deadline is for sniffing alone.
    let (session, action) = session.step(&c, Event::Deadline);
    assert_eq!(action, Action::Nothing);
    assert!(matches!(session, Session::Dialing { .. }));
    let (session, action) = session.step(&c, Event::Replayed);
    assert_eq!(action, Action::Nothing);
    assert!(matches!(session, Session::Dialing { .. }));
}
