use triangle::error::{ProxyError, ProxyTransportError};
use triangle::proxy::{
    same_text, DialPlan, IpAddress, ProxyTransport, RelayHost, SocketAddress, TransportDescriptor,
    UrlHost, UrlParts,
};

#[test]
fn direct_is_read_as_direct() {
    assert_eq!(ProxyTransport::from_str("direct"), Ok(TransportDescriptor::Direct));
}

#[test]
fn socks5_url_with_address_and_port() {
    // A URL of a scheme that is not special keeps its host as written: the
    // four numbers are a name here, which the lookup turns into the address.
    assert_eq!(
        ProxyTransport::from_str("socks5://127.0.0.1:1080"),
        Ok(TransportDescriptor::Socks5 {
            host: RelayHost::Domain("127.0.0.1".to_string()),
            port: 1080
        })
    );
}

#[test]
fn socks_url_without_port_gets_1080() {
    assert_eq!(
        ProxyTransport::from_str("socks://10.1.2.3"),
        Ok(TransportDescriptor::Socks5 {
            host: RelayHost::Domain("10.1.2.3".to_string()),
            port: 1080
        })
    );
    assert_eq!(
        ProxyTransport::from_str("socks5h://relay.example:9050"),
        Ok(TransportDescriptor::Socks5 {
            host: RelayHost::Domain("relay.example".to_string()),
            port: 9050
        })
    );
}

#[test]
fn socks_url_with_ipv6_address() {
    assert_eq!(
        ProxyTransport::from_str("socks5://[::1]:1081"),
        Ok(TransportDescriptor::Socks5 { host: RelayHost::Ip(IpAddress::V6(1)), port: 1081 })
    );
}

#[test]
fn other_schemes_are_unsupported() {
    assert_eq!(
        ProxyTransport::from_str("http://example.com"),
        Err(ProxyTransportError::UnsupportedScheme("http".to_string()))
    );
    assert_eq!(
        ProxyTransport::from_str("SOCKS4://example.com"),
        Err(ProxyTransportError::UnsupportedScheme("socks4".to_string()))
    );
}

#[test]
fn text_that_is_no_url_is_refused() {
    assert!(matches!(ProxyTransport::from_str("not a url"), Err(ProxyTransportError::Url(_))));
    assert!(matches!(ProxyTransport::from_str(""), Err(ProxyTransportError::Url(_))));
    assert!(matches!(ProxyTransport::from_str("Direct"), Err(ProxyTransportError::Url(_))));
}

#[test]
fn socks_url_without_host_is_refused() {
    assert_eq!(
        ProxyTransport::from_str("socks5:relay"),
        Err(ProxyTransportError::IO("No host name in the URL".to_string()))
    );
}

#[test]
fn url_parts_select_the_transport() {
    let parts = UrlParts {
        scheme: "socks5".to_string(),
        host: UrlHost::Domain("relay.example".to_string()),
        port: None,
    };
    assert_eq!(
        ProxyTransport::try_from(parts),
        Ok(TransportDescriptor::Socks5 {
            host: RelayHost::Domain("relay.example".to_string()),
            port: 1080
        })
    );
    let parts = UrlParts { scheme: "socks5h".to_string(), host: UrlHost::Ipv4(5), port: Some(2) };
    assert_eq!(
        ProxyTransport::try_from(parts),
        Ok(TransportDescriptor::Socks5 { host: RelayHost::Ip(IpAddress::V4(5)), port: 2 })
    );
    let parts = UrlParts { scheme: "ftp".to_string(), host: UrlHost::Absent, port: Some(21) };
    assert_eq!(
        ProxyTransport::try_from(parts),
        Err(ProxyTransportError::UnsupportedScheme("ftp".to_string()))
    );
    let parts = UrlParts { scheme: "socks".to_string(), host: UrlHost::Absent, port: Some(1) };
    assert_eq!(
        ProxyTransport::try_from(parts),
        Err(ProxyTransportError::IO("No host name in the URL".to_string()))
    );
}

#[test]
fn descriptor_says_what_to_look_up() {
    let by_name =
        TransportDescriptor::Socks5 { host: RelayHost::Domain("relay.example".into()), port: 9 };
    assert_eq!(by_name.lookup(), Some(("relay.example", 9)));
    let by_addr =
        TransportDescriptor::Socks5 { host: RelayHost::Ip(IpAddress::V4(1)), port: 9 };
    assert_eq!(by_addr.lookup(), None);
    assert_eq!(TransportDescriptor::Direct.lookup(), None);
}

#[test]
fn transport_is_made_from_descriptor_and_addresses() {
    let a = IpAddress::V4(0x7f00_0001);
    let b = IpAddress::V6(1);
    assert_eq!(
        ProxyTransport::from_descriptor(TransportDescriptor::Direct, vec![a]),
        Ok(ProxyTransport::Direct)
    );
    assert_eq!(
        ProxyTransport::from_descriptor(
            TransportDescriptor::Socks5 { host: RelayHost::Ip(IpAddress::V4(7)), port: 99 },
            vec![a, b]
        ),
        Ok(ProxyTransport::Socks5(vec![SocketAddress { ip: IpAddress::V4(7), port: 99 }]))
    );
    assert_eq!(
        ProxyTransport::from_descriptor(
            TransportDescriptor::Socks5 { host: RelayHost::Domain("r.example".into()), port: 99 },
            vec![a, b]
        ),
        Ok(ProxyTransport::Socks5(vec![
            SocketAddress { ip: a, port: 99 },
            SocketAddress { ip: b, port: 99 }
        ]))
    );
    assert_eq!(
        ProxyTransport::from_descriptor(
            TransportDescriptor::Socks5 { host: RelayHost::Domain("r.example".into()), port: 99 },
            vec![]
        ),
        Err(ProxyTransportError::IO("No address for the relay's host name".to_string()))
    );
}

#[test]
fn every_relay_address_has_the_port_of_the_url() {
    let looked_up = vec![IpAddress::V4(0x0a00_0001), IpAddress::V4(0x0a00_0002)];
    let with_port = ProxyTransport::from_str("socks5://relay.example:9050").unwrap();
    assert_eq!(
        ProxyTransport::from_descriptor(with_port, looked_up.clone()),
        Ok(ProxyTransport::Socks5(vec![
            SocketAddress { ip: IpAddress::V4(0x0a00_0001), port: 9050 },
            SocketAddress { ip: IpAddress::V4(0x0a00_0002), port: 9050 }
        ]))
    );
    let without = ProxyTransport::from_str("socks5h://relay.example").unwrap();
    assert_eq!(
        ProxyTransport::from_descriptor(without, looked_up),
        Ok(ProxyTransport::Socks5(vec![
            SocketAddress { ip: IpAddress::V4(0x0a00_0001), port: 1080 },
            SocketAddress { ip: IpAddress::V4(0x0a00_0002), port: 1080 }
        ]))
    );
    let literal = ProxyTransport::from_str("socks5://[::1]:1081").unwrap();
    assert_eq!(
        ProxyTransport::from_descriptor(literal, vec![IpAddress::V4(9)]),
        Ok(ProxyTransport::Socks5(vec![SocketAddress { ip: IpAddress::V6(1), port: 1081 }]))
    );
}

#[test]
fn direct_dials_the_requested_host_on_443() {
    assert_eq!(
        ProxyTransport::Direct.connect("example.com"),
        Ok(DialPlan::Tcp { host: "example.com".to_string(), port: 443 })
    );
}

#[test]
fn socks5_asks_the_relay_for_the_requested_host() {
    let relay = SocketAddress { ip: IpAddress::V4(0x7f00_0001), port: 1080 };
    assert_eq!(
        ProxyTransport::Socks5(vec![relay]).connect("svc.internal"),
        Ok(DialPlan::Socks5 { relays: vec![relay], host: "svc.internal".to_string(), port: 443 })
    );
}

#[test]
fn localhost_is_never_dialed() {
    assert_eq!(ProxyTransport::Direct.connect("localhost"), Err(ProxyError::InfiniteLoop));
    assert_eq!(ProxyTransport::Socks5(vec![]).connect("localhost"), Err(ProxyError::InfiniteLoop));
    assert!(ProxyTransport::Direct.connect("localhost.example").is_ok());
    assert!(ProxyTransport::Direct.connect("Localhost").is_ok());
}

#[test]
fn same_text_compares_characters() {
    assert!(same_text("", ""));
    assert!(same_text("socks5", "socks5"));
    assert!(!same_text("socks5", "socks5h"));
    assert!(!same_text("socks5h", "socks5"));
    assert!(!same_text("caf\u{e9}", "cafe"));
    assert!(same_text("caf\u{e9}", "caf\u{e9}"));
}
