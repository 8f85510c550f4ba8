use mycelium_api::{Endpoint, EndpointParseError, Ipv4, Protocol};

#[test]
fn parse_bare_socket_address_is_tcp() {
    let e = Endpoint::parse("203.0.113.5:9651").unwrap();
    assert_eq!(Protocol::Tcp, e.proto);
    assert_eq!(Ipv4(203, 0, 113, 5), e.octets);
    assert_eq!(9651, e.port);
}

#[test]
fn parse_with_protocol_prefix() {
    let tcp = Endpoint::parse("tcp://203.0.113.5:9651").unwrap();
    assert_eq!(Endpoint::parse("203.0.113.5:9651").unwrap(), tcp);
    let quic = Endpoint::parse("quic://10.0.0.1:0").unwrap();
    assert_eq!(Protocol::Quic, quic.proto);
    assert_eq!(Ipv4(10, 0, 0, 1), quic.octets);
    assert_eq!(0, quic.port);
}

#[test]
fn parse_extremes() {
    let e = Endpoint::parse("255.255.255.255:65535").unwrap();
    assert_eq!(Ipv4(255, 255, 255, 255), e.octets);
    assert_eq!(65535, e.port);
    let z = Endpoint::parse("0.0.0.0:0").unwrap();
    assert_eq!(Ipv4(0, 0, 0, 0), z.octets);
}

#[test]
fn parse_rejects_malformed() {
    for text in [
        "",
        "not an endpoint",
        "1.2.3.4",
        "1.2.3:4",
        "1.2.3.4.5:6",
        "256.0.0.1:1",
        "01.2.3.4:5",
        "1.2.3.4:65536",
        "1.2.3.4:01",
        "1.2.3.4:",
        "1.2.3.4:5 ",
        " 1.2.3.4:5",
        "udp://1.2.3.4:5",
        "TCP://1.2.3.4:5",
        "é.2.3.4:5",
    ] {
        assert_eq!(Err(EndpointParseError::InvalidAddress), Endpoint::parse(text), "{}", text);
    }
}

#[test]
fn parse_error_message_text() {
    assert_eq!("invalid socket address syntax", EndpointParseError::InvalidAddress.message());
}

#[test]
fn endpoint_text_is_canonical() {
    let e = Endpoint::parse("203.0.113.5:9651").unwrap();
    assert_eq!("tcp://203.0.113.5:9651", e.to_text());
    let q = Endpoint::parse("quic://1.20.255.0:80").unwrap();
    assert_eq!("quic://1.20.255.0:80", q.to_text());
    assert_eq!(Ok(q), Endpoint::parse(&q.to_text()));
}
