use source_reader::addr::Ipv4;
use source_reader::source::{parse_source, scheme, Scheme, Source, UriError};
use source_reader::udp::{doubled_recv_buffer_size, socket_plan, SocketStep};

fn any() -> Ipv4 {
    Ipv4::new(0, 0, 0, 0)
}

#[test]
fn multicast_descriptor_joins_group_and_binds_wildcard() {
    let src = parse_source(Some("udp://@227.1.3.10:4310")).unwrap();
    let group = Ipv4::new(227, 1, 3, 10);
    assert_eq!(src, Source::Multicast { group, port: 4310 });
    let plan = socket_plan(&src).unwrap();
    assert_eq!(
        plan,
        vec![
            SocketStep::CreateDatagram,
            SocketStep::DoubleRecvBuffer,
            SocketStep::ReusePort,
            SocketStep::JoinMulticast { group, interface: any() },
            SocketStep::Bind { addr: any(), port: 4310 },
        ]
    );
}

#[test]
fn multicast_descriptor_highest_port() {
    let src = parse_source(Some("udp://@239.255.255.250:65535")).unwrap();
    assert_eq!(src, Source::Multicast { group: Ipv4::new(239, 255, 255, 250), port: 65535 });
}

#[test]
fn unicast_descriptor_binds_host() {
    let src = parse_source(Some("udp://127.0.0.1:9090")).unwrap();
    let host = Ipv4::new(127, 0, 0, 1);
    assert_eq!(src, Source::Unicast { host, port: 9090 });
    let plan = socket_plan(&src).unwrap();
    assert_eq!(
        plan,
        vec![
            SocketStep::CreateDatagram,
            SocketStep::DoubleRecvBuffer,
            SocketStep::ReusePort,
            SocketStep::Bind { addr: host, port: 9090 },
        ]
    );
    assert!(!plan.iter().any(|s| matches!(s, SocketStep::JoinMulticast { .. })));
}

#[test]
fn unicast_port_with_leading_zeros() {
    let src = parse_source(Some("udp://10.0.0.2:0080")).unwrap();
    assert_eq!(src, Source::Unicast { host: Ipv4::new(10, 0, 0, 2), port: 80 });
}

#[test]
fn absent_descriptor_is_stdin() {
    assert_eq!(parse_source(None), Ok(Source::Stdin));
    assert_eq!(socket_plan(&Source::Stdin), None);
}

#[test]
fn other_text_is_a_file_path() {
    let src = parse_source(Some("./README.md")).unwrap();
    assert_eq!(src, Source::File { path: "./README.md".to_string() });
    assert_eq!(socket_plan(&src), None);
    assert_eq!(
        parse_source(Some("udp:/1.2.3.4:5")),
        Ok(Source::File { path: "udp:/1.2.3.4:5".to_string() })
    );
    assert_eq!(parse_source(Some("")), Ok(Source::File { path: String::new() }));
}

#[test]
fn http_and_https_descriptors() {
    assert_eq!(
        parse_source(Some("http://www.example.com/")),
        Ok(Source::Http { url: "http://www.example.com/".to_string() })
    );
    assert_eq!(
        parse_source(Some("https://www.example.com/a.ts")),
        Ok(Source::Http { url: "https://www.example.com/a.ts".to_string() })
    );
}

#[test]
fn schemes_in_order() {
    assert_eq!(scheme(b"udp://@1.2.3.4:5"), Scheme::Multicast);
    assert_eq!(scheme(b"udp://1.2.3.4:5"), Scheme::Unicast);
    assert_eq!(scheme(b"udp://"), Scheme::Unicast);
    assert_eq!(scheme(b"http://x"), Scheme::Http);
    assert_eq!(scheme(b"https://x"), Scheme::Http);
    assert_eq!(scheme(b"ftp://x"), Scheme::File);
    assert_eq!(scheme(b"udp"), Scheme::File);
}

#[test]
fn missing_port_is_refused() {
    assert_eq!(parse_source(Some("udp://127.0.0.1")), Err(UriError::MissingPort));
    assert_eq!(parse_source(Some("udp://@227.1.3.10")), Err(UriError::MissingPort));
    assert_eq!(parse_source(Some("udp://")), Err(UriError::MissingPort));
}

#[test]
fn bad_port_is_refused() {
    assert_eq!(parse_source(Some("udp://127.0.0.1:90a0")), Err(UriError::BadPort));
    assert_eq!(parse_source(Some("udp://127.0.0.1:")), Err(UriError::BadPort));
    assert_eq!(parse_source(Some("udp://127.0.0.1:-1")), Err(UriError::BadPort));
    assert_eq!(parse_source(Some("udp://127.0.0.1:65536")), Err(UriError::BadPort));
    assert_eq!(parse_source(Some("udp://@227.1.3.10:1:2")), Err(UriError::BadPort));
    assert_eq!(
        parse_source(Some("udp://1.2.3.4:99999999999999999999")),
        Err(UriError::BadPort)
    );
    // the port is read before the address
    assert_eq!(parse_source(Some("udp://host:port")), Err(UriError::BadPort));
}

#[test]
fn bad_address_is_refused() {
    assert_eq!(parse_source(Some("udp://256.0.0.1:5")), Err(UriError::BadAddress));
    assert_eq!(parse_source(Some("udp://01.2.3.4:5")), Err(UriError::BadAddress));
    assert_eq!(parse_source(Some("udp://1.2.3:5")), Err(UriError::BadAddress));
    assert_eq!(parse_source(Some("udp://1.2.3.4.5:5")), Err(UriError::BadAddress));
    assert_eq!(parse_source(Some("udp://1..3.4:5")), Err(UriError::BadAddress));
    assert_eq!(parse_source(Some("udp://localhost:5")), Err(UriError::BadAddress));
    assert_eq!(parse_source(Some("udp://@:4310")), Err(UriError::BadAddress));
    assert_eq!(parse_source(Some("udp://1234.2.3.4:5")), Err(UriError::BadAddress));
}

#[test]
fn address_edges() {
    assert_eq!(
        parse_source(Some("udp://0.0.0.0:0")),
        Ok(Source::Unicast { host: Ipv4::new(0, 0, 0, 0), port: 0 })
    );
    assert_eq!(
        parse_source(Some("udp://255.255.255.255:1")),
        Ok(Source::Unicast { host: Ipv4::new(255, 255, 255, 255), port: 1 })
    );
}

#[test]
fn ipv4_helpers() {
    let ip = Ipv4::new(227, 1, 3, 10);
    assert_eq!(ip.octets(), [227, 1, 3, 10]);
    assert!(ip.is_multicast());
    assert!(!Ipv4::new(127, 0, 0, 1).is_multicast());
    assert!(Ipv4::new(224, 0, 0, 0).is_multicast());
    assert!(!Ipv4::new(240, 0, 0, 0).is_multicast());
    assert_eq!(Ipv4::unspecified(), any());
}

#[test]
fn receive_buffer_is_doubled() {
    assert_eq!(doubled_recv_buffer_size(212992), Some(425984));
    assert_eq!(doubled_recv_buffer_size(0), Some(0));
    assert_eq!(doubled_recv_buffer_size(usize::MAX / 2), Some(usize::MAX - 1));
    assert_eq!(doubled_recv_buffer_size(usize::MAX / 2 + 1), None);
}
