use swarm_core::address::{
    bound_multiaddr, multiaddr_to_socketaddr, socketaddr_to_multiaddr, tcp_endpoint, IpAddress,
    SocketAddress,
};

// `/ip4/127.0.0.1/tcp/12345` and friends, in multiaddr's binary form.
fn ip4_tcp(a: [u8; 4], port: u16) -> Vec<u8> {
    let mut v = vec![4, a[0], a[1], a[2], a[3], 6];
    v.extend_from_slice(&port.to_be_bytes());
    v
}

fn ip6_tcp(segments: [u16; 8], port: u16) -> Vec<u8> {
    let mut v = vec![41];
    for s in segments.iter() {
        v.extend_from_slice(&s.to_be_bytes());
    }
    v.push(6);
    v.extend_from_slice(&port.to_be_bytes());
    v
}

#[test]
fn multiaddr_to_tcp_conversion() {
    // /ip4/127.0.0.1/udp/1234
    let udp = vec![4, 127, 0, 0, 1, 17, 0x04, 0xd2];
    assert!(multiaddr_to_socketaddr(&udp).is_err());

    assert_eq!(
        multiaddr_to_socketaddr(&ip4_tcp([127, 0, 0, 1], 12345)),
        Ok(SocketAddress::new(IpAddress::V4(127, 0, 0, 1), 12345))
    );
    assert_eq!(
        multiaddr_to_socketaddr(&ip4_tcp([255, 255, 255, 255], 8080)),
        Ok(SocketAddress::new(IpAddress::V4(255, 255, 255, 255), 8080))
    );
    assert_eq!(
        multiaddr_to_socketaddr(&ip6_tcp([0, 0, 0, 0, 0, 0, 0, 1], 12345)),
        Ok(SocketAddress::new(IpAddress::V6(0, 0, 0, 0, 0, 0, 0, 1), 12345))
    );
    assert_eq!(
        multiaddr_to_socketaddr(&ip6_tcp([65535; 8], 8080)),
        Ok(SocketAddress::new(
            IpAddress::V6(65535, 65535, 65535, 65535, 65535, 65535, 65535, 65535),
            8080
        ))
    );
}

#[test]
fn ip4_loopback_bytes_are_exact() {
    assert_eq!(
        ip4_tcp([127, 0, 0, 1], 12345),
        vec![0x04, 0x7f, 0x00, 0x00, 0x01, 0x06, 0x30, 0x39]
    );
    let sa = SocketAddress::new(IpAddress::V4(127, 0, 0, 1), 12345);
    assert_eq!(
        socketaddr_to_multiaddr(&sa),
        vec![0x04, 0x7f, 0x00, 0x00, 0x01, 0x06, 0x30, 0x39]
    );
}

#[test]
fn endpoint_round_trips_through_bytes() {
    let cases = [
        SocketAddress::new(IpAddress::V4(10, 1, 2, 3), 0),
        SocketAddress::new(IpAddress::V4(255, 255, 255, 255), 65535),
        SocketAddress::new(IpAddress::V6(0xfe80, 0, 0, 0, 0x1234, 0x5678, 0x9abc, 0xdef0), 443),
    ];
    for sa in cases.iter() {
        let bytes = socketaddr_to_multiaddr(sa);
        assert_eq!(multiaddr_to_socketaddr(&bytes), Ok(*sa));
    }
    let ip6 = ip6_tcp([0x2001, 0xdb8, 0, 0, 0, 0, 0, 0x42], 8080);
    let sa = multiaddr_to_socketaddr(&ip6).unwrap();
    assert_eq!(socketaddr_to_multiaddr(&sa), ip6);
}

#[test]
fn unsupported_address_is_handed_back_unchanged() {
    let udp = vec![4, 127, 0, 0, 1, 17, 0x04, 0xd2];
    assert_eq!(tcp_endpoint(udp.clone()), Err(udp));
    // a trailing protocol after the port is another shape
    let mut longer = ip4_tcp([127, 0, 0, 1], 1);
    longer.push(0);
    assert_eq!(tcp_endpoint(longer.clone()), Err(longer));
    assert_eq!(tcp_endpoint(Vec::new()), Err(Vec::new()));
    assert_eq!(
        tcp_endpoint(ip4_tcp([1, 2, 3, 4], 5)),
        Ok(SocketAddress::new(IpAddress::V4(1, 2, 3, 4), 5))
    );
}

#[test]
fn replace_port_0_in_returned_multiaddr() {
    let requested = ip4_tcp([127, 0, 0, 1], 0);
    assert_eq!(&requested[6..], &[0, 0]);
    let bound = SocketAddress::new(IpAddress::V4(127, 0, 0, 1), 40123);
    let reported = bound_multiaddr(requested.clone(), Some(bound));
    assert_eq!(reported, ip4_tcp([127, 0, 0, 1], 40123));
    assert_ne!(&reported[6..], &[0, 0]);
    // where the bound endpoint is unknown, the request is reported
    assert_eq!(bound_multiaddr(requested.clone(), None), requested);
}
