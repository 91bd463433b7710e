//! TCP endpoints and their binary multi-address form.
//!
//! A multi-address is a list of `(protocol code, payload)` pairs written back to
//! back. The TCP transport accepts exactly two shapes of it:
//! `ip4 <4 bytes> tcp <2 bytes>` and `ip6 <16 bytes> tcp <2 bytes>`,
//! with the port big-endian.
use vstd::prelude::*;

verus! {

/// Protocol code of IPv4 in a multi-address.
pub const CODE_IP4: u8 = 4;

/// Protocol code of TCP in a multi-address.
pub const CODE_TCP: u8 = 6;

/// Protocol code of IPv6 in a multi-address.
pub const CODE_IP6: u8 = 41;

/// An IP address: four octets, or eight 16-bit segments.
#[derive(Clone, Copy, Debug, PartialEq, Eq)]
pub enum IpAddress {
    V4(u8, u8, u8, u8),
    V6(u16, u16, u16, u16, u16, u16, u16, u16),
}

/// A TCP endpoint: an IP address and a port.
#[derive(Clone, Copy, Debug, PartialEq, Eq)]
pub struct SocketAddress {
    pub ip: IpAddress,
    pub port: u16,
}

impl SocketAddress {
    pub fn new(ip: IpAddress, port: u16) -> (r: SocketAddress)
        ensures
            r == (SocketAddress { ip, port }),
    {
        SocketAddress { ip, port }
    }
}

/// The two big-endian bytes of a 16-bit value.
pub open spec fn be16(v: u16) -> Seq<u8> {
    seq![(v / 256) as u8, (v % 256) as u8]
}

/// The value of two big-endian bytes.
pub open spec fn from_be16(hi: u8, lo: u8) -> u16 {
    (hi as int * 256 + lo as int) as u16
}

/// The multi-address of a TCP endpoint.
pub open spec fn encode_socket(sa: SocketAddress) -> Seq<u8> {
    match sa.ip {
        IpAddress::V4(a, b, c, d) => seq![CODE_IP4, a, b, c, d, CODE_TCP] + be16(sa.port),
        IpAddress::V6(s0, s1, s2, s3, s4, s5, s6, s7) => seq![CODE_IP6] + be16(s0) + be16(s1)
            + be16(s2) + be16(s3) + be16(s4) + be16(s5) + be16(s6) + be16(s7) + seq![CODE_TCP]
            + be16(sa.port),
    }
}

/// `/ip4/<a.b.c.d>/tcp/<port>`, and nothing after it.
pub open spec fn is_ip4_tcp(b: Seq<u8>) -> bool {
    b.len() == 8 && b[0] == CODE_IP4 && b[5] == CODE_TCP
}

/// `/ip6/<16 bytes>/tcp/<port>`, and nothing after it.
pub open spec fn is_ip6_tcp(b: Seq<u8>) -> bool {
    b.len() == 20 && b[0] == CODE_IP6 && b[17] == CODE_TCP
}

/// The addresses that the TCP transport accepts.
pub open spec fn is_tcp_address(b: Seq<u8>) -> bool {
    is_ip4_tcp(b) || is_ip6_tcp(b)
}

/// The 16-bit segment `k` of the IPv6 payload that starts at byte 1.
pub open spec fn ip6_segment(b: Seq<u8>, k: int) -> u16 {
    from_be16(b[1 + 2 * k], b[2 + 2 * k])
}

/// The endpoint that an accepted address names.
pub open spec fn decode_socket(b: Seq<u8>) -> SocketAddress {
    if is_ip4_tcp(b) {
        SocketAddress { ip: IpAddress::V4(b[1], b[2], b[3], b[4]), port: from_be16(b[6], b[7]) }
    } else {
        SocketAddress {
            ip: IpAddress::V6(
                ip6_segment(b, 0),
                ip6_segment(b, 1),
                ip6_segment(b, 2),
                ip6_segment(b, 3),
                ip6_segment(b, 4),
                ip6_segment(b, 5),
                ip6_segment(b, 6),
                ip6_segment(b, 7),
            ),
            port: from_be16(b[18], b[19]),
        }
    }
}

proof fn lemma_be16(v: u16)
    ensures
        from_be16((v / 256) as u8, (v % 256) as u8) == v,
{
}

proof fn lemma_from_be16(hi: u8, lo: u8)
    ensures
        be16(from_be16(hi, lo)) == seq![hi, lo],
{
    let v = from_be16(hi, lo);
    assert(v as int == hi as int * 256 + lo as int);
    assert(v / 256 == hi);
    assert(v % 256 == lo);
    assert(be16(v) =~= seq![hi, lo]);
}

/// Every endpoint's multi-address is accepted, and reads back as that endpoint.
pub proof fn lemma_socket_round_trip(sa: SocketAddress)
    ensures
        is_tcp_address(encode_socket(sa)),
        decode_socket(encode_socket(sa)) == sa,
{
    lemma_be16(sa.port);
    let b = encode_socket(sa);
    match sa.ip {
        IpAddress::V4(a0, a1, a2, a3) => {
            assert(b.len() == 8);
            assert(b[6] == (sa.port / 256) as u8);
            assert(b[7] == (sa.port % 256) as u8);
        },
        IpAddress::V6(s0, s1, s2, s3, s4, s5, s6, s7) => {
            lemma_be16(s0);
            lemma_be16(s1);
            lemma_be16(s2);
            lemma_be16(s3);
            lemma_be16(s4);
            lemma_be16(s5);
            lemma_be16(s6);
            lemma_be16(s7);
            assert(b.len() == 20);
            assert(b[17] == CODE_TCP);
            assert(ip6_segment(b, 0) == s0);
            assert(ip6_segment(b, 1) == s1);
            assert(ip6_segment(b, 2) == s2);
            assert(ip6_segment(b, 3) == s3);
            assert(ip6_segment(b, 4) == s4);
            assert(ip6_segment(b, 5) == s5);
            assert(ip6_segment(b, 6) == s6);
            assert(ip6_segment(b, 7) == s7);
            assert(from_be16(b[18], b[19]) == sa.port);
        },
    }
}

/// Every accepted address is the multi-address of the endpoint it names.
pub proof fn lemma_address_round_trip(b: Seq<u8>)
    requires
        is_tcp_address(b),
    ensures
        encode_socket(decode_socket(b)) == b,
{
    if is_ip4_tcp(b) {
        lemma_from_be16(b[6], b[7]);
        assert(encode_socket(decode_socket(b)) =~= b);
    } else {
        lemma_from_be16(b[18], b[19]);
        lemma_from_be16(b[1], b[2]);
        lemma_from_be16(b[3], b[4]);
        lemma_from_be16(b[5], b[6]);
        lemma_from_be16(b[7], b[8]);
        lemma_from_be16(b[9], b[10]);
        lemma_from_be16(b[11], b[12]);
        lemma_from_be16(b[13], b[14]);
        lemma_from_be16(b[15], b[16]);
        let e = encode_socket(decode_socket(b));
        assert(be16(ip6_segment(b, 0)) == seq![b[1], b[2]]);
        assert(be16(ip6_segment(b, 1)) == seq![b[3], b[4]]);
        assert(be16(ip6_segment(b, 2)) == seq![b[5], b[6]]);
        assert(be16(ip6_segment(b, 3)) == seq![b[7], b[8]]);
        assert(be16(ip6_segment(b, 4)) == seq![b[9], b[10]]);
        assert(be16(ip6_segment(b, 5)) == seq![b[11], b[12]]);
        assert(be16(ip6_segment(b, 6)) == seq![b[13], b[14]]);
        assert(be16(ip6_segment(b, 7)) == seq![b[15], b[16]]);
        assert(e =~= b);
    }
}

fn read_be16(hi: u8, lo: u8) -> (r: u16)
    ensures
        r == from_be16(hi, lo),
{
    (hi as u16) * 256 + (lo as u16)
}

/// Reads the TCP endpoint out of a multi-address. Only `/ip4/../tcp/..` and
/// `/ip6/../tcp/..` with nothing after them are accepted.
pub fn multiaddr_to_socketaddr(addr: &[u8]) -> (r: Result<SocketAddress, ()>)
    ensures
        r is Ok <==> is_tcp_address(addr@),
        r is Ok ==> r->Ok_0 == decode_socket(addr@),
{
    if addr.len() == 8 && addr[0] == CODE_IP4 && addr[5] == CODE_TCP {
        let ip = IpAddress::V4(addr[1], addr[2], addr[3], addr[4]);
        Ok(SocketAddress { ip, port: read_be16(addr[6], addr[7]) })
    } else if addr.len() == 20 && addr[0] == CODE_IP6 && addr[17] == CODE_TCP {
        let ip = IpAddress::V6(
            read_be16(addr[1], addr[2]),
            read_be16(addr[3], addr[4]),
            read_be16(addr[5], addr[6]),
            read_be16(addr[7], addr[8]),
            read_be16(addr[9], addr[10]),
            read_be16(addr[11], addr[12]),
            read_be16(addr[13], addr[14]),
            read_be16(addr[15], addr[16]),
        );
        Ok(SocketAddress { ip, port: read_be16(addr[18], addr[19]) })
    } else {
        Err(())
    }
}

fn push_be16(out: &mut Vec<u8>, v: u16)
    ensures
        final(out)@ == old(out)@ + be16(v),
{
    out.push((v / 256) as u8);
    out.push((v % 256) as u8);
    assert(final(out)@ =~= old(out)@ + be16(v));
}

/// Writes a TCP endpoint as a multi-address.
pub fn socketaddr_to_multiaddr(sa: &SocketAddress) -> (r: Vec<u8>)
    ensures
        r@ == encode_socket(*sa),
{
    let mut out: Vec<u8> = Vec::new();
    match sa.ip {
        IpAddress::V4(a, b, c, d) => {
            out.push(CODE_IP4);
            out.push(a);
            out.push(b);
            out.push(c);
            out.push(d);
            out.push(CODE_TCP);
            push_be16(&mut out, sa.port);
        },
        IpAddress::V6(s0, s1, s2, s3, s4, s5, s6, s7) => {
            out.push(CODE_IP6);
            push_be16(&mut out, s0);
            push_be16(&mut out, s1);
            push_be16(&mut out, s2);
            push_be16(&mut out, s3);
            push_be16(&mut out, s4);
            push_be16(&mut out, s5);
            push_be16(&mut out, s6);
            push_be16(&mut out, s7);
            out.push(CODE_TCP);
            push_be16(&mut out, sa.port);
        },
    }
    assert(out@ =~= encode_socket(*sa));
    out
}

/// Where to dial or listen for a multi-address. An address of another shape is
/// handed back unchanged, so that the caller can try another transport.
pub fn tcp_endpoint(addr: Vec<u8>) -> (r: Result<SocketAddress, Vec<u8>>)
    ensures
        r is Ok <==> is_tcp_address(addr@),
        r is Ok ==> r->Ok_0 == decode_socket(addr@),
        r is Err ==> r->Err_0@ == addr@,
{
    match multiaddr_to_socketaddr(addr.as_slice()) {
        Ok(sa) => Ok(sa),
        Err(()) => Err(addr),
    }
}

/// The address that a listener reports: the multi-address of the endpoint that
/// the socket was bound to, which holds the port the system chose where port 0
/// was asked for; or the requested address where the bound endpoint is unknown.
pub fn bound_multiaddr(requested: Vec<u8>, bound: Option<SocketAddress>) -> (r: Vec<u8>)
    ensures
        bound is Some ==> r@ == encode_socket(bound->Some_0),
        bound is None ==> r@ == requested@,
{
    match bound {
        Some(sa) => socketaddr_to_multiaddr(&sa),
        None => requested,
    }
}

} // verus!
