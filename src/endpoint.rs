//! Peer endpoints: a transport protocol and an IPv4 socket address, read from text.
use vstd::prelude::*;

use crate::decimal::{
    bytes_of, decimal, lemma_decimal_ascii, lemma_numeral_at_decimal, numeral_at, push_decimal,
    read_numeral, run_end,
};

verus! {

/// The transport used to reach a peer.
#[derive(Clone, Copy, Debug, PartialEq, Eq, Structural)]
pub enum Protocol {
    Tcp,
    Quic,
}

/// An IPv4 address, as its four octets.
#[derive(Clone, Copy, Debug, PartialEq, Eq, Structural)]
pub struct Ipv4(pub u8, pub u8, pub u8, pub u8);

/// The address of a peer: protocol, IPv4 address and port.
#[derive(Clone, Copy, Debug, PartialEq, Eq, Structural)]
pub struct Endpoint {
    pub proto: Protocol,
    pub octets: Ipv4,
    pub port: u16,
}

/// Why a text is not an endpoint.
#[derive(Clone, Copy, Debug, PartialEq, Eq, Structural)]
pub enum EndpointParseError {
    /// The text is not `[tcp://|quic://]a.b.c.d:port`.
    InvalidAddress,
}

/// The scheme prefix of a TCP endpoint.
pub open spec fn tcp_prefix() -> Seq<char> {
    seq!['t', 'c', 'p', ':', '/', '/']
}

/// The scheme prefix of a QUIC endpoint.
pub open spec fn quic_prefix() -> Seq<char> {
    seq!['q', 'u', 'i', 'c', ':', '/', '/']
}

/// Whether the numeral at `i` in `s` is followed by the separator `c`.
pub open spec fn separated_by(s: Seq<char>, i: int, c: char) -> bool {
    run_end(s, i) < s.len() && s[run_end(s, i)] == c
}

/// The IPv4 socket address `a.b.c.d:port` that `s` holds from `i` to its end, if any.
pub open spec fn socket_at(s: Seq<char>, i: int) -> Option<(Ipv4, u16)> {
    let i1 = run_end(s, i) + 1;
    let i2 = run_end(s, i1) + 1;
    let i3 = run_end(s, i2) + 1;
    let i4 = run_end(s, i3) + 1;
    if numeral_at(s, i, 255) is Some && separated_by(s, i, '.') && numeral_at(s, i1, 255) is Some
        && separated_by(s, i1, '.') && numeral_at(s, i2, 255) is Some && separated_by(s, i2, '.')
        && numeral_at(s, i3, 255) is Some && separated_by(s, i3, ':') && numeral_at(
        s,
        i4,
        65535,
    ) is Some && run_end(s, i4) == s.len() {
        Some(
            (
                Ipv4(
                    numeral_at(s, i, 255)->Some_0 as u8,
                    numeral_at(s, i1, 255)->Some_0 as u8,
                    numeral_at(s, i2, 255)->Some_0 as u8,
                    numeral_at(s, i3, 255)->Some_0 as u8,
                ),
                numeral_at(s, i4, 65535)->Some_0 as u16,
            ),
        )
    } else {
        None
    }
}

/// The protocol that the prefix of `s` names, and where the address after it starts.
pub open spec fn scheme_of(s: Seq<char>) -> (Protocol, int) {
    if s.len() >= 6 && s.subrange(0, 6) == tcp_prefix() {
        (Protocol::Tcp, 6)
    } else if s.len() >= 7 && s.subrange(0, 7) == quic_prefix() {
        (Protocol::Quic, 7)
    } else {
        (Protocol::Tcp, 0)
    }
}

/// The endpoint that a text names: ASCII, an optional `tcp://` or `quic://` prefix (TCP
/// when there is none), then a socket address in canonical decimal.
pub open spec fn endpoint_of(s: Seq<char>) -> Result<Endpoint, EndpointParseError> {
    let (proto, start) = scheme_of(s);
    if !vstd::utf8::is_ascii_chars(s) {
        Err(EndpointParseError::InvalidAddress)
    } else {
        match socket_at(s, start) {
            Some((octets, port)) => Ok(Endpoint { proto, octets, port }),
            None => Err(EndpointParseError::InvalidAddress),
        }
    }
}

/// The canonical text of an endpoint, with its protocol prefix.
pub open spec fn endpoint_text(e: Endpoint) -> Seq<char> {
    let prefix = match e.proto {
        Protocol::Tcp => tcp_prefix(),
        Protocol::Quic => quic_prefix(),
    };
    prefix + decimal(e.octets.0 as nat) + seq!['.'] + decimal(e.octets.1 as nat) + seq!['.']
        + decimal(e.octets.2 as nat) + seq!['.'] + decimal(e.octets.3 as nat) + seq![':']
        + decimal(e.port as nat)
}

/// Reading the canonical text of an endpoint gives that endpoint back: the text that the
/// peer listing shows for a peer names the same peer when it is sent back.
pub proof fn lemma_endpoint_text_round_trip(e: Endpoint)
    ensures
        endpoint_of(endpoint_text(e)) == Ok::<Endpoint, EndpointParseError>(e),
{
    let prefix = match e.proto {
        Protocol::Tcp => tcp_prefix(),
        Protocol::Quic => quic_prefix(),
    };
    let da = decimal(e.octets.0 as nat);
    let db = decimal(e.octets.1 as nat);
    let dc = decimal(e.octets.2 as nat);
    let dd = decimal(e.octets.3 as nat);
    let dp = decimal(e.port as nat);
    let s = endpoint_text(e);
    let i0 = prefix.len() as int;
    let i1 = i0 + da.len() + 1;
    let i2 = i1 + db.len() + 1;
    let i3 = i2 + dc.len() + 1;
    let i4 = i3 + dd.len() + 1;
    assert(s.len() == i4 + dp.len());
    assert(s.subrange(i0, i0 + da.len()) =~= da);
    assert(s[i1 - 1] == '.');
    assert(s.subrange(i1, i1 + db.len()) =~= db);
    assert(s[i2 - 1] == '.');
    assert(s.subrange(i2, i2 + dc.len()) =~= dc);
    assert(s[i3 - 1] == '.');
    assert(s.subrange(i3, i3 + dd.len()) =~= dd);
    assert(s[i4 - 1] == ':');
    assert(s.subrange(i4, i4 + dp.len()) =~= dp);
    lemma_numeral_at_decimal(s, i0, e.octets.0 as nat, 255);
    lemma_numeral_at_decimal(s, i1, e.octets.1 as nat, 255);
    lemma_numeral_at_decimal(s, i2, e.octets.2 as nat, 255);
    lemma_numeral_at_decimal(s, i3, e.octets.3 as nat, 255);
    lemma_numeral_at_decimal(s, i4, e.port as nat, 65535);
    assert(socket_at(s, i0) == Some((e.octets, e.port)));
    match e.proto {
        Protocol::Tcp => {
            assert(s.subrange(0, 6) =~= tcp_prefix());
        },
        Protocol::Quic => {
            assert(s.subrange(0, 6)[0] == 'q');
            assert(s.subrange(0, 7) =~= quic_prefix());
        },
    }
    assert(scheme_of(s) == (e.proto, i0));
    lemma_decimal_ascii(e.octets.0 as nat);
    lemma_decimal_ascii(e.octets.1 as nat);
    lemma_decimal_ascii(e.octets.2 as nat);
    lemma_decimal_ascii(e.octets.3 as nat);
    lemma_decimal_ascii(e.port as nat);
    assert(vstd::utf8::is_ascii_chars(s)) by {
        broadcast use vstd::utf8::is_ascii_chars_concat;

        assert(vstd::utf8::is_ascii_chars(prefix));
        assert(vstd::utf8::is_ascii_chars(seq!['.']));
        assert(vstd::utf8::is_ascii_chars(seq![':']));
        assert(vstd::utf8::is_ascii_chars(prefix + da));
        assert(vstd::utf8::is_ascii_chars(prefix + da + seq!['.']));
        assert(vstd::utf8::is_ascii_chars(prefix + da + seq!['.'] + db));
        assert(vstd::utf8::is_ascii_chars(prefix + da + seq!['.'] + db + seq!['.']));
        assert(vstd::utf8::is_ascii_chars(prefix + da + seq!['.'] + db + seq!['.'] + dc));
        assert(vstd::utf8::is_ascii_chars(
            prefix + da + seq!['.'] + db + seq!['.'] + dc + seq!['.'],
        ));
        assert(vstd::utf8::is_ascii_chars(
            prefix + da + seq!['.'] + db + seq!['.'] + dc + seq!['.'] + dd,
        ));
        assert(vstd::utf8::is_ascii_chars(
            prefix + da + seq!['.'] + db + seq!['.'] + dc + seq!['.'] + dd + seq![':'],
        ));
    }
}

/// Reads the numeral at `i` and the separator `sep` after it.
fn read_field(b: &[u8], i: usize, max: u32, sep: u8, Ghost(s): Ghost<Seq<char>>) -> (r: Option<
    (u32, usize),
>)
    requires
        bytes_of(b@, s),
        i <= s.len(),
        max <= 65535,
        sep < 128,
    ensures
        r is Some <==> numeral_at(s, i as int, max as nat) is Some && separated_by(
            s,
            i as int,
            sep as char,
        ),
        r is Some ==> r->Some_0.0 == numeral_at(s, i as int, max as nat)->Some_0
            && r->Some_0.1 == run_end(s, i as int) + 1,
        r is Some ==> r->Some_0.1 <= s.len(),
{
    let (end, value) = read_numeral(b, i, max, Ghost(s));
    match value {
        Some(v) => {
            if end < b.len() && b[end] == sep {
                Some((v, end + 1))
            } else {
                proof {
                    if end < s.len() && s[end as int] == sep as char {
                        assert(b@[end as int] == s[end as int] as u8);
                    }
                }
                None
            }
        },
        None => None,
    }
}

/// Reads the socket address that `b` holds from `start` to its end.
fn parse_socket(b: &[u8], start: usize, Ghost(s): Ghost<Seq<char>>) -> (r: Option<(Ipv4, u16)>)
    requires
        bytes_of(b@, s),
        start <= s.len(),
    ensures
        r == socket_at(s, start as int),
{
    assert(46u8 as char == '.' && 58u8 as char == ':');
    let (a, i1) = match read_field(b, start, 255, 46, Ghost(s)) {
        Some(f) => f,
        None => return None,
    };
    let (bb, i2) = match read_field(b, i1, 255, 46, Ghost(s)) {
        Some(f) => f,
        None => return None,
    };
    let (c, i3) = match read_field(b, i2, 255, 46, Ghost(s)) {
        Some(f) => f,
        None => return None,
    };
    let (d, i4) = match read_field(b, i3, 255, 58, Ghost(s)) {
        Some(f) => f,
        None => return None,
    };
    let (end, port) = read_numeral(b, i4, 65535, Ghost(s));
    if end != b.len() {
        return None;
    }
    match port {
        Some(p) => Some((Ipv4(a as u8, bb as u8, c as u8, d as u8), p as u16)),
        None => None,
    }
}

impl EndpointParseError {
    /// A description of the error.
    pub fn message(&self) -> (r: String)
        ensures
            r@ == parse_error_message(),
    {
        String::from_str("invalid socket address syntax")
    }
}

/// The description of an endpoint parse error.
pub open spec fn parse_error_message() -> Seq<char> {
    "invalid socket address syntax"@
}

impl Endpoint {
    /// Parses an endpoint from its text.
    pub fn parse(text: &str) -> (r: Result<Endpoint, EndpointParseError>)
        ensures
            r == endpoint_of(text@),
    {
        let ghost s = text@;
        if !text.is_ascii() {
            return Err(EndpointParseError::InvalidAddress);
        }
        let b = text.as_bytes();
        proof {
            broadcast use vstd::string::is_ascii_spec_bytes;

            assert(bytes_of(b@, s));
        }
        let n = b.len();
        let (proto, start) = if n >= 6 && b[0] == 116 && b[1] == 99 && b[2] == 112 && b[3] == 58
            && b[4] == 47 && b[5] == 47 {
            assert(s.subrange(0, 6) =~= tcp_prefix());
            (Protocol::Tcp, 6usize)
        } else if n >= 7 && b[0] == 113 && b[1] == 117 && b[2] == 105 && b[3] == 99 && b[4] == 58
            && b[5] == 47 && b[6] == 47 {
            proof {
                if s.len() >= 6 && s.subrange(0, 6) == tcp_prefix() {
                    assert(s[0] == s.subrange(0, 6)[0]);
                }
            }
            assert(s.subrange(0, 7) =~= quic_prefix());
            (Protocol::Quic, 7usize)
        } else {
            proof {
                if s.len() >= 6 && s.subrange(0, 6) == tcp_prefix() {
                    assert forall|k: int| 0 <= k < 6 implies b@[k] == tcp_prefix()[k] as u8 by {
                        assert(s.subrange(0, 6)[k] == s[k]);
                    }
                }
                if s.len() >= 7 && s.subrange(0, 7) == quic_prefix() {
                    assert forall|k: int| 0 <= k < 7 implies b@[k] == quic_prefix()[k] as u8 by {
                        assert(s.subrange(0, 7)[k] == s[k]);
                    }
                }
            }
            (Protocol::Tcp, 0usize)
        };
        assert(scheme_of(s) == (proto, start as int));
        match parse_socket(b, start, Ghost(s)) {
            Some((octets, port)) => Ok(Endpoint { proto, octets, port }),
            None => Err(EndpointParseError::InvalidAddress),
        }
    }

    /// The endpoint's canonical text.
    pub fn to_text(&self) -> (r: String)
        ensures
            r@ == endpoint_text(*self),
    {
        proof {
            reveal_strlit("tcp://");
            reveal_strlit("quic://");
            reveal_strlit(".");
            reveal_strlit(":");
        }
        let mut out = match self.proto {
            Protocol::Tcp => String::from_str("tcp://"),
            Protocol::Quic => String::from_str("quic://"),
        };
        push_decimal(&mut out, self.octets.0 as u16);
        out.append(".");
        push_decimal(&mut out, self.octets.1 as u16);
        out.append(".");
        push_decimal(&mut out, self.octets.2 as u16);
        out.append(".");
        push_decimal(&mut out, self.octets.3 as u16);
        out.append(":");
        push_decimal(&mut out, self.port);
        assert(out@ =~= endpoint_text(*self));
        out
    }
}

} // verus!
