//! Socket endpoints as the library models them: an IP (four or sixteen raw
//! bytes) and a port, plus a two-letter country tag, the deterministic
//! textual form of an IP used by hostname matching, and the wire codec of an
//! endpoint.

use crate::codec::{
    dec_bytes, dec_u16, dec_u8, enc_u16, enc_u8, lemma_dec_u16, push_bytes, push_u16, push_u8,
    read_bytes, read_u16, read_u8,
};
use vstd::prelude::*;

verus! {

/// An IP address held as raw bytes: four for version 4, sixteen for
/// version 6.
#[derive(Debug, PartialEq, Eq, Clone)]
pub enum IpAddrBytes {
    V4(Vec<u8>),
    V6(Vec<u8>),
}

pub ghost enum IpAddrView {
    V4(Seq<u8>),
    V6(Seq<u8>),
}

impl View for IpAddrBytes {
    type V = IpAddrView;

    open spec fn view(&self) -> IpAddrView {
        match self {
            IpAddrBytes::V4(b) => IpAddrView::V4(b@),
            IpAddrBytes::V6(b) => IpAddrView::V6(b@),
        }
    }
}

impl IpAddrView {
    pub open spec fn wf(self) -> bool {
        match self {
            IpAddrView::V4(b) => b.len() == 4,
            IpAddrView::V6(b) => b.len() == 16,
        }
    }
}

impl IpAddrBytes {
    pub fn clone_ip(&self) -> (r: IpAddrBytes)
        ensures
            r@ == self@,
    {
        match self {
            IpAddrBytes::V4(b) => IpAddrBytes::V4(clone_byte_vec(b)),
            IpAddrBytes::V6(b) => IpAddrBytes::V6(clone_byte_vec(b)),
        }
    }
}

/// A socket endpoint: IP plus port.
#[derive(Debug, PartialEq, Eq, Clone)]
pub struct Endpoint {
    pub ip: IpAddrBytes,
    pub port: u16,
}

pub ghost struct EndpointView {
    pub ip: IpAddrView,
    pub port: u16,
}

impl View for Endpoint {
    type V = EndpointView;

    open spec fn view(&self) -> EndpointView {
        EndpointView { ip: self.ip@, port: self.port }
    }
}

impl EndpointView {
    pub open spec fn wf(self) -> bool {
        self.ip.wf()
    }
}

impl Endpoint {
    pub fn clone_endpoint(&self) -> (r: Endpoint)
        ensures
            r@ == self@,
    {
        Endpoint { ip: self.ip.clone_ip(), port: self.port }
    }

    /// The same endpoint with its IP replaced and the port preserved, as the
    /// registration loop rewrites a configured bind address to the
    /// discovered public one.
    pub fn with_ip(&self, ip: IpAddrBytes) -> (r: Endpoint)
        ensures
            r@.ip == ip@,
            r@.port == self@.port,
    {
        Endpoint { ip, port: self.port }
    }
}

/// A two-letter country tag, upper-case ASCII by convention.
#[derive(PartialEq, Eq, Structural, Clone, Copy, Debug)]
pub struct Country {
    pub a: u8,
    pub b: u8,
}

pub fn clone_byte_vec(v: &Vec<u8>) -> (r: Vec<u8>)
    ensures
        r@ == v@,
{
    let mut out: Vec<u8> = Vec::new();
    push_bytes(&mut out, v.as_slice());
    out
}

/// True when two byte vectors hold the same bytes.
pub fn byte_vecs_equal(a: &[u8], b: &[u8]) -> (r: bool)
    ensures
        r == (a@ == b@),
{
    if a.len() != b.len() {
        assert(a@ != b@) by {
            assert(a@.len() != b@.len());
        }
        return false;
    }
    let mut k: usize = 0;
    while k < a.len()
        invariant
            k <= a.len(),
            a.len() == b.len(),
            forall|j: int| 0 <= j < k ==> a@[j] == b@[j],
        decreases a.len() - k,
    {
        if a[k] != b[k] {
            return false;
        }
        k += 1;
    }
    assert(a@ =~= b@);
    true
}

// ---------------------------------------------------------------------------
// Endpoint codec
// ---------------------------------------------------------------------------
pub open spec fn enc_ip(ip: IpAddrView) -> Seq<u8> {
    match ip {
        IpAddrView::V4(b) => enc_u8(4) + b,
        IpAddrView::V6(b) => enc_u8(6) + b,
    }
}

pub open spec fn dec_ip(s: Seq<u8>, i: int) -> Option<(IpAddrView, int)> {
    match dec_u8(s, i) {
        Some((tag, j)) => if tag == 4 {
            match dec_bytes(s, j, 4) {
                Some((b, k)) => Some((IpAddrView::V4(b), k)),
                None => None,
            }
        } else if tag == 6 {
            match dec_bytes(s, j, 16) {
                Some((b, k)) => Some((IpAddrView::V6(b), k)),
                None => None,
            }
        } else {
            None
        },
        None => None,
    }
}

pub open spec fn enc_endpoint(e: EndpointView) -> Seq<u8> {
    enc_ip(e.ip) + enc_u16(e.port)
}

pub open spec fn dec_endpoint(s: Seq<u8>, i: int) -> Option<(EndpointView, int)> {
    match dec_ip(s, i) {
        Some((ip, j)) => match dec_u16(s, j) {
            Some((port, k)) => Some((EndpointView { ip, port }, k)),
            None => None,
        },
        None => None,
    }
}

pub proof fn lemma_dec_ip(ip: IpAddrView, s: Seq<u8>, i: int)
    requires
        ip.wf(),
        0 <= i,
        i + enc_ip(ip).len() <= s.len(),
        s.subrange(i, i + enc_ip(ip).len()) == enc_ip(ip),
    ensures
        dec_ip(s, i) == Some((ip, i + enc_ip(ip).len())),
{
    let e = enc_ip(ip);
    let n = e.len();
    assert forall|k: int| 0 <= k < n implies s[i + k] == e[k] by {
        assert(s.subrange(i, i + n)[k] == e[k]);
    }
    match ip {
        IpAddrView::V4(b) => {
            assert(s[i + 0] == e[0]);
            assert(e[0] == 4);
            assert forall|k: int| 0 <= k < 4 implies s.subrange(i + 1, i + 5)[k] == b[k] by {
                assert(s[i + (k + 1)] == e[k + 1]);
                assert(e[k + 1] == b[k]);
            }
            assert(s.subrange(i + 1, i + 5) =~= b);
        },
        IpAddrView::V6(b) => {
            assert(s[i + 0] == e[0]);
            assert(e[0] == 6);
            assert forall|k: int| 0 <= k < 16 implies s.subrange(i + 1, i + 17)[k] == b[k] by {
                assert(s[i + (k + 1)] == e[k + 1]);
                assert(e[k + 1] == b[k]);
            }
            assert(s.subrange(i + 1, i + 17) =~= b);
        },
    }
}

pub proof fn lemma_dec_endpoint(e: EndpointView, s: Seq<u8>, i: int)
    requires
        e.wf(),
        0 <= i,
        i + enc_endpoint(e).len() <= s.len(),
        s.subrange(i, i + enc_endpoint(e).len()) == enc_endpoint(e),
    ensures
        dec_endpoint(s, i) == Some((e, i + enc_endpoint(e).len())),
{
    let ei = enc_ip(e.ip);
    let ep = enc_u16(e.port);
    let n = ei.len() + ep.len();
    assert(ep.len() == 2) by {
        vstd::bytes::lemma_auto_spec_u16_to_from_le_bytes();
    }
    assert(s.subrange(i, i + ei.len()) =~= ei) by {
        assert forall|k: int| 0 <= k < ei.len() implies s.subrange(i, i + ei.len())[k]
            == ei[k] by {
            assert(s.subrange(i, i + n)[k] == (ei + ep)[k]);
        }
    }
    lemma_dec_ip(e.ip, s, i);
    assert(s.subrange(i + ei.len(), i + n) =~= ep) by {
        assert forall|k: int| 0 <= k < ep.len() implies s.subrange(i + ei.len(), i + n)[k]
            == ep[k] by {
            assert(s.subrange(i, i + n)[ei.len() + k] == (ei + ep)[ei.len() + k]);
        }
    }
    lemma_dec_u16(e.port, s, i + ei.len());
}

impl Endpoint {
    pub fn encode_onto(&self, out: &mut Vec<u8>)
        requires
            self@.wf(),
        ensures
            final(out)@ == old(out)@ + enc_endpoint(self@),
    {
        match &self.ip {
            IpAddrBytes::V4(b) => {
                push_u8(out, 4);
                push_bytes(out, b.as_slice());
            },
            IpAddrBytes::V6(b) => {
                push_u8(out, 6);
                push_bytes(out, b.as_slice());
            },
        }
        push_u16(out, self.port);
        assert(final(out)@ =~= old(out)@ + enc_endpoint(self@));
    }

    pub fn decode_from(s: &[u8], pos: usize) -> (r: Option<(Endpoint, usize)>)
        ensures
            match r {
                Some((e, j)) => dec_endpoint(s@, pos as int) == Some((e@, j as int)) && e@.wf(),
                None => dec_endpoint(s@, pos as int) is None,
            },
    {
        let (tag, j) = match read_u8(s, pos) {
            Some(x) => x,
            None => {
                return None;
            },
        };
        let (ip, j2) = if tag == 4 {
            match read_bytes(s, j, 4) {
                Some((b, k)) => (IpAddrBytes::V4(b), k),
                None => {
                    return None;
                },
            }
        } else if tag == 6 {
            match read_bytes(s, j, 16) {
                Some((b, k)) => (IpAddrBytes::V6(b), k),
                None => {
                    return None;
                },
            }
        } else {
            return None;
        };
        let (port, j3) = match read_u16(s, j2) {
            Some(x) => x,
            None => {
                return None;
            },
        };
        Some((Endpoint { ip, port }, j3))
    }
}

// ---------------------------------------------------------------------------
// Textual form of an IP, used when a hostname constraint is matched against
// the bridge-facing listen address. Version 4 is dotted decimal; version 6
// is eight fixed-width lower-case hex groups joined by colons.
// ---------------------------------------------------------------------------
pub open spec fn digit_byte(d: u8) -> u8
    recommends
        d < 10,
{
    (d + 48) as u8
}

pub open spec fn hex_digit_byte(d: u8) -> u8
    recommends
        d < 16,
{
    if d < 10 {
        (d + 48) as u8
    } else {
        (d + 87) as u8
    }
}

/// Decimal text of one byte, without leading zeros.
pub open spec fn u8_text(x: u8) -> Seq<u8> {
    if x < 10 {
        seq![digit_byte(x)]
    } else if x < 100 {
        seq![digit_byte(x / 10), digit_byte(x % 10)]
    } else {
        seq![digit_byte(x / 100), digit_byte((x / 10) % 10), digit_byte(x % 10)]
    }
}

/// Fixed-width hex text of one byte, two lower-case digits.
pub open spec fn u8_hex_text(x: u8) -> Seq<u8> {
    seq![hex_digit_byte(x / 16), hex_digit_byte(x % 16)]
}

pub open spec fn ip_text_spec(ip: IpAddrView) -> Seq<u8>
    recommends
        ip.wf(),
{
    match ip {
        IpAddrView::V4(b) => u8_text(b[0]) + seq![46u8] + u8_text(b[1]) + seq![46u8] + u8_text(
            b[2],
        ) + seq![46u8] + u8_text(b[3]),
        IpAddrView::V6(b) => v6_groups_text(b, 0),
    }
}

/// Hex text of the 16-bit groups of a version-6 address from group `g` on,
/// coloned together.
pub open spec fn v6_groups_text(b: Seq<u8>, g: int) -> Seq<u8>
    recommends
        b.len() == 16,
        0 <= g <= 8,
    decreases 8 - g,
{
    if g >= 8 {
        Seq::empty()
    } else {
        let grp = u8_hex_text(b[2 * g]) + u8_hex_text(b[2 * g + 1]);
        if g == 7 {
            grp
        } else {
            grp + seq![58u8] + v6_groups_text(b, g + 1)
        }
    }
}

fn push_u8_text(out: &mut Vec<u8>, x: u8)
    ensures
        final(out)@ == old(out)@ + u8_text(x),
{
    if x < 10 {
        out.push(x + 48);
        assert(final(out)@ =~= old(out)@ + u8_text(x));
    } else if x < 100 {
        out.push(x / 10 + 48);
        out.push(x % 10 + 48);
        assert(final(out)@ =~= old(out)@ + u8_text(x));
    } else {
        out.push(x / 100 + 48);
        out.push((x / 10) % 10 + 48);
        out.push(x % 10 + 48);
        assert(final(out)@ =~= old(out)@ + u8_text(x));
    }
}

fn push_u8_hex(out: &mut Vec<u8>, x: u8)
    ensures
        final(out)@ == old(out)@ + u8_hex_text(x),
{
    let hi = x / 16;
    let lo = x % 16;
    out.push(if hi < 10 {
        hi + 48
    } else {
        hi + 87
    });
    out.push(if lo < 10 {
        lo + 48
    } else {
        lo + 87
    });
    assert(final(out)@ =~= old(out)@ + u8_hex_text(x));
}

/// The deterministic textual form of an IP.
pub fn ip_text(ip: &IpAddrBytes) -> (r: Vec<u8>)
    requires
        ip@.wf(),
    ensures
        r@ == ip_text_spec(ip@),
{
    let mut out: Vec<u8> = Vec::new();
    match ip {
        IpAddrBytes::V4(b) => {
            push_u8_text(&mut out, b[0]);
            out.push(46);
            push_u8_text(&mut out, b[1]);
            out.push(46);
            push_u8_text(&mut out, b[2]);
            out.push(46);
            push_u8_text(&mut out, b[3]);
            assert(out@ =~= ip_text_spec(ip@));
        },
        IpAddrBytes::V6(b) => {
            let mut g: usize = 0;
            while g < 8
                invariant
                    g <= 8,
                    b@.len() == 16,
                    ip@ == IpAddrView::V6(b@),
                    out@ + v6_groups_text(b@, g as int) == v6_groups_text(b@, 0),
                decreases 8 - g,
            {
                push_u8_hex(&mut out, b[2 * g]);
                push_u8_hex(&mut out, b[2 * g + 1]);
                if g < 7 {
                    out.push(58);
                }
                assert(out@ + v6_groups_text(b@, g + 1 as int) =~= v6_groups_text(b@, 0));
                g += 1;
            }
            assert(out@ =~= v6_groups_text(b@, 0));
        },
    }
    out
}

} // verus!
