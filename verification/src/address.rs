//! Target addresses carried in command headers, and their wire encoding:
//! a one-byte type tag, then the address body, then a big-endian port.

use vstd::prelude::*;
use crate::error::DecodeErr;

verus! {

/// Wire tag for an absent address.
pub const ADDR_TYPE_NONE: u8 = 0xff;

/// Wire tag for a domain name and port.
pub const ADDR_TYPE_DOMAIN: u8 = 0x00;

/// Wire tag for an IPv4 address and port.
pub const ADDR_TYPE_IPV4: u8 = 0x01;

/// Wire tag for an IPv6 address and port.
pub const ADDR_TYPE_IPV6: u8 = 0x02;

/// A relay target. Domain names are raw bytes as they appear on the wire;
/// IPv4 and IPv6 addresses are their 4 and 16 octets.
#[derive(Debug, Clone, PartialEq, Eq)]
pub enum Address {
    /// No address: used by fragments after the first one of a packet.
    Unspecified,
    Domain(Vec<u8>, u16),
    Ipv4(Vec<u8>, u16),
    Ipv6(Vec<u8>, u16),
}

/// Mathematical image of an `Address`.
pub enum AddrView {
    Unspecified,
    Domain(Seq<u8>, u16),
    Ipv4(Seq<u8>, u16),
    Ipv6(Seq<u8>, u16),
}

impl View for Address {
    type V = AddrView;

    open spec fn view(&self) -> AddrView {
        match self {
            Address::Unspecified => AddrView::Unspecified,
            Address::Domain(name, port) => AddrView::Domain(name@, *port),
            Address::Ipv4(ip, port) => AddrView::Ipv4(ip@, *port),
            Address::Ipv6(ip, port) => AddrView::Ipv6(ip@, *port),
        }
    }
}

/// The two big-endian bytes of a 16-bit value.
pub open spec fn spec_u16_be(x: u16) -> Seq<u8> {
    seq![(x / 256) as u8, (x % 256) as u8]
}

/// The 16-bit value read from two big-endian bytes.
pub open spec fn spec_be16(hi: u8, lo: u8) -> u16 {
    (hi * 256 + lo) as u16
}

pub proof fn lemma_u16_be_inverse(x: u16)
    ensures
        spec_be16(spec_u16_be(x)[0], spec_u16_be(x)[1]) == x,
{
}

impl AddrView {
    /// The structural bounds every decoded or encodable address satisfies.
    pub open spec fn wf(self) -> bool {
        match self {
            AddrView::Unspecified => true,
            AddrView::Domain(name, _) => name.len() <= 255,
            AddrView::Ipv4(ip, _) => ip.len() == 4,
            AddrView::Ipv6(ip, _) => ip.len() == 16,
        }
    }

    /// The wire encoding of this address.
    pub open spec fn enc(self) -> Seq<u8> {
        match self {
            AddrView::Unspecified => seq![ADDR_TYPE_NONE],
            AddrView::Domain(name, port) => seq![ADDR_TYPE_DOMAIN, name.len() as u8] + name
                + spec_u16_be(port),
            AddrView::Ipv4(ip, port) => seq![ADDR_TYPE_IPV4] + ip + spec_u16_be(port),
            AddrView::Ipv6(ip, port) => seq![ADDR_TYPE_IPV6] + ip + spec_u16_be(port),
        }
    }
}

/// Outcome of decoding an address from the front of a byte sequence.
pub enum AddrDec {
    /// The address and how many bytes its encoding took.
    Done(AddrView, int),
    Truncated,
    BadType(u8),
}

/// Decodes an address from the front of `s`: the unique parse the wire
/// format admits.
pub open spec fn spec_dec_addr(s: Seq<u8>) -> AddrDec {
    if s.len() < 1 {
        AddrDec::Truncated
    } else if s[0] == ADDR_TYPE_NONE {
        AddrDec::Done(AddrView::Unspecified, 1)
    } else if s[0] == ADDR_TYPE_DOMAIN {
        if s.len() < 2 {
            AddrDec::Truncated
        } else if s.len() < 4 + s[1] as int {
            AddrDec::Truncated
        } else {
            AddrDec::Done(
                AddrView::Domain(
                    s.subrange(2, 2 + s[1] as int),
                    spec_be16(s[2 + s[1] as int], s[3 + s[1] as int]),
                ),
                4 + s[1] as int,
            )
        }
    } else if s[0] == ADDR_TYPE_IPV4 {
        if s.len() < 7 {
            AddrDec::Truncated
        } else {
            AddrDec::Done(AddrView::Ipv4(s.subrange(1, 5), spec_be16(s[5], s[6])), 7)
        }
    } else if s[0] == ADDR_TYPE_IPV6 {
        if s.len() < 19 {
            AddrDec::Truncated
        } else {
            AddrDec::Done(AddrView::Ipv6(s.subrange(1, 17), spec_be16(s[17], s[18])), 19)
        }
    } else {
        AddrDec::BadType(s[0])
    }
}

/// Law: decoding an encoded address, with anything after it, yields the
/// address back and consumes exactly its encoding.
pub proof fn lemma_addr_round_trip(a: AddrView, rest: Seq<u8>)
    requires
        a.wf(),
    ensures
        spec_dec_addr(a.enc() + rest) == AddrDec::Done(a, a.enc().len() as int),
{
    let s = a.enc() + rest;
    match a {
        AddrView::Unspecified => {
            assert(s[0] == ADDR_TYPE_NONE);
        }
        AddrView::Domain(name, port) => {
            let n = name.len() as int;
            assert(s[0] == ADDR_TYPE_DOMAIN);
            assert(s[1] == name.len() as u8);
            assert(s[1] as int == n);
            assert(s.subrange(2, 2 + n) =~= name);
            assert(s[2 + n] == (port / 256) as u8);
            assert(s[3 + n] == (port % 256) as u8);
            lemma_u16_be_inverse(port);
        }
        AddrView::Ipv4(ip, port) => {
            assert(s[0] == ADDR_TYPE_IPV4);
            assert(s.subrange(1, 5) =~= ip);
            assert(s[5] == (port / 256) as u8);
            assert(s[6] == (port % 256) as u8);
            lemma_u16_be_inverse(port);
        }
        AddrView::Ipv6(ip, port) => {
            assert(s[0] == ADDR_TYPE_IPV6);
            assert(s.subrange(1, 17) =~= ip);
            assert(s[17] == (port / 256) as u8);
            assert(s[18] == (port % 256) as u8);
            lemma_u16_be_inverse(port);
        }
    }
}

/// Appends the two big-endian bytes of `x` to `buf`.
pub fn push_u16_be(buf: &mut Vec<u8>, x: u16)
    ensures
        final(buf)@ == old(buf)@ + spec_u16_be(x),
{
    buf.push((x / 256) as u8);
    buf.push((x % 256) as u8);
    assert(buf@ =~= old(buf)@ + spec_u16_be(x));
}

impl Address {
    /// How many bytes this address occupies on the wire.
    pub fn enc_len(&self) -> (n: usize)
        requires
            self@.wf(),
        ensures
            n == self@.enc().len(),
            1 <= n <= 259,
    {
        match self {
            Address::Unspecified => 1,
            Address::Domain(name, _) => 4 + name.len(),
            Address::Ipv4(_, _) => 7,
            Address::Ipv6(_, _) => 19,
        }
    }

    /// Appends the wire encoding of this address to `buf`.
    pub fn encode_into(&self, buf: &mut Vec<u8>)
        requires
            self@.wf(),
        ensures
            final(buf)@ == old(buf)@ + self@.enc(),
    {
        match self {
            Address::Unspecified => {
                buf.push(ADDR_TYPE_NONE);
                assert(buf@ =~= old(buf)@ + self@.enc());
            }
            Address::Domain(name, port) => {
                buf.push(ADDR_TYPE_DOMAIN);
                buf.push(name.len() as u8);
                let mut i: usize = 0;
                while i < name.len()
                    invariant
                        i <= name@.len() <= 255,
                        buf@ == old(buf)@ + seq![ADDR_TYPE_DOMAIN, name@.len() as u8]
                            + name@.subrange(0, i as int),
                    decreases name@.len() - i,
                {
                    buf.push(name[i]);
                    assert(buf@ =~= old(buf)@ + seq![ADDR_TYPE_DOMAIN, name@.len() as u8]
                        + name@.subrange(0, i + 1 as int));
                    i = i + 1;
                }
                assert(name@.subrange(0, name@.len() as int) =~= name@);
                push_u16_be(buf, *port);
                assert(buf@ =~= old(buf)@ + self@.enc());
            }
            Address::Ipv4(ip, port) => {
                buf.push(ADDR_TYPE_IPV4);
                let mut i: usize = 0;
                while i < ip.len()
                    invariant
                        i <= ip@.len() == 4,
                        buf@ == old(buf)@ + seq![ADDR_TYPE_IPV4] + ip@.subrange(0, i as int),
                    decreases ip@.len() - i,
                {
                    buf.push(ip[i]);
                    assert(buf@ =~= old(buf)@ + seq![ADDR_TYPE_IPV4]
                        + ip@.subrange(0, i + 1 as int));
                    i = i + 1;
                }
                assert(ip@.subrange(0, 4) =~= ip@);
                push_u16_be(buf, *port);
                assert(buf@ =~= old(buf)@ + self@.enc());
            }
            Address::Ipv6(ip, port) => {
                buf.push(ADDR_TYPE_IPV6);
                let mut i: usize = 0;
                while i < ip.len()
                    invariant
                        i <= ip@.len() == 16,
                        buf@ == old(buf)@ + seq![ADDR_TYPE_IPV6] + ip@.subrange(0, i as int),
                    decreases ip@.len() - i,
                {
                    buf.push(ip[i]);
                    assert(buf@ =~= old(buf)@ + seq![ADDR_TYPE_IPV6]
                        + ip@.subrange(0, i + 1 as int));
                    i = i + 1;
                }
                assert(ip@.subrange(0, 16) =~= ip@);
                push_u16_be(buf, *port);
                assert(buf@ =~= old(buf)@ + self@.enc());
            }
        }
    }
}

/// Reads `count` bytes of `buf` starting at `pos` into a fresh vector.
pub fn copy_range(buf: &Vec<u8>, pos: usize, count: usize) -> (r: Vec<u8>)
    requires
        pos + count <= buf@.len(),
    ensures
        r@ == buf@.subrange(pos as int, pos + count),
{
    let _blen = buf.len();
    assert(buf@.len() <= usize::MAX);
    let mut r: Vec<u8> = Vec::new();
    let mut i: usize = 0;
    while i < count
        invariant
            i <= count,
            pos + count <= buf@.len() <= usize::MAX,
            r@ == buf@.subrange(pos as int, pos + i),
        decreases count - i,
    {
        r.push(buf[pos + i]);
        assert(r@ =~= buf@.subrange(pos as int, pos + i + 1));
        i = i + 1;
    }
    r
}

/// Reads the 16-bit big-endian value at `pos`.
pub fn read_u16_be(buf: &Vec<u8>, pos: usize) -> (x: u16)
    requires
        pos + 2 <= buf@.len(),
    ensures
        x == spec_be16(buf@[pos as int], buf@[pos + 1]),
{
    let _blen = buf.len();
    assert(buf@.len() <= usize::MAX);
    (buf[pos] as u16) * 256 + (buf[pos + 1] as u16)
}

/// Decodes the address starting at `pos`, returning it and the count of
/// bytes consumed. The result is exactly what `spec_dec_addr` says of the
/// bytes from `pos` on.
pub fn decode_addr(buf: &Vec<u8>, pos: usize) -> (r: Result<(Address, usize), DecodeErr>)
    requires
        pos <= buf@.len(),
    ensures
        match r {
            Ok((a, n)) => {
                &&& spec_dec_addr(buf@.skip(pos as int)) == AddrDec::Done(a@, n as int)
                &&& a@.wf()
                &&& pos + n <= buf@.len()
            },
            Err(DecodeErr::Truncated) => spec_dec_addr(buf@.skip(pos as int))
                == AddrDec::Truncated,
            Err(DecodeErr::BadAddressType(t)) => spec_dec_addr(buf@.skip(pos as int))
                == AddrDec::BadType(t),
            Err(_) => false,
        },
{
    let ghost s = buf@.skip(pos as int);
    let rem = buf.len() - pos;
    if rem < 1 {
        return Err(DecodeErr::Truncated);
    }
    let tag = buf[pos];
    assert(tag == s[0]);
    if tag == ADDR_TYPE_NONE {
        Ok((Address::Unspecified, 1))
    } else if tag == ADDR_TYPE_DOMAIN {
        if rem < 2 {
            return Err(DecodeErr::Truncated);
        }
        let n = buf[pos + 1] as usize;
        assert(n as int == s[1] as int);
        if rem < 4 + n {
            return Err(DecodeErr::Truncated);
        }
        let name = copy_range(buf, pos + 2, n);
        assert(name@ =~= s.subrange(2, 2 + s[1] as int));
        let port = read_u16_be(buf, pos + 2 + n);
        assert(buf@[pos + 2 + n as int] == s[2 + s[1] as int]);
        assert(buf@[pos + 3 + n as int] == s[3 + s[1] as int]);
        Ok((Address::Domain(name, port), 4 + n))
    } else if tag == ADDR_TYPE_IPV4 {
        if rem < 7 {
            return Err(DecodeErr::Truncated);
        }
        let ip = copy_range(buf, pos + 1, 4);
        assert(ip@ =~= s.subrange(1, 5));
        let port = read_u16_be(buf, pos + 5);
        assert(buf@[pos + 5 as int] == s[5]);
        assert(buf@[pos + 6 as int] == s[6]);
        Ok((Address::Ipv4(ip, port), 7))
    } else if tag == ADDR_TYPE_IPV6 {
        if rem < 19 {
            return Err(DecodeErr::Truncated);
        }
        let ip = copy_range(buf, pos + 1, 16);
        assert(ip@ =~= s.subrange(1, 17));
        let port = read_u16_be(buf, pos + 17);
        assert(buf@[pos + 17 as int] == s[17]);
        assert(buf@[pos + 18 as int] == s[18]);
        Ok((Address::Ipv6(ip, port), 19))
    } else {
        Err(DecodeErr::BadAddressType(tag))
    }
}

} // verus!
