//! Command headers and their wire encoding: a version byte, a command tag,
//! then the command's own fields. Every inbound channel starts with one of
//! these self-describing headers; decoding is the unique parse the format
//! admits, and encoding then decoding gives the header back.

use vstd::prelude::*;
use crate::address::{
    spec_u16_be, spec_be16, spec_dec_addr, push_u16_be, read_u16_be, copy_range, decode_addr,
    Address, AddrView, AddrDec,
};
use crate::error::DecodeErr;

verus! {

/// The protocol version every header starts with.
pub const VER: u8 = 0x05;

/// Command tag: authenticate this connection.
pub const CMD_AUTHENTICATE: u8 = 0x00;

/// Command tag: open a relayed byte-stream session.
pub const CMD_CONNECT: u8 = 0x01;

/// Command tag: one fragment of a relayed datagram.
pub const CMD_PACKET: u8 = 0x02;

/// Command tag: discard an association's state.
pub const CMD_DISSOCIATE: u8 = 0x03;

/// Command tag: liveness probe.
pub const CMD_HEARTBEAT: u8 = 0x04;

/// Number of bytes in an authentication token.
pub const TOKEN_LEN: usize = 32;

/// The fixed fields of a packet-fragment header.
pub struct PacketHeader {
    pub assoc_id: u16,
    pub pkt_id: u16,
    pub frag_total: u8,
    pub frag_id: u8,
    pub size: u16,
    pub addr: Address,
}

/// One decoded command header.
pub enum Header {
    Authenticate(Vec<u8>),
    Connect(Address),
    Packet(PacketHeader),
    Dissociate(u16),
    Heartbeat,
}

/// Mathematical image of a `PacketHeader`.
pub struct PktHdrView {
    pub assoc_id: u16,
    pub pkt_id: u16,
    pub frag_total: u8,
    pub frag_id: u8,
    pub size: u16,
    pub addr: AddrView,
}

/// Mathematical image of a `Header`.
pub enum HeaderView {
    Authenticate(Seq<u8>),
    Connect(AddrView),
    Packet(PktHdrView),
    Dissociate(u16),
    Heartbeat,
}

impl View for PacketHeader {
    type V = PktHdrView;

    open spec fn view(&self) -> PktHdrView {
        PktHdrView {
            assoc_id: self.assoc_id,
            pkt_id: self.pkt_id,
            frag_total: self.frag_total,
            frag_id: self.frag_id,
            size: self.size,
            addr: self.addr@,
        }
    }
}

impl View for Header {
    type V = HeaderView;

    open spec fn view(&self) -> HeaderView {
        match self {
            Header::Authenticate(token) => HeaderView::Authenticate(token@),
            Header::Connect(addr) => HeaderView::Connect(addr@),
            Header::Packet(ph) => HeaderView::Packet(ph@),
            Header::Dissociate(assoc_id) => HeaderView::Dissociate(*assoc_id),
            Header::Heartbeat => HeaderView::Heartbeat,
        }
    }
}

impl PktHdrView {
    /// The structural bounds of an encodable packet header.
    pub open spec fn wf(self) -> bool {
        self.addr.wf()
    }

    /// The wire encoding of the fixed fields and address.
    pub open spec fn enc(self) -> Seq<u8> {
        seq![VER, CMD_PACKET] + spec_u16_be(self.assoc_id) + spec_u16_be(self.pkt_id)
            + seq![self.frag_total, self.frag_id] + spec_u16_be(self.size) + self.addr.enc()
    }
}

impl HeaderView {
    /// The structural bounds of an encodable header.
    pub open spec fn wf(self) -> bool {
        match self {
            HeaderView::Authenticate(token) => token.len() == TOKEN_LEN,
            HeaderView::Connect(addr) => addr.wf(),
            HeaderView::Packet(ph) => ph.wf(),
            HeaderView::Dissociate(_) => true,
            HeaderView::Heartbeat => true,
        }
    }

    /// The wire encoding of this header.
    pub open spec fn enc(self) -> Seq<u8> {
        match self {
            HeaderView::Authenticate(token) => seq![VER, CMD_AUTHENTICATE] + token,
            HeaderView::Connect(addr) => seq![VER, CMD_CONNECT] + addr.enc(),
            HeaderView::Packet(ph) => ph.enc(),
            HeaderView::Dissociate(assoc_id) => seq![VER, CMD_DISSOCIATE]
                + spec_u16_be(assoc_id),
            HeaderView::Heartbeat => seq![VER, CMD_HEARTBEAT],
        }
    }
}

/// Outcome of decoding a header from the front of a byte sequence.
pub enum HdrDec {
    /// The header and how many bytes its encoding took.
    Done(HeaderView, int),
    Truncated,
    BadVersion(u8),
    BadCommand(u8),
    BadAddrType(u8),
}

/// Decodes a header from the front of `s`: the unique parse the wire format
/// admits.
pub open spec fn spec_dec_header(s: Seq<u8>) -> HdrDec {
    if s.len() < 1 {
        HdrDec::Truncated
    } else if s[0] != VER {
        HdrDec::BadVersion(s[0])
    } else if s.len() < 2 {
        HdrDec::Truncated
    } else if s[1] == CMD_AUTHENTICATE {
        if s.len() < 2 + TOKEN_LEN {
            HdrDec::Truncated
        } else {
            HdrDec::Done(
                HeaderView::Authenticate(s.subrange(2, 2 + TOKEN_LEN as int)),
                2 + TOKEN_LEN as int,
            )
        }
    } else if s[1] == CMD_CONNECT {
        match spec_dec_addr(s.skip(2)) {
            AddrDec::Done(a, n) => HdrDec::Done(HeaderView::Connect(a), 2 + n),
            AddrDec::Truncated => HdrDec::Truncated,
            AddrDec::BadType(t) => HdrDec::BadAddrType(t),
        }
    } else if s[1] == CMD_PACKET {
        if s.len() < 10 {
            HdrDec::Truncated
        } else {
            match spec_dec_addr(s.skip(10)) {
                AddrDec::Done(a, n) => HdrDec::Done(
                    HeaderView::Packet(
                        PktHdrView {
                            assoc_id: spec_be16(s[2], s[3]),
                            pkt_id: spec_be16(s[4], s[5]),
                            frag_total: s[6],
                            frag_id: s[7],
                            size: spec_be16(s[8], s[9]),
                            addr: a,
                        },
                    ),
                    10 + n,
                ),
                AddrDec::Truncated => HdrDec::Truncated,
                AddrDec::BadType(t) => HdrDec::BadAddrType(t),
            }
        }
    } else if s[1] == CMD_DISSOCIATE {
        if s.len() < 4 {
            HdrDec::Truncated
        } else {
            HdrDec::Done(HeaderView::Dissociate(spec_be16(s[2], s[3])), 4)
        }
    } else if s[1] == CMD_HEARTBEAT {
        HdrDec::Done(HeaderView::Heartbeat, 2)
    } else {
        HdrDec::BadCommand(s[1])
    }
}

/// Law: decoding an encoded header, with anything after it, yields the
/// header back and consumes exactly its encoding.
pub proof fn lemma_header_round_trip(h: HeaderView, rest: Seq<u8>)
    requires
        h.wf(),
    ensures
        spec_dec_header(h.enc() + rest) == HdrDec::Done(h, h.enc().len() as int),
{
    let s = h.enc() + rest;
    match h {
        HeaderView::Authenticate(token) => {
            assert(s[0] == VER && s[1] == CMD_AUTHENTICATE);
            assert(s.subrange(2, 2 + TOKEN_LEN as int) =~= token);
        }
        HeaderView::Connect(addr) => {
            assert(s[0] == VER && s[1] == CMD_CONNECT);
            assert(s.skip(2) =~= addr.enc() + rest);
            crate::address::lemma_addr_round_trip(addr, rest);
        }
        HeaderView::Packet(ph) => {
            assert(s[0] == VER && s[1] == CMD_PACKET);
            assert(s[2] == (ph.assoc_id / 256) as u8);
            assert(s[3] == (ph.assoc_id % 256) as u8);
            assert(s[4] == (ph.pkt_id / 256) as u8);
            assert(s[5] == (ph.pkt_id % 256) as u8);
            assert(s[6] == ph.frag_total);
            assert(s[7] == ph.frag_id);
            assert(s[8] == (ph.size / 256) as u8);
            assert(s[9] == (ph.size % 256) as u8);
            crate::address::lemma_u16_be_inverse(ph.assoc_id);
            crate::address::lemma_u16_be_inverse(ph.pkt_id);
            crate::address::lemma_u16_be_inverse(ph.size);
            assert(s.skip(10) =~= ph.addr.enc() + rest);
            crate::address::lemma_addr_round_trip(ph.addr, rest);
        }
        HeaderView::Dissociate(assoc_id) => {
            assert(s[0] == VER && s[1] == CMD_DISSOCIATE);
            assert(s[2] == (assoc_id / 256) as u8);
            assert(s[3] == (assoc_id % 256) as u8);
            crate::address::lemma_u16_be_inverse(assoc_id);
        }
        HeaderView::Heartbeat => {
            assert(s[0] == VER && s[1] == CMD_HEARTBEAT);
        }
    }
}

impl Header {
    /// Appends the wire encoding of this header to `buf`.
    pub fn encode_into(&self, buf: &mut Vec<u8>)
        requires
            self@.wf(),
        ensures
            final(buf)@ == old(buf)@ + self@.enc(),
    {
        match self {
            Header::Authenticate(token) => {
                buf.push(VER);
                buf.push(CMD_AUTHENTICATE);
                let mut i: usize = 0;
                while i < token.len()
                    invariant
                        i <= token@.len() == TOKEN_LEN,
                        buf@ == old(buf)@ + seq![VER, CMD_AUTHENTICATE]
                            + token@.subrange(0, i as int),
                    decreases token@.len() - i,
                {
                    buf.push(token[i]);
                    assert(buf@ =~= old(buf)@ + seq![VER, CMD_AUTHENTICATE]
                        + token@.subrange(0, i + 1 as int));
                    i = i + 1;
                }
                assert(token@.subrange(0, token@.len() as int) =~= token@);
                assert(buf@ =~= old(buf)@ + self@.enc());
            }
            Header::Connect(addr) => {
                buf.push(VER);
                buf.push(CMD_CONNECT);
                assert(buf@ =~= old(buf)@ + seq![VER, CMD_CONNECT]);
                addr.encode_into(buf);
                assert(buf@ =~= old(buf)@ + self@.enc());
            }
            Header::Packet(ph) => {
                buf.push(VER);
                buf.push(CMD_PACKET);
                push_u16_be(buf, ph.assoc_id);
                push_u16_be(buf, ph.pkt_id);
                buf.push(ph.frag_total);
                buf.push(ph.frag_id);
                push_u16_be(buf, ph.size);
                assert(buf@ =~= old(buf)@ + seq![VER, CMD_PACKET]
                    + spec_u16_be(ph.assoc_id) + spec_u16_be(ph.pkt_id)
                    + seq![ph.frag_total, ph.frag_id] + spec_u16_be(ph.size));
                ph.addr.encode_into(buf);
                assert(buf@ =~= old(buf)@ + self@.enc());
            }
            Header::Dissociate(assoc_id) => {
                buf.push(VER);
                buf.push(CMD_DISSOCIATE);
                push_u16_be(buf, *assoc_id);
                assert(buf@ =~= old(buf)@ + self@.enc());
            }
            Header::Heartbeat => {
                buf.push(VER);
                buf.push(CMD_HEARTBEAT);
                assert(buf@ =~= old(buf)@ + self@.enc());
            }
        }
    }

    /// The wire encoding of this header as a fresh vector.
    pub fn encode(&self) -> (r: Vec<u8>)
        requires
            self@.wf(),
        ensures
            r@ == self@.enc(),
    {
        let mut buf: Vec<u8> = Vec::new();
        self.encode_into(&mut buf);
        assert(buf@ =~= self@.enc());
        buf
    }
}

/// Decodes the header at the front of `buf`, returning it and the count of
/// bytes consumed. The result is exactly what `spec_dec_header` says of the
/// bytes.
pub fn decode_header(buf: &Vec<u8>) -> (r: Result<(Header, usize), DecodeErr>)
    ensures
        match r {
            Ok((h, n)) => {
                &&& spec_dec_header(buf@) == HdrDec::Done(h@, n as int)
                &&& h@.wf()
                &&& n <= buf@.len()
            },
            Err(DecodeErr::Truncated) => spec_dec_header(buf@) == HdrDec::Truncated,
            Err(DecodeErr::BadVersion(v)) => spec_dec_header(buf@) == HdrDec::BadVersion(v),
            Err(DecodeErr::BadCommand(c)) => spec_dec_header(buf@) == HdrDec::BadCommand(c),
            Err(DecodeErr::BadAddressType(t)) => spec_dec_header(buf@) == HdrDec::BadAddrType(t),
        },
{
    let blen = buf.len();
    assert(buf@.len() <= usize::MAX);
    if blen < 1 {
        return Err(DecodeErr::Truncated);
    }
    let ver = buf[0];
    if ver != VER {
        return Err(DecodeErr::BadVersion(ver));
    }
    if blen < 2 {
        return Err(DecodeErr::Truncated);
    }
    let cmd = buf[1];
    if cmd == CMD_AUTHENTICATE {
        if blen < 2 + TOKEN_LEN {
            return Err(DecodeErr::Truncated);
        }
        let token = copy_range(buf, 2, TOKEN_LEN);
        Ok((Header::Authenticate(token), 2 + TOKEN_LEN))
    } else if cmd == CMD_CONNECT {
        match decode_addr(buf, 2) {
            Ok((a, n)) => Ok((Header::Connect(a), 2 + n)),
            Err(e) => Err(e),
        }
    } else if cmd == CMD_PACKET {
        if blen < 10 {
            return Err(DecodeErr::Truncated);
        }
        let assoc_id = read_u16_be(buf, 2);
        let pkt_id = read_u16_be(buf, 4);
        let frag_total = buf[6];
        let frag_id = buf[7];
        let size = read_u16_be(buf, 8);
        match decode_addr(buf, 10) {
            Ok((a, n)) => {
                let ph = PacketHeader { assoc_id, pkt_id, frag_total, frag_id, size, addr: a };
                Ok((Header::Packet(ph), 10 + n))
            }
            Err(e) => Err(e),
        }
    } else if cmd == CMD_DISSOCIATE {
        if blen < 4 {
            return Err(DecodeErr::Truncated);
        }
        let assoc_id = read_u16_be(buf, 2);
        Ok((Header::Dissociate(assoc_id), 4))
    } else if cmd == CMD_HEARTBEAT {
        Ok((Header::Heartbeat, 2))
    } else {
        Err(DecodeErr::BadCommand(cmd))
    }
}

} // verus!
