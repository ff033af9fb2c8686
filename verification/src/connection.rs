//! The connection façade. A `Connection` is specialized to the client or
//! the server role; it turns outbound commands into wire messages for the
//! caller to send, classifies inbound channels' bytes into `Task`s under
//! the per-role legality rules, and keeps the cross-channel bookkeeping:
//! known associations, the packet-id counter, reassembly buffers and their
//! garbage collection.
//!
//! Channel legality per (command, channel kind, role):
//! authenticate — unidirectional stream, server accepts; connect —
//! bidirectional stream, server accepts; packet — unidirectional stream or
//! datagram, both roles accept; dissociate — unidirectional stream, server
//! accepts; heartbeat — datagram, server accepts. Everything else is
//! rejected with the command's name, and a datagram's bytes ride back in
//! the error.

use vstd::prelude::*;
use crate::address::{Address, AddrView};
use crate::assembly::{spec_drop_assoc, spec_insert, spec_sweep, BufView, Reassembly};
use crate::error::{AssembleError, DecodeErr, Error};
use crate::fragment::{
    build_fragments, lemma_ceil_bounds, lemma_ceil_form, spec_frag_count, spec_frag_wire,
};
use crate::header::{decode_header, spec_dec_header, HdrDec, Header, HeaderView, PacketHeader};
use crate::side::{Client, Server};

verus! {

/// Relies on std::time::SystemTime::now: the wall clock in milliseconds
/// since the epoch. The value depends on the machine's clock, so nothing
/// is promised of it.
#[verifier::external_body]
fn now_millis() -> u64 {
    match std::time::SystemTime::now().duration_since(std::time::UNIX_EPOCH) {
        Ok(d) => d.as_millis() as u64,
        Err(_) => 0,
    }
}

/// The packet id following `p`, wrapping at the top of the range.
pub open spec fn spec_next_pkt(p: u16) -> u16 {
    if p == 0xffff {
        0
    } else {
        (p + 1) as u16
    }
}

/// The association list with `a` registered once.
pub open spec fn spec_register(assocs: Seq<u16>, a: u16) -> Seq<u16> {
    if assocs.contains(a) {
        assocs
    } else {
        assocs.push(a)
    }
}

/// The association list with every occurrence of `a` removed.
pub open spec fn spec_deregister(assocs: Seq<u16>, a: u16) -> Seq<u16>
    decreases assocs.len(),
{
    if assocs.len() == 0 {
        Seq::empty()
    } else {
        (if assocs[0] == a {
            Seq::empty()
        } else {
            seq![assocs[0]]
        }) + spec_deregister(assocs.skip(1), a)
    }
}

/// The payload bytes one datagram fragment may carry under a size limit of
/// `max` bytes with `oh` bytes of header: the remainder, capped at the
/// largest size the header's length field can declare.
pub open spec fn spec_frag_space(max: int, oh: int) -> int {
    if max - oh <= 65535 {
        max - oh
    } else {
        65535
    }
}


/// The reassembly-level image of what `accept` and `accept_streamed`
/// return: `None` where the error did not come from reassembly.
pub open spec fn spec_accept_view(r: Result<Option<(Vec<u8>, Address, u16)>, Error>) -> Option<
    Result<Option<(Seq<u8>, AddrView, u16)>, AssembleError>,
> {
    match r {
        Result::Ok(Option::None) => Option::Some(Result::Ok(Option::None)),
        Result::Ok(Option::Some((d, a, i))) => Option::Some(
            Result::Ok(Option::Some((d@, a@, i))),
        ),
        Result::Err(Error::Assemble(e)) => Option::Some(Result::Err(e)),
        Result::Err(_) => Option::None,
    }
}

/// One relayed byte-stream session: the target address, read once at
/// session start. The channel itself stays with the caller.
pub struct Connect {
    pub addr: Address,
}

impl Connect {
    /// The session's target address.
    pub fn addr(&self) -> (r: &Address)
        ensures
            r@ == self.addr@,
    {
        &self.addr
    }
}

/// Where a packet's payload bytes come from: already resident (datagram),
/// or still to be read from the carrying stream, whose declared length the
/// header gave.
pub enum PacketSource {
    Native(Vec<u8>),
    Streamed,
}


/// The resident payload bytes of a packet source; empty when the payload
/// is still on its stream.
pub open spec fn spec_src_data(src: PacketSource) -> Seq<u8> {
    match src {
        PacketSource::Native(d) => d@,
        PacketSource::Streamed => Seq::empty(),
    }
}

/// One inbound packet fragment, not yet handed to reassembly. Consuming it
/// with `accept` or `accept_streamed` is a one-shot operation.
pub struct Packet {
    pub hdr: PacketHeader,
    pub src: PacketSource,
}

/// One fully classified inbound command.
#[non_exhaustive]
pub enum Task {
    Authenticate(Vec<u8>),
    Connect(Connect),
    Packet(Packet),
    Dissociate(u16),
    Heartbeat,
}

/// One multiplexed logical session over a transport connection, specialized
/// by role.
pub struct Connection<Side> {
    /// The id the next outbound packet will carry.
    pub next_pkt_id: u16,
    /// Associations this connection knows: registered by sending, or — on
    /// the server — learnt lazily from inbound packets.
    pub assocs: Vec<u16>,
    /// Buffered fragments of packets not yet complete.
    pub reassembly: Reassembly,
    /// How many connect sessions this connection has opened or accepted.
    pub connect_count: usize,
    pub _marker: Side,
}

/// Whether `v` holds `a`.
fn contains_u16(v: &Vec<u16>, a: u16) -> (r: bool)
    ensures
        r == v@.contains(a),
{
    let mut i: usize = 0;
    while i < v.len()
        invariant
            i <= v@.len(),
            forall|j: int| 0 <= j < i ==> v@[j] != a,
        decreases v@.len() - i,
    {
        if v[i] == a {
            return true;
        }
        i = i + 1;
    }
    false
}

/// Registers `a` in `v` if it is not yet there.
fn register_u16(v: &mut Vec<u16>, a: u16)
    ensures
        final(v)@ == spec_register(old(v)@, a),
{
    if !contains_u16(v, a) {
        v.push(a);
    }
}

/// Removes every occurrence of `a` from `v`, keeping the rest in order.
fn deregister_u16(v: &mut Vec<u16>, a: u16)
    ensures
        final(v)@ == spec_deregister(old(v)@, a),
{
    let mut kept: Vec<u16> = Vec::new();
    let ghost orig = v@;
    while v.len() > 0
        invariant
            spec_deregister(orig, a) == kept@ + spec_deregister(v@, a),
        decreases v@.len(),
    {
        let ghost pre = v@;
        let x = v.remove(0);
        assert(v@ =~= pre.skip(1));
        if x != a {
            kept.push(x);
        }
    }
    assert(spec_deregister(orig, a) =~= kept@);
    *v = kept;
}

impl<Side> Connection<Side> {
    /// How many connect sessions were opened or accepted.
    pub fn task_connect_count(&self) -> (n: usize)
        ensures
            n == self.connect_count,
    {
        self.connect_count
    }

    /// How many associations this connection currently knows.
    pub fn task_associate_count(&self) -> (n: usize)
        ensures
            n == self.assocs@.len(),
    {
        self.assocs.len()
    }

    /// Discards every reassembly buffer older than `timeout_millis` at the
    /// wall clock's reading; a zero bound discards them all.
    pub fn collect_garbage(&mut self, timeout_millis: u64)
        ensures
            exists|now: u64| final(self).reassembly@ == spec_sweep(
                old(self).reassembly@,
                now,
                timeout_millis,
            ),
            timeout_millis == 0 ==> final(self).reassembly@.len() == 0,
            final(self).assocs@ == old(self).assocs@,
            final(self).next_pkt_id == old(self).next_pkt_id,
            final(self).connect_count == old(self).connect_count,
    {
        let now = now_millis();
        self.reassembly.sweep(now, timeout_millis);
        proof {
            crate::assembly::lemma_sweep_zero(old(self).reassembly@, now);
        }
    }

    /// Builds the datagram for each fragment of `pkt` under the transport's
    /// datagram size limit, registering the association and consuming one
    /// packet id. Fails without touching any state when the transport has
    /// no datagram support, when the limit cannot fit a header and a byte
    /// of payload, or when the payload needs more fragments than a header
    /// can number.
    pub fn packet_native(
        &mut self,
        pkt: &Vec<u8>,
        addr: Address,
        assoc_id: u16,
        max_datagram_size: Option<usize>,
    ) -> (r: Result<Vec<Vec<u8>>, Error>)
        requires
            addr@.wf(),
        ensures
            final(self).reassembly@ == old(self).reassembly@,
            final(self).connect_count == old(self).connect_count,
            match max_datagram_size {
                Option::None => r matches Err(Error::DatagramUnsupported)
                    && final(self).assocs@ == old(self).assocs@ && final(self).next_pkt_id == old(self).next_pkt_id,
                Option::Some(max) => {
                    let oh = 10 + addr@.enc().len() as int;
                    let m = spec_frag_space(max as int, oh);
                    let count = spec_frag_count(pkt@.len() as int, m);
                    if max <= oh {
                        r matches Err(Error::DatagramTooSmall(x)) && x == max && final(self).assocs@ == old(self).assocs@ && final(self).next_pkt_id == old(self).next_pkt_id
                    } else if count > 255 {
                        r matches Err(Error::TooManyFragments) && final(self).assocs@ == old(self).assocs@ && final(self).next_pkt_id == old(self).next_pkt_id
                    } else {
                        r matches Ok(wires) && wires@.len() == count && (forall|i: int|
                            0 <= i < count ==> (#[trigger] wires@[i])@ == spec_frag_wire(
                                assoc_id,
                                old(self).next_pkt_id,
                                addr@,
                                pkt@,
                                m,
                                i,
                            )) && (forall|i: int|
                            0 <= i < count ==> (#[trigger] wires@[i])@.len() <= max) && final(self).assocs@ == spec_register(old(self).assocs@, assoc_id) && final(self).next_pkt_id == spec_next_pkt(old(self).next_pkt_id)
                    }
                },
            },
    {
        let max = match max_datagram_size {
            Option::Some(max) => max,
            Option::None => {
                return Err(Error::DatagramUnsupported);
            }
        };
        let oh = 10 + addr.enc_len();
        if max <= oh {
            return Err(Error::DatagramTooSmall(max));
        }
        let mut m = max - oh;
        if m > 65535 {
            m = 65535;
        }
        let plen = pkt.len();
        let count = if plen == 0 {
            0
        } else {
            proof {
                lemma_ceil_form(plen as int, m as int);
            }
            (plen - 1) / m + 1
        };
        proof {
            lemma_ceil_bounds(plen as int, m as int);
        }
        if count > 255 {
            return Err(Error::TooManyFragments);
        }
        let pkt_id = self.next_pkt_id;
        let wires = build_fragments(assoc_id, pkt_id, addr, pkt, m);
        register_u16(&mut self.assocs, assoc_id);
        self.next_pkt_id = if pkt_id == 0xffff {
            0
        } else {
            pkt_id + 1
        };
        assert(forall|i: int| 0 <= i < wires@.len() ==> (#[trigger] wires@[i])@.len() <= max);
        Ok(wires)
    }

    /// Builds the wire message for each fragment of `pkt` when each
    /// fragment travels on its own unidirectional stream: the size limit is
    /// what the header's length field can declare, so each message stays
    /// within 65535 bytes of payload space plus its header. Registers the
    /// association and consumes one packet id; fails without touching any
    /// state when the payload needs more fragments than a header can
    /// number.
    pub fn packet_quic(&mut self, pkt: &Vec<u8>, addr: Address, assoc_id: u16) -> (r: Result<
        Vec<Vec<u8>>,
        Error,
    >)
        requires
            addr@.wf(),
        ensures
            final(self).reassembly@ == old(self).reassembly@,
            final(self).connect_count == old(self).connect_count,
            ({
                let oh = 10 + addr@.enc().len() as int;
                let m = 65535 - oh;
                let count = spec_frag_count(pkt@.len() as int, m);
                if count > 255 {
                    r matches Err(Error::TooManyFragments) && final(self).assocs@ == old(self).assocs@ && final(self).next_pkt_id == old(self).next_pkt_id
                } else {
                    r matches Ok(wires) && wires@.len() == count && (forall|i: int|
                        0 <= i < count ==> (#[trigger] wires@[i])@ == spec_frag_wire(
                            assoc_id,
                            old(self).next_pkt_id,
                            addr@,
                            pkt@,
                            m,
                            i,
                        )) && (forall|i: int|
                        0 <= i < count ==> (#[trigger] wires@[i])@.len() <= 65535) && final(self).assocs@ == spec_register(old(self).assocs@, assoc_id) && final(self).next_pkt_id == spec_next_pkt(old(self).next_pkt_id)
                }
            }),
    {
        let oh = 10 + addr.enc_len();
        let m = 65535 - oh;
        let plen = pkt.len();
        let count = if plen == 0 {
            0
        } else {
            proof {
                lemma_ceil_form(plen as int, m as int);
            }
            (plen - 1) / m + 1
        };
        proof {
            lemma_ceil_bounds(plen as int, m as int);
        }
        if count > 255 {
            return Err(Error::TooManyFragments);
        }
        let pkt_id = self.next_pkt_id;
        let wires = build_fragments(assoc_id, pkt_id, addr, pkt, m);
        register_u16(&mut self.assocs, assoc_id);
        self.next_pkt_id = if pkt_id == 0xffff {
            0
        } else {
            pkt_id + 1
        };
        assert(forall|i: int| 0 <= i < wires@.len() ==> (#[trigger] wires@[i])@.len() <= 65535);
        Ok(wires)
    }

    /// The wire message of a heartbeat, to be sent as one datagram.
    pub fn heartbeat(&self) -> (r: Vec<u8>)
        ensures
            r@ == HeaderView::Heartbeat.enc(),
    {
        Header::Heartbeat.encode()
    }
}

impl Connection<Client> {
    /// A fresh client-role connection with no state.
    pub fn new() -> (r: Self)
        ensures
            r.next_pkt_id == 0,
            r.assocs@ == Seq::<u16>::empty(),
            r.reassembly@ == Seq::<BufView>::empty(),
            r.connect_count == 0,
    {
        Connection {
            next_pkt_id: 0,
            assocs: Vec::new(),
            reassembly: Reassembly::new(),
            connect_count: 0,
            _marker: Client,
        }
    }

    /// The wire message of an authentication command carrying `token`, to
    /// be written on a fresh unidirectional stream and the stream closed.
    pub fn authenticate(&self, token: Vec<u8>) -> (r: Vec<u8>)
        requires
            token@.len() == 32,
        ensures
            r@ == HeaderView::Authenticate(token@).enc(),
    {
        Header::Authenticate(token).encode()
    }

    /// Opens a relayed byte-stream session towards `addr`: the header bytes
    /// to write on a fresh bidirectional stream, and the session object.
    /// The protocol is optimistic — data may follow before the peer
    /// answers.
    pub fn connect(&mut self, addr: Address) -> (r: (Vec<u8>, Connect))
        requires
            addr@.wf(),
        ensures
            r.0@ == HeaderView::Connect(addr@).enc(),
            r.1.addr@ == addr@,
            final(self).connect_count == (if old(self).connect_count < usize::MAX {
                old(self).connect_count + 1
            } else {
                old(self).connect_count as int
            }),
            final(self).assocs@ == old(self).assocs@,
            final(self).reassembly@ == old(self).reassembly@,
            final(self).next_pkt_id == old(self).next_pkt_id,
    {
        let mut bytes: Vec<u8> = Vec::new();
        bytes.push(crate::header::VER);
        bytes.push(crate::header::CMD_CONNECT);
        addr.encode_into(&mut bytes);
        assert(bytes@ =~= HeaderView::Connect(addr@).enc());
        self.connect_count = if self.connect_count < usize::MAX {
            self.connect_count + 1
        } else {
            self.connect_count
        };
        (bytes, Connect { addr })
    }

    /// The wire message of a dissociate command for `assoc_id`, to be
    /// written on a fresh unidirectional stream and the stream closed. The
    /// association and its buffered fragments are discarded locally.
    pub fn dissociate(&mut self, assoc_id: u16) -> (r: Vec<u8>)
        ensures
            r@ == HeaderView::Dissociate(assoc_id).enc(),
            final(self).assocs@ == spec_deregister(old(self).assocs@, assoc_id),
            final(self).reassembly@ == spec_drop_assoc(old(self).reassembly@, assoc_id),
            final(self).next_pkt_id == old(self).next_pkt_id,
            final(self).connect_count == old(self).connect_count,
    {
        deregister_u16(&mut self.assocs, assoc_id);
        self.reassembly.drop_assoc(assoc_id);
        Header::Dissociate(assoc_id).encode()
    }

    /// Classifies the decoded leading bytes of an inbound unidirectional
    /// stream. A client accepts only packets, and only for associations it
    /// knows; every other command is illegal on this channel for this
    /// role.
    pub fn accept_uni_stream(&self, buf: &Vec<u8>) -> (r: Result<Task, Error>)
        ensures
            match spec_dec_header(buf@) {
                HdrDec::Done(h, n) => match h {
                    HeaderView::Packet(ph) => if self.assocs@.contains(ph.assoc_id) {
                        r matches Ok(Task::Packet(p)) && p.hdr@ == ph && (p.src
                            matches PacketSource::Streamed)
                    } else {
                        r matches Err(Error::InvalidUdpSession(a)) && a == ph.assoc_id
                    },
                    HeaderView::Authenticate(_) => r matches Err(Error::BadCommandUniStream(c))
                        && c@ == "authenticate"@,
                    HeaderView::Connect(_) => r matches Err(Error::BadCommandUniStream(c)) && c@
                        == "connect"@,
                    HeaderView::Dissociate(_) => r matches Err(Error::BadCommandUniStream(c))
                        && c@ == "dissociate"@,
                    HeaderView::Heartbeat => r matches Err(Error::BadCommandUniStream(c)) && c@
                        == "heartbeat"@,
                },
                HdrDec::Truncated => r matches Err(Error::UnmarshalUniStream(e)) && e
                    == DecodeErr::Truncated,
                HdrDec::BadVersion(v) => r matches Err(Error::UnmarshalUniStream(e)) && e
                    == DecodeErr::BadVersion(v),
                HdrDec::BadCommand(c) => r matches Err(Error::UnmarshalUniStream(e)) && e
                    == DecodeErr::BadCommand(c),
                HdrDec::BadAddrType(t) => r matches Err(Error::UnmarshalUniStream(e)) && e
                    == DecodeErr::BadAddressType(t),
            },
    {
        match decode_header(buf) {
            Err(e) => Err(Error::UnmarshalUniStream(e)),
            Ok((h, _n)) => match h {
                Header::Authenticate(_) => Err(Error::BadCommandUniStream("authenticate")),
                Header::Connect(_) => Err(Error::BadCommandUniStream("connect")),
                Header::Packet(ph) => {
                    if contains_u16(&self.assocs, ph.assoc_id) {
                        Ok(Task::Packet(Packet { hdr: ph, src: PacketSource::Streamed }))
                    } else {
                        Err(Error::InvalidUdpSession(ph.assoc_id))
                    }
                }
                Header::Dissociate(_) => Err(Error::BadCommandUniStream("dissociate")),
                Header::Heartbeat => Err(Error::BadCommandUniStream("heartbeat")),
            },
        }
    }

    /// Classifies the decoded leading bytes of an inbound bidirectional
    /// stream. No command is legal there for the client role.
    pub fn accept_bi_stream(&self, buf: &Vec<u8>) -> (r: Result<Task, Error>)
        ensures
            r is Err,
            match spec_dec_header(buf@) {
                HdrDec::Done(h, n) => match h {
                    HeaderView::Authenticate(_) => r matches Err(Error::BadCommandBiStream(c))
                        && c@ == "authenticate"@,
                    HeaderView::Connect(_) => r matches Err(Error::BadCommandBiStream(c)) && c@
                        == "connect"@,
                    HeaderView::Packet(_) => r matches Err(Error::BadCommandBiStream(c)) && c@
                        == "packet"@,
                    HeaderView::Dissociate(_) => r matches Err(Error::BadCommandBiStream(c))
                        && c@ == "dissociate"@,
                    HeaderView::Heartbeat => r matches Err(Error::BadCommandBiStream(c)) && c@
                        == "heartbeat"@,
                },
                HdrDec::Truncated => r matches Err(Error::UnmarshalBiStream(e)) && e
                    == DecodeErr::Truncated,
                HdrDec::BadVersion(v) => r matches Err(Error::UnmarshalBiStream(e)) && e
                    == DecodeErr::BadVersion(v),
                HdrDec::BadCommand(c) => r matches Err(Error::UnmarshalBiStream(e)) && e
                    == DecodeErr::BadCommand(c),
                HdrDec::BadAddrType(t) => r matches Err(Error::UnmarshalBiStream(e)) && e
                    == DecodeErr::BadAddressType(t),
            },
    {
        match decode_header(buf) {
            Err(e) => Err(Error::UnmarshalBiStream(e)),
            Ok((h, _n)) => match h {
                Header::Authenticate(_) => Err(Error::BadCommandBiStream("authenticate")),
                Header::Connect(_) => Err(Error::BadCommandBiStream("connect")),
                Header::Packet(_) => Err(Error::BadCommandBiStream("packet")),
                Header::Dissociate(_) => Err(Error::BadCommandBiStream("dissociate")),
                Header::Heartbeat => Err(Error::BadCommandBiStream("heartbeat")),
            },
        }
    }

    /// Classifies one inbound datagram. A client accepts only packets for
    /// associations it knows, with the payload sliced out of the datagram;
    /// a payload declared longer than the bytes after the header is a
    /// length mismatch, reported before any task is produced. On every
    /// failure the original datagram rides back in the error.
    pub fn accept_datagram(&self, dg: Vec<u8>) -> (r: Result<Task, Error>)
        ensures
            match spec_dec_header(dg@) {
                HdrDec::Done(h, n) => match h {
                    HeaderView::Packet(ph) => if !self.assocs@.contains(ph.assoc_id) {
                        r matches Err(Error::InvalidUdpSession(a)) && a == ph.assoc_id
                    } else if ph.size as int > dg@.len() - n {
                        r matches Err(Error::PayloadLength(want, got)) && want == ph.size as int
                            && got == dg@.len() - n
                    } else {
                        r matches Ok(Task::Packet(p)) && p.hdr@ == ph && (p.src
                            matches PacketSource::Native(d) && d@ == dg@.subrange(
                            n,
                            n + ph.size as int,
                        ))
                    },
                    HeaderView::Authenticate(_) => r matches Err(Error::BadCommandDatagram(c, b))
                        && c@ == "authenticate"@ && b == dg,
                    HeaderView::Connect(_) => r matches Err(Error::BadCommandDatagram(c, b))
                        && c@ == "connect"@ && b == dg,
                    HeaderView::Dissociate(_) => r matches Err(Error::BadCommandDatagram(c, b))
                        && c@ == "dissociate"@ && b == dg,
                    HeaderView::Heartbeat => r matches Err(Error::BadCommandDatagram(c, b)) && c@
                        == "heartbeat"@ && b == dg,
                },
                HdrDec::Truncated => r matches Err(Error::UnmarshalDatagram(e, b)) && e
                    == DecodeErr::Truncated && b == dg,
                HdrDec::BadVersion(v) => r matches Err(Error::UnmarshalDatagram(e, b)) && e
                    == DecodeErr::BadVersion(v) && b == dg,
                HdrDec::BadCommand(c) => r matches Err(Error::UnmarshalDatagram(e, b)) && e
                    == DecodeErr::BadCommand(c) && b == dg,
                HdrDec::BadAddrType(t) => r matches Err(Error::UnmarshalDatagram(e, b)) && e
                    == DecodeErr::BadAddressType(t) && b == dg,
            },
    {
        match decode_header(&dg) {
            Err(e) => Err(Error::UnmarshalDatagram(e, dg)),
            Ok((h, n)) => match h {
                Header::Authenticate(_) => Err(Error::BadCommandDatagram("authenticate", dg)),
                Header::Connect(_) => Err(Error::BadCommandDatagram("connect", dg)),
                Header::Packet(ph) => {
                    if !contains_u16(&self.assocs, ph.assoc_id) {
                        return Err(Error::InvalidUdpSession(ph.assoc_id));
                    }
                    let rem = dg.len() - n;
                    let size = ph.size as usize;
                    if size > rem {
                        return Err(Error::PayloadLength(size, rem));
                    }
                    let payload = crate::address::copy_range(&dg, n, size);
                    Ok(Task::Packet(Packet { hdr: ph, src: PacketSource::Native(payload) }))
                }
                Header::Dissociate(_) => Err(Error::BadCommandDatagram("dissociate", dg)),
                Header::Heartbeat => Err(Error::BadCommandDatagram("heartbeat", dg)),
            },
        }
    }
}

impl Connection<Server> {
    /// A fresh server-role connection with no state.
    pub fn new() -> (r: Self)
        ensures
            r.next_pkt_id == 0,
            r.assocs@ == Seq::<u16>::empty(),
            r.reassembly@ == Seq::<BufView>::empty(),
            r.connect_count == 0,
    {
        Connection {
            next_pkt_id: 0,
            assocs: Vec::new(),
            reassembly: Reassembly::new(),
            connect_count: 0,
            _marker: Server,
        }
    }

    /// Classifies the decoded leading bytes of an inbound unidirectional
    /// stream. A server accepts authentication, packets — learning their
    /// association lazily — and dissociation, which discards the
    /// association's state; connect and heartbeat are illegal here.
    pub fn accept_uni_stream(&mut self, buf: &Vec<u8>) -> (r: Result<Task, Error>)
        ensures
            final(self).next_pkt_id == old(self).next_pkt_id,
            final(self).connect_count == old(self).connect_count,
            match spec_dec_header(buf@) {
                HdrDec::Done(h, n) => match h {
                    HeaderView::Authenticate(token) => r matches Ok(Task::Authenticate(t)) && t@
                        == token && final(self).assocs@ == old(self).assocs@ && final(self).reassembly@ == old(self).reassembly@,
                    HeaderView::Packet(ph) => r matches Ok(Task::Packet(p)) && p.hdr@ == ph
                        && (p.src matches PacketSource::Streamed) && final(self).assocs@
                        == spec_register(old(self).assocs@, ph.assoc_id) && final(self).reassembly@ == old(self).reassembly@,
                    HeaderView::Dissociate(a) => r matches Ok(Task::Dissociate(x)) && x == a
                        && final(self).assocs@ == spec_deregister(old(self).assocs@, a) && final(self).reassembly@ == spec_drop_assoc(old(self).reassembly@, a),
                    HeaderView::Connect(_) => r matches Err(Error::BadCommandUniStream(c)) && c@
                        == "connect"@ && final(self).assocs@ == old(self).assocs@ && final(self).reassembly@ == old(self).reassembly@,
                    HeaderView::Heartbeat => r matches Err(Error::BadCommandUniStream(c)) && c@
                        == "heartbeat"@ && final(self).assocs@ == old(self).assocs@ && final(self).reassembly@ == old(self).reassembly@,
                },
                HdrDec::Truncated => r matches Err(Error::UnmarshalUniStream(e)) && e
                    == DecodeErr::Truncated && final(self).assocs@ == old(self).assocs@ && final(self).reassembly@ == old(self).reassembly@,
                HdrDec::BadVersion(v) => r matches Err(Error::UnmarshalUniStream(e)) && e
                    == DecodeErr::BadVersion(v) && final(self).assocs@ == old(self).assocs@
                    && final(self).reassembly@ == old(self).reassembly@,
                HdrDec::BadCommand(c) => r matches Err(Error::UnmarshalUniStream(e)) && e
                    == DecodeErr::BadCommand(c) && final(self).assocs@ == old(self).assocs@
                    && final(self).reassembly@ == old(self).reassembly@,
                HdrDec::BadAddrType(t) => r matches Err(Error::UnmarshalUniStream(e)) && e
                    == DecodeErr::BadAddressType(t) && final(self).assocs@ == old(self).assocs@
                    && final(self).reassembly@ == old(self).reassembly@,
            },
    {
        match decode_header(buf) {
            Err(e) => Err(Error::UnmarshalUniStream(e)),
            Ok((h, _n)) => match h {
                Header::Authenticate(token) => Ok(Task::Authenticate(token)),
                Header::Connect(_) => Err(Error::BadCommandUniStream("connect")),
                Header::Packet(ph) => {
                    register_u16(&mut self.assocs, ph.assoc_id);
                    Ok(Task::Packet(Packet { hdr: ph, src: PacketSource::Streamed }))
                }
                Header::Dissociate(a) => {
                    deregister_u16(&mut self.assocs, a);
                    self.reassembly.drop_assoc(a);
                    Ok(Task::Dissociate(a))
                }
                Header::Heartbeat => Err(Error::BadCommandUniStream("heartbeat")),
            },
        }
    }

    /// Classifies the decoded leading bytes of an inbound bidirectional
    /// stream. A server accepts only connect, yielding the session with
    /// the target address the header carried; everything else is illegal
    /// here.
    pub fn accept_bi_stream(&mut self, buf: &Vec<u8>) -> (r: Result<Task, Error>)
        ensures
            final(self).next_pkt_id == old(self).next_pkt_id,
            final(self).assocs@ == old(self).assocs@,
            final(self).reassembly@ == old(self).reassembly@,
            match spec_dec_header(buf@) {
                HdrDec::Done(h, n) => match h {
                    HeaderView::Connect(a) => r matches Ok(Task::Connect(s)) && s.addr@ == a
                        && final(self).connect_count == (if old(self).connect_count < usize::MAX {
                        old(self).connect_count + 1
                    } else {
                        old(self).connect_count as int
                    }),
                    HeaderView::Authenticate(_) => r matches Err(Error::BadCommandBiStream(c))
                        && c@ == "authenticate"@ && final(self).connect_count == old(self).connect_count,
                    HeaderView::Packet(_) => r matches Err(Error::BadCommandBiStream(c)) && c@
                        == "packet"@ && final(self).connect_count == old(self).connect_count,
                    HeaderView::Dissociate(_) => r matches Err(Error::BadCommandBiStream(c))
                        && c@ == "dissociate"@ && final(self).connect_count == old(self).connect_count,
                    HeaderView::Heartbeat => r matches Err(Error::BadCommandBiStream(c)) && c@
                        == "heartbeat"@ && final(self).connect_count == old(self).connect_count,
                },
                HdrDec::Truncated => r matches Err(Error::UnmarshalBiStream(e)) && e
                    == DecodeErr::Truncated && final(self).connect_count == old(self).connect_count,
                HdrDec::BadVersion(v) => r matches Err(Error::UnmarshalBiStream(e)) && e
                    == DecodeErr::BadVersion(v) && final(self).connect_count == old(self).connect_count,
                HdrDec::BadCommand(c) => r matches Err(Error::UnmarshalBiStream(e)) && e
                    == DecodeErr::BadCommand(c) && final(self).connect_count == old(self).connect_count,
                HdrDec::BadAddrType(t) => r matches Err(Error::UnmarshalBiStream(e)) && e
                    == DecodeErr::BadAddressType(t) && final(self).connect_count == old(self).connect_count,
            },
    {
        match decode_header(buf) {
            Err(e) => Err(Error::UnmarshalBiStream(e)),
            Ok((h, _n)) => match h {
                Header::Authenticate(_) => Err(Error::BadCommandBiStream("authenticate")),
                Header::Connect(addr) => {
                    self.connect_count = if self.connect_count < usize::MAX {
                        self.connect_count + 1
                    } else {
                        self.connect_count
                    };
                    Ok(Task::Connect(Connect { addr }))
                }
                Header::Packet(_) => Err(Error::BadCommandBiStream("packet")),
                Header::Dissociate(_) => Err(Error::BadCommandBiStream("dissociate")),
                Header::Heartbeat => Err(Error::BadCommandBiStream("heartbeat")),
            },
        }
    }

    /// Classifies one inbound datagram. A server accepts packets — learning
    /// their association lazily — and heartbeats; a payload declared longer
    /// than the bytes after the header is a length mismatch, reported
    /// before any task is produced. On every failure the original datagram
    /// rides back in the error.
    pub fn accept_datagram(&mut self, dg: Vec<u8>) -> (r: Result<Task, Error>)
        ensures
            final(self).next_pkt_id == old(self).next_pkt_id,
            final(self).connect_count == old(self).connect_count,
            final(self).reassembly@ == old(self).reassembly@,
            match spec_dec_header(dg@) {
                HdrDec::Done(h, n) => match h {
                    HeaderView::Packet(ph) => if ph.size as int > dg@.len() - n {
                        r matches Err(Error::PayloadLength(want, got)) && want == ph.size as int
                            && got == dg@.len() - n && final(self).assocs@ == old(self).assocs@
                    } else {
                        r matches Ok(Task::Packet(p)) && p.hdr@ == ph && (p.src
                            matches PacketSource::Native(d) && d@ == dg@.subrange(
                            n,
                            n + ph.size as int,
                        )) && final(self).assocs@ == spec_register(old(self).assocs@, ph.assoc_id)
                    },
                    HeaderView::Heartbeat => r matches Ok(Task::Heartbeat) && final(self).assocs@
                        == old(self).assocs@,
                    HeaderView::Authenticate(_) => r matches Err(Error::BadCommandDatagram(c, b))
                        && c@ == "authenticate"@ && b == dg && final(self).assocs@ == old(self).assocs@,
                    HeaderView::Connect(_) => r matches Err(Error::BadCommandDatagram(c, b))
                        && c@ == "connect"@ && b == dg && final(self).assocs@ == old(self).assocs@,
                    HeaderView::Dissociate(_) => r matches Err(Error::BadCommandDatagram(c, b))
                        && c@ == "dissociate"@ && b == dg && final(self).assocs@ == old(self).assocs@,
                },
                HdrDec::Truncated => r matches Err(Error::UnmarshalDatagram(e, b)) && e
                    == DecodeErr::Truncated && b == dg && final(self).assocs@ == old(self).assocs@,
                HdrDec::BadVersion(v) => r matches Err(Error::UnmarshalDatagram(e, b)) && e
                    == DecodeErr::BadVersion(v) && b == dg && final(self).assocs@ == old(self).assocs@,
                HdrDec::BadCommand(c) => r matches Err(Error::UnmarshalDatagram(e, b)) && e
                    == DecodeErr::BadCommand(c) && b == dg && final(self).assocs@ == old(self).assocs@,
                HdrDec::BadAddrType(t) => r matches Err(Error::UnmarshalDatagram(e, b)) && e
                    == DecodeErr::BadAddressType(t) && b == dg && final(self).assocs@ == old(self).assocs@,
            },
    {
        match decode_header(&dg) {
            Err(e) => Err(Error::UnmarshalDatagram(e, dg)),
            Ok((h, n)) => match h {
                Header::Authenticate(_) => Err(Error::BadCommandDatagram("authenticate", dg)),
                Header::Connect(_) => Err(Error::BadCommandDatagram("connect", dg)),
                Header::Packet(ph) => {
                    let rem = dg.len() - n;
                    let size = ph.size as usize;
                    if size > rem {
                        return Err(Error::PayloadLength(size, rem));
                    }
                    register_u16(&mut self.assocs, ph.assoc_id);
                    let payload = crate::address::copy_range(&dg, n, size);
                    Ok(Task::Packet(Packet { hdr: ph, src: PacketSource::Native(payload) }))
                }
                Header::Dissociate(_) => Err(Error::BadCommandDatagram("dissociate", dg)),
                Header::Heartbeat => Ok(Task::Heartbeat),
            },
        }
    }
}

impl Packet {
    /// Consumes a packet whose payload is already resident, handing it to
    /// reassembly: `None` buffers the fragment, `Some` is the completed
    /// payload with its target address and association id, exactly as
    /// `spec_insert` says.
    pub fn accept<Side>(self, conn: &mut Connection<Side>) -> (r: Result<
        Option<(Vec<u8>, Address, u16)>,
        Error,
    >)
        requires
            self.src matches PacketSource::Native(_),
        ensures
            final(conn).assocs@ == old(conn).assocs@,
            final(conn).next_pkt_id == old(conn).next_pkt_id,
            final(conn).connect_count == old(conn).connect_count,
            spec_accept_view(r) matches Option::Some(x) && exists|t: u64|
                #[trigger] spec_insert(
                    old(conn).reassembly@,
                    self.hdr.assoc_id,
                    self.hdr.pkt_id,
                    self.hdr.frag_total,
                    self.hdr.frag_id,
                    self.hdr.addr@,
                    spec_src_data(self.src),
                    t,
                ) == (final(conn).reassembly@, x),
    {
        let ghost g = self.hdr@;
        let ghost g_src = self.src;
        let ghost pre = conn.reassembly@;
        let Packet { hdr, src } = self;
        let data = match src {
            PacketSource::Native(d) => d,
            PacketSource::Streamed => vstd::pervasive::unreached(),
        };
        let ghost g_data = data@;
        let now = now_millis();
        let res = conn.reassembly.insert_fragment(
            hdr.assoc_id,
            hdr.pkt_id,
            hdr.frag_total,
            hdr.frag_id,
            hdr.addr,
            data,
            now,
        );
        proof {
            let step = spec_insert(
                pre,
                g.assoc_id,
                g.pkt_id,
                g.frag_total,
                g.frag_id,
                g.addr,
                g_data,
                now,
            );
            assert(pre == old(conn).reassembly@);
            assert(g_data == spec_src_data(g_src));
            assert(conn.reassembly@ == step.0);
        }
        match res {
            Result::Ok(out) => Result::Ok(out),
            Result::Err(e) => Result::Err(Error::Assemble(e)),
        }
    }

    /// Consumes a packet whose payload was read from its carrying stream:
    /// exactly one read of the declared length is expected, so any other
    /// count of bytes is a length mismatch and nothing reaches reassembly.
    pub fn accept_streamed<Side>(self, data: Vec<u8>, conn: &mut Connection<Side>) -> (r: Result<
        Option<(Vec<u8>, Address, u16)>,
        Error,
    >)
        requires
            self.src matches PacketSource::Streamed,
        ensures
            final(conn).assocs@ == old(conn).assocs@,
            final(conn).next_pkt_id == old(conn).next_pkt_id,
            final(conn).connect_count == old(conn).connect_count,
            data@.len() != self.hdr.size as int ==> (r matches Err(
                Error::PayloadLength(want, got),
            ) && want == self.hdr.size as int && got == data@.len() && final(conn).reassembly@
                == old(conn).reassembly@),
            data@.len() == self.hdr.size as int ==> (spec_accept_view(r)
                matches Option::Some(x) && exists|t: u64|
                #[trigger] spec_insert(
                    old(conn).reassembly@,
                    self.hdr.assoc_id,
                    self.hdr.pkt_id,
                    self.hdr.frag_total,
                    self.hdr.frag_id,
                    self.hdr.addr@,
                    data@,
                    t,
                ) == (final(conn).reassembly@, x)),
    {
        let ghost g = self.hdr@;
        let ghost pre = conn.reassembly@;
        let ghost g_data = data@;
        let Packet { hdr, src: _src } = self;
        if data.len() != hdr.size as usize {
            return Result::Err(Error::PayloadLength(hdr.size as usize, data.len()));
        }
        let now = now_millis();
        let res = conn.reassembly.insert_fragment(
            hdr.assoc_id,
            hdr.pkt_id,
            hdr.frag_total,
            hdr.frag_id,
            hdr.addr,
            data,
            now,
        );
        proof {
            let step = spec_insert(
                pre,
                g.assoc_id,
                g.pkt_id,
                g.frag_total,
                g.frag_id,
                g.addr,
                g_data,
                now,
            );
            assert(pre == old(conn).reassembly@);
            assert(conn.reassembly@ == step.0);
        }
        match res {
            Result::Ok(out) => Result::Ok(out),
            Result::Err(e) => Result::Err(Error::Assemble(e)),
        }
    }
}

} // verus!
