//! Outbound payload fragmentation. A payload too large for one channel
//! message is split into consecutive chunks of at most `m` bytes; chunk `i`
//! becomes fragment `i`, prefixed with a packet header that carries the
//! association id, the packet id, the fragment index and count, the chunk
//! size, and — on the first fragment only — the target address.

use vstd::prelude::*;
use vstd::arithmetic::div_mod::{
    lemma_fundamental_div_mod, lemma_fundamental_div_mod_converse, lemma_div_pos_is_pos,
};
use crate::address::{Address, AddrView};
use crate::header::{Header, HeaderView, PacketHeader, PktHdrView};

verus! {

/// How many chunks of size `m` a payload of `plen` bytes needs.
pub open spec fn spec_frag_count(plen: int, m: int) -> int {
    (plen + m - 1) / m
}

/// Chunk `i` of the payload: bytes `i*m` up to `(i+1)*m`, capped at the end.
pub open spec fn spec_chunk(p: Seq<u8>, m: int, i: int) -> Seq<u8> {
    p.subrange(i * m, if (i + 1) * m <= p.len() { (i + 1) * m } else { p.len() as int })
}

/// The address fragment `i` carries: the real target on the first fragment,
/// nothing on the rest.
pub open spec fn spec_frag_addr(addr: AddrView, i: int) -> AddrView {
    if i == 0 {
        addr
    } else {
        AddrView::Unspecified
    }
}

/// The header of fragment `i`.
pub open spec fn spec_frag_header(
    assoc_id: u16,
    pkt_id: u16,
    addr: AddrView,
    p: Seq<u8>,
    m: int,
    i: int,
) -> PktHdrView {
    PktHdrView {
        assoc_id,
        pkt_id,
        frag_total: spec_frag_count(p.len() as int, m) as u8,
        frag_id: i as u8,
        size: spec_chunk(p, m, i).len() as u16,
        addr: spec_frag_addr(addr, i),
    }
}

/// The complete wire message of fragment `i`: its header, then its chunk.
pub open spec fn spec_frag_wire(
    assoc_id: u16,
    pkt_id: u16,
    addr: AddrView,
    p: Seq<u8>,
    m: int,
    i: int,
) -> Seq<u8> {
    HeaderView::Packet(spec_frag_header(assoc_id, pkt_id, addr, p, m, i)).enc()
        + spec_chunk(p, m, i)
}

/// Bounds of the chunk count: the chunks cover the payload, and every chunk
/// but the last starts strictly inside it.
pub proof fn lemma_ceil_bounds(plen: int, m: int)
    requires
        m >= 1,
        plen >= 0,
    ensures
        spec_frag_count(plen, m) >= 0,
        spec_frag_count(plen, m) * m >= plen,
        plen > 0 ==> (spec_frag_count(plen, m) - 1) * m < plen,
        plen == 0 ==> spec_frag_count(plen, m) == 0,
        plen > 0 ==> spec_frag_count(plen, m) >= 1,
{
    lemma_div_pos_is_pos(plen + m - 1, m);
    lemma_fundamental_div_mod(plen + m - 1, m);
    vstd::arithmetic::div_mod::lemma_mod_bound(plen + m - 1, m);
    let q = spec_frag_count(plen, m);
    let r = (plen + m - 1) % m;
    assert(plen + m - 1 == m * q + r);
    assert(q * m == plen + m - 1 - r) by (nonlinear_arith)
        requires plen + m - 1 == m * q + r,
    ;
    assert((q - 1) * m == q * m - m) by (nonlinear_arith);
    if plen == 0 {
        assert(m * q + r == m - 1);
        if q >= 1 {
            assert(q * m >= m) by (nonlinear_arith)
                requires q >= 1, m >= 1,
            ;
            assert(false);
        }
        assert(q <= 0);
    }
}

/// The exec ceiling form `(plen - 1) / m + 1` agrees with `spec_frag_count`.
pub proof fn lemma_ceil_form(plen: int, m: int)
    requires
        m >= 1,
        plen >= 1,
    ensures
        spec_frag_count(plen, m) == (plen - 1) / m + 1,
{
    lemma_fundamental_div_mod(plen - 1, m);
    let q = (plen - 1) / m;
    let r = (plen - 1) % m;
    assert(plen - 1 == m * q + r);
    assert(plen + m - 1 == m * (q + 1) + r) by (nonlinear_arith)
        requires plen - 1 == m * q + r,
    ;
    lemma_fundamental_div_mod_converse(plen + m - 1, m, q + 1, r);
}

/// The chunks concatenated in index order, up to chunk `k`.
pub open spec fn spec_chunks_concat(p: Seq<u8>, m: int, k: int) -> Seq<u8>
    decreases k,
{
    if k <= 0 {
        Seq::empty()
    } else {
        spec_chunks_concat(p, m, k - 1) + spec_chunk(p, m, k - 1)
    }
}

proof fn lemma_chunks_concat_prefix(p: Seq<u8>, m: int, k: int)
    requires
        m >= 1,
        0 <= k <= spec_frag_count(p.len() as int, m),
    ensures
        spec_chunks_concat(p, m, k) == p.subrange(
            0,
            if k * m <= p.len() { k * m } else { p.len() as int },
        ),
    decreases k,
{
    let plen = p.len() as int;
    lemma_ceil_bounds(plen, m);
    if k == 0 {
        assert(spec_chunks_concat(p, m, 0) =~= p.subrange(0, 0));
    } else {
        lemma_chunks_concat_prefix(p, m, k - 1);
        let count = spec_frag_count(plen, m);
        assert((k - 1) * m < plen) by {
            assert((k - 1) * m <= (count - 1) * m) by (nonlinear_arith)
                requires k - 1 <= count - 1, m >= 1,
            ;
        }
        assert((k - 1) * m <= plen);
        assert(k * m == (k - 1) * m + m) by (nonlinear_arith);
        let hi = if k * m <= plen { k * m } else { plen };
        assert(spec_chunks_concat(p, m, k) =~= p.subrange(0, hi));
    }
}

/// Law: the chunks of a payload, concatenated in index order, are exactly
/// the payload.
pub proof fn lemma_chunks_concat(p: Seq<u8>, m: int)
    requires
        m >= 1,
    ensures
        spec_chunks_concat(p, m, spec_frag_count(p.len() as int, m)) == p,
{
    let plen = p.len() as int;
    let count = spec_frag_count(plen, m);
    lemma_ceil_bounds(plen, m);
    lemma_chunks_concat_prefix(p, m, count);
    assert(p.subrange(0, plen) =~= p);
}

/// Builds the wire message of every fragment of `payload`, in index order:
/// `spec_frag_count` messages, fragment `i` carrying chunk `i`, the address
/// only on fragment 0, and every message within `m` bytes of payload plus
/// its header.
pub fn build_fragments(
    assoc_id: u16,
    pkt_id: u16,
    addr: Address,
    payload: &Vec<u8>,
    m: usize,
) -> (r: Vec<Vec<u8>>)
    requires
        addr@.wf(),
        1 <= m <= 65535,
        spec_frag_count(payload@.len() as int, m as int) <= 255,
    ensures
        r@.len() == spec_frag_count(payload@.len() as int, m as int),
        forall|i: int|
            0 <= i < r@.len() ==> r@[i]@ == spec_frag_wire(
                assoc_id,
                pkt_id,
                addr@,
                payload@,
                m as int,
                i,
            ),
        forall|i: int| 0 <= i < r@.len() ==> r@[i]@.len() <= 10 + addr@.enc().len() + m,
{
    let ghost av = addr@;
    let ghost plen = payload@.len() as int;
    proof {
        lemma_ceil_bounds(plen, m as int);
    }
    let mut r: Vec<Vec<u8>> = Vec::new();
    let payload_len = payload.len();
    if payload_len == 0 {
        return r;
    }
    proof {
        lemma_ceil_form(plen, m as int);
    }
    let count = (payload_len - 1) / m + 1;
    assert(count == spec_frag_count(plen, m as int));
    let total = count as u8;

    // Fragment 0 carries the address.
    let end0 = if m <= payload_len {
        m
    } else {
        payload_len
    };
    let chunk0 = crate::address::copy_range(payload, 0, end0);
    assert(chunk0@ =~= spec_chunk(payload@, m as int, 0));
    let hdr0 = Header::Packet(
        PacketHeader {
            assoc_id,
            pkt_id,
            frag_total: total,
            frag_id: 0,
            size: chunk0.len() as u16,
            addr,
        },
    );
    assert(hdr0@ == HeaderView::Packet(spec_frag_header(assoc_id, pkt_id, av, payload@, m as int, 0)));
    let mut wire0 = hdr0.encode();
    wire0.extend_from_slice(chunk0.as_slice());
    assert(wire0@ == spec_frag_wire(assoc_id, pkt_id, av, payload@, m as int, 0));
    assert(wire0@.len() <= 10 + av.enc().len() + m);
    r.push(wire0);

    let mut i: usize = 1;
    let mut off: usize = m;
    while i < count
        invariant
            1 <= i <= count,
            off == i * m,
            1 <= m <= 65535,
            count == spec_frag_count(plen, m as int),
            total == count as u8,
            count <= 255,
            plen == payload@.len(),
            payload_len == plen,
            plen >= 1,
            av.wf(),
            r@.len() == i,
            forall|j: int|
                0 <= j < i ==> r@[j]@ == spec_frag_wire(assoc_id, pkt_id, av, payload@, m as int, j),
            forall|j: int| 0 <= j < i ==> r@[j]@.len() <= 10 + av.enc().len() + m,
        decreases count - i,
    {
        proof {
            lemma_ceil_bounds(plen, m as int);
            assert(i * m <= (count - 1) * m) by (nonlinear_arith)
                requires i <= count - 1, m >= 1,
            ;
            assert((count - 1) * m < plen);
            assert(off + m <= 256 * 65535) by (nonlinear_arith)
                requires off == i * m, i <= 255, 1 <= m <= 65535,
            ;
            assert((i + 1) * m == i * m + m) by (nonlinear_arith);
        }
        assert(off < payload_len);
        let end = if off + m <= payload_len {
            off + m
        } else {
            payload_len
        };
        let chunk = crate::address::copy_range(payload, off, end - off);
        assert(chunk@ =~= spec_chunk(payload@, m as int, i as int));
        let hdr = Header::Packet(
            PacketHeader {
                assoc_id,
                pkt_id,
                frag_total: total,
                frag_id: i as u8,
                size: chunk.len() as u16,
                addr: Address::Unspecified,
            },
        );
        assert(hdr@ == HeaderView::Packet(
            spec_frag_header(assoc_id, pkt_id, av, payload@, m as int, i as int),
        ));
        let mut wire = hdr.encode();
        wire.extend_from_slice(chunk.as_slice());
        assert(wire@ == spec_frag_wire(assoc_id, pkt_id, av, payload@, m as int, i as int));
        assert(av.enc().len() >= 1);
        assert(wire@.len() <= 10 + av.enc().len() + m);
        r.push(wire);
        i = i + 1;
        off = off + m;
    }
    r
}

} // verus!
