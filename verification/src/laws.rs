//! The reassembly round-trip law: feeding every fragment of a payload to
//! the reassembly state, in any order, yields exactly the original payload,
//! its target address and its association id on the last fragment, and
//! nothing before that.

use vstd::prelude::*;
use vstd::set_lib::lemma_int_range;
use vstd::set_lib::lemma_len_subset;
use vstd::set_lib::set_int_range;
use crate::address::AddrView;
use crate::assembly::{spec_buf_complete, spec_concat_slots, spec_insert, BufView};
use crate::error::AssembleError;
use crate::fragment::{
    lemma_chunks_concat, spec_chunk, spec_chunks_concat, spec_frag_addr, spec_frag_count,
    spec_frag_header, spec_frag_wire,
};
use crate::header::{spec_dec_header, HdrDec, HeaderView};

verus! {

/// Law: the wire message of fragment `i` decodes back to exactly the
/// header whose fields reassembly consumes, and the bytes after the header
/// are exactly chunk `i`, whose length the header's size field declares.
pub proof fn lemma_frag_wire_decodes(
    assoc_id: u16,
    pkt_id: u16,
    addr: AddrView,
    p: Seq<u8>,
    m: int,
    i: int,
)
    requires
        addr.wf(),
        1 <= m <= 65535,
        0 <= i < spec_frag_count(p.len() as int, m),
        spec_frag_count(p.len() as int, m) <= 255,
    ensures
        ({
            let w = spec_frag_wire(assoc_id, pkt_id, addr, p, m, i);
            let h = spec_frag_header(assoc_id, pkt_id, addr, p, m, i);
            let n = HeaderView::Packet(h).enc().len() as int;
            &&& spec_dec_header(w) == HdrDec::Done(HeaderView::Packet(h), n)
            &&& w.skip(n) == spec_chunk(p, m, i)
            &&& h.size as int == spec_chunk(p, m, i).len()
            &&& h.frag_total as int == spec_frag_count(p.len() as int, m)
            &&& h.frag_id as int == i
            &&& h.addr == spec_frag_addr(addr, i)
        }),
{
    let chunk = spec_chunk(p, m, i);
    let h = spec_frag_header(assoc_id, pkt_id, addr, p, m, i);
    let count = spec_frag_count(p.len() as int, m);
    crate::fragment::lemma_ceil_bounds(p.len() as int, m);
    assert(i * m >= 0 && (i + 1) * m <= count * m) by (nonlinear_arith)
        requires 0 <= i < count, m >= 1,
    ;
    assert(p.len() > 0);
    assert(i * m <= (count - 1) * m) by (nonlinear_arith)
        requires i <= count - 1, m >= 1,
    ;
    assert(i * m < p.len());
    assert(chunk.len() <= m) by {
        assert((i + 1) * m == i * m + m) by (nonlinear_arith);
    }
    assert(h.size as int == chunk.len());
    assert(h.frag_total as int == count);
    assert(h.frag_id as int == i);
    assert(h.wf());
    crate::header::lemma_header_round_trip(HeaderView::Packet(h), chunk);
    let w = spec_frag_wire(assoc_id, pkt_id, addr, p, m, i);
    let n = HeaderView::Packet(h).enc().len() as int;
    assert(w.skip(n) =~= chunk);
}

/// One reassembly step for fragment `i` of a payload, with the header
/// fields and chunk exactly as fragmentation produces them.
pub open spec fn spec_step(
    bufs: Seq<BufView>,
    assoc_id: u16,
    pkt_id: u16,
    addr: AddrView,
    p: Seq<u8>,
    m: int,
    i: int,
    now: u64,
) -> (Seq<BufView>, Result<Option<(Seq<u8>, AddrView, u16)>, AssembleError>) {
    spec_insert(
        bufs,
        assoc_id,
        pkt_id,
        spec_frag_count(p.len() as int, m) as u8,
        i as u8,
        spec_frag_addr(addr, i),
        spec_chunk(p, m, i),
        now,
    )
}

/// The state and last result after inserting the fragments listed in
/// `order`, in that order, starting from `bufs`.
pub open spec fn spec_run(
    bufs: Seq<BufView>,
    assoc_id: u16,
    pkt_id: u16,
    addr: AddrView,
    p: Seq<u8>,
    m: int,
    order: Seq<int>,
    now: u64,
) -> (Seq<BufView>, Result<Option<(Seq<u8>, AddrView, u16)>, AssembleError>)
    decreases order.len(),
{
    if order.len() == 0 {
        (bufs, Result::Ok(Option::None))
    } else {
        let prev = spec_run(bufs, assoc_id, pkt_id, addr, p, m, order.drop_last(), now);
        spec_step(prev.0, assoc_id, pkt_id, addr, p, m, order.last(), now)
    }
}

/// The single buffer standing after the fragments listed in `done` have
/// arrived: slot `j` filled exactly for the listed indices, the address
/// known exactly when fragment 0 is among them.
pub open spec fn spec_partial_buf(
    assoc_id: u16,
    pkt_id: u16,
    addr: AddrView,
    p: Seq<u8>,
    m: int,
    done: Seq<int>,
    now: u64,
) -> BufView {
    let count = spec_frag_count(p.len() as int, m);
    BufView {
        assoc_id,
        pkt_id,
        frag_total: count as u8,
        addr: if done.contains(0) {
            addr
        } else {
            AddrView::Unspecified
        },
        frags: Seq::new(
            count as nat,
            |j: int|
                if done.contains(j) {
                    Option::Some(spec_chunk(p, m, j))
                } else {
                    Option::None
                },
        ),
        created_at: now,
    }
}

proof fn lemma_missing_index(done: Seq<int>, count: int)
    requires
        done.no_duplicates(),
        forall|a: int| 0 <= a < done.len() ==> 0 <= #[trigger] done[a] < count,
        done.len() < count,
    ensures
        exists|j: int| 0 <= j < count && !done.contains(j),
{
    broadcast use vstd::seq_lib::group_seq_lib_default;

    if forall|j: int| 0 <= j < count ==> done.contains(j) {
        lemma_int_range(0, count);
        done.unique_seq_to_set();
        assert(set_int_range(0, count).subset_of(done.to_set()));
        lemma_len_subset(set_int_range(0, count), done.to_set());
        assert(false);
    }
}

proof fn lemma_all_indices(done: Seq<int>, count: int)
    requires
        done.no_duplicates(),
        forall|a: int| 0 <= a < done.len() ==> 0 <= #[trigger] done[a] < count,
        done.len() == count,
    ensures
        forall|j: int| 0 <= j < count ==> done.contains(j),
{
    broadcast use vstd::seq_lib::group_seq_lib_default;

    assert forall|j: int| 0 <= j < count implies done.contains(j) by {
        if !done.contains(j) {
            lemma_int_range(0, count);
            done.unique_seq_to_set();
            let reduced = set_int_range(0, count).remove(j);
            assert(done.to_set().subset_of(reduced));
            lemma_len_subset(done.to_set(), reduced);
            assert(false);
        }
    }
}

proof fn lemma_run_partial(
    assoc_id: u16,
    pkt_id: u16,
    addr: AddrView,
    p: Seq<u8>,
    m: int,
    order: Seq<int>,
    now: u64,
    k: int,
)
    requires
        m >= 1,
        p.len() > 0,
        spec_frag_count(p.len() as int, m) <= 255,
        order.len() == spec_frag_count(p.len() as int, m),
        order.no_duplicates(),
        forall|a: int| 0 <= a < order.len() ==> 0 <= #[trigger] order[a] < order.len(),
        1 <= k < order.len(),
    ensures
        spec_run(Seq::empty(), assoc_id, pkt_id, addr, p, m, order.take(k), now) == (
            seq![spec_partial_buf(assoc_id, pkt_id, addr, p, m, order.take(k), now)],
            Result::<Option<(Seq<u8>, AddrView, u16)>, AssembleError>::Ok(Option::None),
        ),
    decreases k,
{
    let count = spec_frag_count(p.len() as int, m);
    let done = order.take(k);
    let prev_done = order.take(k - 1);
    let i = order[k - 1];
    assert(done.drop_last() =~= prev_done);
    assert(done.last() == i);
    assert(0 <= i < count);
    assert(i as u8 as int == i);
    assert(count as u8 as int == count);

    if k == 1 {
        assert(prev_done.len() == 0);
        assert(spec_run(Seq::empty(), assoc_id, pkt_id, addr, p, m, prev_done, now).0
            =~= Seq::<BufView>::empty());
        // The first fragment creates a fresh buffer (the packet has at
        // least two fragments, so nothing completes).
        let stepped = spec_step(Seq::empty(), assoc_id, pkt_id, addr, p, m, i, now);
        let b = spec_partial_buf(assoc_id, pkt_id, addr, p, m, done, now);
        assert(!done.contains(0) ==> i != 0);
        assert(stepped.0[0].frags =~= b.frags);
        assert(stepped.0 =~~= seq![b]);
    } else {
        lemma_run_partial(assoc_id, pkt_id, addr, p, m, order, now, k - 1);
        let b_prev = spec_partial_buf(assoc_id, pkt_id, addr, p, m, prev_done, now);
        let pre = seq![b_prev];
        // The fragment's slot is still empty: its index is new in `done`.
        assert(forall|a: int| 0 <= a < k - 1 ==> order[a] != i);
        assert(!prev_done.contains(i));
        assert(b_prev.frags[i] is None);
        let b2 = BufView {
            assoc_id: b_prev.assoc_id,
            pkt_id: b_prev.pkt_id,
            frag_total: b_prev.frag_total,
            addr: if i as u8 == 0 {
                spec_frag_addr(addr, i)
            } else {
                b_prev.addr
            },
            frags: b_prev.frags.update(i, Option::Some(spec_chunk(p, m, i))),
            created_at: b_prev.created_at,
        };
        let b_now = spec_partial_buf(assoc_id, pkt_id, addr, p, m, done, now);
        assert(forall|j: int| #[trigger] done.contains(j) <==> (prev_done.contains(j) || j == i))
            by {
            assert(done =~= prev_done + seq![i]);
        }
        assert(b2.frags =~= b_now.frags);
        assert(b2.addr == b_now.addr);
        // Fewer fragments than the count have arrived, so a slot is empty.
        lemma_missing_index(done, count);
        let missing = choose|j: int| 0 <= j < count && !done.contains(j);
        assert(b2.frags[missing] is None);
        assert(!spec_buf_complete(b2));
        let stepped = spec_step(pre, assoc_id, pkt_id, addr, p, m, i, now);
        assert(stepped.0 =~~= seq![b_now]);
    }
}

proof fn lemma_concat_of_all_chunks(p: Seq<u8>, m: int, n: int)
    requires
        m >= 1,
        0 <= n,
    ensures
        spec_concat_slots(
            Seq::new(n as nat, |j: int| Option::Some(spec_chunk(p, m, j))),
        ) == spec_chunks_concat(p, m, n),
    decreases n,
{
    let s = Seq::new(n as nat, |j: int| Option::Some(spec_chunk(p, m, j)));
    if n > 0 {
        lemma_concat_of_all_chunks(p, m, n - 1);
        assert(s.drop_last() =~= Seq::new((n - 1) as nat, |j: int| Option::Some(
            spec_chunk(p, m, j),
        )));
        assert(s.last() == Option::Some(spec_chunk(p, m, n - 1)));
    }
}

/// Law: for every payload, fragment size bound and association, inserting
/// the packet's fragments in any order leaves earlier steps pending and
/// hands back, on the last fragment, exactly the payload, the address and
/// the association id, with no buffer left behind.
pub proof fn lemma_fragments_reassemble(
    assoc_id: u16,
    pkt_id: u16,
    addr: AddrView,
    p: Seq<u8>,
    m: int,
    order: Seq<int>,
    now: u64,
)
    requires
        m >= 1,
        p.len() > 0,
        spec_frag_count(p.len() as int, m) <= 255,
        order.len() == spec_frag_count(p.len() as int, m),
        order.no_duplicates(),
        forall|a: int| 0 <= a < order.len() ==> 0 <= #[trigger] order[a] < order.len(),
    ensures
        spec_run(Seq::empty(), assoc_id, pkt_id, addr, p, m, order, now) == (
            Seq::<BufView>::empty(),
            Result::<Option<(Seq<u8>, AddrView, u16)>, AssembleError>::Ok(
                Option::Some((p, addr, assoc_id)),
            ),
        ),
        forall|k: int|
            1 <= k < order.len() ==> (#[trigger] spec_run(
                Seq::empty(),
                assoc_id,
                pkt_id,
                addr,
                p,
                m,
                order.take(k),
                now,
            )).1 == Result::<Option<(Seq<u8>, AddrView, u16)>, AssembleError>::Ok(Option::None),
{
    let count = spec_frag_count(p.len() as int, m);
    crate::fragment::lemma_ceil_bounds(p.len() as int, m);
    assert(count >= 1);

    if count == 1 {
        assert(order[0] == 0);
        assert(order =~= seq![0int]);
        assert(order.drop_last() =~= Seq::<int>::empty());
        assert(count * m == m) by (nonlinear_arith)
            requires count == 1,
        ;
        assert(m >= p.len());
        assert(0 * m == 0) by (nonlinear_arith);
        assert((0 + 1) * m == m) by (nonlinear_arith);
        assert(spec_chunk(p, m, 0) =~= p);
    } else {
        lemma_run_partial(assoc_id, pkt_id, addr, p, m, order, now, count - 1);
        let prev_done = order.take(count - 1);
        let b_prev = spec_partial_buf(assoc_id, pkt_id, addr, p, m, prev_done, now);
        let i = order[count - 1];
        assert(order.take(count) =~= order);
        assert(order.drop_last() =~= prev_done);
        assert(order.last() == i);
        assert(0 <= i < count);
        assert(i as u8 as int == i);
        assert(count as u8 as int == count);
        assert(forall|a: int| 0 <= a < count - 1 ==> order[a] != i);
        assert(!prev_done.contains(i));
        assert(b_prev.frags[i] is None);
        let b2 = BufView {
            assoc_id: b_prev.assoc_id,
            pkt_id: b_prev.pkt_id,
            frag_total: b_prev.frag_total,
            addr: if i as u8 == 0 {
                spec_frag_addr(addr, i)
            } else {
                b_prev.addr
            },
            frags: b_prev.frags.update(i, Option::Some(spec_chunk(p, m, i))),
            created_at: b_prev.created_at,
        };
        let full = Seq::new(count as nat, |j: int| Option::Some(spec_chunk(p, m, j)));
        lemma_all_indices(order, count);
        assert(forall|j: int| #[trigger] order.contains(j) <==> (prev_done.contains(j) || j == i))
            by {
            assert(order =~= prev_done + seq![i]);
        }
        assert forall|j: int| 0 <= j < count implies b2.frags[j] == full[j] by {
            if j != i {
                assert(order.contains(j));
                assert(prev_done.contains(j) || j == i);
            }
        }
        assert(b2.frags =~= full);
        assert(spec_buf_complete(b2));
        assert(order.contains(0));
        assert(b2.addr == addr);
        lemma_concat_of_all_chunks(p, m, count);
        lemma_chunks_concat(p, m);
        assert(spec_concat_slots(b2.frags) == p);
        assert(seq![b_prev].remove(0) =~= Seq::<BufView>::empty());
        assert forall|k: int| 1 <= k < order.len() implies (#[trigger] spec_run(
            Seq::empty(),
            assoc_id,
            pkt_id,
            addr,
            p,
            m,
            order.take(k),
            now,
        )).1 == Result::<Option<(Seq<u8>, AddrView, u16)>, AssembleError>::Ok(Option::None) by {
            lemma_run_partial(assoc_id, pkt_id, addr, p, m, order, now, k);
        }
    }
}

} // verus!
