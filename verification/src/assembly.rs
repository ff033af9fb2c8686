//! Per-association reassembly of fragmented relay packets. Fragments of one
//! packet are keyed by (association id, packet id) and buffered until every
//! index has arrived; the completed payload is the chunks concatenated in
//! index order. A caller-driven sweep discards buffers that have been
//! waiting longer than a staleness bound.

use vstd::prelude::*;
use crate::address::{Address, AddrView};
use crate::error::AssembleError;

verus! {

/// The buffered fragments of one packet awaiting completion.
pub struct FragmentBuffer {
    pub assoc_id: u16,
    pub pkt_id: u16,
    pub frag_total: u8,
    /// Target address, learnt from fragment 0; unspecified until it arrives.
    pub addr: Address,
    /// One slot per fragment index.
    pub frags: Vec<Option<Vec<u8>>>,
    /// When this buffer was created, in milliseconds.
    pub created_at: u64,
}

/// Mathematical image of a `FragmentBuffer`.
pub struct BufView {
    pub assoc_id: u16,
    pub pkt_id: u16,
    pub frag_total: u8,
    pub addr: AddrView,
    pub frags: Seq<Option<Seq<u8>>>,
    pub created_at: u64,
}

/// The view of one fragment slot.
pub open spec fn spec_slot_view(o: Option<Vec<u8>>) -> Option<Seq<u8>> {
    match o {
        Option::Some(v) => Option::Some(v@),
        Option::None => Option::None,
    }
}

impl View for FragmentBuffer {
    type V = BufView;

    open spec fn view(&self) -> BufView {
        BufView {
            assoc_id: self.assoc_id,
            pkt_id: self.pkt_id,
            frag_total: self.frag_total,
            addr: self.addr@,
            frags: self.frags@.map_values(|o: Option<Vec<u8>>| spec_slot_view(o)),
            created_at: self.created_at,
        }
    }
}

/// All buffered fragments, in arrival order of their first fragment.
pub struct Reassembly {
    pub buffers: Vec<FragmentBuffer>,
}

impl View for Reassembly {
    type V = Seq<BufView>;

    open spec fn view(&self) -> Seq<BufView> {
        self.buffers@.map_values(|b: FragmentBuffer| b@)
    }
}

/// Whether a buffer holds fragments of the given packet.
pub open spec fn spec_is_key(b: BufView, assoc_id: u16, pkt_id: u16) -> bool {
    b.assoc_id == assoc_id && b.pkt_id == pkt_id
}

/// Index of the first buffer keyed by (assoc_id, pkt_id), if any.
pub open spec fn spec_find(bufs: Seq<BufView>, assoc_id: u16, pkt_id: u16) -> Option<int>
    decreases bufs.len(),
{
    if bufs.len() == 0 {
        Option::None
    } else if spec_is_key(bufs[0], assoc_id, pkt_id) {
        Option::Some(0)
    } else {
        match spec_find(bufs.skip(1), assoc_id, pkt_id) {
            Option::Some(j) => Option::Some(j + 1),
            Option::None => Option::None,
        }
    }
}

proof fn lemma_find_none(bufs: Seq<BufView>, assoc_id: u16, pkt_id: u16)
    requires
        forall|k: int| 0 <= k < bufs.len() ==> !spec_is_key(#[trigger] bufs[k], assoc_id, pkt_id),
    ensures
        spec_find(bufs, assoc_id, pkt_id) is None,
    decreases bufs.len(),
{
    if bufs.len() > 0 {
        lemma_find_none(bufs.skip(1), assoc_id, pkt_id);
    }
}

proof fn lemma_find_at(bufs: Seq<BufView>, assoc_id: u16, pkt_id: u16, j: int)
    requires
        0 <= j < bufs.len(),
        spec_is_key(bufs[j], assoc_id, pkt_id),
        forall|k: int| 0 <= k < j ==> !spec_is_key(#[trigger] bufs[k], assoc_id, pkt_id),
    ensures
        spec_find(bufs, assoc_id, pkt_id) == Option::Some(j),
    decreases bufs.len(),
{
    if j > 0 {
        lemma_find_at(bufs.skip(1), assoc_id, pkt_id, j - 1);
    }
}

/// Whether every fragment slot is filled.
pub open spec fn spec_buf_complete(b: BufView) -> bool {
    forall|k: int| 0 <= k < b.frags.len() ==> (#[trigger] b.frags[k]) is Some
}

/// The slots concatenated in index order; an empty slot contributes nothing.
pub open spec fn spec_concat_slots(fr: Seq<Option<Seq<u8>>>) -> Seq<u8>
    decreases fr.len(),
{
    if fr.len() == 0 {
        Seq::empty()
    } else {
        spec_concat_slots(fr.drop_last()) + (match fr.last() {
            Option::Some(d) => d,
            Option::None => Seq::empty(),
        })
    }
}

/// The buffer a first fragment creates: every slot empty but its own, and
/// the address known only if this is fragment 0.
pub open spec fn spec_fresh_buf(
    assoc_id: u16,
    pkt_id: u16,
    frag_total: u8,
    frag_id: u8,
    addr: AddrView,
    data: Seq<u8>,
    now: u64,
) -> BufView {
    BufView {
        assoc_id,
        pkt_id,
        frag_total,
        addr: if frag_id == 0 {
            addr
        } else {
            AddrView::Unspecified
        },
        frags: Seq::new(
            frag_total as nat,
            |k: int|
                if k == frag_id as int {
                    Option::Some(data)
                } else {
                    Option::None
                },
        ),
        created_at: now,
    }
}

/// What registering one fragment does: the new buffer sequence and the
/// result handed back. A completed packet's payload, address and
/// association id come out; an incomplete one is buffered; an impossible
/// fragment is rejected and the state left alone.
pub open spec fn spec_insert(
    bufs: Seq<BufView>,
    assoc_id: u16,
    pkt_id: u16,
    frag_total: u8,
    frag_id: u8,
    addr: AddrView,
    data: Seq<u8>,
    now: u64,
) -> (Seq<BufView>, Result<Option<(Seq<u8>, AddrView, u16)>, AssembleError>) {
    if frag_total == 0 || frag_id >= frag_total {
        (bufs, Result::Err(AssembleError::InvalidFragment))
    } else {
        match spec_find(bufs, assoc_id, pkt_id) {
            Option::None => {
                if frag_total == 1 {
                    (bufs, Result::Ok(Option::Some((data, addr, assoc_id))))
                } else {
                    (
                        bufs.push(
                            spec_fresh_buf(assoc_id, pkt_id, frag_total, frag_id, addr, data, now),
                        ),
                        Result::Ok(Option::None),
                    )
                }
            }
            Option::Some(j) => {
                let b = bufs[j];
                if b.frag_total != frag_total {
                    (bufs, Result::Err(AssembleError::FragmentMismatch))
                } else if frag_id as int >= b.frags.len() || b.frags[frag_id as int] is Some {
                    (bufs, Result::Err(AssembleError::DuplicateFragment))
                } else {
                    let b2 = BufView {
                        assoc_id: b.assoc_id,
                        pkt_id: b.pkt_id,
                        frag_total: b.frag_total,
                        addr: if frag_id == 0 {
                            addr
                        } else {
                            b.addr
                        },
                        frags: b.frags.update(frag_id as int, Option::Some(data)),
                        created_at: b.created_at,
                    };
                    if spec_buf_complete(b2) {
                        (
                            bufs.remove(j),
                            Result::Ok(Option::Some((spec_concat_slots(b2.frags), b2.addr, assoc_id))),
                        )
                    } else {
                        (bufs.update(j, b2), Result::Ok(Option::None))
                    }
                }
            }
        }
    }
}

/// Whether a buffer survives a sweep at time `now` with the given bound.
pub open spec fn spec_keep(b: BufView, now: u64, timeout: u64) -> bool {
    (if now >= b.created_at {
        now - b.created_at
    } else {
        0
    }) < timeout
}

/// The buffers surviving a sweep, in their original order.
pub open spec fn spec_sweep(bufs: Seq<BufView>, now: u64, timeout: u64) -> Seq<BufView>
    decreases bufs.len(),
{
    if bufs.len() == 0 {
        Seq::empty()
    } else {
        (if spec_keep(bufs[0], now, timeout) {
            seq![bufs[0]]
        } else {
            Seq::empty()
        }) + spec_sweep(bufs.skip(1), now, timeout)
    }
}

/// Law: a sweep with a zero bound discards every buffer, whatever the
/// clock reads.
pub proof fn lemma_sweep_zero(bufs: Seq<BufView>, now: u64)
    ensures
        spec_sweep(bufs, now, 0) == Seq::<BufView>::empty(),
    decreases bufs.len(),
{
    if bufs.len() > 0 {
        lemma_sweep_zero(bufs.skip(1), now);
        assert(spec_sweep(bufs, now, 0) =~= Seq::<BufView>::empty());
    }
}

/// The buffers of one association, dropped; the rest, in order.
pub open spec fn spec_drop_assoc(bufs: Seq<BufView>, assoc_id: u16) -> Seq<BufView>
    decreases bufs.len(),
{
    if bufs.len() == 0 {
        Seq::empty()
    } else {
        (if bufs[0].assoc_id == assoc_id {
            Seq::empty()
        } else {
            seq![bufs[0]]
        }) + spec_drop_assoc(bufs.skip(1), assoc_id)
    }
}

impl Reassembly {
    /// A state with nothing buffered.
    pub fn new() -> (r: Self)
        ensures
            r@ == Seq::<BufView>::empty(),
    {
        let r = Reassembly { buffers: Vec::new() };
        assert(r@ =~= Seq::<BufView>::empty());
        r
    }

    /// Index of the buffer holding this packet's fragments, if any.
    fn find(&self, assoc_id: u16, pkt_id: u16) -> (r: Option<usize>)
        ensures
            match r {
                Option::Some(j) => j < self@.len() && spec_find(self@, assoc_id, pkt_id)
                    == Option::Some(j as int),
                Option::None => spec_find(self@, assoc_id, pkt_id) is None,
            },
    {
        let mut i: usize = 0;
        while i < self.buffers.len()
            invariant
                i <= self@.len(),
                self@.len() == self.buffers@.len(),
                forall|k: int| 0 <= k < i ==> !spec_is_key(#[trigger] self@[k], assoc_id, pkt_id),
            decreases self@.len() - i,
        {
            if self.buffers[i].assoc_id == assoc_id && self.buffers[i].pkt_id == pkt_id {
                proof {
                    lemma_find_at(self@, assoc_id, pkt_id, i as int);
                }
                return Option::Some(i);
            }
            i = i + 1;
        }
        proof {
            lemma_find_none(self@, assoc_id, pkt_id);
        }
        Option::None
    }

    /// Registers one fragment: exactly the step `spec_insert` describes.
    /// A completed packet comes back as its payload, target address and
    /// association id; `None` means the fragment was buffered.
    pub fn insert_fragment(
        &mut self,
        assoc_id: u16,
        pkt_id: u16,
        frag_total: u8,
        frag_id: u8,
        addr: Address,
        data: Vec<u8>,
        now: u64,
    ) -> (r: Result<Option<(Vec<u8>, Address, u16)>, AssembleError>)
        ensures
            final(self)@ == spec_insert(
                old(self)@,
                assoc_id,
                pkt_id,
                frag_total,
                frag_id,
                addr@,
                data@,
                now,
            ).0,
            match r {
                Result::Ok(Option::None) => spec_insert(
                    old(self)@,
                    assoc_id,
                    pkt_id,
                    frag_total,
                    frag_id,
                    addr@,
                    data@,
                    now,
                ).1 == Result::<Option<(Seq<u8>, AddrView, u16)>, AssembleError>::Ok(
                    Option::None,
                ),
                Result::Ok(Option::Some((d, a, i))) => spec_insert(
                    old(self)@,
                    assoc_id,
                    pkt_id,
                    frag_total,
                    frag_id,
                    addr@,
                    data@,
                    now,
                ).1 == Result::<Option<(Seq<u8>, AddrView, u16)>, AssembleError>::Ok(
                    Option::Some((d@, a@, i)),
                ),
                Result::Err(e) => spec_insert(
                    old(self)@,
                    assoc_id,
                    pkt_id,
                    frag_total,
                    frag_id,
                    addr@,
                    data@,
                    now,
                ).1 == Result::<Option<(Seq<u8>, AddrView, u16)>, AssembleError>::Err(e),
            },
    {
        if frag_total == 0 || frag_id >= frag_total {
            return Result::Err(AssembleError::InvalidFragment);
        }
        match self.find(assoc_id, pkt_id) {
            Option::None => {
                if frag_total == 1 {
                    return Result::Ok(Option::Some((data, addr, assoc_id)));
                }
                let total = frag_total as usize;
                let id = frag_id as usize;
                let mut frags: Vec<Option<Vec<u8>>> = Vec::new();
                let mut k: usize = 0;
                while k < total
                    invariant
                        k <= total,
                        frags@.len() == k,
                        forall|j: int| 0 <= j < k ==> frags@[j] is None,
                    decreases total - k,
                {
                    frags.push(Option::None);
                    k = k + 1;
                }
                frags.remove(id);
                frags.insert(id, Option::Some(data));
                let fresh = FragmentBuffer {
                    assoc_id,
                    pkt_id,
                    frag_total,
                    addr: if frag_id == 0 {
                        addr
                    } else {
                        Address::Unspecified
                    },
                    frags,
                    created_at: now,
                };
                proof {
                    let ghost fv = spec_fresh_buf(
                        assoc_id,
                        pkt_id,
                        frag_total,
                        frag_id,
                        addr@,
                        data@,
                        now,
                    );
                    assert(fresh@.frags =~~= fv.frags);
                    assert(fresh@ == fv);
                }
                self.buffers.push(fresh);
                assert(final(self)@ =~~= spec_insert(
                    old(self)@,
                    assoc_id,
                    pkt_id,
                    frag_total,
                    frag_id,
                    addr@,
                    data@,
                    now,
                ).0);
                Result::Ok(Option::None)
            }
            Option::Some(j) => {
                let b = self.buffers.remove(j);
                let ghost bv = old(self)@[j as int];
                assert(b@ == bv);
                if b.frag_total != frag_total {
                    self.buffers.insert(j, b);
                    assert(final(self)@ =~~= old(self)@);
                    return Result::Err(AssembleError::FragmentMismatch);
                }
                let id = frag_id as usize;
                if id >= b.frags.len() || b.frags[id].is_some() {
                    assert(bv.frags.len() == b.frags@.len());
                    self.buffers.insert(j, b);
                    assert(final(self)@ =~~= old(self)@);
                    return Result::Err(AssembleError::DuplicateFragment);
                }
                let FragmentBuffer {
                    assoc_id: ba,
                    pkt_id: bp,
                    frag_total: bt,
                    addr: baddr,
                    frags: mut frags,
                    created_at: bc,
                } = b;
                frags.remove(id);
                frags.insert(id, Option::Some(data));
                let new_addr = if frag_id == 0 {
                    addr
                } else {
                    baddr
                };
                let ghost b2 = BufView {
                    assoc_id: bv.assoc_id,
                    pkt_id: bv.pkt_id,
                    frag_total: bv.frag_total,
                    addr: if frag_id == 0 {
                        addr@
                    } else {
                        bv.addr
                    },
                    frags: bv.frags.update(frag_id as int, Option::Some(data@)),
                    created_at: bv.created_at,
                };
                assert(frags@.map_values(|o: Option<Vec<u8>>| spec_slot_view(o)) =~~= b2.frags);

                let mut complete = true;
                let mut k: usize = 0;
                while k < frags.len()
                    invariant
                        k <= frags@.len(),
                        complete == (forall|x: int|
                            0 <= x < k ==> (#[trigger] frags@[x]) is Some),
                    decreases frags@.len() - k,
                {
                    if frags[k].is_none() {
                        complete = false;
                    }
                    k = k + 1;
                }
                proof {
                    assert forall|x: int| 0 <= x < b2.frags.len() implies (b2.frags[x] is Some
                        <==> frags@[x] is Some) by {
                        assert(b2.frags[x] == spec_slot_view(frags@[x]));
                    }
                }
                assert(complete == spec_buf_complete(b2));

                if complete {
                    let mut out: Vec<u8> = Vec::new();
                    let mut k2: usize = 0;
                    while k2 < frags.len()
                        invariant
                            k2 <= frags@.len(),
                            b2.frags == frags@.map_values(
                                |o: Option<Vec<u8>>| spec_slot_view(o),
                            ),
                            b2.frags.len() == frags@.len(),
                            out@ == spec_concat_slots(b2.frags.take(k2 as int)),
                        decreases frags@.len() - k2,
                    {
                        match &frags[k2] {
                            Option::Some(v) => {
                                out.extend_from_slice(v.as_slice());
                            }
                            Option::None => {}
                        }
                        assert(b2.frags.take(k2 + 1 as int).drop_last() =~~= b2.frags.take(
                            k2 as int,
                        ));
                        assert(b2.frags.take(k2 + 1 as int).last() == b2.frags[k2 as int]);
                        k2 = k2 + 1;
                    }
                    assert(b2.frags.take(b2.frags.len() as int) =~~= b2.frags);
                    assert(final(self)@ =~~= old(self)@.remove(j as int));
                    Result::Ok(Option::Some((out, new_addr, assoc_id)))
                } else {
                    self.buffers.insert(
                        j,
                        FragmentBuffer {
                            assoc_id: ba,
                            pkt_id: bp,
                            frag_total: bt,
                            addr: new_addr,
                            frags,
                            created_at: bc,
                        },
                    );
                    assert(final(self)@ =~~= old(self)@.update(j as int, b2));
                    Result::Ok(Option::None)
                }
            }
        }
    }

    /// Discards every buffer whose age at `now` reaches `timeout`
    /// milliseconds; survivors keep their order.
    pub fn sweep(&mut self, now: u64, timeout: u64)
        ensures
            final(self)@ == spec_sweep(old(self)@, now, timeout),
    {
        let mut kept: Vec<FragmentBuffer> = Vec::new();
        let ghost orig = self@;
        while self.buffers.len() > 0
            invariant
                spec_sweep(orig, now, timeout) == kept@.map_values(|b: FragmentBuffer| b@)
                    + spec_sweep(
                    self.buffers@.map_values(|b: FragmentBuffer| b@),
                    now,
                    timeout,
                ),
            decreases self.buffers@.len(),
        {
            let ghost pre = self.buffers@.map_values(|b: FragmentBuffer| b@);
            let b = self.buffers.remove(0);
            assert(self.buffers@.map_values(|b: FragmentBuffer| b@) =~~= pre.skip(1));
            let age = if now >= b.created_at {
                now - b.created_at
            } else {
                0
            };
            if age < timeout {
                let ghost kv = kept@.map_values(|b: FragmentBuffer| b@);
                kept.push(b);
                assert(kept@.map_values(|b: FragmentBuffer| b@) =~~= kv + seq![pre[0]]);
            }
        }
        assert(self.buffers@.map_values(|b: FragmentBuffer| b@).len() == 0);
        let ghost kv = kept@.map_values(|b: FragmentBuffer| b@);
        assert(spec_sweep(orig, now, timeout) =~~= kv);
        self.buffers = kept;
        assert(final(self)@ =~~= kv);
    }

    /// Discards every buffer of one association; survivors keep their
    /// order.
    pub fn drop_assoc(&mut self, assoc_id: u16)
        ensures
            final(self)@ == spec_drop_assoc(old(self)@, assoc_id),
    {
        let mut kept: Vec<FragmentBuffer> = Vec::new();
        let ghost orig = self@;
        while self.buffers.len() > 0
            invariant
                spec_drop_assoc(orig, assoc_id) == kept@.map_values(|b: FragmentBuffer| b@)
                    + spec_drop_assoc(
                    self.buffers@.map_values(|b: FragmentBuffer| b@),
                    assoc_id,
                ),
            decreases self.buffers@.len(),
        {
            let ghost pre = self.buffers@.map_values(|b: FragmentBuffer| b@);
            let b = self.buffers.remove(0);
            assert(self.buffers@.map_values(|b: FragmentBuffer| b@) =~~= pre.skip(1));
            if b.assoc_id != assoc_id {
                let ghost kv = kept@.map_values(|b: FragmentBuffer| b@);
                kept.push(b);
                assert(kept@.map_values(|b: FragmentBuffer| b@) =~~= kv + seq![pre[0]]);
            }
        }
        assert(self.buffers@.map_values(|b: FragmentBuffer| b@).len() == 0);
        let ghost kv = kept@.map_values(|b: FragmentBuffer| b@);
        assert(spec_drop_assoc(orig, assoc_id) =~~= kv);
        self.buffers = kept;
        assert(final(self)@ =~~= kv);
    }

    /// How many packets are currently buffered.
    pub fn len(&self) -> (n: usize)
        ensures
            n == self@.len(),
    {
        self.buffers.len()
    }
}

} // verus!
