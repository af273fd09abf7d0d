//! Putting the segments of one direction of a TCP connection back in order.
//!
//! Data is delivered in order, retransmissions are dropped, and segments that arrive
//! ahead of a gap are held until the gap closes, or until so much is held that the
//! missing segment will never come.
use vstd::prelude::*;
use vstd::slice::slice_to_vec;

verus! {

/// Cap on out-of-order bytes held per direction. Normal reordering settles within a
/// handful of segments; passing this means a segment was lost before the capture saw
/// it, so the stream is resynced past the hole rather than stalled.
pub const OOO_BYTES_CAP: u64 = 262_144;

// --- sequence numbers ---------------------------------------------------------------

/// `a + n` in the wrapping space of sequence numbers.
pub open spec fn seq_add(a: u32, n: int) -> u32 {
    ((a + n) % 0x1_0000_0000) as u32
}

/// The signed distance from `b` to `a` in the wrapping space of sequence numbers.
pub open spec fn seq_ahead(a: u32, b: u32) -> int {
    let up = (a - b) % 0x1_0000_0000;
    if up < 0x8000_0000 {
        up
    } else {
        up - 0x1_0000_0000
    }
}

/// `a + n` in the wrapping space of sequence numbers.
fn advance(a: u32, n: usize) -> (r: u32)
    ensures
        r == seq_add(a, n as int),
{
    let low: u32 = (n as u64 % 0x1_0000_0000) as u32;
    proof {
        assert((a + n as int) % 0x1_0000_0000 == (a + low as int) % 0x1_0000_0000) by (nonlinear_arith)
            requires
                low as int == n as int % 0x1_0000_0000,
        ;
    }
    a.wrapping_add(low)
}

/// The signed distance from `b` to `a`.
fn distance(a: u32, b: u32) -> (r: i64)
    ensures
        r == seq_ahead(a, b),
        -0x8000_0000 <= r < 0x8000_0000,
{
    let up: u32 = a.wrapping_sub(b);
    if up < 0x8000_0000 {
        up as i64
    } else {
        up as i64 - 0x1_0000_0000
    }
}

// --- held segments --------------------------------------------------------------------

/// A segment that arrived ahead of a gap.
pub struct HeldSegment {
    pub start: u32,
    pub data: Vec<u8>,
}

/// What a [`HeldSegment`] holds.
pub struct Held {
    pub start: u32,
    pub data: Seq<u8>,
}

impl View for HeldSegment {
    type V = Held;

    open spec fn view(&self) -> Held {
        Held { start: self.start, data: self.data@ }
    }
}

/// The segments of a list.
pub open spec fn held_views(v: Seq<HeldSegment>) -> Seq<Held> {
    v.map_values(|h: HeldSegment| h@)
}

/// Ordered by sequence number, none twice.
pub open spec fn in_order(held: Seq<Held>) -> bool {
    forall|i: int, j: int| 0 <= i < j < held.len() ==> held[i].start < held[j].start
}

/// How many bytes are held in all.
pub open spec fn total(held: Seq<Held>) -> nat
    decreases held.len(),
{
    if held.len() == 0 {
        0
    } else {
        total(held.drop_last()) + held.last().data.len()
    }
}

/// How many segments start before `seq`.
pub open spec fn starts_before(held: Seq<Held>, seq: int) -> nat
    decreases held.len(),
{
    if held.len() == 0 {
        0
    } else if held.last().start < seq {
        held.len()
    } else {
        starts_before(held.drop_last(), seq)
    }
}

/// The held segments with one more. Of two that start at the same sequence number
/// the longer is kept: a shorter retransmit must not clobber data already held.
pub open spec fn inserted(held: Seq<Held>, h: Held) -> Seq<Held> {
    let i = starts_before(held, h.start as int) as int;
    if i < held.len() && held[i].start == h.start {
        if h.data.len() > held[i].data.len() {
            held.update(i, h)
        } else {
            held
        }
    } else {
        held.insert(i, h)
    }
}

/// What draining comes to: what stays held, the position reached and the bytes
/// delivered on the way.
pub struct Drained {
    pub held: Seq<Held>,
    pub next: u32,
    pub data: Seq<u8>,
}

/// Delivers every held segment that overlaps or abuts the position `adv`, and drops
/// those that lie behind it, from the last that starts at or before it on. A segment
/// more than half the sequence space behind lies across the wrap of the sequence
/// numbers instead, and draining stops there.
pub open spec fn drained(held: Seq<Held>, adv: u32) -> Drained
    decreases held.len(),
{
    let n = starts_before(held, adv + 1) as int;
    if n == 0 || n > held.len() {
        Drained { held, next: adv, data: Seq::empty() }
    } else {
        let h = held[n - 1];
        let end = seq_add(h.start, h.data.len() as int);
        if seq_ahead(end, adv) <= 0 {
            drained(held.remove(n - 1), adv)
        } else if adv - h.start > h.data.len() {
            Drained { held, next: adv, data: Seq::empty() }
        } else {
            let rest = drained(held.remove(n - 1), end);
            Drained { data: h.data.skip(adv - h.start) + rest.data, ..rest }
        }
    }
}

// --- properties of held segments ----------------------------------------------------------

proof fn lemma_starts_before(held: Seq<Held>, seq: int)
    requires
        in_order(held),
    ensures
        starts_before(held, seq) <= held.len(),
        forall|i: int|
            0 <= i < starts_before(held, seq) ==> (#[trigger] held[i]).start < seq,
        forall|i: int|
            starts_before(held, seq) <= i < held.len() ==> (#[trigger] held[i]).start >= seq,
    decreases held.len(),
{
    if held.len() > 0 && held.last().start >= seq {
        lemma_starts_before(held.drop_last(), seq);
        assert forall|i: int| starts_before(held, seq) <= i < held.len() implies (
        #[trigger] held[i]).start >= seq by {
            if i < held.len() - 1 {
                assert(held.drop_last()[i] == held[i]);
            }
        }
        assert forall|i: int| 0 <= i < starts_before(held, seq) implies (
        #[trigger] held[i]).start < seq by {
            assert(held.drop_last()[i] == held[i]);
        }
    } else if held.len() > 0 {
        assert forall|i: int| 0 <= i < held.len() implies (#[trigger] held[i]).start < seq by {
            if i < held.len() - 1 {
                assert(held[i].start < held[held.len() - 1].start);
            }
        }
    }
}

proof fn lemma_total_insert(held: Seq<Held>, i: int, h: Held)
    requires
        0 <= i <= held.len(),
    ensures
        total(held.insert(i, h)) == total(held) + h.data.len(),
    decreases held.len(),
{
    let more = held.insert(i, h);
    if i == held.len() {
        assert(more.drop_last() =~= held);
    } else {
        lemma_total_insert(held.drop_last(), i, h);
        assert(more.drop_last() =~= held.drop_last().insert(i, h));
        assert(more.last() == held.last());
    }
}

proof fn lemma_total_remove(held: Seq<Held>, i: int)
    requires
        0 <= i < held.len(),
    ensures
        total(held.remove(i)) + held[i].data.len() == total(held),
{
    lemma_total_insert(held.remove(i), i, held[i]);
    assert(held.remove(i).insert(i, held[i]) =~= held);
}

proof fn lemma_total_bound(held: Seq<Held>)
    requires
        in_order(held),
        forall|i: int| 0 <= i < held.len() ==> (#[trigger] held[i]).data.len() <= 0xffff_ffff,
    ensures
        total(held) <= held.len() * 0xffff_ffff,
        held.len() > 0 ==> held.len() <= held.last().start + 1,
        total(held) <= 0x1_0000_0000 * 0xffff_ffff,
    decreases held.len(),
{
    if held.len() > 0 {
        let less = held.drop_last();
        assert forall|i: int| 0 <= i < less.len() implies (#[trigger] less[i]).data.len()
            <= 0xffff_ffff by {
            assert(less[i] == held[i]);
        }
        lemma_total_bound(less);
        if less.len() > 0 {
            assert(less.last() == held[held.len() - 2]);
        }
    }
}

/// Inserting keeps the order.
pub proof fn inserted_in_order(held: Seq<Held>, h: Held)
    requires
        in_order(held),
    ensures
        in_order(inserted(held, h)),
        inserted(held, h).len() > 0,
{
    lemma_starts_before(held, h.start as int);
    let i = starts_before(held, h.start as int) as int;
    let more = inserted(held, h);
    if i < held.len() && held[i].start == h.start {
    } else {
        assert forall|a: int, b: int| 0 <= a < b < more.len() implies more[a].start
            < more[b].start by {
            if b < i {
                assert(held[a].start < held[b].start);
            } else if b == i {
                assert(held[a].start < h.start);
            } else if a < i {
                assert(held[a].start < held[b - 1].start);
            } else if a == i {
                assert(held[b - 1].start >= h.start);
                if b - 1 > i {
                    assert(held[i].start < held[b - 1].start);
                }
            } else {
                assert(held[a - 1].start < held[b - 1].start);
            }
        }
    }
}

proof fn lemma_remove_in_order(held: Seq<Held>, i: int)
    requires
        in_order(held),
        0 <= i < held.len(),
    ensures
        in_order(held.remove(i)),
{
    let less = held.remove(i);
    assert forall|a: int, b: int| 0 <= a < b < less.len() implies less[a].start
        < less[b].start by {
        let x = if a < i {
            a
        } else {
            a + 1
        };
        let y = if b < i {
            b
        } else {
            b + 1
        };
        assert(held[x].start < held[y].start);
    }
}

// --- the buffer of held segments -------------------------------------------------------------

/// Segments received ahead of the position wanted next, ordered by where they start.
pub struct OutOfOrder {
    segments: Vec<HeldSegment>,
    /// Total bytes held, kept in step so the cap is a constant-time check.
    bytes: u64,
}

impl View for OutOfOrder {
    type V = Seq<Held>;

    closed spec fn view(&self) -> Seq<Held> {
        held_views(self.segments@)
    }
}

impl OutOfOrder {
    /// Ordered, none longer than a sequence number can count, and the byte count is
    /// that of the segments.
    pub closed spec fn wf(&self) -> bool {
        &&& in_order(self@)
        &&& self.bytes == total(self@)
        &&& forall|i: int|
            0 <= i < self@.len() ==> (#[trigger] self@[i]).data.len() <= 0xffff_ffff
    }

    pub fn new() -> (q: OutOfOrder)
        ensures
            q.wf(),
            q@ == Seq::<Held>::empty(),
    {
        let q = OutOfOrder { segments: Vec::new(), bytes: 0 };
        assert(q@ =~= Seq::<Held>::empty());
        q
    }

    /// How many bytes are held.
    pub fn held_bytes(&self) -> (n: u64)
        requires
            self.wf(),
        ensures
            n == total(self@),
    {
        self.bytes
    }

    /// Where the first held segment starts.
    pub fn lowest(&self) -> (r: Option<u32>)
        requires
            self.wf(),
        ensures
            match r {
                Some(lo) => self@.len() > 0 && lo == self@[0].start,
                None => self@.len() == 0,
            },
    {
        if self.segments.len() == 0 {
            None
        } else {
            assert(self@[0] == self.segments@[0]@);
            Some(self.segments[0].start)
        }
    }

    /// How many segments start at or before `adv`.
    fn reach(&self, adv: u32) -> (n: usize)
        requires
            self.wf(),
        ensures
            n == starts_before(self@, adv + 1),
            n <= self@.len(),
            n <= self.segments@.len(),
    {
        let mut n: usize = self.segments.len();
        let ghost all = self@;
        assert(all.take(n as int) =~= all);
        while n > 0 && self.segments[n - 1].start > adv
            invariant
                n <= self.segments@.len(),
                all == held_views(self.segments@),
                starts_before(all.take(n as int), adv + 1) == starts_before(all, adv + 1),
            decreases n,
        {
            assert(all.take(n as int).drop_last() =~= all.take(n - 1));
            assert(all.take(n as int).last() == self.segments@[n - 1]@);
            n = n - 1;
        }
        proof {
            if n > 0 {
                assert(all.take(n as int).last() == self.segments@[n - 1]@);
            }
        }
        n
    }

    /// Holds a segment, keeping the longer of two that start at the same sequence
    /// number.
    pub fn buffer_ooo(&mut self, seq: u32, data: &[u8])
        requires
            old(self).wf(),
            data@.len() <= 0xffff_ffff,
        ensures
            final(self).wf(),
            final(self)@ == inserted(old(self)@, Held { start: seq, data: data@ }),
            final(self)@.len() > 0,
    {
        let ghost before = self@;
        let ghost h = Held { start: seq, data: data@ };
        let ghost after = inserted(before, h);
        let mut i: usize = self.segments.len();
        assert(before.take(i as int) =~= before);
        while i > 0 && self.segments[i - 1].start >= seq
            invariant
                i <= self.segments@.len(),
                before == held_views(self.segments@),
                starts_before(before.take(i as int), seq as int) == starts_before(
                    before,
                    seq as int,
                ),
            decreases i,
        {
            assert(before.take(i as int).drop_last() =~= before.take(i - 1));
            assert(before.take(i as int).last() == self.segments@[i - 1]@);
            i = i - 1;
        }
        proof {
            if i > 0 {
                assert(before.take(i as int).last() == self.segments@[i - 1]@);
            }
            assert(i == starts_before(before, seq as int));
            inserted_in_order(before, h);
            assert forall|k: int| 0 <= k < after.len() implies (#[trigger] after[k]).data.len()
                <= 0xffff_ffff by {
                if after[k] != h {
                    if i < before.len() && before[i as int].start == h.start {
                        assert(after[k] == before[k]);
                    } else if k < i {
                        assert(after[k] == before[k]);
                    } else {
                        assert(after[k] == before[k - 1]);
                    }
                }
            }
            lemma_total_bound(after);
        }
        if i < self.segments.len() && self.segments[i].start == seq {
            assert(before[i as int] == self.segments@[i as int]@);
            let held: usize = self.segments[i].data.len();
            if data.len() > held {
                let segment = HeldSegment { start: seq, data: slice_to_vec(data) };
                proof {
                    lemma_total_remove(before, i as int);
                    lemma_total_insert(before.remove(i as int), i as int, h);
                    assert(before.remove(i as int).insert(i as int, h) =~= after);
                }
                self.bytes = self.bytes + (data.len() - held) as u64;
                self.segments.set(i, segment);
                assert(self@ =~= after);
            }
        } else {
            let segment = HeldSegment { start: seq, data: slice_to_vec(data) };
            proof {
                lemma_total_insert(before, i as int, h);
            }
            self.bytes = self.bytes + data.len() as u64;
            self.segments.insert(i, segment);
            assert(self@ =~= after);
        }
    }

    /// Delivers what overlaps or abuts `adv` to the end of `out`, and returns the
    /// position reached.
    pub fn drain_ooo(&mut self, adv: u32, out: &mut Vec<u8>) -> (next: u32)
        requires
            old(self).wf(),
        ensures
            final(self).wf(),
            final(self)@ == drained(old(self)@, adv).held,
            next == drained(old(self)@, adv).next,
            final(out)@ == old(out)@ + drained(old(self)@, adv).data,
    {
        let ghost whole = drained(self@, adv);
        let mut at: u32 = adv;
        assert(out@ + drained(self@, at).data =~= old(out)@ + whole.data);
        loop
            invariant
                self.wf(),
                drained(self@, at).held == whole.held,
                drained(self@, at).next == whole.next,
                out@ + drained(self@, at).data == old(out)@ + whole.data,
                whole == drained(old(self)@, adv),
            decreases self@.len(),
        {
            let ghost before = self@;
            let ghost done = out@;
            let n: usize = self.reach(at);
            if n == 0 {
                assert(out@ + Seq::<u8>::empty() =~= out@);
                return at;
            }
            proof {
                lemma_starts_before(before, at + 1);
                assert(before[n - 1] == self.segments@[n - 1]@);
                lemma_total_remove(before, n - 1);
                lemma_remove_in_order(before, n - 1);
            }
            let start: u32 = self.segments[n - 1].start;
            let len: usize = self.segments[n - 1].data.len();
            let end: u32 = advance(start, len);
            let behind: u32 = at - start;
            let past = distance(end, at) <= 0;
            if !past && behind as u64 > len as u64 {
                assert(out@ + Seq::<u8>::empty() =~= out@);
                return at;
            }
            let segment = self.segments.remove(n - 1);
            self.bytes = self.bytes - segment.data.len() as u64;
            proof {
                assert(self@ =~= before.remove(n - 1));
                assert forall|k: int| 0 <= k < self@.len() implies (
                #[trigger] self@[k]).data.len() <= 0xffff_ffff by {
                    let x = if k < n - 1 {
                        k
                    } else {
                        k + 1
                    };
                    assert(self@[k] == before[x]);
                }
            }
            if !past {
                let mut k: usize = behind as usize;
                while k < len
                    invariant
                        behind <= k <= len,
                        len == segment.data@.len(),
                        out@ == done + segment.data@.subrange(behind as int, k as int),
                    decreases len - k,
                {
                    out.push(segment.data[k]);
                    k = k + 1;
                    assert(out@ =~= done + segment.data@.subrange(behind as int, k as int));
                }
                assert(segment.data@.subrange(behind as int, len as int)
                    =~= segment.data@.skip(behind as int));
                at = end;
                assert(out@ + drained(self@, at).data =~= done + drained(
                    before,
                    (start + behind) as u32,
                ).data);
            }
        }
    }
}

// --- feeding segments ---------------------------------------------------------------------------

/// Where the reassembly of one direction stands: the sequence number wanted next,
/// once one is known, and the segments held ahead of it.
pub struct Assembly {
    pub next: Option<u32>,
    pub held: Seq<Held>,
}

/// What feeding a segment comes to.
pub struct Fed {
    pub state: Assembly,
    /// The bytes delivered, in order.
    pub data: Seq<u8>,
    /// How many bytes were given up on, where the stream was resynced past a gap.
    /// Bytes delivered before and not yet decoded are then dropped: joined to those
    /// behind the gap they would forge a message boundary.
    pub lost: Option<u32>,
}

/// Skips a hole that will never be filled: delivery goes on from the first held
/// segment.
pub open spec fn resynced(next: u32, held: Seq<Held>) -> Fed {
    let lo = held[0].start;
    let d = drained(held, lo);
    Fed {
        state: Assembly { next: Some(d.next), held: d.held },
        data: d.data,
        lost: Some(seq_add(lo, -(next as int))),
    }
}

/// Feeds a segment's payload. A SYN takes one sequence number, so data that comes
/// with it is numbered from the one behind it. Without a SYN seen, the first data
/// fixes the position.
pub open spec fn fed(a: Assembly, seq: u32, syn: bool, data: Seq<u8>) -> Fed {
    let data_seq = if syn {
        seq_add(seq, 1)
    } else {
        seq
    };
    let known = if syn {
        Some(data_seq)
    } else {
        a.next
    };
    if data.len() == 0 {
        Fed { state: Assembly { next: known, held: a.held }, data: Seq::empty(), lost: None }
    } else {
        let next = match known {
            Some(n) => n,
            None => data_seq,
        };
        let gap = seq_ahead(data_seq, next);
        if gap > 0 {
            let held = inserted(a.held, Held { start: data_seq, data });
            if total(held) > OOO_BYTES_CAP {
                resynced(next, held)
            } else {
                Fed {
                    state: Assembly { next: Some(next), held },
                    data: Seq::empty(),
                    lost: None,
                }
            }
        } else if -gap >= data.len() {
            Fed {
                state: Assembly { next: Some(next), held: a.held },
                data: Seq::empty(),
                lost: None,
            }
        } else {
            let fresh = data.skip(-gap);
            let d = drained(a.held, seq_add(next, fresh.len() as int));
            Fed {
                state: Assembly { next: Some(d.next), held: d.held },
                data: fresh + d.data,
                lost: None,
            }
        }
    }
}

/// The reassembly state of one direction.
pub struct Reassembly {
    next_seq: Option<u32>,
    ooo: OutOfOrder,
}

impl View for Reassembly {
    type V = Assembly;

    closed spec fn view(&self) -> Assembly {
        Assembly { next: self.next_seq, held: self.ooo@ }
    }
}

impl Reassembly {
    pub closed spec fn wf(&self) -> bool {
        self.ooo.wf()
    }

    pub fn new() -> (r: Reassembly)
        ensures
            r.wf(),
            r@ == (Assembly { next: None, held: Seq::empty() }),
    {
        Reassembly { next_seq: None, ooo: OutOfOrder::new() }
    }

    /// The sequence number wanted next.
    pub fn next_seq(&self) -> (n: Option<u32>)
        ensures
            n == self@.next,
    {
        self.next_seq
    }

    /// How many bytes are held back.
    pub fn held_bytes(&self) -> (n: u64)
        requires
            self.wf(),
        ensures
            n == total(self@.held),
    {
        self.ooo.held_bytes()
    }

    /// Skips a hole that will never be filled; returns the bytes from behind it and
    /// how many were lost.
    fn resync_after_gap(&mut self, next: u32) -> (r: (Vec<u8>, u32))
        requires
            old(self).wf(),
            old(self)@.held.len() > 0,
        ensures
            final(self).wf(),
            final(self)@ == resynced(next, old(self)@.held).state,
            r.0@ == resynced(next, old(self)@.held).data,
            Some(r.1) == resynced(next, old(self)@.held).lost,
    {
        let mut data: Vec<u8> = Vec::new();
        let lo: u32 = match self.ooo.lowest() {
            Some(lo) => lo,
            None => 0,
        };
        let reached: u32 = self.ooo.drain_ooo(lo, &mut data);
        self.next_seq = Some(reached);
        assert(data@ =~= resynced(next, old(self)@.held).data);
        (data, lo.wrapping_sub(next))
    }

    /// Feeds a segment's payload; returns the bytes delivered, and how many were
    /// given up on where the stream was resynced.
    pub fn feed(&mut self, seq: u32, syn: bool, data: &[u8]) -> (r: (Vec<u8>, Option<u32>))
        requires
            old(self).wf(),
            data@.len() <= 0xffff_ffff,
        ensures
            final(self).wf(),
            final(self)@ == fed(old(self)@, seq, syn, data@).state,
            r.0@ == fed(old(self)@, seq, syn, data@).data,
            r.1 == fed(old(self)@, seq, syn, data@).lost,
    {
        let data_seq: u32 = if syn {
            advance(seq, 1)
        } else {
            seq
        };
        if syn {
            self.next_seq = Some(data_seq);
        }
        let mut out: Vec<u8> = Vec::new();
        if data.len() == 0 {
            return (out, None);
        }
        let next: u32 = match self.next_seq {
            Some(n) => n,
            None => data_seq,
        };
        self.next_seq = Some(next);
        let gap: i64 = distance(data_seq, next);
        if gap > 0 {
            self.ooo.buffer_ooo(data_seq, data);
            if self.ooo.held_bytes() > OOO_BYTES_CAP {
                let (bytes, lost) = self.resync_after_gap(next);
                return (bytes, Some(lost));
            }
            return (out, None);
        }
        let skip: u64 = (-gap) as u64;
        if skip >= data.len() as u64 {
            return (out, None);
        }
        let from: usize = skip as usize;
        let mut i: usize = from;
        while i < data.len()
            invariant
                from <= i <= data@.len(),
                out@ == data@.subrange(from as int, i as int),
            decreases data@.len() - i,
        {
            out.push(data[i]);
            i = i + 1;
            assert(out@ =~= data@.subrange(from as int, i as int));
        }
        assert(out@ =~= data@.skip(from as int));
        let adv: u32 = advance(next, data.len() - from);
        let reached: u32 = self.ooo.drain_ooo(adv, &mut out);
        self.next_seq = Some(reached);
        (out, None)
    }
}

// --- laws ---------------------------------------------------------------------------------------

/// Whether a segment carries the bytes of the stream `w` whose first byte has the
/// sequence number `base`, with no wrap in between.
pub open spec fn carries(h: Held, base: u32, w: Seq<u8>) -> bool {
    &&& base <= h.start
    &&& h.start - base + h.data.len() <= w.len()
    &&& h.data == w.subrange(h.start - base, h.start - base + h.data.len())
}

/// Whether all held segments carry the bytes of the stream.
pub open spec fn all_carry(held: Seq<Held>, base: u32, w: Seq<u8>) -> bool {
    forall|i: int| 0 <= i < held.len() ==> carries(#[trigger] held[i], base, w)
}

/// Whether all held segments start behind `at`.
pub open spec fn all_start_behind(held: Seq<Held>, at: int) -> bool {
    forall|i: int| 0 <= i < held.len() ==> (#[trigger] held[i]).start > at
}

/// Without a wrap, sequence numbers add as numbers do.
proof fn lemma_add_plain(a: u32, n: int)
    requires
        0 <= a + n <= 0xffff_ffff,
    ensures
        seq_add(a, n) == a + n,
{
}

/// Sequence numbers less than half the space apart are as far apart as numbers are.
proof fn lemma_ahead_plain(a: u32, b: u32)
    requires
        -0x8000_0000 <= a - b < 0x8000_0000,
    ensures
        seq_ahead(a, b) == a - b,
{
}

/// A distance that does not wrap leads from one sequence number to the other.
proof fn lemma_ahead_reaches(a: u32, b: u32)
    requires
        0 <= b + seq_ahead(a, b) <= 0xffff_ffff,
    ensures
        a == b + seq_ahead(a, b),
{
}

/// Draining delivers the next bytes of the stream, and leaves held what lies behind
/// the position reached.
proof fn lemma_drained(held: Seq<Held>, adv: u32, base: u32, w: Seq<u8>)
    requires
        in_order(held),
        all_carry(held, base, w),
        base <= adv,
        adv - base <= w.len(),
        w.len() < 0x8000_0000,
        base + w.len() <= 0xffff_ffff,
    ensures
        ({
            let d = drained(held, adv);
            &&& in_order(d.held)
            &&& all_carry(d.held, base, w)
            &&& all_start_behind(d.held, d.next as int)
            &&& adv <= d.next
            &&& d.next - base <= w.len()
            &&& d.data == w.subrange(adv - base, d.next - base)
            &&& forall|i: int|
                0 <= i < held.len() ==> (#[trigger] held[i]).start + held[i].data.len() <= d.next
                    || d.held.contains(held[i])
        }),
    decreases held.len(),
{
    lemma_starts_before(held, adv + 1);
    let n = starts_before(held, adv + 1) as int;
    let d = drained(held, adv);
    if n == 0 {
        assert(d.data =~= w.subrange(adv - base, adv - base));
        assert forall|i: int| 0 <= i < held.len() implies d.held.contains(#[trigger] held[i]) by {
            assert(d.held[i] == held[i]);
        }
    } else {
        let h = held[n - 1];
        let rest = held.remove(n - 1);
        assert(carries(h, base, w));
        lemma_remove_in_order(held, n - 1);
        assert forall|i: int| 0 <= i < rest.len() implies carries(#[trigger] rest[i], base, w) by {
            let x = if i < n - 1 {
                i
            } else {
                i + 1
            };
            assert(rest[i] == held[x]);
        }
        let end = seq_add(h.start, h.data.len() as int);
        lemma_add_plain(h.start, h.data.len() as int);
        lemma_ahead_plain(end, adv);
        let to = if seq_ahead(end, adv) <= 0 {
            adv
        } else {
            end
        };
        lemma_drained(rest, to, base, w);
        let r = drained(rest, to);
        assert(d.held == r.held && d.next == r.next);
        if seq_ahead(end, adv) > 0 {
            assert(h.data.skip(adv - h.start) =~= w.subrange(adv - base, end - base));
            assert(d.data =~= w.subrange(adv - base, d.next - base));
        }
        assert forall|i: int| 0 <= i < held.len() implies (#[trigger] held[i]).start
            + held[i].data.len() <= d.next || d.held.contains(held[i]) by {
            if i < n - 1 {
                assert(rest[i] == held[i]);
            } else if i > n - 1 {
                assert(rest[i - 1] == held[i]);
            }
        }
    }
}

/// Whether a segment from the same start, no shorter, is held.
pub open spec fn kept(g: Held, held: Seq<Held>) -> bool {
    exists|k: int|
        0 <= k < held.len() && (#[trigger] held[k]).start == g.start && held[k].data.len()
            >= g.data.len()
}

/// Inserting keeps what is held, up to a longer segment from the same start.
proof fn lemma_inserted(held: Seq<Held>, h: Held, base: u32, w: Seq<u8>)
    requires
        in_order(held),
        all_carry(held, base, w),
        carries(h, base, w),
    ensures
        in_order(inserted(held, h)),
        all_carry(inserted(held, h), base, w),
        forall|i: int|
            0 <= i < inserted(held, h).len() ==> (#[trigger] inserted(held, h)[i]) == h
                || held.contains(inserted(held, h)[i]),
        kept(h, inserted(held, h)),
        forall|x: int| 0 <= x < held.len() ==> kept(#[trigger] held[x], inserted(held, h)),
{
    lemma_starts_before(held, h.start as int);
    inserted_in_order(held, h);
    let i = starts_before(held, h.start as int) as int;
    let more = inserted(held, h);
    let same = i < held.len() && held[i].start == h.start;
    assert forall|k: int| 0 <= k < more.len() implies (#[trigger] more[k]) == h || held.contains(
        more[k],
    ) by {
        if more[k] != h {
            if same || k < i {
                assert(more[k] == held[k]);
            } else {
                assert(more[k] == held[k - 1]);
            }
        }
    }
    assert(more[i].start == h.start);
    assert(kept(h, more));
    assert forall|x: int| 0 <= x < held.len() implies kept(#[trigger] held[x], more) by {
        if same || x < i {
            assert(more[x].start == held[x].start);
        } else {
            assert(more[x + 1] == held[x]);
        }
    }
}

/// Whether a segment at `seq` carries bytes of the stream `w` that goes on at the
/// position `next`; what it repeats from before that position is not looked at.
pub open spec fn segment_of(seq: u32, data: Seq<u8>, next: u32, w: Seq<u8>) -> bool {
    let gap = seq_ahead(seq, next);
    &&& gap + data.len() <= w.len()
    &&& if gap >= 0 {
        data == w.subrange(gap, gap + data.len())
    } else {
        -gap < data.len() ==> data.skip(-gap) == w.take(data.len() + gap)
    }
}

/// Feeding a segment of a stream delivers the next bytes of that stream, none twice
/// and none out of order, and keeps holding only segments of the stream from behind
/// the position reached. `w` is the stream from the position wanted next on.
pub proof fn feeding_delivers_the_stream(
    a: Assembly,
    next: u32,
    seq: u32,
    data: Seq<u8>,
    w: Seq<u8>,
)
    requires
        a.next == Some(next),
        in_order(a.held),
        all_carry(a.held, next, w),
        segment_of(seq, data, next, w),
        w.len() < 0x8000_0000,
        // sequence numbers do not wrap among the buffered segments
        a.held.len() == 0 && seq_ahead(seq, next) <= 0 || next + w.len() <= 0xffff_ffff,
    ensures
        ({
            let f = fed(a, seq, false, data);
            let k = f.data.len();
            f.lost is None ==> {
                &&& k <= w.len()
                &&& f.data == w.take(k as int)
                &&& f.state.next == Some(seq_add(next, k as int))
                &&& in_order(f.state.held)
                &&& all_carry(f.state.held, seq_add(next, k as int), w.skip(k as int))
            }
        }),
{
    let gap = seq_ahead(seq, next);
    assert(w.take(0) =~= Seq::<u8>::empty());
    assert(w.skip(0) =~= w);
    lemma_add_plain(next, 0);
    if data.len() == 0 || (gap <= 0 && -gap >= data.len()) {
    } else if gap > 0 {
        let h = Held { start: seq, data };
        lemma_ahead_reaches(seq, next);
        lemma_inserted(a.held, h, next, w);
    } else if next + w.len() <= 0xffff_ffff {
        assert(data.skip(-gap) =~= w.take(data.len() + gap));
        lemma_fresh_data(a, next, data.skip(-gap), w);
    } else {
        let fresh = data.skip(-gap);
        assert(a.held.len() == 0);
        assert(drained(a.held, seq_add(next, fresh.len() as int)).data =~= Seq::<u8>::empty());
        assert(fresh + Seq::<u8>::empty() =~= fresh);
        assert(fresh =~= w.take(fresh.len() as int));
    }
}

/// Bytes at the position wanted next, with what is held behind them, are the next
/// bytes of the stream.
proof fn lemma_fresh_data(a: Assembly, next: u32, fresh: Seq<u8>, w: Seq<u8>)
    requires
        in_order(a.held),
        all_carry(a.held, next, w),
        fresh.len() <= w.len(),
        fresh == w.take(fresh.len() as int),
        w.len() < 0x8000_0000,
        next + w.len() <= 0xffff_ffff,
    ensures
        ({
            let d = drained(a.held, seq_add(next, fresh.len() as int));
            let k = (fresh + d.data).len();
            &&& k <= w.len()
            &&& fresh + d.data == w.take(k as int)
            &&& d.next == seq_add(next, k as int)
            &&& in_order(d.held)
            &&& all_carry(d.held, d.next, w.skip(k as int))
        }),
{
    let adv = seq_add(next, fresh.len() as int);
    lemma_add_plain(next, fresh.len() as int);
    lemma_drained(a.held, adv, next, w);
    let d = drained(a.held, adv);
    let k = (fresh + d.data).len() as int;
    assert(k == d.next - next);
    lemma_add_plain(next, k);
    assert(fresh + d.data =~= w.take(k));
    let rest = w.skip(k);
    assert forall|i: int| 0 <= i < d.held.len() implies carries(
        #[trigger] d.held[i],
        d.next,
        rest,
    ) by {
        let h = d.held[i];
        assert(carries(h, next, w));
        assert(h.start > d.next);
        assert(rest.subrange(h.start - d.next, h.start - d.next + h.data.len()) =~= w.subrange(
            h.start - next,
            h.start - next + h.data.len(),
        ));
    }
}

/// Feeding a segment that was delivered already changes nothing: retransmissions are
/// dropped.
pub proof fn retransmission_changes_nothing(a: Assembly, next: u32, seq: u32, data: Seq<u8>)
    requires
        a.next == Some(next),
        seq_ahead(seq, next) <= 0,
        data.len() <= -seq_ahead(seq, next),
    ensures
        fed(a, seq, false, data) == (Fed { state: a, data: Seq::empty(), lost: None }),
{
}

/// One segment of a list.
pub struct Piece {
    pub seq: u32,
    pub data: Seq<u8>,
}

/// What feeding segments one after the other comes to: the state reached and the
/// bytes delivered.
pub open spec fn fed_all(a: Assembly, pieces: Seq<Piece>) -> (Assembly, Seq<u8>)
    decreases pieces.len(),
{
    if pieces.len() == 0 {
        (a, Seq::empty())
    } else {
        let (b, data) = fed_all(a, pieces.drop_last());
        let f = fed(b, pieces.last().seq, false, pieces.last().data);
        (f.state, data + f.data)
    }
}

/// Whether no step gave up on a gap.
pub open spec fn never_resynced(a: Assembly, pieces: Seq<Piece>) -> bool
    decreases pieces.len(),
{
    pieces.len() == 0 || {
        &&& never_resynced(a, pieces.drop_last())
        &&& fed(
            fed_all(a, pieces.drop_last()).0,
            pieces.last().seq,
            false,
            pieces.last().data,
        ).lost is None
    }
}

/// Whether every piece carries bytes of the stream.
pub open spec fn pieces_of(pieces: Seq<Piece>, base: u32, stream: Seq<u8>) -> bool {
    forall|i: int|
        0 <= i < pieces.len() ==> carries(
            Held { start: (#[trigger] pieces[i]).seq, data: pieces[i].data },
            base,
            stream,
        )
}

/// Whether the byte at `offset` of the stream is in some piece.
pub open spec fn covered(pieces: Seq<Piece>, base: u32, offset: int) -> bool {
    exists|i: int|
        0 <= i < pieces.len() && (#[trigger] pieces[i]).seq - base <= offset < pieces[i].seq - base
            + pieces[i].data.len()
}

/// A piece is empty or delivered up to `at`, or a segment from its start, no shorter,
/// is held.
spec fn accounted(p: Piece, held: Seq<Held>, at: int) -> bool {
    p.data.len() == 0 || p.seq + p.data.len() <= at || kept(Held { start: p.seq, data: p.data }, held)
}

#[verifier::spinoff_prover]
#[verifier::rlimit(40)]
proof fn lemma_fed_all(base: u32, stream: Seq<u8>, pieces: Seq<Piece>)
    requires
        stream.len() < 0x8000_0000,
        base + stream.len() <= 0xffff_ffff,
        pieces_of(pieces, base, stream),
        never_resynced(Assembly { next: Some(base), held: Seq::empty() }, pieces),
    ensures
        ({
            let (b, data) = fed_all(Assembly { next: Some(base), held: Seq::empty() }, pieces);
            &&& data.len() <= stream.len()
            &&& data == stream.take(data.len() as int)
            &&& b.next == Some((base + data.len()) as u32)
            &&& in_order(b.held)
            &&& all_carry(b.held, base, stream)
            &&& all_start_behind(b.held, base + data.len())
            &&& forall|i: int|
                0 <= i < pieces.len() ==> accounted(
                    #[trigger] pieces[i],
                    b.held,
                    base + data.len(),
                )
        }),
    decreases pieces.len(),
{
    let start = Assembly { next: Some(base), held: Seq::<Held>::empty() };
    if pieces.len() == 0 {
        assert(stream.take(0) =~= Seq::<u8>::empty());
    } else {
        let before = pieces.drop_last();
        let p = pieces.last();
        assert forall|i: int| 0 <= i < before.len() implies carries(
            Held { start: (#[trigger] before[i]).seq, data: before[i].data },
            base,
            stream,
        ) by {
            assert(before[i] == pieces[i]);
        }
        lemma_fed_all(base, stream, before);
        let (b, done) = fed_all(start, before);
        let n = done.len() as int;
        let f = fed(b, p.seq, false, p.data);
        let (c, data) = fed_all(start, pieces);
        assert(pieces[pieces.len() - 1] == p);
        lemma_fed_next(base, stream, before, p, b, n);
        assert(data == done + f.data && c == f.state);
        assert forall|i: int| 0 <= i < pieces.len() implies accounted(
            #[trigger] pieces[i],
            c.held,
            base + data.len(),
        ) by {
            if i < before.len() {
                assert(before[i] == pieces[i]);
            }
        }
        assert(data =~= stream.take(data.len() as int));
    }
}

/// One more segment keeps what holds of those before it.
proof fn lemma_fed_next(
    base: u32,
    stream: Seq<u8>,
    before: Seq<Piece>,
    p: Piece,
    b: Assembly,
    n: int,
)
    requires
        stream.len() < 0x8000_0000,
        base + stream.len() <= 0xffff_ffff,
        0 <= n <= stream.len(),
        b.next == Some((base + n) as u32),
        in_order(b.held),
        all_carry(b.held, base, stream),
        all_start_behind(b.held, base + n),
        forall|i: int|
            0 <= i < before.len() ==> accounted(#[trigger] before[i], b.held, base + n),
        carries(Held { start: p.seq, data: p.data }, base, stream),
        fed(b, p.seq, false, p.data).lost is None,
    ensures
        ({
            let f = fed(b, p.seq, false, p.data);
            let m = n + f.data.len();
            &&& m <= stream.len()
            &&& f.data == stream.subrange(n, m)
            &&& f.state.next == Some((base + m) as u32)
            &&& in_order(f.state.held)
            &&& all_carry(f.state.held, base, stream)
            &&& all_start_behind(f.state.held, base + m)
            &&& accounted(p, f.state.held, base + m)
            &&& forall|i: int|
                0 <= i < before.len() ==> accounted(
                    #[trigger] before[i],
                    f.state.held,
                    base + m,
                )
        }),
{
    let next = (base + n) as u32;
    let h = Held { start: p.seq, data: p.data };
    let f = fed(b, p.seq, false, p.data);
    let c = f.state;
    let gap = seq_ahead(p.seq, next);
    lemma_ahead_plain(p.seq, next);
    assert(stream.subrange(n, n) =~= Seq::<u8>::empty());
    if p.data.len() == 0 || (gap <= 0 && -gap >= p.data.len()) {
    } else if gap > 0 {
        lemma_inserted(b.held, h, base, stream);
        assert forall|i: int| 0 <= i < c.held.len() implies (#[trigger] c.held[i]).start > base
            + n by {
            if c.held[i] != h {
                let x = choose|x: int| 0 <= x < b.held.len() && b.held[x] == c.held[i];
                assert(b.held[x].start > base + n);
            }
        }
        assert forall|i: int| 0 <= i < before.len() implies accounted(
            #[trigger] before[i],
            c.held,
            base + n,
        ) by {
            let g = Held { start: before[i].seq, data: before[i].data };
            assert(accounted(before[i], b.held, base + n));
            if before[i].data.len() > 0 && before[i].seq + before[i].data.len() > base + n {
                let k = choose|k: int|
                    0 <= k < b.held.len() && (#[trigger] b.held[k]).start == g.start
                        && b.held[k].data.len() >= g.data.len();
                assert(kept(b.held[k], c.held));
                let m = choose|m: int|
                    0 <= m < c.held.len() && (#[trigger] c.held[m]).start == b.held[k].start
                        && c.held[m].data.len() >= b.held[k].data.len();
                assert(c.held[m].start == g.start);
            }
        }
    } else {
        let fresh = p.data.skip(-gap);
        let adv = seq_add(next, fresh.len() as int);
        lemma_add_plain(next, fresh.len() as int);
        lemma_drained(b.held, adv, base, stream);
        let d = drained(b.held, adv);
        assert(fresh =~= stream.subrange(n, n + fresh.len()));
        assert(f.data =~= stream.subrange(n, d.next - base));
        assert forall|i: int| 0 <= i < before.len() implies accounted(
            #[trigger] before[i],
            c.held,
            d.next as int,
        ) by {
            let g = Held { start: before[i].seq, data: before[i].data };
            assert(accounted(before[i], b.held, base + n));
            if before[i].data.len() > 0 && before[i].seq + before[i].data.len() > d.next {
                let k = choose|k: int|
                    0 <= k < b.held.len() && (#[trigger] b.held[k]).start == g.start
                        && b.held[k].data.len() >= g.data.len();
                assert(d.held.contains(b.held[k]));
                let m = choose|m: int| 0 <= m < d.held.len() && d.held[m] == b.held[k];
                assert(c.held[m].start == g.start);
            }
        }
    }
}

/// Whatever the order in which the segments of a stream arrive, and however they
/// repeat or overlap, what is delivered is the stream up to some byte; and once every
/// byte up to `upto` has arrived, all of them are delivered. This holds as long as no
/// gap is given up on and the sequence numbers do not wrap.
pub proof fn any_arrival_order_delivers_the_stream(
    base: u32,
    stream: Seq<u8>,
    pieces: Seq<Piece>,
    upto: int,
)
    requires
        stream.len() < 0x8000_0000,
        base + stream.len() <= 0xffff_ffff,
        pieces_of(pieces, base, stream),
        never_resynced(Assembly { next: Some(base), held: Seq::empty() }, pieces),
        0 <= upto <= stream.len(),
        forall|offset: int| 0 <= offset < upto ==> #[trigger] covered(pieces, base, offset),
    ensures
        ({
            let data = fed_all(Assembly { next: Some(base), held: Seq::empty() }, pieces).1;
            upto <= data.len() <= stream.len() && data == stream.take(data.len() as int)
        }),
{
    lemma_fed_all(base, stream, pieces);
    let (b, data) = fed_all(Assembly { next: Some(base), held: Seq::empty() }, pieces);
    if data.len() < upto {
        let n = data.len() as int;
        assert(covered(pieces, base, n));
        let i = choose|i: int|
            0 <= i < pieces.len() && (#[trigger] pieces[i]).seq - base <= n < pieces[i].seq - base
                + pieces[i].data.len();
        assert(accounted(pieces[i], b.held, base + n));
        let k = choose|k: int|
            0 <= k < b.held.len() && (#[trigger] b.held[k]).start == pieces[i].seq
                && b.held[k].data.len() >= pieces[i].data.len();
        assert(b.held[k].start > base + n);
    }
}

/// Once every byte of a stream has arrived, in whatever order, exactly the stream has been
/// delivered and nothing stays held; feeding any of the segments again changes nothing.
pub proof fn complete_streams_leave_nothing_held(base: u32, stream: Seq<u8>, pieces: Seq<Piece>)
    requires
        stream.len() < 0x8000_0000,
        base + stream.len() <= 0xffff_ffff,
        pieces_of(pieces, base, stream),
        never_resynced(Assembly { next: Some(base), held: Seq::empty() }, pieces),
        forall|offset: int|
            0 <= offset < stream.len() ==> #[trigger] covered(pieces, base, offset),
    ensures
        ({
            let (state, data) = fed_all(Assembly { next: Some(base), held: Seq::empty() }, pieces);
            &&& data == stream
            &&& state == (Assembly {
                next: Some((base + stream.len()) as u32),
                held: Seq::empty(),
            })
            &&& forall|i: int|
                0 <= i < pieces.len() ==> fed(
                    state,
                    (#[trigger] pieces[i]).seq,
                    false,
                    pieces[i].data,
                ) == (Fed { state, data: Seq::empty(), lost: None })
        }),
{
    let n = stream.len() as int;
    any_arrival_order_delivers_the_stream(base, stream, pieces, n);
    lemma_fed_all(base, stream, pieces);
    let (state, data) = fed_all(Assembly { next: Some(base), held: Seq::empty() }, pieces);
    assert(stream.take(n) =~= stream);
    if state.held.len() > 0 {
        assert(carries(state.held[0], base, stream));
        assert(state.held[0].start > base + n);
    }
    assert(state.held =~= Seq::<Held>::empty());
    let next = (base + n) as u32;
    assert forall|i: int| 0 <= i < pieces.len() implies fed(
        state,
        (#[trigger] pieces[i]).seq,
        false,
        pieces[i].data,
    ) == (Fed { state, data: Seq::empty(), lost: None }) by {
        let p = pieces[i];
        assert(carries(Held { start: p.seq, data: p.data }, base, stream));
        lemma_ahead_plain(p.seq, next);
        retransmission_changes_nothing(state, next, p.seq, p.data);
    }
}

} // verus!
