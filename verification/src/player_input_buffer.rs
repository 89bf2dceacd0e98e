//! A per-peer queue of per-frame input snapshots, run-length compressed and
//! seeded with a configurable number of default frames of artificial input
//! delay. The queue is modelled as a sequence of runs, each a frame value with
//! a count of at least one, adjacent runs never holding equal frames; its
//! logical content is the flattened sequence of frames, and every operation is
//! specified against both.

use vstd::prelude::*;

use std::collections::VecDeque;

use crate::netplay_packets::{empty_frame, FrameSets, NetplayBufferItem};

verus! {

/// One run of the compressed sequence, at the model level: a frame value and
/// how many consecutive logical frames hold it.
pub type Run = (FrameSets, nat);

/// `n` logical frames all holding the frame value `f`.
pub open spec fn frame_repeat(f: FrameSets, n: nat) -> Seq<FrameSets> {
    Seq::new(n, |i: int| f)
}

/// The logical frame sequence that a run sequence compresses.
pub open spec fn flatten_runs(runs: Seq<Run>) -> Seq<FrameSets>
    decreases runs.len(),
{
    if runs.len() == 0 {
        Seq::empty()
    } else {
        frame_repeat(runs[0].0, runs[0].1) + flatten_runs(runs.skip(1))
    }
}

/// Well-formedness of a run sequence: every count is at least one, and
/// adjacent runs never hold equal frames (merging is eager).
pub open spec fn wf_runs(runs: Seq<Run>) -> bool {
    &&& forall|i: int| 0 <= i < runs.len() ==> (#[trigger] runs[i]).1 >= 1
    &&& forall|i: int| 0 <= i < runs.len() - 1 ==> (#[trigger] runs[i]).0 != runs[i + 1].0
}

/// What pushing frame `f` at the tail does to a run sequence: extend the tail
/// run when it holds an equal frame, otherwise append a fresh run of one.
pub open spec fn push_run(runs: Seq<Run>, f: FrameSets) -> Seq<Run> {
    if runs.len() > 0 && runs.last().0 == f {
        runs.update(runs.len() - 1, (f, (runs.last().1 + 1) as nat))
    } else {
        runs.push((f, 1nat))
    }
}

/// What deleting the most recent logical frame does to a run sequence: shrink
/// the tail run, dropping it when its count reaches zero; no-op when empty.
pub open spec fn delete_last_run(runs: Seq<Run>) -> Seq<Run> {
    if runs.len() == 0 {
        runs
    } else if runs.last().1 <= 1 {
        runs.drop_last()
    } else {
        runs.update(runs.len() - 1, (runs.last().0, (runs.last().1 - 1) as nat))
    }
}

/// What consuming the oldest logical frame does to a run sequence: shrink the
/// head run, dropping it when its count reaches zero; no-op when empty.
pub open spec fn pop_run(runs: Seq<Run>) -> Seq<Run> {
    if runs.len() == 0 {
        runs
    } else if runs[0].1 <= 1 {
        runs.skip(1)
    } else {
        runs.update(0, (runs[0].0, (runs[0].1 - 1) as nat))
    }
}

/// The count of the head run, or zero on an empty run sequence.
pub open spec fn head_count(runs: Seq<Run>) -> nat {
    if runs.len() == 0 {
        0nat
    } else {
        runs[0].1
    }
}

/// The run sequence left after pushing each frame of `frames` in order.
pub open spec fn push_all(runs: Seq<Run>, frames: Seq<FrameSets>) -> Seq<Run>
    decreases frames.len(),
{
    if frames.len() == 0 {
        runs
    } else {
        push_all(push_run(runs, frames[0]), frames.skip(1))
    }
}

/// The frames that repeated popping returns, oldest first, until the run
/// sequence is drained.
pub open spec fn pops(runs: Seq<Run>) -> Seq<FrameSets>
    decreases runs.len(), head_count(runs),
{
    if runs.len() == 0 {
        Seq::empty()
    } else {
        seq![runs[0].0] + pops(pop_run(runs))
    }
}

/// The run sequence left after popping `n` times.
pub open spec fn pop_run_n(runs: Seq<Run>, n: nat) -> Seq<Run>
    decreases n,
{
    if n == 0 {
        runs
    } else {
        pop_run_n(pop_run(runs), (n - 1) as nat)
    }
}

proof fn lemma_flatten_concat(a: Seq<Run>, b: Seq<Run>)
    ensures
        flatten_runs(a + b) == flatten_runs(a) + flatten_runs(b),
    decreases a.len(),
{
    if a.len() == 0 {
        assert(a + b =~= b);
        assert(flatten_runs(a) + flatten_runs(b) =~= flatten_runs(b));
    } else {
        assert((a + b)[0] == a[0]);
        assert((a + b).skip(1) =~= a.skip(1) + b);
        lemma_flatten_concat(a.skip(1), b);
        assert(flatten_runs(a + b) =~= flatten_runs(a) + flatten_runs(b));
    }
}

proof fn lemma_flatten_push(runs: Seq<Run>, r: Run)
    ensures
        flatten_runs(runs.push(r)) == flatten_runs(runs) + frame_repeat(r.0, r.1),
{
    assert(runs.push(r) =~= runs + seq![r]);
    lemma_flatten_concat(runs, seq![r]);
    assert(seq![r].skip(1) =~= Seq::<Run>::empty());
    assert(flatten_runs(Seq::<Run>::empty()) == Seq::<FrameSets>::empty());
    assert(seq![r][0] == r);
    assert(flatten_runs(seq![r]) == frame_repeat(r.0, r.1) + flatten_runs(seq![r].skip(1)));
    assert(flatten_runs(seq![r]) =~= frame_repeat(r.0, r.1));
}

proof fn lemma_run_count_le_flatten(runs: Seq<Run>, i: int)
    requires
        0 <= i < runs.len(),
    ensures
        runs[i].1 <= flatten_runs(runs).len(),
    decreases runs.len(),
{
    if i > 0 {
        lemma_run_count_le_flatten(runs.skip(1), i - 1);
    }
}

/// Pushing one frame extends the logical sequence by exactly that frame and
/// keeps the run sequence well formed, whether or not the push compressed
/// into the tail run.
pub proof fn lemma_push_run(runs: Seq<Run>, f: FrameSets)
    requires
        wf_runs(runs),
    ensures
        wf_runs(push_run(runs, f)),
        flatten_runs(push_run(runs, f)) == flatten_runs(runs).push(f),
    decreases runs.len(),
{
    let result = push_run(runs, f);
    if runs.len() > 0 && runs.last().0 == f {
        let n = runs.len() as int;
        let c = runs.last().1;
        let p = runs.drop_last();
        assert(runs =~= p.push(runs.last()));
        lemma_flatten_push(p, runs.last());
        assert(result =~= p.push((f, (c + 1) as nat)));
        lemma_flatten_push(p, (f, (c + 1) as nat));
        assert(frame_repeat(f, (c + 1) as nat) =~= frame_repeat(f, c).push(f));
        assert(flatten_runs(result) =~= flatten_runs(runs).push(f));
        assert forall|i: int| 0 <= i < result.len() implies (#[trigger] result[i]).1 >= 1 by {
            if i < n - 1 {
                assert(result[i] == runs[i]);
            }
        }
        assert forall|i: int| 0 <= i < result.len() - 1 implies (#[trigger] result[i]).0
            != result[i + 1].0 by {
            assert(runs[i].1 >= 1);
            assert(result[i].0 == runs[i].0);
            assert(result[i + 1].0 == runs[i + 1].0);
        }
    } else {
        lemma_flatten_push(runs, (f, 1nat));
        assert(frame_repeat(f, 1nat) =~= seq![f]);
        assert(flatten_runs(result) =~= flatten_runs(runs).push(f));
        assert forall|i: int| 0 <= i < result.len() - 1 implies (#[trigger] result[i]).0
            != result[i + 1].0 by {
            if i < runs.len() - 1 {
                assert(result[i].0 == runs[i].0);
                assert(result[i + 1].0 == runs[i + 1].0);
            } else {
                assert(result[i] == runs.last());
            }
        }
    }
}

/// Deleting the most recent logical frame removes exactly the last element of
/// the logical sequence and keeps the run sequence well formed; on an empty
/// sequence it does nothing.
pub proof fn lemma_delete_last_run(runs: Seq<Run>)
    requires
        wf_runs(runs),
    ensures
        wf_runs(delete_last_run(runs)),
        runs.len() == 0 ==> delete_last_run(runs) == runs,
        runs.len() > 0 ==> flatten_runs(delete_last_run(runs)) == flatten_runs(runs).drop_last(),
        runs.len() > 0 ==> flatten_runs(runs).len() >= 1,
{
    if runs.len() > 0 {
        let n = runs.len() as int;
        let c = runs.last().1;
        let p = runs.drop_last();
        let result = delete_last_run(runs);
        assert(runs =~= p.push(runs.last()));
        lemma_flatten_push(p, runs.last());
        lemma_run_count_le_flatten(runs, n - 1);
        assert(runs[n - 1].1 >= 1);
        if c <= 1 {
            assert(result == p);
            assert(frame_repeat(runs.last().0, c) =~= seq![runs.last().0]);
            assert(flatten_runs(result) =~= flatten_runs(runs).drop_last());
        } else {
            assert(result =~= p.push((runs.last().0, (c - 1) as nat)));
            lemma_flatten_push(p, (runs.last().0, (c - 1) as nat));
            assert(frame_repeat(runs.last().0, (c - 1) as nat) =~= frame_repeat(
                runs.last().0,
                c,
            ).drop_last());
            assert(flatten_runs(result) =~= flatten_runs(runs).drop_last());
            assert forall|i: int| 0 <= i < result.len() - 1 implies (#[trigger] result[i]).0
                != result[i + 1].0 by {
                assert(result[i].0 == runs[i].0);
                assert(result[i + 1].0 == runs[i + 1].0);
            }
        }
    }
}

/// Consuming the oldest logical frame returns the head of the logical
/// sequence, leaves the rest, and keeps the run sequence well formed.
pub proof fn lemma_pop_run(runs: Seq<Run>)
    requires
        wf_runs(runs),
        runs.len() > 0,
    ensures
        wf_runs(pop_run(runs)),
        flatten_runs(runs).len() >= 1,
        flatten_runs(runs)[0] == runs[0].0,
        flatten_runs(pop_run(runs)) == flatten_runs(runs).skip(1),
{
    let c = runs[0].1;
    let f = runs[0].0;
    let rest = runs.skip(1);
    assert(c >= 1);
    assert(flatten_runs(runs) == frame_repeat(f, c) + flatten_runs(rest));
    assert(frame_repeat(f, c)[0] == f);
    let result = pop_run(runs);
    if c <= 1 {
        assert(result == rest);
        assert(flatten_runs(result) =~= flatten_runs(runs).skip(1));
    } else {
        assert(result[0] == (f, (c - 1) as nat));
        assert(result.skip(1) =~= rest);
        assert(flatten_runs(result) == frame_repeat(f, (c - 1) as nat) + flatten_runs(rest));
        assert(flatten_runs(result) =~= flatten_runs(runs).skip(1));
        assert forall|i: int| 0 <= i < result.len() - 1 implies (#[trigger] result[i]).0
            != result[i + 1].0 by {
            assert(result[i].0 == runs[i].0);
            assert(result[i + 1].0 == runs[i + 1].0);
        }
    }
}

/// An empty logical sequence means an empty run sequence, and conversely.
pub proof fn lemma_flatten_empty(runs: Seq<Run>)
    requires
        wf_runs(runs),
    ensures
        flatten_runs(runs).len() == 0 <==> runs.len() == 0,
{
    if runs.len() > 0 {
        lemma_pop_run(runs);
    }
}

/// Whatever the buffer held before, `len` counts one more logical frame per
/// push: after pushing any sequence of frames, the logical length has grown
/// by exactly the number of pushes, however many of them compressed into
/// existing runs.
pub proof fn lemma_len_counts_pushes(runs: Seq<Run>, frames: Seq<FrameSets>)
    requires
        wf_runs(runs),
    ensures
        wf_runs(push_all(runs, frames)),
        flatten_runs(push_all(runs, frames)).len() == flatten_runs(runs).len() + frames.len(),
    decreases frames.len(),
{
    if frames.len() > 0 {
        lemma_push_run(runs, frames[0]);
        lemma_len_counts_pushes(push_run(runs, frames[0]), frames.skip(1));
    }
}

/// Popping until the buffer is drained returns exactly the logical frame
/// sequence, oldest first: the frames come back in the order they were
/// pushed, the initial delay seed first.
pub proof fn lemma_pops_in_push_order(runs: Seq<Run>)
    requires
        wf_runs(runs),
    ensures
        pops(runs) == flatten_runs(runs),
    decreases runs.len(), head_count(runs),
{
    if runs.len() == 0 {
        assert(pops(runs) =~= flatten_runs(runs));
    } else {
        lemma_pop_run(runs);
        lemma_pops_in_push_order(pop_run(runs));
        assert(pops(runs) == seq![runs[0].0] + flatten_runs(runs).skip(1));
        assert(pops(runs) =~= flatten_runs(runs));
    }
}

/// Pushing a frame and then deleting the most recent frame restores the run
/// sequence exactly, whether the push extended the tail run or appended a
/// fresh one.
pub proof fn lemma_push_then_delete_is_identity(runs: Seq<Run>, f: FrameSets)
    requires
        wf_runs(runs),
    ensures
        delete_last_run(push_run(runs, f)) == runs,
{
    let pushed = push_run(runs, f);
    if runs.len() > 0 && runs.last().0 == f {
        assert(pushed.last().1 == runs.last().1 + 1);
        assert(delete_last_run(pushed) =~= runs);
    } else {
        assert(pushed.last() == (f, 1nat));
        assert(delete_last_run(pushed) =~= runs);
    }
}

/// Compression: pushing the same frame twice onto a buffer whose tail run
/// (if any) holds a different frame produces a single new run of count two,
/// not two runs.
pub proof fn lemma_push_twice_merges(runs: Seq<Run>, f: FrameSets)
    requires
        wf_runs(runs),
        runs.len() == 0 || runs.last().0 != f,
    ensures
        push_run(push_run(runs, f), f) == runs.push((f, 2nat)),
{
    let once = push_run(runs, f);
    assert(once == runs.push((f, 1nat)));
    assert(once.last() == (f, 1nat));
    assert(push_run(once, f) =~= runs.push((f, 2nat)));
}

/// Random access agrees with sequential access: after popping `i` frames, the
/// head of the logical sequence is exactly the frame that `get(i)` reads from
/// the buffer before any popping.
pub proof fn lemma_get_agrees_with_pops(runs: Seq<Run>, i: nat)
    requires
        wf_runs(runs),
        i < flatten_runs(runs).len(),
    ensures
        wf_runs(pop_run_n(runs, i)),
        flatten_runs(pop_run_n(runs, i)) == flatten_runs(runs).skip(i as int),
        flatten_runs(pop_run_n(runs, i))[0] == flatten_runs(runs)[i as int],
    decreases i,
{
    if i == 0 {
        assert(flatten_runs(runs).skip(0) =~= flatten_runs(runs));
        lemma_flatten_empty(runs);
        lemma_pop_run(runs);
    } else {
        lemma_flatten_empty(runs);
        lemma_pop_run(runs);
        lemma_get_agrees_with_pops(pop_run(runs), (i - 1) as nat);
        assert(pop_run_n(runs, i) == pop_run_n(pop_run(runs), (i - 1) as nat));
        assert(flatten_runs(runs).skip(1).skip(i - 1) =~= flatten_runs(runs).skip(i as int));
    }
}

/// The per-peer input buffer: an ordered, run-length-compressed sequence of
/// frames plus the cached total logical length. Constructed with an initial
/// artificial delay of default frames, pushed at the tail as frames are
/// observed, consumed at the head by the simulation.
#[derive(Clone)]
pub struct PlayerInputBuffer {
    buffer: VecDeque<(NetplayBufferItem, usize)>,
    len: usize,
}

impl View for PlayerInputBuffer {
    type V = Seq<FrameSets>;

    closed spec fn view(&self) -> Seq<FrameSets> {
        flatten_runs(self.runs())
    }
}

impl PlayerInputBuffer {
    /// The run sequence this buffer stores, at the model level.
    pub closed spec fn runs(&self) -> Seq<Run> {
        self.buffer@.map_values(|r: (NetplayBufferItem, usize)| (r.0@, r.1 as nat))
    }

    /// The buffer's invariant: the run sequence is well formed and the cached
    /// length equals the logical length.
    pub closed spec fn inv(&self) -> bool {
        &&& wf_runs(self.runs())
        &&& self.len == flatten_runs(self.runs()).len()
    }

    /// A buffer seeded with `delay` logical frames of the default (empty)
    /// frame, stored as a single run: the simulation draws that many frames of
    /// no input before the first real frame, giving the network time to
    /// deliver it. A zero delay seeds nothing.
    pub fn new_with_delay(delay: usize) -> (r: Self)
        ensures
            r.inv(),
            r@ == frame_repeat(empty_frame(), delay as nat),
            r@.len() == delay,
            delay > 0 ==> r.runs() == seq![(empty_frame(), delay as nat)],
            delay == 0 ==> r.runs() == Seq::<Run>::empty(),
    {
        let mut buffer: VecDeque<(NetplayBufferItem, usize)> = VecDeque::new();
        if delay > 0 {
            buffer.push_back((NetplayBufferItem::default(), delay));
        }
        let r = PlayerInputBuffer { buffer, len: delay };
        proof {
            if delay > 0 {
                let run = (empty_frame(), delay as nat);
                assert(r.runs() =~= seq![run]);
                assert(Seq::<Run>::empty().push(run) =~= seq![run]);
                lemma_flatten_push(Seq::<Run>::empty(), run);
                assert(flatten_runs(Seq::<Run>::empty()) == Seq::<FrameSets>::empty());
                assert(r@ =~= frame_repeat(empty_frame(), delay as nat));
            } else {
                assert(r.runs() =~= Seq::<Run>::empty());
                assert(r@ =~= frame_repeat(empty_frame(), delay as nat));
            }
        }
        r
    }

    /// The number of logical frames stored.
    pub fn len(&self) -> (r: usize)
        requires
            self.inv(),
        ensures
            r == self@.len(),
    {
        self.len
    }

    /// Whether no logical frame is stored.
    pub fn is_empty(&self) -> (r: bool)
        requires
            self.inv(),
        ensures
            r == (self@.len() == 0),
    {
        self.len == 0
    }

    /// Append a newly observed frame at the logical tail. When the tail run
    /// holds an equal frame (same input set, same signal set) its count grows
    /// instead of a new run being stored; either way the logical sequence
    /// grows by exactly this frame.
    pub fn push_last(&mut self, input: NetplayBufferItem)
        requires
            old(self).inv(),
            old(self)@.len() < usize::MAX,
        ensures
            final(self).inv(),
            final(self).runs() == push_run(old(self).runs(), input@),
            final(self)@ == old(self)@.push(input@),
            final(self)@.len() == old(self)@.len() + 1,
    {
        proof {
            lemma_push_run(old(self).runs(), input@);
        }
        self.len = self.len + 1;
        let n = self.buffer.len();
        if n > 0 {
            proof {
                lemma_run_count_le_flatten(old(self).runs(), n - 1);
            }
            let merge = self.buffer[n - 1].0 == input;
            if merge {
                let (item, count) = self.buffer.pop_back().unwrap();
                self.buffer.push_back((item, count + 1));
                proof {
                    assert(self.runs() =~= push_run(old(self).runs(), input@));
                }
                return ;
            }
        }
        self.buffer.push_back((input, 1));
        proof {
            assert(self.runs() =~= push_run(old(self).runs(), input@));
        }
    }

    /// Remove the most recently pushed logical frame: the inverse of
    /// `push_last`, used to retract a speculative frame when renegotiating
    /// delay. Deliberately a no-op on an empty buffer, not an error: callers
    /// that need to know should check `len` or `is_empty` first.
    pub fn delete_last(&mut self)
        requires
            old(self).inv(),
        ensures
            final(self).inv(),
            final(self).runs() == delete_last_run(old(self).runs()),
            old(self)@.len() == 0 ==> final(self)@ == old(self)@,
            old(self)@.len() > 0 ==> final(self)@ == old(self)@.drop_last(),
    {
        proof {
            lemma_delete_last_run(old(self).runs());
            lemma_flatten_empty(old(self).runs());
        }
        let n = self.buffer.len();
        if n == 0 {
            return ;
        }
        let (item, count) = self.buffer.pop_back().unwrap();
        self.len = self.len - 1;
        if count > 1 {
            self.buffer.push_back((item, count - 1));
            proof {
                assert(self.runs() =~= delete_last_run(old(self).runs()));
            }
        } else {
            proof {
                assert(self.runs() =~= delete_last_run(old(self).runs()));
            }
        }
    }

    /// The oldest logical frame, without consuming it; `None` when empty.
    pub fn peek_next(&self) -> (r: Option<&NetplayBufferItem>)
        requires
            self.inv(),
        ensures
            self@.len() == 0 ==> r is None,
            self@.len() > 0 ==> (r matches Some(f) && f@ == self@[0]),
    {
        proof {
            lemma_flatten_empty(self.runs());
            if self.runs().len() > 0 {
                lemma_pop_run(self.runs());
            }
        }
        if self.buffer.len() == 0 {
            None
        } else {
            Some(&self.buffer[0].0)
        }
    }

    /// Consume and return the oldest logical frame; `None` when empty. Frames
    /// come out in the exact order they were pushed.
    pub fn pop_next(&mut self) -> (r: Option<NetplayBufferItem>)
        requires
            old(self).inv(),
        ensures
            final(self).inv(),
            final(self).runs() == pop_run(old(self).runs()),
            old(self)@.len() == 0 ==> r is None && final(self)@ == old(self)@,
            old(self)@.len() > 0 ==> (r matches Some(f) && f@ == old(self)@[0] && final(self)@
                == old(self)@.skip(1)),
    {
        proof {
            lemma_flatten_empty(old(self).runs());
            if old(self).runs().len() > 0 {
                lemma_pop_run(old(self).runs());
            }
        }
        if self.buffer.len() == 0 {
            return None;
        }
        let (item, count) = self.buffer.pop_front().unwrap();
        self.len = self.len - 1;
        if count == 1 {
            proof {
                assert(self.runs() =~= pop_run(old(self).runs()));
            }
            Some(item)
        } else {
            let r = item.duplicate();
            self.buffer.push_front((item, count - 1));
            proof {
                assert(self.runs() =~= pop_run(old(self).runs()));
            }
            Some(r)
        }
    }

    /// The logical frame at offset `index` (zero is the oldest), without
    /// mutating the buffer; `None` when `index` is out of range. Walks runs,
    /// so the cost is the number of distinct runs, not the logical length.
    pub fn get(&self, index: usize) -> (r: Option<&NetplayBufferItem>)
        requires
            self.inv(),
        ensures
            index >= self@.len() ==> r is None,
            index < self@.len() ==> (r matches Some(f) && f@ == self@[index as int]),
    {
        if index >= self.len {
            return None;
        }
        let ghost all: Seq<Run> = self.runs();
        let mut i: usize = 0;
        let mut rem: usize = index;
        proof {
            assert(all.take(0) =~= Seq::<Run>::empty());
        }
        while i < self.buffer.len()
            invariant
                self.inv(),
                all == self.runs(),
                index < self@.len(),
                i <= self.buffer@.len(),
                rem <= index,
                flatten_runs(all.take(i as int)).len() == index - rem,
            decreases self.buffer@.len() - i,
        {
            let count = self.buffer[i].1;
            proof {
                assert(all.take(i as int) + all.skip(i as int) =~= all);
                lemma_flatten_concat(all.take(i as int), all.skip(i as int));
                assert(all.skip(i as int)[0] == all[i as int]);
                assert(all.skip(i as int).skip(1) =~= all.skip(i + 1));
                assert(all.take(i + 1) =~= all.take(i as int).push(all[i as int]));
                lemma_flatten_push(all.take(i as int), all[i as int]);
            }
            if count > rem {
                proof {
                    let pre = flatten_runs(all.take(i as int));
                    let here = frame_repeat(all[i as int].0, all[i as int].1);
                    assert(self@ == pre + (here + flatten_runs(all.skip(i + 1))));
                    assert(self@[index as int] == here[rem as int]);
                }
                return Some(&self.buffer[i].0);
            }
            proof {
                assert(flatten_runs(all.take(i + 1)).len() == index - (rem - count));
            }
            rem = rem - count;
            i = i + 1;
        }
        proof {
            assert(all.take(self.buffer@.len() as int) =~= all);
            assert(false);
        }
        None
    }

    /// Empty the buffer entirely: no runs, logical length zero. Used on a
    /// full session reset.
    pub fn clear(&mut self)
        requires
            old(self).inv(),
        ensures
            final(self).inv(),
            final(self).runs() == Seq::<Run>::empty(),
            final(self)@ == Seq::<FrameSets>::empty(),
    {
        self.buffer.clear();
        self.len = 0;
        proof {
            assert(self.runs() =~= Seq::<Run>::empty());
        }
    }
}

impl Default for PlayerInputBuffer {
    /// The default buffer: five frames of artificial input delay.
    fn default() -> (r: Self)
        ensures
            r.inv(),
            r@ == frame_repeat(empty_frame(), 5nat),
            r@.len() == 5,
    {
        PlayerInputBuffer::new_with_delay(5)
    }
}

} // verus!
