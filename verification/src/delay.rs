//! Fixed-offset delay effect over a first-in-first-out buffer.
//!
//! Each call pushes the dry sample onto the tail of the queue; once the
//! queue holds more than `offset` samples, the head is popped as the wet
//! tap.  The output is `dry * signal + wet * tap`; until the queue has
//! filled to the offset the wet tap is silent.  An offset of zero bypasses
//! the effect entirely.

use std::collections::VecDeque;
use vstd::prelude::*;
use crate::fixed::{FP_ONE, fp_mul, fp_mul_spec, lemma_gain_fits};

verus! {

/// Largest input magnitude the delay accepts (the chorus output range).
pub const ECHO_LIMIT: i64 = 0x20000000;

/// The mathematical state of a delay line.
pub ghost struct DelayView {
    /// Samples waiting in the line, oldest first.
    pub queue: Seq<int>,
    /// How many samples the wet tap lags the input.
    pub offset: int,
    /// Wet gain in `[0, FP_ONE]`.
    pub wet: int,
    /// Dry gain in `[0, FP_ONE]`.
    pub dry: int,
}

impl DelayView {
    /// Range invariants.
    pub open spec fn wf(self) -> bool {
        &&& 0 <= self.offset
        &&& 0 <= self.wet <= FP_ONE
        &&& 0 <= self.dry <= FP_ONE
        &&& forall|i: int| 0 <= i < self.queue.len() ==> -ECHO_LIMIT <= #[trigger] self.queue[i]
            <= ECHO_LIMIT
    }
}

/// One delay step: push the input, pop the head as the wet tap once the
/// queue is longer than the offset, and mix.  A zero offset passes the
/// input through untouched.
pub open spec fn delay_step_spec(s: DelayView, x: int) -> (DelayView, int) {
    if s.offset == 0 {
        (s, x)
    } else {
        let q1 = s.queue.push(x);
        if q1.len() > s.offset {
            (
                DelayView { queue: q1.drop_first(), ..s },
                fp_mul_spec(s.dry, x) + fp_mul_spec(s.wet, q1[0]),
            )
        } else {
            (DelayView { queue: q1, ..s }, fp_mul_spec(s.dry, x))
        }
    }
}

/// The state after feeding the inputs `xs` one by one.
pub open spec fn delay_feed(s: DelayView, xs: Seq<int>) -> DelayView
    decreases xs.len(),
{
    if xs.len() == 0 {
        s
    } else {
        delay_feed(delay_step_spec(s, xs[0]).0, xs.drop_first())
    }
}

/// The output of call `k` (counted from zero) when the inputs `xs` are fed
/// one by one from state `s`.
pub open spec fn delay_out_at(s: DelayView, xs: Seq<int>, k: int) -> int {
    delay_step_spec(delay_feed(s, xs.take(k)), xs[k]).1
}

/// Feeding splits off its last input.
proof fn lemma_feed_snoc(s: DelayView, xs: Seq<int>)
    requires
        xs.len() > 0,
    ensures
        delay_feed(s, xs) == delay_step_spec(delay_feed(s, xs.drop_last()), xs.last()).0,
    decreases xs.len(),
{
    if xs.len() == 1 {
        assert(xs.drop_first() =~= Seq::<int>::empty());
        assert(xs.drop_last() =~= Seq::<int>::empty());
        assert(xs.last() == xs[0]);
        assert(delay_feed(s, xs.drop_last()) == s);
        assert(delay_feed(s, xs) == delay_feed(delay_step_spec(s, xs[0]).0, xs.drop_first()));
        assert(delay_feed(delay_step_spec(s, xs[0]).0, xs.drop_first()) == delay_step_spec(
            s,
            xs[0],
        ).0);
    } else {
        let s1 = delay_step_spec(s, xs[0]).0;
        lemma_feed_snoc(s1, xs.drop_first());
        assert(xs.drop_first().drop_last() =~= xs.drop_last().drop_first());
        assert(xs.drop_first().last() == xs.last());
        assert(xs.drop_last()[0] == xs[0]);
        assert(delay_feed(s, xs.drop_last()) == delay_feed(s1, xs.drop_last().drop_first()));
        assert(delay_feed(s, xs) == delay_feed(s1, xs.drop_first()));
    }
}

/// Starting from an empty line, the queue always holds exactly the last
/// `offset` inputs (or all of them while fewer have arrived).
proof fn lemma_delay_feed_queue(s: DelayView, xs: Seq<int>)
    requires
        s.offset >= 1,
        s.queue =~= Seq::<int>::empty(),
    ensures
        delay_feed(s, xs).offset == s.offset,
        delay_feed(s, xs).wet == s.wet,
        delay_feed(s, xs).dry == s.dry,
        delay_feed(s, xs).queue =~= xs.subrange(
            if xs.len() > s.offset {
                xs.len() - s.offset
            } else {
                0
            },
            xs.len() as int,
        ),
    decreases xs.len(),
{
    if xs.len() == 0 {
    } else {
        lemma_feed_snoc(s, xs);
        lemma_delay_feed_queue(s, xs.drop_last());
        let prev = delay_feed(s, xs.drop_last());
        let q1 = prev.queue.push(xs.last());
        if q1.len() > s.offset {
            assert(delay_feed(s, xs).queue =~= xs.subrange(xs.len() - s.offset, xs.len() as int));
        } else {
            assert(delay_feed(s, xs).queue =~= xs.subrange(0, xs.len() as int));
        }
    }
}

/// With a zero offset the delay returns its input unchanged, whatever the
/// buffer holds.
pub proof fn lemma_delay_passthrough(s: DelayView, x: int)
    requires
        s.offset == 0,
    ensures
        delay_step_spec(s, x).0 == s,
        delay_step_spec(s, x).1 == x,
{
}

/// Fed from an empty line with offset `N >= 1`: the first `N` outputs are
/// the dry signal alone, and from call `N` on, the wet tap of call `k` is
/// exactly the input of call `k - N`.
pub proof fn lemma_delay_taps(s: DelayView, xs: Seq<int>, k: int)
    requires
        s.offset >= 1,
        s.queue =~= Seq::<int>::empty(),
        0 <= k < xs.len(),
    ensures
        k < s.offset ==> delay_out_at(s, xs, k) == fp_mul_spec(s.dry, xs[k]),
        k >= s.offset ==> delay_out_at(s, xs, k) == fp_mul_spec(s.dry, xs[k]) + fp_mul_spec(
            s.wet,
            xs[k - s.offset],
        ),
{
    lemma_delay_feed_queue(s, xs.take(k));
    let q = delay_feed(s, xs.take(k)).queue;
    if k < s.offset {
        assert(q.len() + 1 <= s.offset);
    } else {
        assert(q =~= xs.take(k).subrange(k - s.offset, k));
        assert(q.push(xs[k])[0] == xs[k - s.offset]);
    }
}

/// A delay whose line holds only silence turns a silent input into a
/// silent output.
pub proof fn lemma_delay_silent(s: DelayView)
    requires
        forall|i: int| 0 <= i < s.queue.len() ==> #[trigger] s.queue[i] == 0,
    ensures
        delay_step_spec(s, 0).1 == 0,
{
    if s.offset != 0 {
        let q1 = s.queue.push(0);
        assert(q1[0] == 0);
        assert(s.dry * 0 == 0) by (nonlinear_arith);
        assert(s.wet * 0 == 0) by (nonlinear_arith);
        assert(crate::fixed::div_fp(0) == 0) by {
            vstd::arithmetic::div_mod::lemma_div_of0(FP_ONE as int);
        }
    }
}

/// The delay effect: a queue of recent samples, a fixed tap offset, and a
/// wet/dry gain pair.
pub struct Delay {
    buffer: VecDeque<i64>,
    offset: usize,
    wet: i64,
    dry: i64,
}

impl View for Delay {
    type V = DelayView;

    closed spec fn view(&self) -> DelayView {
        DelayView {
            queue: Seq::new(self.buffer@.len(), |i: int| self.buffer@[i] as int),
            offset: self.offset as int,
            wet: self.wet as int,
            dry: self.dry as int,
        }
    }
}

impl Delay {
    /// A fresh delay: a 20 ms tap at 44.1 kHz (882 samples) and unity wet
    /// and dry gains, with the line's backing store allocated up front (a
    /// full second at the reference rate) so the audio path never grows
    /// it.
    pub fn new() -> (d: Delay)
        ensures
            d@.wf(),
            d@.queue =~= Seq::<int>::empty(),
            d@.offset == 882,
            d@.wet == FP_ONE,
            d@.dry == FP_ONE,
    {
        Delay { buffer: VecDeque::with_capacity(44100), offset: 882, wet: FP_ONE, dry: FP_ONE }
    }

    /// Set the wet gain in `[0, FP_ONE]`.
    pub fn set_wet(&mut self, wet: i64)
        requires
            old(self)@.wf(),
            0 <= wet <= FP_ONE,
        ensures
            final(self)@ == (DelayView { wet: wet as int, ..old(self)@ }),
            final(self)@.wf(),
    {
        self.wet = wet;
    }

    /// Set the dry gain in `[0, FP_ONE]`.
    pub fn set_dry(&mut self, dry: i64)
        requires
            old(self)@.wf(),
            0 <= dry <= FP_ONE,
        ensures
            final(self)@ == (DelayView { dry: dry as int, ..old(self)@ }),
            final(self)@.wf(),
    {
        self.dry = dry;
    }

    /// Set the tap offset in samples.
    pub fn set_offset(&mut self, offset: usize)
        requires
            old(self)@.wf(),
        ensures
            final(self)@ == (DelayView { offset: offset as int, ..old(self)@ }),
            final(self)@.wf(),
    {
        self.offset = offset;
    }

    /// One delay sample, exactly as `delay_step_spec` describes.
    pub fn step(&mut self, signal: i64) -> (out: i64)
        requires
            old(self)@.wf(),
            -ECHO_LIMIT <= signal <= ECHO_LIMIT,
        ensures
            final(self)@.wf(),
            final(self)@ == delay_step_spec(old(self)@, signal as int).0,
            out as int == delay_step_spec(old(self)@, signal as int).1,
            -2 * ECHO_LIMIT <= out <= 2 * ECHO_LIMIT,
    {
        if self.offset == 0 {
            return signal;
        }
        let ghost q1 = old(self)@.queue.push(signal as int);
        self.buffer.push_back(signal);
        proof {
            assert(self@.queue =~= q1);
        }
        if self.buffer.len() > self.offset {
            let tap = match self.buffer.pop_front() {
                Some(t) => t,
                None => 0,
            };
            proof {
                assert(self@.queue =~= q1.drop_first());
                assert(tap as int == q1[0]);
                lemma_gain_fits(self@.dry, signal as int, ECHO_LIMIT as int);
                lemma_gain_fits(self@.wet, tap as int, ECHO_LIMIT as int);
            }
            fp_mul(self.dry, signal) + fp_mul(self.wet, tap)
        } else {
            proof {
                lemma_gain_fits(self@.dry, signal as int, ECHO_LIMIT as int);
            }
            fp_mul(self.dry, signal)
        }
    }
}

} // verus!
