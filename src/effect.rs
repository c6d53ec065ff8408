//! Sweep effects: a fixed number of ticks whose parameters move from a start
//! to an end value.
//!
//! A sweep does not compute sample parameters itself. Each tick it reports the
//! three `(start, end)` ranges together with its progress along them as the
//! fraction `step / span`: `0` stands for the start values and `1` for the end
//! values. Frequency is meant to be interpolated in the log2 domain, volume and
//! duty linearly. The parameter type `T` is chosen by the caller.

use vstd::prelude::*;

use crate::controller::EffectSequence;

verus! {

/// The output of one sweep tick: the parameter ranges and the progress
/// `step / span` along them.
pub struct SweepTick<T> {
    pub freq: (T, T),
    pub volume: (T, T),
    pub duty: (T, T),
    pub step: usize,
    pub span: usize,
}

impl<T: Copy> Clone for SweepTick<T> {
    fn clone(&self) -> (r: Self)
        ensures
            r == *self,
    {
        *self
    }
}

impl<T: Copy> Copy for SweepTick<T> {

}

impl<T> SweepTick<T> {
    /// `self` and `o` describe the same parameters from opposite ends: every
    /// range is swapped and the two progress fractions add up to one.
    pub open spec fn mirrors(self, o: SweepTick<T>) -> bool {
        &&& self.freq == (o.freq.1, o.freq.0)
        &&& self.volume == (o.volume.1, o.volume.0)
        &&& self.duty == (o.duty.1, o.duty.0)
        &&& self.span == o.span
        &&& self.step + o.step == self.span
    }
}

/// A sweep of `ticks` ticks. Progress is held for `quantize` ticks at a time,
/// which gives a stair-stepped envelope when `quantize > 1`.
pub struct SweepEffect<T> {
    pub freq: (T, T),
    pub volume: (T, T),
    pub duty: (T, T),
    pub ticks: usize,
    pub quantize: usize,
}

impl<T: Copy> Clone for SweepEffect<T> {
    fn clone(&self) -> (r: Self)
        ensures
            r == *self,
    {
        *self
    }
}

impl<T: Copy> Copy for SweepEffect<T> {

}

impl<T> SweepEffect<T> {
    /// The tick `t` truncated down to a multiple of `quantize`.
    pub open spec fn quantized(self, t: nat) -> nat {
        (t / (self.quantize as nat)) * (self.quantize as nat)
    }

    /// What the sweep reports at tick `t` (counted from zero).
    pub open spec fn tick_at(self, t: nat) -> SweepTick<T> {
        SweepTick {
            freq: self.freq,
            volume: self.volume,
            duty: self.duty,
            step: self.quantized(t) as usize,
            span: (self.ticks - 1) as usize,
        }
    }

    /// Everything the sweep reports, one entry per tick.
    pub open spec fn outputs(self) -> Seq<SweepTick<T>> {
        Seq::new(self.ticks as nat, |t: int| self.tick_at(t as nat))
    }

    /// The sweep with every `(start, end)` range swapped.
    pub open spec fn reversed(self) -> SweepEffect<T> {
        SweepEffect {
            freq: (self.freq.1, self.freq.0),
            volume: (self.volume.1, self.volume.0),
            duty: (self.duty.1, self.duty.0),
            ticks: self.ticks,
            quantize: self.quantize,
        }
    }
}

impl<T: Copy> SweepEffect<T> {
    /// The same sweep played from its end to its start: all three ranges are
    /// swapped, `ticks` and `quantize` are kept.
    pub fn reverse(&self) -> (r: SweepEffect<T>)
        ensures
            r == self.reversed(),
    {
        SweepEffect {
            freq: (self.freq.1, self.freq.0),
            volume: (self.volume.1, self.volume.0),
            duty: (self.duty.1, self.duty.0),
            ticks: self.ticks,
            quantize: self.quantize,
        }
    }

    /// Iterates the ticks of the sweep.
    pub fn iter(&self) -> (r: SweepEffectIterator<T>)
        requires
            self.quantize > 0,
        ensures
            r.remaining() == self.outputs(),
    {
        let r = SweepEffectIterator { sweep: *self, tick: 0 };
        assert(r.remaining() =~= self.outputs());
        r
    }

    /// Iterates `iter()`, then `reverse().iter()`: an envelope that goes up and
    /// comes back down.
    pub fn iter_triangle(&self) -> (r: SweepEffectTriangleIterator<T>)
        requires
            self.quantize > 0,
        ensures
            r.remaining() == self.outputs() + self.reversed().outputs(),
    {
        let reverse = self.reverse();
        SweepEffectTriangleIterator { forward: self.iter(), reverse: reverse.iter(), on_reverse: false }
    }
}

/// The ticks of a sweep, produced one at a time.
pub struct SweepEffectIterator<T> {
    sweep: SweepEffect<T>,
    tick: usize,
}

impl<T> SweepEffectIterator<T> {
    #[verifier::type_invariant]
    spec fn inv(&self) -> bool {
        self.sweep.quantize > 0 && self.tick <= self.sweep.ticks
    }

    /// The ticks that are still to come.
    pub closed spec fn remaining(&self) -> Seq<SweepTick<T>> {
        self.sweep.outputs().subrange(self.tick as int, self.sweep.ticks as int)
    }

    /// The iterator after one call of `next`.
    pub closed spec fn stepped(&self) -> SweepEffectIterator<T> {
        if self.tick < self.sweep.ticks {
            SweepEffectIterator { sweep: self.sweep, tick: (self.tick + 1) as usize }
        } else {
            *self
        }
    }
}

impl<T: Copy> SweepEffectIterator<T> {
    /// Produces the next tick, or `None` once all `ticks` ticks have been produced.
    pub fn next(&mut self) -> (r: Option<SweepTick<T>>)
        ensures
            old(self).remaining().len() == 0 ==> r.is_none() && final(self).remaining() == old(
                self,
            ).remaining(),
            old(self).remaining().len() > 0 ==> r == Some(old(self).remaining()[0])
                && final(self).remaining() == old(self).remaining().drop_first(),
            *final(self) == old(self).stepped(),
    {
        proof {
            use_type_invariant(&*self);
        }
        if self.tick >= self.sweep.ticks {
            None
        } else {
            let q = self.sweep.quantize;
            let t = self.tick;
            proof {
                vstd::arithmetic::div_mod::lemma_fundamental_div_mod(t as int, q as int);
                vstd::arithmetic::div_mod::lemma_mod_bound(t as int, q as int);
                assert((t as int / q as int) * q as int <= t) by (nonlinear_arith)
                    requires
                        t as int == q * (t as int / q as int) + t as int % q as int,
                        t as int % q as int >= 0,
                ;
            }
            // Truncate the tick down to a multiple of `quantize`.
            let quantized_tick = (t / q) * q;
            let span = self.sweep.ticks - 1;
            self.tick = t + 1;
            let r = SweepTick {
                freq: self.sweep.freq,
                volume: self.sweep.volume,
                duty: self.sweep.duty,
                step: quantized_tick,
                span,
            };
            proof {
                let old_rem = self.sweep.outputs().subrange(t as int, self.sweep.ticks as int);
                assert(old_rem[0] == self.sweep.tick_at(t as nat));
                assert(self.remaining() =~= old_rem.drop_first());
            }
            Some(r)
        }
    }
}

/// The ticks of a sweep followed by those of its reverse.
pub struct SweepEffectTriangleIterator<T> {
    forward: SweepEffectIterator<T>,
    reverse: SweepEffectIterator<T>,
    on_reverse: bool,
}

impl<T> SweepEffectTriangleIterator<T> {
    /// The ticks that are still to come.
    pub closed spec fn remaining(&self) -> Seq<SweepTick<T>> {
        if self.on_reverse {
            self.reverse.remaining()
        } else {
            self.forward.remaining() + self.reverse.remaining()
        }
    }

    /// The iterator after one call of `next`.
    pub closed spec fn stepped(&self) -> SweepEffectTriangleIterator<T> {
        if self.on_reverse {
            SweepEffectTriangleIterator {
                forward: self.forward,
                reverse: self.reverse.stepped(),
                on_reverse: true,
            }
        } else if self.forward.remaining().len() > 0 {
            SweepEffectTriangleIterator {
                forward: self.forward.stepped(),
                reverse: self.reverse,
                on_reverse: false,
            }
        } else {
            SweepEffectTriangleIterator {
                forward: self.forward,
                reverse: self.reverse.stepped(),
                on_reverse: true,
            }
        }
    }
}

impl<T: Copy> SweepEffectTriangleIterator<T> {
    /// Produces the next tick, or `None` once both halves are done.
    pub fn next(&mut self) -> (r: Option<SweepTick<T>>)
        ensures
            old(self).remaining().len() == 0 ==> r.is_none() && final(self).remaining() == old(
                self,
            ).remaining(),
            old(self).remaining().len() > 0 ==> r == Some(old(self).remaining()[0])
                && final(self).remaining() == old(self).remaining().drop_first(),
            *final(self) == old(self).stepped(),
    {
        if self.on_reverse {
            self.reverse.next()
        } else {
            match self.forward.next() {
                Some(v) => {
                    proof {
                        let f = old(self).forward.remaining();
                        let b = old(self).reverse.remaining();
                        assert((f + b).drop_first() =~= f.drop_first() + b);
                    }
                    Some(v)
                },
                None => {
                    self.on_reverse = true;
                    proof {
                        assert(old(self).forward.remaining() + old(self).reverse.remaining()
                            =~= old(self).reverse.remaining());
                    }
                    self.reverse.next()
                },
            }
        }
    }
}

impl<T: Copy> EffectSequence<SweepTick<T>> for SweepEffectIterator<T> {
    open spec fn next_value(&self) -> Option<SweepTick<T>> {
        if self.remaining().len() > 0 {
            Some(self.remaining()[0])
        } else {
            None
        }
    }

    open spec fn advanced(&self) -> Self {
        self.stepped()
    }

    fn next_tick(&mut self) -> Option<SweepTick<T>> {
        self.next()
    }
}

impl<T: Copy> EffectSequence<SweepTick<T>> for SweepEffectTriangleIterator<T> {
    open spec fn next_value(&self) -> Option<SweepTick<T>> {
        if self.remaining().len() > 0 {
            Some(self.remaining()[0])
        } else {
            None
        }
    }

    open spec fn advanced(&self) -> Self {
        self.stepped()
    }

    fn next_tick(&mut self) -> Option<SweepTick<T>> {
        self.next()
    }
}

/// A sweep with `quantize == 1` and at least two ticks reports exactly `ticks`
/// ticks, all over the sweep's own ranges; the first stands at progress 0 (the
/// start values) and the last at progress 1 (the end values).
pub proof fn lemma_sweep_runs_start_to_end<T>(s: SweepEffect<T>)
    requires
        s.quantize == 1,
        s.ticks >= 2,
    ensures
        s.outputs().len() == s.ticks,
        forall|t: int|
            0 <= t < s.ticks ==> #[trigger] s.outputs()[t].freq == s.freq && s.outputs()[t].volume
                == s.volume && s.outputs()[t].duty == s.duty,
        s.outputs()[0].step == 0,
        s.outputs()[0].span > 0,
        s.outputs()[s.ticks - 1].step == s.outputs()[s.ticks - 1].span,
{
    let last = (s.ticks - 1) as nat;
    assert(last / 1 == last);
    assert(s.quantized(last) == last);
    assert(s.quantized(0) == 0);
}

/// With `quantize == 1` and three ticks, the middle tick stands halfway: at
/// progress `1 / 2`, the log-domain midpoint of the frequency range.
pub proof fn lemma_three_tick_midpoint<T>(s: SweepEffect<T>)
    requires
        s.quantize == 1,
        s.ticks == 3,
    ensures
        s.outputs()[1].step == 1,
        s.outputs()[1].span == 2,
        s.outputs()[1].freq == s.freq,
{
    assert(s.quantized(1) == 1);
}

/// With `quantize == 1`, the reversed sweep reports the ticks of the sweep in
/// reverse order: tick `t` of the reverse describes the same parameters as
/// tick `ticks - 1 - t` of the sweep.
pub proof fn lemma_reverse_mirrors<T>(s: SweepEffect<T>)
    requires
        s.quantize == 1,
    ensures
        s.reversed().outputs().len() == s.outputs().len(),
        forall|t: int|
            0 <= t < s.ticks ==> #[trigger] s.reversed().outputs()[t].mirrors(
                s.outputs()[s.ticks - 1 - t],
            ),
{
    assert forall|t: int| 0 <= t < s.ticks implies #[trigger] s.reversed().outputs()[t].mirrors(
        s.outputs()[s.ticks - 1 - t],
    ) by {
        let u = s.ticks - 1 - t;
        assert(s.reversed().quantized(t as nat) == t);
        assert(s.quantized(u as nat) == u);
    }
}

/// The triangle envelope of a sweep has `2 * ticks` ticks and its second half
/// is the reversed sweep.
pub proof fn lemma_triangle_halves<T>(s: SweepEffect<T>)
    ensures
        (s.outputs() + s.reversed().outputs()).len() == 2 * s.ticks,
        (s.outputs() + s.reversed().outputs()).subrange(s.ticks as int, 2 * s.ticks)
            == s.reversed().outputs(),
        (s.outputs() + s.reversed().outputs()).subrange(0, s.ticks as int) == s.outputs(),
{
    let both = s.outputs() + s.reversed().outputs();
    assert(both.subrange(s.ticks as int, 2 * s.ticks) =~= s.reversed().outputs());
    assert(both.subrange(0, s.ticks as int) =~= s.outputs());
}

} // verus!
