//! The controller: one effect slot per layer and channel, the tick scheduler,
//! and how the outputs of all layers are resolved onto the channels.
//!
//! Slot `(layer, channel)` holds an optional effect sequence. At every tick
//! boundary each occupied slot is asked for its next parameters, layer by
//! layer; a sequence that has run out is dropped from its slot. Each channel
//! then plays the parameters of the last layer that produced any, or is
//! silenced. Between boundaries the channels keep their state.

use vstd::prelude::*;

verus! {

/// The number of waveform channels: 0 and 1 are the pulse channels, 2 the
/// triangle channel and 3 the noise channel.
pub const CHANNELS: usize = 4;

/// A lazy, possibly infinite producer of one set of channel parameters per tick.
///
/// `next_value` and `advanced` model the sequence: an implementation promises
/// that `next_tick` returns the one and leaves the other. The sweep iterators
/// of this crate are proved to; other implementations are taken at their word.
pub trait EffectSequence<P>: Sized {
    /// What the next call of `next_tick` returns.
    spec fn next_value(&self) -> Option<P>;

    /// The sequence as it stands after that call.
    spec fn advanced(&self) -> Self;

    /// The parameters for the next tick, or `None` once the sequence has run out.
    fn next_tick(&mut self) -> (r: Option<P>)
        ensures
            r == old(self).next_value(),
            *final(self) == old(self).advanced(),
    ;
}

/// A call that the controller makes on its mixer.
pub enum MixEvent<P> {
    /// A tick starts: channel `c` takes the `c`-th value, or is silenced where it is `None`.
    Retune(Seq<Option<P>>),
    /// `samples` samples are rendered at `offset` into the request.
    Render(nat, nat),
}

/// The calls made on a mixer, in order.
pub type MixLog<P> = Seq<MixEvent<P>>;

/// What the controller drives: the four waveform channels and the output
/// buffer that they are rendered into.
///
/// `log` models the mixer as the list of calls made on it; an implementation
/// promises that each call adds exactly its own event.
pub trait Mixer<P> {
    /// Every call made on the mixer so far, in order.
    spec fn log(&self) -> MixLog<P>;

    /// Starts a tick: channel `c` takes `applied[c]`, or is silenced where that is `None`.
    fn retune(&mut self, applied: [Option<P>; 4])
        ensures
            final(self).log() == old(self).log().push(MixEvent::Retune(applied@)),
    ;

    /// Renders `samples` samples, the sum of all channels in their current
    /// state, at `offset` into the request.
    fn render(&mut self, offset: usize, samples: usize)
        ensures
            final(self).log() == old(self).log().push(MixEvent::Render(offset as nat, samples as nat)),
    ;
}

/// What a tick asks of one slot: the next value of its sequence, or nothing
/// for an empty slot.
pub open spec fn pull<S: EffectSequence<P>, P>(slot: Option<S>) -> Option<P> {
    match slot {
        Some(e) => e.next_value(),
        None => None,
    }
}

/// A slot after a tick: its sequence advanced by one value, or empty where
/// the sequence had run out (or the slot was empty).
pub open spec fn after_tick<S: EffectSequence<P>, P>(slot: Option<S>) -> Option<S> {
    match slot {
        Some(e) => if e.next_value().is_some() {
            Some(e.advanced())
        } else {
            None
        },
        None => None,
    }
}

/// What every slot yields in a tick, slot `(l, c)` at `4 * l + c`.
pub open spec fn pulls<S: EffectSequence<P>, P>(slots: Seq<Option<S>>) -> Seq<Option<P>> {
    Seq::new(slots.len(), |i: int| pull::<S, P>(slots[i]))
}

/// All slots after a tick.
pub open spec fn ticked<S: EffectSequence<P>, P>(slots: Seq<Option<S>>) -> Seq<Option<S>> {
    Seq::new(slots.len(), |i: int| after_tick::<S, P>(slots[i]))
}

/// What the four channels play in a tick: for each, the value of the last
/// layer whose slot yielded one, or `None` (silence).
pub open spec fn tick_applied<S: EffectSequence<P>, P>(slots: Seq<Option<S>>) -> Seq<Option<P>> {
    Seq::new(4, |c: int| latest(pulls::<S, P>(slots), c, slots.len()))
}

/// The value that channel `c` holds after the first `n` slots of a tick have
/// been asked, slot `(l, c)` being the `4 * l + c`-th: the last value produced
/// for that channel, or `None` where there was none.
pub open spec fn latest<P>(pulled: Seq<Option<P>>, c: int, n: nat) -> Option<P>
    decreases n,
{
    if n == 0 {
        None
    } else {
        let j = n - 1;
        if j % 4 == c && pulled[j].is_some() {
            pulled[j]
        } else {
            latest(pulled, c, (n - 1) as nat)
        }
    }
}

/// One span of a request of `samples` samples at `offset`, starting with
/// `remainder` samples left in the current tick: the mixer calls made, the
/// slots afterwards and the remainder afterwards. A tick is run first when the
/// span starts on a boundary (`remainder == tick_length`).
pub open spec fn span_step<S: EffectSequence<P>, P>(
    tick_length: nat,
    remainder: nat,
    slots: Seq<Option<S>>,
    offset: nat,
    samples: nat,
) -> (Seq<MixEvent<P>>, Seq<Option<S>>, nat) {
    let render = MixEvent::Render(offset, samples);
    let left = if remainder == samples {
        tick_length
    } else {
        (remainder - samples) as nat
    };
    if remainder == tick_length {
        (seq![MixEvent::Retune(tick_applied::<S, P>(slots)), render], ticked::<S, P>(slots), left)
    } else {
        (seq![render], slots, left)
    }
}

/// A request for the samples `offset..len`: every mixer call made, the slots
/// afterwards and the remainder of the current tick afterwards. Each span
/// ends at the end of the request or of the current tick, whichever is first.
pub open spec fn run<S: EffectSequence<P>, P>(
    tick_length: nat,
    remainder: nat,
    slots: Seq<Option<S>>,
    offset: nat,
    len: nat,
) -> (Seq<MixEvent<P>>, Seq<Option<S>>, nat)
    decreases len - offset,
{
    if offset < len && remainder > 0 {
        let samples = if len - offset < remainder {
            (len - offset) as nat
        } else {
            remainder
        };
        let st = span_step::<S, P>(tick_length, remainder, slots, offset, samples);
        let rest = run::<S, P>(tick_length, st.2, st.1, offset + samples, len);
        (st.0 + rest.0, rest.1, rest.2)
    } else {
        (Seq::empty(), slots, remainder)
    }
}

/// Whether offset `i` of a request that starts `phase` samples into a tick is
/// a tick boundary.
pub open spec fn is_boundary(phase: nat, tick_length: nat, i: nat) -> bool {
    (phase + i) % tick_length == 0
}

/// How many tick boundaries lie among the first `n` samples of a request that
/// starts `phase` samples into a tick.
pub open spec fn boundary_count(phase: nat, tick_length: nat, n: nat) -> nat
    decreases n,
{
    if n == 0 {
        0
    } else {
        boundary_count(phase, tick_length, (n - 1) as nat) + if is_boundary(
            phase,
            tick_length,
            (n - 1) as nat,
        ) {
            1nat
        } else {
            0nat
        }
    }
}

/// The effect slots of every layer and the tick clock.
pub struct Controller<S> {
    /// How long each tick is, in samples.
    tick_length: usize,
    /// How many samples of the current tick are left; `tick_length` right at a boundary.
    tick_remainder: usize,
    layers: usize,
    /// Slot `(l, c)` at `4 * l + c`.
    channel_effects: Vec<Option<S>>,
}

impl<S> Controller<S> {
    /// The tick clock stands inside a tick and every layer has four slots.
    pub closed spec fn wf(&self) -> bool {
        &&& 0 < self.tick_remainder <= self.tick_length
        &&& self.channel_effects@.len() == 4 * self.layers
    }

    /// How long each tick is, in samples.
    pub closed spec fn tick_length(&self) -> nat {
        self.tick_length as nat
    }

    pub closed spec fn layer_count(&self) -> nat {
        self.layers as nat
    }

    /// How many samples of the current tick are left; `tick_length` right at a boundary.
    pub closed spec fn remainder(&self) -> nat {
        self.tick_remainder as nat
    }

    /// How many samples of the current tick have been rendered; `0` right at a boundary.
    pub closed spec fn phase(&self) -> nat {
        (self.tick_length - self.tick_remainder) as nat
    }

    /// All slots, layer after layer: slot `(l, c)` at `4 * l + c`.
    pub closed spec fn slots(&self) -> Seq<Option<S>> {
        self.channel_effects@
    }

    /// What `wf` guarantees to callers.
    pub proof fn lemma_wf(&self)
        requires
            self.wf(),
        ensures
            0 < self.remainder() <= self.tick_length(),
            self.phase() == self.tick_length() - self.remainder(),
            self.slots().len() == 4 * self.layer_count(),
    {
    }

    /// A controller with `layers` layers of empty slots, right at a tick boundary.
    pub fn new(tick_length: usize, layers: usize) -> (r: Controller<S>)
        requires
            tick_length > 0,
            layers <= usize::MAX / 4,
        ensures
            r.wf(),
            r.tick_length() == tick_length,
            r.layer_count() == layers,
            r.remainder() == tick_length,
            r.phase() == 0,
            r.slots().len() == 4 * layers,
            forall|i: int| 0 <= i < r.slots().len() ==> (#[trigger] r.slots()[i]).is_none(),
    {
        let n = 4 * layers;
        let mut channel_effects: Vec<Option<S>> = Vec::new();
        let mut i: usize = 0;
        while i < n
            invariant
                i <= n,
                channel_effects@.len() == i,
                forall|j: int| 0 <= j < i ==> (#[trigger] channel_effects@[j]).is_none(),
            decreases n - i,
        {
            channel_effects.push(None);
            i += 1;
        }
        Controller { tick_length, tick_remainder: tick_length, layers, channel_effects }
    }

    /// Installs `effect` in slot `(layer, channel)`, dropping what was there.
    pub fn set_effect(&mut self, layer: usize, channel: usize, effect: S)
        requires
            old(self).wf(),
            layer < old(self).layer_count(),
            channel < 4,
        ensures
            final(self).wf(),
            final(self).slots() == old(self).slots().update(4 * layer + channel, Some(effect)),
            final(self).slots().len() == 4 * final(self).layer_count(),
            final(self).tick_length() == old(self).tick_length(),
            final(self).layer_count() == old(self).layer_count(),
            final(self).remainder() == old(self).remainder(),
            final(self).phase() == old(self).phase(),
    {
        let slots = self.channel_effects.len();
        assert(4 * layer + channel < slots);
        self.channel_effects.set(4 * layer + channel, Some(effect));
    }

    /// Empties slot `(layer, channel)`. The channel keeps playing until the
    /// next tick boundary.
    pub fn clear_effect(&mut self, layer: usize, channel: usize)
        requires
            old(self).wf(),
            layer < old(self).layer_count(),
            channel < 4,
        ensures
            final(self).wf(),
            final(self).slots() == old(self).slots().update(4 * layer + channel, None),
            final(self).slots().len() == 4 * final(self).layer_count(),
            final(self).tick_length() == old(self).tick_length(),
            final(self).layer_count() == old(self).layer_count(),
            final(self).remainder() == old(self).remainder(),
            final(self).phase() == old(self).phase(),
    {
        let slots = self.channel_effects.len();
        assert(4 * layer + channel < slots);
        self.channel_effects.set(4 * layer + channel, None);
    }

    /// Asks every occupied slot, layer by layer, for its parameters of the new
    /// tick and empties the slots whose sequence has run out. Returns what each
    /// channel plays in this tick: the value of the last layer that produced one.
    fn tick<P: Copy>(&mut self) -> (applied: [Option<P>; 4])
        where
            S: EffectSequence<P>,
        requires
            old(self).wf(),
        ensures
            final(self).wf(),
            final(self).tick_length() == old(self).tick_length(),
            final(self).layer_count() == old(self).layer_count(),
            final(self).remainder() == old(self).remainder(),
            final(self).slots() == ticked::<S, P>(old(self).slots()),
            applied@ == tick_applied::<S, P>(old(self).slots()),
    {
        let mut applied: [Option<P>; 4] = [None, None, None, None];
        let ghost mut pulled: Seq<Option<P>> = Seq::empty();
        let n = self.channel_effects.len();
        let mut i: usize = 0;
        while i < n
            invariant
                self.wf(),
                n == self.channel_effects@.len(),
                n == old(self).channel_effects@.len(),
                self.tick_length == old(self).tick_length,
                self.tick_remainder == old(self).tick_remainder,
                self.layers == old(self).layers,
                i <= n,
                pulled.len() == i,
                forall|j: int| i <= j < n ==> self.channel_effects@[j] == old(self).channel_effects@[j],
                forall|j: int|
                    0 <= j < i ==> self.channel_effects@[j] == after_tick::<S, P>(
                        #[trigger] old(self).channel_effects@[j],
                    ),
                forall|j: int|
                    0 <= j < i ==> #[trigger] pulled[j] == pull::<S, P>(old(self).channel_effects@[j]),
                forall|c: int| 0 <= c < 4 ==> #[trigger] applied@[c] == latest(pulled, c, i as nat),
            decreases n - i,
        {
            let c = i % 4;
            let produced = match &mut self.channel_effects[i] {
                Some(effect) => effect.next_tick(),
                None => None,
            };
            match produced {
                Some(out) => {
                    applied[c] = Some(out);
                },
                None => {
                    // The sequence has run out (or the slot was empty).
                    self.channel_effects.set(i, None);
                },
            }
            proof {
                let prev = pulled;
                pulled = pulled.push(produced);
                assert(pulled.drop_last() =~= prev);
                assert forall|k: int| 0 <= k < 4 implies #[trigger] applied@[k] == latest(
                    pulled,
                    k,
                    (i + 1) as nat,
                ) by {
                    lemma_latest_prefix(pulled, prev, k, i as nat);
                }
            }
            i += 1;
        }
        proof {
            let old_slots = old(self).slots();
            assert(pulled =~= pulls::<S, P>(old_slots));
            assert(self.slots() =~= ticked::<S, P>(old_slots));
            assert(applied@ =~= tick_applied::<S, P>(old_slots));
        }
        applied
    }

    /// Renders the next span of a request: up to `remaining` samples, never
    /// past the end of the current tick. At a tick boundary the tick is run
    /// first and the mixer retuned. Returns the number of samples rendered.
    fn generate_tick<P: Copy, M: Mixer<P>>(
        &mut self,
        mixer: &mut M,
        offset: usize,
        remaining: usize,
    ) -> (samples: usize)
        where
            S: EffectSequence<P>,
        requires
            old(self).wf(),
            remaining > 0,
        ensures
            final(self).wf(),
            final(self).tick_length() == old(self).tick_length(),
            final(self).layer_count() == old(self).layer_count(),
            samples == if remaining < old(self).remainder() {
                remaining as nat
            } else {
                old(self).remainder()
            },
            ({
                let st = span_step::<S, P>(
                    old(self).tick_length(),
                    old(self).remainder(),
                    old(self).slots(),
                    offset as nat,
                    samples as nat,
                );
                &&& final(mixer).log() == old(mixer).log() + st.0
                &&& final(self).slots() == st.1
                &&& final(self).remainder() == st.2
            }),
    {
        let ghost log0 = mixer.log();
        if self.tick_remainder == self.tick_length {
            // First sample of the tick: advance every effect.
            let applied = self.tick();
            mixer.retune(applied);
        }
        let samples = if remaining < self.tick_remainder {
            remaining
        } else {
            self.tick_remainder
        };
        let left = self.tick_remainder - samples;
        // At the end of a tick, wrap around to a full one.
        self.tick_remainder = if left == 0 {
            self.tick_length
        } else {
            left
        };
        mixer.render(offset, samples);
        proof {
            let st = span_step::<S, P>(
                old(self).tick_length(),
                old(self).remainder(),
                old(self).slots(),
                offset as nat,
                samples as nat,
            );
            assert(mixer.log() =~= log0 + st.0);
        }
        samples
    }

    /// Fills a request of `len` samples: runs a tick at every tick boundary
    /// that the request crosses and renders the spans between them, as `run`
    /// describes. Returns the number of ticks run.
    pub fn generate<P: Copy, M: Mixer<P>>(&mut self, len: usize, mixer: &mut M) -> (ticks: usize)
        where
            S: EffectSequence<P>,
        requires
            old(self).wf(),
        ensures
            final(self).wf(),
            final(self).tick_length() == old(self).tick_length(),
            final(self).layer_count() == old(self).layer_count(),
            ({
                let r = run::<S, P>(
                    old(self).tick_length(),
                    old(self).remainder(),
                    old(self).slots(),
                    0,
                    len as nat,
                );
                &&& final(mixer).log() == old(mixer).log() + r.0
                &&& final(self).slots() == r.1
                &&& final(self).remainder() == r.2
            }),
            ticks == boundary_count(old(self).phase(), old(self).tick_length(), len as nat),
            final(self).phase() == (old(self).phase() + len) as int % (old(self).tick_length() as int),
    {
        let ghost p0 = self.phase();
        let ghost tl = self.tick_length();
        let ghost r0 = run::<S, P>(tl, self.remainder(), self.slots(), 0, len as nat);
        let ghost log0 = mixer.log();
        let mut ticks: usize = 0;
        let mut offset: usize = 0;
        proof {
            vstd::arithmetic::div_mod::lemma_small_mod(p0, tl);
            assert(log0 + r0.0 =~= mixer.log() + r0.0);
        }
        while offset < len
            invariant
                self.wf(),
                offset <= len,
                ticks <= offset,
                tl == self.tick_length(),
                tl == old(self).tick_length(),
                p0 == old(self).phase(),
                self.layer_count() == old(self).layer_count(),
                ticks == boundary_count(p0, tl, offset as nat),
                self.phase() == (p0 + offset) as int % (tl as int),
                ({
                    let r = run::<S, P>(tl, self.remainder(), self.slots(), offset as nat, len as nat);
                    &&& log0 + r0.0 == mixer.log() + r.0
                    &&& r0.1 == r.1
                    &&& r0.2 == r.2
                }),
            decreases len - offset,
        {
            let ghost log1 = mixer.log();
            let ghost rem1 = self.remainder();
            let ghost slots1 = self.slots();
            let fired = self.tick_remainder == self.tick_length;
            let samples = self.generate_tick(mixer, offset, len - offset);
            proof {
                lemma_count_span(p0, tl, offset as nat, samples as nat);
                vstd::arithmetic::div_mod::lemma_add_mod_noop_right(
                    samples as int,
                    (p0 + offset) as int,
                    tl as int,
                );
                let st = span_step::<S, P>(tl, rem1, slots1, offset as nat, samples as nat);
                let rest = run::<S, P>(tl, self.remainder(), self.slots(), (offset + samples) as nat, len as nat);
                assert(run::<S, P>(tl, rem1, slots1, offset as nat, len as nat).0 == st.0 + rest.0);
                assert(log1 + (st.0 + rest.0) =~= (log1 + st.0) + rest.0);
                if rem1 == samples {
                    vstd::arithmetic::div_mod::lemma_mod_self_0(tl as int);
                } else {
                    vstd::arithmetic::div_mod::lemma_small_mod((tl - rem1 + samples) as nat, tl);
                }
            }
            if fired {
                ticks += 1;
            }
            offset += samples;
        }
        proof {
            assert(mixer.log() + Seq::<MixEvent<P>>::empty() =~= mixer.log());
        }
        ticks
    }
}

/// `latest` over the first `n` entries depends on those entries alone.
proof fn lemma_latest_prefix<P>(a: Seq<Option<P>>, b: Seq<Option<P>>, c: int, n: nat)
    requires
        n <= a.len(),
        n <= b.len(),
        forall|j: int| 0 <= j < n ==> a[j] == b[j],
    ensures
        latest(a, c, n) == latest(b, c, n),
    decreases n,
{
    if n > 0 {
        lemma_latest_prefix(a, b, c, (n - 1) as nat);
    }
}

/// A span that starts at tick phase `(p + offset) % tick_length` and does not
/// reach past the end of its tick holds a boundary at its first sample or nowhere.
proof fn lemma_count_span(p: nat, tick_length: nat, offset: nat, samples: nat)
    requires
        tick_length > 0,
        samples <= tick_length - (p + offset) as int % (tick_length as int),
    ensures
        boundary_count(p, tick_length, offset + samples) == boundary_count(p, tick_length, offset)
            + if samples > 0 && is_boundary(p, tick_length, offset) {
            1nat
        } else {
            0nat
        },
    decreases samples,
{
    if samples > 0 {
        lemma_count_span(p, tick_length, offset, (samples - 1) as nat);
        let j = (samples - 1) as nat;
        if j > 0 {
            let ph = (p + offset) as int % (tick_length as int);
            vstd::arithmetic::div_mod::lemma_add_mod_noop((p + offset) as int, j as int, tick_length as int);
            vstd::arithmetic::div_mod::lemma_small_mod(j, tick_length);
            vstd::arithmetic::div_mod::lemma_small_mod((ph + j) as nat, tick_length);
            assert(!is_boundary(p, tick_length, offset + j));
        }
    }
}

} // verus!

verus! {

/// `latest` is `None` where nothing among the first `n` pulls produced a value
/// for channel `c`.
proof fn lemma_latest_none<P>(pulled: Seq<Option<P>>, c: int, n: nat)
    requires
        n <= pulled.len(),
        forall|i: int| 0 <= i < n && i % 4 == c ==> (#[trigger] pulled[i]).is_none(),
    ensures
        latest(pulled, c, n).is_none(),
    decreases n,
{
    if n > 0 {
        lemma_latest_none(pulled, c, (n - 1) as nat);
    }
}

/// `latest` keeps the value of slot `(j, c)` for as long as no later layer
/// produces one for channel `c`.
proof fn lemma_latest_holds<P>(pulled: Seq<Option<P>>, c: int, j: int, n: nat)
    requires
        0 <= c < 4,
        0 <= j,
        4 * j + c < n <= pulled.len(),
        pulled[4 * j + c].is_some(),
        forall|k: int| j < k && 4 * k + c < n ==> (#[trigger] pulled[4 * k + c]).is_none(),
    ensures
        latest(pulled, c, n) == pulled[4 * j + c],
    decreases n,
{
    if n > 4 * j + c + 1 {
        let i = n - 1;
        if i % 4 == c {
            let k = i / 4;
            assert(4 * k + c == i);
            assert(pulled[4 * k + c].is_none());
        }
        lemma_latest_holds(pulled, c, j, (n - 1) as nat);
    }
}

/// The last layer wins: when the sequence in slot `(j, c)` yields a value at a
/// tick and no later layer's slot for channel `c` does, channel `c` plays
/// exactly that value, whatever earlier layers yielded. Values of several
/// layers are never blended.
pub proof fn lemma_later_layer_wins<S: EffectSequence<P>, P>(
    slots: Seq<Option<S>>,
    layers: nat,
    c: int,
    j: int,
)
    requires
        slots.len() == 4 * layers,
        0 <= c < 4,
        0 <= j < layers,
        pull::<S, P>(slots[4 * j + c]).is_some(),
        forall|k: int| j < k < layers ==> (#[trigger] pull::<S, P>(slots[4 * k + c])).is_none(),
    ensures
        tick_applied::<S, P>(slots)[c] == pull::<S, P>(slots[4 * j + c]),
{
    let pulled = pulls::<S, P>(slots);
    assert forall|k: int| j < k && 4 * k + c < 4 * layers implies (#[trigger] pulled[4 * k
        + c]).is_none() by {
        assert(k < layers);
        assert(pull::<S, P>(slots[4 * k + c]).is_none());
    }
    lemma_latest_holds(pulled, c, j, 4 * layers);
}

/// After `clear_effect(layer, c)`, the next tick asks that slot for nothing
/// and leaves it empty; where no other layer holds a sequence for channel
/// `c`, that tick silences the channel.
pub proof fn lemma_cleared_channel_is_silenced<S: EffectSequence<P>, P>(
    slots: Seq<Option<S>>,
    layer: int,
    c: int,
)
    requires
        0 <= c < 4,
        0 <= layer,
        4 * layer + c < slots.len(),
        forall|l: int|
            0 <= l && 4 * l + c < slots.len() && l != layer ==> (#[trigger] slots[4 * l
                + c]).is_none(),
    ensures
        pulls::<S, P>(slots.update(4 * layer + c, None))[4 * layer + c].is_none(),
        ticked::<S, P>(slots.update(4 * layer + c, None))[4 * layer + c].is_none(),
        tick_applied::<S, P>(slots.update(4 * layer + c, None))[c].is_none(),
{
    let before = slots.update(4 * layer + c, None);
    let pulled = pulls::<S, P>(before);
    assert forall|i: int| 0 <= i < before.len() && i % 4 == c implies (
    #[trigger] pulled[i]).is_none() by {
        let l = i / 4;
        assert(4 * l + c == i);
        assert(before[i].is_none());
    }
    lemma_latest_none(pulled, c, before.len());
}

/// Where no slot of channel `c` holds a sequence, every tick of a request
/// silences channel `c`, and those slots stay empty.
proof fn lemma_silent_run<S: EffectSequence<P>, P>(
    tick_length: nat,
    remainder: nat,
    slots: Seq<Option<S>>,
    offset: nat,
    len: nat,
    c: int,
)
    requires
        0 <= c < 4,
        forall|i: int| 0 <= i < slots.len() && i % 4 == c ==> (#[trigger] slots[i]).is_none(),
    ensures
        ({
            let r = run::<S, P>(tick_length, remainder, slots, offset, len);
            &&& forall|i: int|
                0 <= i < r.0.len() ==> (#[trigger] r.0[i] matches MixEvent::Retune(a) ==> a[c].is_none())
            &&& forall|i: int| 0 <= i < r.1.len() && i % 4 == c ==> (#[trigger] r.1[i]).is_none()
        }),
    decreases len - offset,
{
    if offset < len && remainder > 0 {
        let samples = if len - offset < remainder {
            (len - offset) as nat
        } else {
            remainder
        };
        let st = span_step::<S, P>(tick_length, remainder, slots, offset, samples);
        let t = ticked::<S, P>(slots);
        assert forall|i: int| 0 <= i < t.len() && i % 4 == c implies (#[trigger] t[i]).is_none() by {
            assert(slots[i].is_none());
        }
        let pulled = pulls::<S, P>(slots);
        assert forall|i: int| 0 <= i < slots.len() && i % 4 == c implies (
        #[trigger] pulled[i]).is_none() by {
            assert(slots[i].is_none());
        }
        lemma_latest_none(pulled, c, slots.len());
        lemma_silent_run::<S, P>(tick_length, st.2, st.1, offset + samples, len, c);
        let rest = run::<S, P>(tick_length, st.2, st.1, offset + samples, len);
        let all = st.0 + rest.0;
        assert forall|i: int| 0 <= i < all.len() implies (#[trigger] all[i] matches MixEvent::Retune(
            a,
        ) ==> a[c].is_none()) by {
            if i >= st.0.len() {
                assert(all[i] == rest.0[i - st.0.len()]);
            }
        }
    }
}

/// After `clear_effect(layer, c)` in the middle of a tick, where no other
/// layer holds a sequence for channel `c`: the next request first renders the
/// rest of the current tick without retuning anything, and every tick from
/// the next boundary on silences channel `c`.
pub proof fn lemma_cleared_channel_stays_silent<S: EffectSequence<P>, P>(
    tick_length: nat,
    remainder: nat,
    slots: Seq<Option<S>>,
    layer: int,
    c: int,
    len: nat,
)
    requires
        0 < remainder < tick_length,
        0 <= c < 4,
        0 <= layer,
        4 * layer + c < slots.len(),
        forall|l: int|
            0 <= l && 4 * l + c < slots.len() && l != layer ==> (#[trigger] slots[4 * l
                + c]).is_none(),
    ensures
        ({
            let r = run::<S, P>(tick_length, remainder, slots.update(4 * layer + c, None), 0, len);
            &&& len > 0 ==> r.0[0] == MixEvent::<P>::Render(
                0,
                if len < remainder {
                    len
                } else {
                    remainder
                },
            )
            &&& forall|i: int|
                0 <= i < r.0.len() ==> (#[trigger] r.0[i] matches MixEvent::Retune(a) ==> a[c].is_none())
        }),
{
    let cleared = slots.update(4 * layer + c, None);
    assert forall|i: int| 0 <= i < cleared.len() && i % 4 == c implies (
    #[trigger] cleared[i]).is_none() by {
        let l = i / 4;
        assert(4 * l + c == i);
    }
    lemma_silent_run::<S, P>(tick_length, remainder, cleared, 0, len, c);
}

/// Splitting a request of `n` samples at any `k` into two requests changes
/// nothing about the ticks: the boundaries fall on the same samples, as many
/// ticks are run, and the clock ends where it would have ended.
pub proof fn lemma_split_request(phase: nat, tick_length: nat, n: nat, k: nat)
    requires
        0 < tick_length,
        phase < tick_length,
        k <= n,
    ensures
        forall|i: nat|
            k <= i < n ==> #[trigger] is_boundary(phase, tick_length, i) == is_boundary(
                ((phase + k) % tick_length) as nat,
                tick_length,
                (i - k) as nat,
            ),
        boundary_count(phase, tick_length, n) == boundary_count(phase, tick_length, k)
            + boundary_count(((phase + k) % tick_length) as nat, tick_length, (n - k) as nat),
        ((phase + k) % tick_length + (n - k)) % (tick_length as int) == (phase + n) as int % (
        tick_length as int),
    decreases n,
{
    let m = tick_length as int;
    let q = ((phase + k) % tick_length) as nat;
    assert forall|i: nat| k <= i < n implies #[trigger] is_boundary(phase, tick_length, i)
        == is_boundary(q, tick_length, (i - k) as nat) by {
        vstd::arithmetic::div_mod::lemma_add_mod_noop_right((i - k) as int, (phase + k) as int, m);
    }
    vstd::arithmetic::div_mod::lemma_add_mod_noop_right((n - k) as int, (phase + k) as int, m);
    if n > k {
        lemma_split_request(phase, tick_length, (n - 1) as nat, k);
        vstd::arithmetic::div_mod::lemma_add_mod_noop_right((n - 1 - k) as int, (phase + k) as int, m);
        assert(is_boundary(phase, tick_length, (n - 1) as nat) == is_boundary(
            q,
            tick_length,
            (n - 1 - k) as nat,
        ));
    }
}

/// The mixer calls of a request with span boundaries erased: every `Render`
/// of `s` samples becomes `s` single-sample renders, retunes stay as they are.
/// Two requests with the same stream feed the channels the same parameters
/// at the same samples.
pub open spec fn sample_stream<P>(events: Seq<MixEvent<P>>) -> Seq<MixEvent<P>>
    decreases events.len(),
{
    if events.len() == 0 {
        Seq::empty()
    } else {
        event_stream(events[0]) + sample_stream(events.drop_first())
    }
}

/// The stream of one mixer call.
pub open spec fn event_stream<P>(event: MixEvent<P>) -> Seq<MixEvent<P>> {
    match event {
        MixEvent::Retune(a) => seq![MixEvent::Retune(a)],
        MixEvent::Render(_, samples) => Seq::new(samples, |i: int| MixEvent::Render(0, 1)),
    }
}

proof fn lemma_stream_single<P>(e: MixEvent<P>)
    ensures
        sample_stream(seq![e]) == event_stream(e),
{
    let one = seq![e];
    assert(one.len() == 1 && one[0] == e);
    assert(one.drop_first() =~= Seq::<MixEvent<P>>::empty());
    assert(sample_stream(one.drop_first()) =~= Seq::<MixEvent<P>>::empty());
    assert(event_stream(e) + Seq::<MixEvent<P>>::empty() =~= event_stream(e));
}

proof fn lemma_stream_concat<P>(x: Seq<MixEvent<P>>, y: Seq<MixEvent<P>>)
    ensures
        sample_stream(x + y) == sample_stream(x) + sample_stream(y),
    decreases x.len(),
{
    if x.len() == 0 {
        assert(x + y =~= y);
        assert(sample_stream(x) + sample_stream(y) =~= sample_stream(y));
    } else {
        assert((x + y)[0] == x[0]);
        assert((x + y).drop_first() =~= x.drop_first() + y);
        lemma_stream_concat(x.drop_first(), y);
        let head = event_stream(x[0]);
        assert(head + (sample_stream(x.drop_first()) + sample_stream(y)) =~= (head
            + sample_stream(x.drop_first())) + sample_stream(y));
    }
}

/// The stream of a short list of events.
proof fn lemma_stream_two<P>(a: MixEvent<P>, b: MixEvent<P>)
    ensures
        sample_stream(seq![a]) == sample_stream(seq![a, b]).subrange(
            0,
            sample_stream(seq![a]).len() as int,
        ),
        sample_stream(seq![a, b]) == sample_stream(seq![a]) + sample_stream(seq![b]),
{
    assert(seq![a, b] =~= seq![a] + seq![b]);
    lemma_stream_concat(seq![a], seq![b]);
}

/// Moving a request to other offsets changes neither its stream nor where it ends.
proof fn lemma_run_shift<S: EffectSequence<P>, P>(
    tick_length: nat,
    remainder: nat,
    slots: Seq<Option<S>>,
    offset: nat,
    len: nat,
    d: nat,
)
    requires
        offset <= len,
    ensures
        sample_stream(run::<S, P>(tick_length, remainder, slots, offset, len).0) == sample_stream(
            run::<S, P>(tick_length, remainder, slots, offset + d, len + d).0,
        ),
        run::<S, P>(tick_length, remainder, slots, offset, len).1 == run::<S, P>(
            tick_length,
            remainder,
            slots,
            offset + d,
            len + d,
        ).1,
        run::<S, P>(tick_length, remainder, slots, offset, len).2 == run::<S, P>(
            tick_length,
            remainder,
            slots,
            offset + d,
            len + d,
        ).2,
    decreases len - offset,
{
    if offset < len && remainder > 0 {
        let samples = if len - offset < remainder {
            (len - offset) as nat
        } else {
            remainder
        };
        let st = span_step::<S, P>(tick_length, remainder, slots, offset, samples);
        let sd = span_step::<S, P>(tick_length, remainder, slots, offset + d, samples);
        lemma_run_shift::<S, P>(tick_length, st.2, st.1, offset + samples, len, d);
        let r = run::<S, P>(tick_length, st.2, st.1, offset + samples, len);
        let rd = run::<S, P>(tick_length, st.2, st.1, offset + samples + d, len + d);
        lemma_stream_concat(st.0, r.0);
        lemma_stream_concat(sd.0, rd.0);
        if remainder == tick_length {
            let t = MixEvent::Retune(tick_applied::<S, P>(slots));
            lemma_stream_two(t, MixEvent::<P>::Render(offset, samples));
            lemma_stream_two(t, MixEvent::<P>::Render(offset + d, samples));
            lemma_stream_single(MixEvent::<P>::Render(offset, samples));
            lemma_stream_single(MixEvent::<P>::Render(offset + d, samples));
            assert(sample_stream(seq![MixEvent::<P>::Render(offset, samples)]) =~= sample_stream(
                seq![MixEvent::<P>::Render(offset + d, samples)],
            ));
        } else {
            lemma_stream_single(MixEvent::<P>::Render(offset, samples));
            lemma_stream_single(MixEvent::<P>::Render(offset + d, samples));
            assert(sample_stream(seq![MixEvent::<P>::Render(offset, samples)]) =~= sample_stream(
                seq![MixEvent::<P>::Render(offset + d, samples)],
            ));
        }
    }
}

/// Splitting the request `offset..len` at `k` into `offset..k` and `k..len`
/// gives the same stream and the same end state.
#[verifier::rlimit(60)]
proof fn lemma_run_split_at<S: EffectSequence<P>, P>(
    tick_length: nat,
    remainder: nat,
    slots: Seq<Option<S>>,
    offset: nat,
    k: nat,
    len: nat,
)
    requires
        remainder <= tick_length,
        offset <= k <= len,
    ensures
        ({
            let whole = run::<S, P>(tick_length, remainder, slots, offset, len);
            let a = run::<S, P>(tick_length, remainder, slots, offset, k);
            let b = run::<S, P>(tick_length, a.2, a.1, k, len);
            &&& sample_stream(whole.0) == sample_stream(a.0) + sample_stream(b.0)
            &&& whole.1 == b.1
            &&& whole.2 == b.2
        }),
    decreases len - offset,
{
    let whole = run::<S, P>(tick_length, remainder, slots, offset, len);
    let a = run::<S, P>(tick_length, remainder, slots, offset, k);
    if k == offset || remainder == 0 {
        assert(sample_stream(a.0) =~= Seq::<MixEvent<P>>::empty());
        assert(Seq::<MixEvent<P>>::empty() + sample_stream(whole.0) =~= sample_stream(whole.0));
    } else {
        let s = if len - offset < remainder {
            (len - offset) as nat
        } else {
            remainder
        };
        let sa = if k - offset < remainder {
            (k - offset) as nat
        } else {
            remainder
        };
        let st = span_step::<S, P>(tick_length, remainder, slots, offset, s);
        let rest = run::<S, P>(tick_length, st.2, st.1, offset + s, len);
        lemma_stream_concat(st.0, rest.0);
        if sa == s {
            lemma_run_split_at::<S, P>(tick_length, st.2, st.1, offset + s, k, len);
            let ra = run::<S, P>(tick_length, st.2, st.1, offset + s, k);
            lemma_stream_concat(st.0, ra.0);
            let b = run::<S, P>(tick_length, a.2, a.1, k, len);
            assert(sample_stream(st.0) + (sample_stream(ra.0) + sample_stream(b.0)) =~= (
            sample_stream(st.0) + sample_stream(ra.0)) + sample_stream(b.0));
        } else {
            let sta = span_step::<S, P>(tick_length, remainder, slots, offset, sa);
            assert(run::<S, P>(tick_length, sta.2, sta.1, k, k).0 =~= Seq::<MixEvent<P>>::empty());
            assert(a.0 =~= sta.0);
            let b = run::<S, P>(tick_length, a.2, a.1, k, len);
            let stb = span_step::<S, P>(tick_length, a.2, a.1, k, (s - sa) as nat);
            assert(b.0 == stb.0 + rest.0);
            lemma_stream_concat(stb.0, rest.0);
            let one = Seq::new(s, |i: int| MixEvent::<P>::Render(0, 1));
            let part = Seq::new(sa, |i: int| MixEvent::<P>::Render(0, 1));
            let more = Seq::new((s - sa) as nat, |i: int| MixEvent::<P>::Render(0, 1));
            assert(one =~= part + more);
            lemma_stream_single(MixEvent::<P>::Render(offset, s));
            lemma_stream_single(MixEvent::<P>::Render(offset, sa));
            lemma_stream_single(MixEvent::<P>::Render(k, (s - sa) as nat));
            assert(sample_stream(seq![MixEvent::<P>::Render(offset, s)]) =~= one);
            assert(sample_stream(seq![MixEvent::<P>::Render(offset, sa)]) =~= part);
            assert(sample_stream(stb.0) =~= more);
            if remainder == tick_length {
                let t = MixEvent::Retune(tick_applied::<S, P>(slots));
                lemma_stream_two(t, MixEvent::<P>::Render(offset, s));
                lemma_stream_two(t, MixEvent::<P>::Render(offset, sa));
                assert(sample_stream(seq![t]) + one + sample_stream(rest.0) =~= (sample_stream(
                    seq![t],
                ) + part) + (more + sample_stream(rest.0)));
            } else {
                assert(one + sample_stream(rest.0) =~= part + (more + sample_stream(rest.0)));
            }
        }
    }
}

/// Splitting a request of `n` samples at any `k` into two requests renders
/// the same thing: the mixer is retuned with the same values before the same
/// samples, and the controller ends with the same slots and the same clock.
pub proof fn lemma_split_run<S: EffectSequence<P>, P>(
    tick_length: nat,
    remainder: nat,
    slots: Seq<Option<S>>,
    n: nat,
    k: nat,
)
    requires
        remainder <= tick_length,
        k <= n,
    ensures
        ({
            let whole = run::<S, P>(tick_length, remainder, slots, 0, n);
            let a = run::<S, P>(tick_length, remainder, slots, 0, k);
            let b = run::<S, P>(tick_length, a.2, a.1, 0, (n - k) as nat);
            &&& sample_stream(whole.0) == sample_stream(a.0) + sample_stream(b.0)
            &&& whole.1 == b.1
            &&& whole.2 == b.2
        }),
{
    let a = run::<S, P>(tick_length, remainder, slots, 0, k);
    lemma_run_split_at::<S, P>(tick_length, remainder, slots, 0, k, n);
    lemma_run_shift::<S, P>(tick_length, a.2, a.1, 0, (n - k) as nat, k);
    assert(0 + k == k && (n - k) + k == n);
}

} // verus!
