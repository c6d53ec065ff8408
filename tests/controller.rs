use synth::controller::{Controller, EffectSequence, MixLog, Mixer, CHANNELS};
use synth::effect::{SweepEffect, SweepTick};

/// Plays back a fixed list of values, one per tick.
#[derive(Clone)]
struct Script {
    values: Vec<u32>,
    pos: usize,
}

fn script(values: &[u32]) -> Script {
    Script { values: values.to_vec(), pos: 0 }
}

impl EffectSequence<u32> for Script {
    fn next_value(&self) -> Option<u32> {
        self.values.get(self.pos).copied()
    }

    fn advanced(&self) -> Self {
        Script { values: self.values.clone(), pos: self.pos + 1 }
    }

    fn next_tick(&mut self) -> Option<u32> {
        let v = self.next_value();
        *self = self.advanced();
        v
    }
}

/// Records every retune with its absolute sample position, and every span rendered.
struct Recorder<P> {
    base: usize,
    cursor: usize,
    retunes: Vec<(usize, [Option<P>; 4])>,
    spans: Vec<(usize, usize)>,
}

impl<P> Recorder<P> {
    fn new() -> Self {
        Recorder { base: 0, cursor: 0, retunes: Vec::new(), spans: Vec::new() }
    }

    fn request<S: EffectSequence<P>>(&mut self, c: &mut Controller<S>, len: usize) -> usize
    where
        P: Copy,
    {
        self.cursor = 0;
        let ticks = c.generate(len, self);
        assert_eq!(self.cursor, len);
        self.base += len;
        ticks
    }
}

impl<P> Mixer<P> for Recorder<P> {
    fn log(&self) -> MixLog<P> {
        unreachable!("the call log is a verification model; this recorder keeps its own")
    }

    fn retune(&mut self, applied: [Option<P>; 4]) {
        self.retunes.push((self.base + self.cursor, applied));
    }

    fn render(&mut self, offset: usize, samples: usize) {
        assert_eq!(offset, self.cursor);
        self.spans.push((self.base + offset, samples));
        self.cursor = offset + samples;
    }
}

#[test]
fn one_second_sweep_runs_sixty_ticks() {
    let mut c = Controller::new(735, 1);
    let s: SweepEffect<f32> = SweepEffect {
        freq: (200.0, 1000.0),
        volume: (0.5, 0.0),
        duty: (0.25, 0.25),
        ticks: 60,
        quantize: 1,
    };
    c.set_effect(0, 0, s.iter());
    let mut rec: Recorder<SweepTick<f32>> = Recorder::new();
    let ticks = rec.request(&mut c, 44100);
    assert_eq!(ticks, 60);
    assert_eq!(rec.retunes.len(), 60);
    for (i, (pos, applied)) in rec.retunes.iter().enumerate() {
        assert_eq!(*pos, 735 * i);
        let t = applied[0].expect("the sweep plays on every tick");
        assert_eq!((t.step, t.span), (i, 59));
        assert!(applied[1].is_none() && applied[2].is_none() && applied[3].is_none());
    }
    assert_eq!(rec.spans.iter().map(|s| s.1).sum::<usize>(), 44100);
    // The sweep is spent: the next tick silences the channel.
    rec.request(&mut c, 1);
    assert!(rec.retunes[60].1[0].is_none());
}

fn chunked_run(splits: &[usize]) -> (usize, Vec<(usize, [Option<u32>; 4])>) {
    let mut c = Controller::new(100, 2);
    c.set_effect(0, 0, script(&[1, 2, 3, 4, 5, 6]));
    c.set_effect(1, 2, script(&[10, 20]));
    let mut rec = Recorder::new();
    let mut ticks = 0;
    for &n in splits {
        ticks += rec.request(&mut c, n);
    }
    (ticks, rec.retunes)
}

#[test]
fn chunking_does_not_move_ticks() {
    let whole = chunked_run(&[450]);
    assert_eq!(whole.0, 5);
    for split in [1, 50, 99, 100, 101, 250, 449] {
        assert_eq!(chunked_run(&[split, 450 - split]), whole);
    }
    assert_eq!(chunked_run(&[7, 0, 93, 300, 50]), whole);
    let positions: Vec<usize> = whole.1.iter().map(|r| r.0).collect();
    assert_eq!(positions, vec![0, 100, 200, 300, 400]);
}

#[test]
fn cleared_slot_goes_silent_at_next_boundary() {
    let mut c = Controller::new(300, 1);
    c.set_effect(0, 1, script(&[7, 7, 7, 7]));
    let mut rec = Recorder::new();
    rec.request(&mut c, 100);
    c.clear_effect(0, 1);
    rec.request(&mut c, 400);
    assert_eq!(rec.retunes.len(), 2);
    assert_eq!(rec.retunes[0], (0, [None, Some(7), None, None]));
    assert_eq!(rec.retunes[1], (300, [None, None, None, None]));
    // The tick in flight keeps rendering with what it applied.
    assert_eq!(rec.spans[0], (0, 100));
    assert_eq!(rec.spans[1], (100, 200));
}

#[test]
fn later_layer_wins_a_channel() {
    let mut c = Controller::new(10, 3);
    c.set_effect(0, 3, script(&[1, 1, 1]));
    c.set_effect(2, 3, script(&[30]));
    c.set_effect(1, 3, script(&[20, 20]));
    let mut rec = Recorder::new();
    rec.request(&mut c, 30);
    let on_noise: Vec<Option<u32>> = rec.retunes.iter().map(|r| r.1[3]).collect();
    assert_eq!(on_noise, vec![Some(30), Some(20), Some(1)]);
}

#[test]
fn set_effect_replaces_the_slot() {
    let mut c = Controller::new(5, 1);
    c.set_effect(0, 2, script(&[1, 2, 3]));
    let mut rec = Recorder::new();
    rec.request(&mut c, 5);
    c.set_effect(0, 2, script(&[9]));
    rec.request(&mut c, 10);
    let on_triangle: Vec<Option<u32>> = rec.retunes.iter().map(|r| r.1[2]).collect();
    assert_eq!(on_triangle, vec![Some(1), Some(9), None]);
}

#[test]
fn empty_request_runs_no_tick() {
    let mut c: Controller<Script> = Controller::new(4, 1);
    let mut rec = Recorder::new();
    assert_eq!(rec.request(&mut c, 0), 0);
    assert!(rec.retunes.is_empty() && rec.spans.is_empty());
    assert_eq!(rec.request(&mut c, 9), 3);
    assert_eq!(rec.spans, vec![(0, 4), (4, 4), (8, 1)]);
}

#[test]
fn all_channels_are_driven() {
    let mut c = Controller::new(2, 1);
    for ch in 0..CHANNELS {
        c.set_effect(0, ch, script(&[ch as u32 + 1]));
    }
    let mut rec = Recorder::new();
    rec.request(&mut c, 2);
    assert_eq!(rec.retunes[0].1, [Some(1), Some(2), Some(3), Some(4)]);
}
