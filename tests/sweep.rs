use synth::effect::{SweepEffect, SweepEffectIterator, SweepEffectTriangleIterator, SweepTick};

fn sweep(ticks: usize, quantize: usize) -> SweepEffect<f32> {
    SweepEffect {
        freq: (200.0, 1000.0),
        volume: (0.5, 0.0),
        duty: (0.25, 0.75),
        ticks,
        quantize,
    }
}

fn drain(mut it: SweepEffectIterator<f32>) -> Vec<SweepTick<f32>> {
    let mut out = Vec::new();
    while let Some(t) = it.next() {
        out.push(t);
    }
    out
}

fn drain_triangle(mut it: SweepEffectTriangleIterator<f32>) -> Vec<SweepTick<f32>> {
    let mut out = Vec::new();
    while let Some(t) = it.next() {
        out.push(t);
    }
    out
}

fn steps(ticks: &[SweepTick<f32>]) -> Vec<(usize, usize)> {
    ticks.iter().map(|t| (t.step, t.span)).collect()
}

#[test]
fn sweep_yields_ticks_from_start_to_end() {
    let s = sweep(8, 1);
    let out = drain(s.iter());
    assert_eq!(out.len(), 8);
    assert_eq!((out[0].step, out[0].span), (0, 7));
    assert_eq!((out[7].step, out[7].span), (7, 7));
    for t in &out {
        assert_eq!(t.freq, (200.0, 1000.0));
        assert_eq!(t.volume, (0.5, 0.0));
        assert_eq!(t.duty, (0.25, 0.75));
    }
}

#[test]
fn sweep_stops_after_its_ticks() {
    let mut it = sweep(2, 1).iter();
    assert!(it.next().is_some());
    assert!(it.next().is_some());
    assert!(it.next().is_none());
    assert!(it.next().is_none());
}

#[test]
fn three_tick_sweep_middle_is_halfway() {
    let out = drain(sweep(3, 1).iter());
    assert_eq!(steps(&out), vec![(0, 2), (1, 2), (2, 2)]);
}

#[test]
fn quantized_sweep_holds_progress() {
    let out = drain(sweep(7, 3).iter());
    assert_eq!(
        steps(&out),
        vec![(0, 6), (0, 6), (0, 6), (3, 6), (3, 6), (3, 6), (6, 6)]
    );
    let jump = drain(sweep(35, 2).iter());
    assert_eq!(jump.len(), 35);
    assert_eq!((jump[1].step, jump[2].step, jump[34].step), (0, 2, 34));
}

#[test]
fn single_tick_sweep_has_no_span() {
    let out = drain(sweep(1, 1).iter());
    assert_eq!(steps(&out), vec![(0, 0)]);
}

#[test]
fn empty_sweep_yields_nothing() {
    assert!(sweep(0, 1).iter().next().is_none());
}

#[test]
fn reverse_swaps_every_range() {
    let r = sweep(9, 2).reverse();
    assert_eq!(r.freq, (1000.0, 200.0));
    assert_eq!(r.volume, (0.0, 0.5));
    assert_eq!(r.duty, (0.75, 0.25));
    assert_eq!((r.ticks, r.quantize), (9, 2));
}

#[test]
fn reversed_sweep_mirrors_the_sweep() {
    let s = sweep(6, 1);
    let forward = drain(s.iter());
    let backward = drain(s.reverse().iter());
    assert_eq!(backward.len(), forward.len());
    for t in 0..6 {
        let b = backward[t];
        let f = forward[5 - t];
        assert_eq!(b.freq, (f.freq.1, f.freq.0));
        assert_eq!(b.volume, (f.volume.1, f.volume.0));
        assert_eq!(b.duty, (f.duty.1, f.duty.0));
        assert_eq!(b.span, f.span);
        assert_eq!(b.step + f.step, b.span);
    }
}

#[test]
fn triangle_is_sweep_then_reverse() {
    let s = sweep(5, 2);
    let tri = drain_triangle(s.iter_triangle());
    assert_eq!(tri.len(), 10);
    let forward = drain(s.iter());
    let backward = drain(s.reverse().iter());
    for i in 0..5 {
        assert_eq!(tri[i].freq, forward[i].freq);
        assert_eq!(tri[i].step, forward[i].step);
        assert_eq!(tri[5 + i].freq, backward[i].freq);
        assert_eq!(tri[5 + i].volume, backward[i].volume);
        assert_eq!(tri[5 + i].step, backward[i].step);
    }
    assert_eq!(tri[5].freq, (1000.0, 200.0));
}
