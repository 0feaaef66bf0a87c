use ledbetter::clock::TapTempo;

const MS: u64 = 1_000_000;

#[test]
fn taps_at_120bpm_derive_120() {
    let mut t = TapTempo::new();
    assert_eq!(t.register(0), None);
    assert_eq!(t.register(500 * MS), Some((500 * MS, 1)));
    assert_eq!(t.register(1000 * MS), Some((1000 * MS, 2)));
    let (span, intervals) = t.register(1500 * MS).unwrap();
    assert_eq!((span, intervals), (1500 * MS, 3));
    let bpm = 60.0 * intervals as f32 / (span as f32 / 1e9);
    assert!((bpm - 120.0).abs() < 0.5, "bpm was {}", bpm);
}

#[test]
fn long_pause_starts_over() {
    let mut t = TapTempo::new();
    t.register(0);
    t.register(1000 * MS);
    assert_eq!(t.register(3001 * MS), None); // 2.001 s later: a new sequence
    assert_eq!(t.taps(), vec![3001 * MS]);
    assert_eq!(t.register(5001 * MS), Some((2000 * MS, 1))); // exactly 2 s: kept
}

#[test]
fn window_keeps_eight_taps() {
    let mut t = TapTempo::new();
    for i in 0..8u64 {
        t.register(i * 100 * MS);
    }
    assert_eq!(t.taps().len(), 8);
    // the ninth tap still measures from the oldest of nine, then drops it
    assert_eq!(t.register(800 * MS), Some((800 * MS, 8)));
    let taps = t.taps();
    assert_eq!(taps.len(), 8);
    assert_eq!(taps[0], 100 * MS);
    assert_eq!(taps[7], 800 * MS);
}

#[test]
fn repeated_tap_at_one_instant_measures_nothing() {
    let mut t = TapTempo::new();
    t.register(5);
    assert_eq!(t.register(5), None);
}
