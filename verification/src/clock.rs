//! Tap tempo: the taps that set the master clock's BPM. Taps are timestamps
//! in nanoseconds on one monotonic clock; turning a span of taps into beats
//! per minute is left to the caller.
use vstd::prelude::*;

verus! {

/// A pause longer than this (2 s, in nanoseconds) starts a new tap sequence.
pub const TAP_GAP_NANOS: u64 = 2_000_000_000;

/// The window keeps at most this many recent taps.
pub const MAX_TAPS: usize = 8;

/// The recent taps of a tap-tempo control, oldest first.
pub struct TapTempo {
    taps: Vec<u64>,
}

/// `b - a`, or 0 when `b` is earlier than `a`.
pub open spec fn elapsed(a: u64, b: u64) -> int {
    if b >= a {
        b - a
    } else {
        0
    }
}

/// The taps after a tap at `now`, before the window is trimmed: the earlier
/// taps are dropped when the last one is more than the gap ago.
pub open spec fn taps_with(taps: Seq<u64>, now: u64) -> Seq<u64> {
    if taps.len() > 0 && elapsed(taps.last(), now) > TAP_GAP_NANOS {
        seq![now]
    } else {
        taps.push(now)
    }
}

/// The window after a tap at `now`: the tap is added, and the oldest tap
/// leaves once more than `MAX_TAPS` are held.
pub open spec fn window_after(taps: Seq<u64>, now: u64) -> Seq<u64> {
    let t = taps_with(taps, now);
    if t.len() > MAX_TAPS {
        t.drop_first()
    } else {
        t
    }
}

/// What a tap at `now` measures: with two or more taps in the sequence, the
/// span from its first tap to `now` and the number of beat intervals in it,
/// when that span is not empty.
pub open spec fn tap_measure(taps: Seq<u64>, now: u64) -> Option<(u64, usize)> {
    let t = taps_with(taps, now);
    if t.len() >= 2 && elapsed(t[0], now) > 0 {
        Some((elapsed(t[0], now) as u64, (t.len() - 1) as usize))
    } else {
        None
    }
}

/// The first tap starts a sequence of one tap and measures nothing.
pub proof fn first_tap_starts_a_sequence(now: u64)
    ensures
        window_after(Seq::empty(), now) == seq![now],
        tap_measure(Seq::empty(), now) is None,
{
    assert(Seq::<u64>::empty().push(now) =~= seq![now]);
}

/// A tap no more than the gap after the most recent held tap continues the
/// sequence: it is appended after the held taps (the oldest leaving once the
/// window is full), and the sequence measures from its first held tap to
/// now, with one interval per held tap.
pub proof fn tap_within_gap_continues(taps: Seq<u64>, now: u64)
    requires
        0 < taps.len() <= MAX_TAPS,
        now <= taps.last() + TAP_GAP_NANOS,
    ensures
        window_after(taps, now) == if taps.len() < MAX_TAPS {
            taps.push(now)
        } else {
            taps.drop_first().push(now)
        },
        tap_measure(taps, now) == if now > taps[0] {
            Some(((now - taps[0]) as u64, taps.len() as usize))
        } else {
            None
        },
{
    assert(taps.push(now).drop_first() =~= taps.drop_first().push(now));
    assert(taps.push(now)[0] == taps[0]);
}

/// A tap more than the gap after the most recent held tap drops the held
/// taps and starts a new sequence of one tap, measuring nothing.
pub proof fn tap_after_gap_restarts(taps: Seq<u64>, now: u64)
    requires
        taps.len() > 0,
        now > taps.last() + TAP_GAP_NANOS,
    ensures
        window_after(taps, now) == seq![now],
        tap_measure(taps, now) is None,
{
}

impl View for TapTempo {
    type V = Seq<u64>;

    closed spec fn view(&self) -> Seq<u64> {
        self.taps@
    }
}

impl TapTempo {
    #[verifier::type_invariant]
    spec fn bounded(self) -> bool {
        self.taps@.len() <= MAX_TAPS
    }

    /// A tap tempo with no taps yet.
    pub fn new() -> (t: TapTempo)
        ensures
            t@ == Seq::<u64>::empty(),
    {
        TapTempo { taps: Vec::new() }
    }

    /// The taps held, oldest first.
    pub fn taps(&self) -> (taps: Vec<u64>)
        ensures
            taps@ == self@,
            taps@.len() <= MAX_TAPS,
    {
        proof {
            use_type_invariant(self);
        }
        self.taps.clone()
    }

    /// Register a tap at `now`. Returns the span of the current tap sequence
    /// and its number of intervals once it has two or more taps over a
    /// non-empty span; the mean interval of the sequence is span / intervals.
    pub fn register(&mut self, now: u64) -> (r: Option<(u64, usize)>)
        ensures
            final(self)@ == window_after(old(self)@, now),
            final(self)@.len() <= MAX_TAPS,
            r == tap_measure(old(self)@, now),
            old(self)@.len() == 0 ==> final(self)@ == seq![now] && r is None,
            old(self)@.len() > 0 && now <= old(self)@.last() + TAP_GAP_NANOS ==> {
                &&& final(self)@ == if old(self)@.len() < MAX_TAPS {
                    old(self)@.push(now)
                } else {
                    old(self)@.drop_first().push(now)
                }
                &&& r == if now > old(self)@[0] {
                    Some(((now - old(self)@[0]) as u64, old(self)@.len() as usize))
                } else {
                    None
                }
            },
            old(self)@.len() > 0 && now > old(self)@.last() + TAP_GAP_NANOS ==> final(self)@
                == seq![now] && r is None,
    {
        proof {
            use_type_invariant(&*self);
            first_tap_starts_a_sequence(now);
            if old(self)@.len() > 0 {
                if now <= old(self)@.last() + TAP_GAP_NANOS {
                    tap_within_gap_continues(old(self)@, now);
                } else {
                    tap_after_gap_restarts(old(self)@, now);
                }
            }
        }
        let mut taps: Vec<u64> = Vec::new();
        std::mem::swap(&mut taps, &mut self.taps);
        let ghost old_taps = taps@;
        let n = taps.len();
        if n > 0 {
            let last = taps[n - 1];
            let gap: u64 = if now >= last {
                now - last
            } else {
                0
            };
            if gap > TAP_GAP_NANOS {
                taps.clear();
            }
        }
        taps.push(now);
        assert(taps@ =~= taps_with(old_taps, now));
        let mut r: Option<(u64, usize)> = None;
        if taps.len() >= 2 {
            let first = taps[0];
            let span: u64 = if now >= first {
                now - first
            } else {
                0
            };
            if span > 0 {
                r = Some((span, taps.len() - 1));
            }
        }
        if taps.len() > MAX_TAPS {
            taps.remove(0);
        }
        assert(taps@ =~= window_after(old_taps, now));
        self.taps = taps;
        r
    }
}

} // verus!
