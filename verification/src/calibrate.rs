use vstd::prelude::*;
use crate::classify::{COLOR_COUNT, Thresholds};

verus! {

/// Least sample in a non-empty stream.
pub open spec fn stream_min(s: Seq<u8>) -> u8
    recommends
        s.len() > 0,
    decreases s.len(),
{
    if s.len() <= 1 {
        s[0]
    } else if s.last() < stream_min(s.drop_last()) {
        s.last()
    } else {
        stream_min(s.drop_last())
    }
}

/// Greatest sample in a non-empty stream.
pub open spec fn stream_max(s: Seq<u8>) -> u8
    recommends
        s.len() > 0,
    decreases s.len(),
{
    if s.len() <= 1 {
        s[0]
    } else if s.last() > stream_max(s.drop_last()) {
        s.last()
    } else {
        stream_max(s.drop_last())
    }
}

/// Running minimum over a stream, starting from the whole sample range:
/// the full range's top before any sample has been seen.
pub open spec fn min_model(s: Seq<u8>) -> u8 {
    if s.len() == 0 {
        u8::MAX
    } else {
        stream_min(s)
    }
}

/// Running maximum over a stream, starting from the range's bottom.
pub open spec fn max_model(s: Seq<u8>) -> u8 {
    if s.len() == 0 {
        u8::MIN
    } else {
        stream_max(s)
    }
}

/// The decision boundary derived from the observed extremes: each half is
/// taken before the sum so the addition stays inside the sample width.
pub open spec fn midpoint(lo: u8, hi: u8) -> u8 {
    (lo / 2 + hi / 2) as u8
}

/// Per-color running extremes of the raw signal observed during the
/// calibration window, together with the ghost history of every sample
/// folded in so far.
pub struct Calibrator {
    mins: Vec<u8>,
    maxs: Vec<u8>,
    observed: Ghost<Seq<Seq<u8>>>,
}

impl Calibrator {
    /// Every sample recorded so far for one color, oldest first.
    pub closed spec fn samples_of(self, color: int) -> Seq<u8> {
        self.observed@[color]
    }

    /// The running extremes track exactly the recorded history.
    pub closed spec fn wf(self) -> bool {
        &&& self.mins@.len() == COLOR_COUNT
        &&& self.maxs@.len() == COLOR_COUNT
        &&& self.observed@.len() == COLOR_COUNT
        &&& forall|c: int|
            0 <= c < COLOR_COUNT ==> (#[trigger] self.mins@[c]) == min_model(self.observed@[c])
        &&& forall|c: int|
            0 <= c < COLOR_COUNT ==> (#[trigger] self.maxs@[c]) == max_model(self.observed@[c])
    }

    /// A fresh calibrator that has seen no samples yet.
    pub fn new() -> (cal: Calibrator)
        ensures
            cal.wf(),
            forall|c: int| 0 <= c < COLOR_COUNT ==> cal.samples_of(c) =~= Seq::<u8>::empty(),
    {
        let mut mins: Vec<u8> = Vec::new();
        let mut maxs: Vec<u8> = Vec::new();
        mins.push(u8::MAX);
        mins.push(u8::MAX);
        mins.push(u8::MAX);
        mins.push(u8::MAX);
        maxs.push(u8::MIN);
        maxs.push(u8::MIN);
        maxs.push(u8::MIN);
        maxs.push(u8::MIN);
        let cal = Calibrator {
            mins,
            maxs,
            observed: Ghost(Seq::new(COLOR_COUNT as nat, |c: int| Seq::<u8>::empty())),
        };
        cal
    }

    /// Fold one raw sample into one color's running extremes and recompute
    /// that color's threshold as the midpoint of the extremes, as the
    /// calibration loop does after every single read.
    pub fn record(&mut self, thresholds: &mut Thresholds, color: usize, value: u8)
        requires
            old(self).wf(),
            old(thresholds).wf(),
            color < COLOR_COUNT,
        ensures
            final(self).wf(),
            final(thresholds).wf(),
            final(self).samples_of(color as int) == old(self).samples_of(color as int).push(
                value,
            ),
            forall|c: int|
                0 <= c < COLOR_COUNT && c != color ==> final(self).samples_of(c) == old(
                    self,
                ).samples_of(c),
            final(thresholds).value_of(color as int) == midpoint(
                stream_min(final(self).samples_of(color as int)),
                stream_max(final(self).samples_of(color as int)),
            ),
            forall|c: int|
                0 <= c < COLOR_COUNT && c != color ==> final(thresholds).value_of(c) == old(
                    thresholds,
                ).value_of(c),
    {
        let ghost history = self.observed@[color as int];
        let current_min = self.mins[color];
        let current_max = self.maxs[color];
        let new_min = if value < current_min {
            value
        } else {
            current_min
        };
        let new_max = if value > current_max {
            value
        } else {
            current_max
        };
        self.mins[color] = new_min;
        self.maxs[color] = new_max;
        thresholds.store(color, new_min / 2 + new_max / 2);
        proof {
            self.observed@ = self.observed@.update(color as int, history.push(value));
            lemma_stream_min_push(history, value);
            lemma_stream_max_push(history, value);
        }
    }
}

/// Appending a sample moves the running minimum down to it exactly when it
/// undercuts the minimum so far.
pub proof fn lemma_stream_min_push(s: Seq<u8>, value: u8)
    ensures
        min_model(s.push(value)) == if value < min_model(s) {
            value
        } else {
            min_model(s)
        },
{
    let pushed = s.push(value);
    assert(pushed.drop_last() =~= s);
    assert(pushed.last() == value);
    if s.len() == 0 {
        assert(pushed.len() == 1);
        assert(pushed[0] == value);
    }
}

/// Appending a sample moves the running maximum up to it exactly when it
/// exceeds the maximum so far.
pub proof fn lemma_stream_max_push(s: Seq<u8>, value: u8)
    ensures
        max_model(s.push(value)) == if value > max_model(s) {
            value
        } else {
            max_model(s)
        },
{
    let pushed = s.push(value);
    assert(pushed.drop_last() =~= s);
    assert(pushed.last() == value);
    if s.len() == 0 {
        assert(pushed.len() == 1);
        assert(pushed[0] == value);
    }
}

/// The running minimum is the true minimum: no sample is below it, and
/// some sample attains it.
pub proof fn lemma_stream_min_is_least(s: Seq<u8>)
    requires
        s.len() > 0,
    ensures
        forall|i: int| 0 <= i < s.len() ==> stream_min(s) <= #[trigger] s[i],
        exists|i: int| 0 <= i < s.len() && s[i] == stream_min(s),
    decreases s.len(),
{
    if s.len() == 1 {
        assert(s[0] == stream_min(s));
    } else {
        lemma_stream_min_is_least(s.drop_last());
        assert forall|i: int| 0 <= i < s.len() implies stream_min(s) <= #[trigger] s[i] by {
            if i < s.len() - 1 {
                assert(s.drop_last()[i] == s[i]);
            }
        }
        if s.last() < stream_min(s.drop_last()) {
            assert(s[s.len() - 1] == stream_min(s));
        } else {
            let j = choose|j: int|
                0 <= j < s.drop_last().len() && s.drop_last()[j] == stream_min(s.drop_last());
            assert(s[j] == stream_min(s));
        }
    }
}

/// The running maximum is the true maximum: no sample is above it, and
/// some sample attains it.
pub proof fn lemma_stream_max_is_greatest(s: Seq<u8>)
    requires
        s.len() > 0,
    ensures
        forall|i: int| 0 <= i < s.len() ==> #[trigger] s[i] <= stream_max(s),
        exists|i: int| 0 <= i < s.len() && s[i] == stream_max(s),
    decreases s.len(),
{
    if s.len() == 1 {
        assert(s[0] == stream_max(s));
    } else {
        lemma_stream_max_is_greatest(s.drop_last());
        assert forall|i: int| 0 <= i < s.len() implies #[trigger] s[i] <= stream_max(s) by {
            if i < s.len() - 1 {
                assert(s.drop_last()[i] == s[i]);
            }
        }
        if s.last() > stream_max(s.drop_last()) {
            assert(s[s.len() - 1] == stream_max(s));
        } else {
            let j = choose|j: int|
                0 <= j < s.drop_last().len() && s.drop_last()[j] == stream_max(s.drop_last());
            assert(s[j] == stream_max(s));
        }
    }
}

} // verus!
