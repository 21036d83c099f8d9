use vstd::prelude::*;

verus! {

/// Number of distinct lights (and buttons) on the game device.
pub const COLOR_COUNT: usize = 4;

/// A light counts as on exactly when the raw sample lies strictly below
/// that color's threshold (the sensor's polarity is inverse: a brighter
/// light gives a lower sample).
pub open spec fn spec_light_on(reading: u8, threshold: u8) -> bool {
    reading < threshold
}

/// One decision boundary per color. Populated with a provisional midpoint
/// default at construction, overwritten during calibration, and read-only
/// for the rest of the game.
pub struct Thresholds {
    values: Vec<u8>,
}

impl Thresholds {
    /// The table holds exactly one threshold per color.
    pub closed spec fn wf(self) -> bool {
        self.values@.len() == COLOR_COUNT
    }

    /// The threshold currently stored for one color.
    pub closed spec fn value_of(self, color: int) -> u8 {
        self.values@[color]
    }

    /// A provisional table: every threshold at half of the sample range,
    /// usable until calibration has seen real extremes.
    pub fn new() -> (t: Thresholds)
        ensures
            t.wf(),
            forall|c: int| 0 <= c < COLOR_COUNT ==> t.value_of(c) == u8::MAX / 2,
    {
        let mut values: Vec<u8> = Vec::new();
        values.push(u8::MAX / 2);
        values.push(u8::MAX / 2);
        values.push(u8::MAX / 2);
        values.push(u8::MAX / 2);
        Thresholds { values }
    }

    /// The threshold for one color.
    pub fn get(&self, color: usize) -> (threshold: u8)
        requires
            self.wf(),
            color < COLOR_COUNT,
        ensures
            threshold == self.value_of(color as int),
    {
        self.values[color]
    }

    /// Overwrite one color's threshold, leaving the others untouched.
    pub fn store(&mut self, color: usize, value: u8)
        requires
            old(self).wf(),
            color < COLOR_COUNT,
        ensures
            final(self).wf(),
            final(self).value_of(color as int) == value,
            forall|c: int|
                0 <= c < COLOR_COUNT && c != color ==> final(self).value_of(c) == old(
                    self,
                ).value_of(c),
    {
        self.values[color] = value;
    }
}

/// Classify one raw sample for one color: on iff strictly below that
/// color's threshold, so the boundary value itself reads as off.
pub fn is_light_on(thresholds: &Thresholds, color: usize, reading: u8) -> (on: bool)
    requires
        thresholds.wf(),
        color < COLOR_COUNT,
    ensures
        on == spec_light_on(reading, thresholds.value_of(color as int)),
{
    reading < thresholds.get(color)
}

/// One scan pass in the fixed round-robin color order over a snapshot of
/// readings (one per color): the first color whose reading classifies as
/// on wins; `None` when every light reads as off.
pub fn first_light_on(thresholds: &Thresholds, readings: &Vec<u8>) -> (found: Option<usize>)
    requires
        thresholds.wf(),
        readings@.len() == COLOR_COUNT,
    ensures
        match found {
            Some(c) => {
                &&& c < COLOR_COUNT
                &&& spec_light_on(readings@[c as int], thresholds.value_of(c as int))
                &&& forall|j: int|
                    0 <= j < c ==> !spec_light_on(readings@[j], thresholds.value_of(j))
            },
            None => forall|j: int|
                0 <= j < COLOR_COUNT ==> !spec_light_on(readings@[j], thresholds.value_of(j)),
        },
{
    let mut color: usize = 0;
    while color < COLOR_COUNT
        invariant
            thresholds.wf(),
            readings@.len() == COLOR_COUNT,
            color <= COLOR_COUNT,
            forall|j: int| 0 <= j < color ==> !spec_light_on(readings@[j], thresholds.value_of(j)),
        decreases COLOR_COUNT - color,
    {
        if is_light_on(thresholds, color, readings[color]) {
            return Some(color);
        }
        color = color + 1;
    }
    None
}

} // verus!
