//! A series that numbers its own points and can fill itself with random
//! values: a stand-in for a device.

use crate::single_line::{as_pairs, keep_latest, DataPoint, WindowPolicy};
use rand::Rng;
use vstd::prelude::*;

verus! {

/// The number of points that a series keeps unless it is told otherwise.
pub const DEFAULT_LOOKBACK_LEN: usize = 400;

/// `Rng::gen_range` of the crate `rand`, called on the generator that
/// `rand::thread_rng` hands out, with the inclusive range from `low` to
/// `high`. It panics on an empty range, so `low` may not exceed `high`. Of
/// the number it returns nothing is claimed but that it lies in the range.
#[verifier::external_body]
fn random_in_range(low: u32, high: u32) -> (value: u32)
    requires
        low <= high,
    ensures
        low <= value <= high,
{
    rand::thread_rng().gen_range(low..=high)
}

/// A count-bounded series with a position counter of its own.
#[derive(Debug)]
pub struct SerialDataSingleLine {
    line: crate::single_line::SerialDataSingleLine,
    x_counter: u32,
    random_range_max: u32,
    random_range_min: u32,
    x_lookback_len: usize,
}

impl View for SerialDataSingleLine {
    type V = Seq<DataPoint>;

    /// The points of the series, oldest first.
    closed spec fn view(&self) -> Seq<DataPoint> {
        self.line@
    }
}

impl SerialDataSingleLine {
    /// The position that the next point gets.
    pub closed spec fn position(&self) -> u32 {
        self.x_counter
    }

    /// The bounds, lower and upper, of the random values.
    pub closed spec fn random_range(&self) -> (u32, u32) {
        (self.random_range_min, self.random_range_max)
    }

    /// The number of points that the series keeps.
    pub closed spec fn lookback_len(&self) -> usize {
        self.x_lookback_len
    }

    /// Whether the series is consistent with its bound.
    pub closed spec fn wf(&self) -> bool {
        self.line.policy() == (WindowPolicy::CountBounded { max_points: self.x_lookback_len })
    }

    /// What the series holds after the value `val` was appended to
    /// `points` at position `position`, with a bound of `lookback_len`
    /// points.
    pub open spec fn with_value(
        points: Seq<DataPoint>,
        position: u32,
        val: i64,
        lookback_len: usize,
    ) -> Seq<DataPoint> {
        keep_latest(points.push(DataPoint { x: position as i64, y: val }), lookback_len as int)
    }

    /// An empty series at position 0 that keeps `DEFAULT_LOOKBACK_LEN`
    /// points and draws its random values between `rand_min` and
    /// `rand_max`.
    pub fn new(rand_min: u32, rand_max: u32) -> (series: Self)
        ensures
            series.wf(),
            series@ == Seq::<DataPoint>::empty(),
            series.position() == 0,
            series.random_range() == (rand_min, rand_max),
            series.lookback_len() == DEFAULT_LOOKBACK_LEN,
    {
        Self::with_lookback_len(rand_min, rand_max, DEFAULT_LOOKBACK_LEN)
    }

    /// As `new`, for a series that keeps `x_lookback_len` points.
    pub fn with_lookback_len(rand_min: u32, rand_max: u32, x_lookback_len: usize) -> (series: Self)
        ensures
            series.wf(),
            series@ == Seq::<DataPoint>::empty(),
            series.position() == 0,
            series.random_range() == (rand_min, rand_max),
            series.lookback_len() == x_lookback_len,
    {
        SerialDataSingleLine {
            line: crate::single_line::SerialDataSingleLine::with_policy(
                WindowPolicy::CountBounded { max_points: x_lookback_len },
            ),
            x_counter: 0,
            random_range_min: rand_min,
            random_range_max: rand_max,
            x_lookback_len,
        }
    }

    /// Appends `val` at the series' position, moves the position on by one
    /// and sheds the oldest points until the series is within its bound.
    pub fn add_val(&mut self, val: i64)
        requires
            old(self).wf(),
            old(self).position() < u32::MAX,
        ensures
            final(self).wf(),
            final(self)@ == Self::with_value(
                old(self)@,
                old(self).position(),
                val,
                old(self).lookback_len(),
            ),
            final(self).position() == old(self).position() + 1,
            final(self).random_range() == old(self).random_range(),
            final(self).lookback_len() == old(self).lookback_len(),
    {
        self.line.add_point(DataPoint { x: self.x_counter as i64, y: val });
        self.x_counter += 1;
    }

    /// Appends a random value from the series' range, as `add_val` does
    /// with a given one.
    pub fn add_rand(&mut self)
        requires
            old(self).wf(),
            old(self).position() < u32::MAX,
            old(self).random_range().0 <= old(self).random_range().1,
        ensures
            final(self).wf(),
            exists|val: u32|
                {
                    &&& old(self).random_range().0 <= val <= old(self).random_range().1
                    &&& final(self)@ == #[trigger] Self::with_value(
                        old(self)@,
                        old(self).position(),
                        val as i64,
                        old(self).lookback_len(),
                    )
                },
            final(self).position() == old(self).position() + 1,
            final(self).random_range() == old(self).random_range(),
            final(self).lookback_len() == old(self).lookback_len(),
    {
        let new_val = random_in_range(self.random_range_min, self.random_range_max);
        self.add_val(new_val as i64);
    }

    /// Removes all points and sets the position back to 0.
    pub fn clear(&mut self)
        requires
            old(self).wf(),
        ensures
            final(self).wf(),
            final(self)@ == Seq::<DataPoint>::empty(),
            final(self).position() == 0,
            final(self).random_range() == old(self).random_range(),
            final(self).lookback_len() == old(self).lookback_len(),
    {
        self.line.clear();
        self.x_counter = 0;
    }

    /// The position that the next point gets.
    pub fn x_counter(&self) -> (position: u32)
        ensures
            position == self.position(),
    {
        self.x_counter
    }

    /// The lower bound of the random values.
    pub fn random_range_min(&self) -> (low: u32)
        ensures
            low == self.random_range().0,
    {
        self.random_range_min
    }

    /// The upper bound of the random values.
    pub fn random_range_max(&self) -> (high: u32)
        ensures
            high == self.random_range().1,
    {
        self.random_range_max
    }

    /// The number of points that the series keeps.
    pub fn x_lookback_len(&self) -> (len: usize)
        ensures
            len == self.lookback_len(),
    {
        self.x_lookback_len
    }

    /// The points of the series as pairs of position and value, oldest
    /// first. The series is left as it is.
    pub fn get_vec(&self) -> (points: Vec<(i64, i64)>)
        ensures
            points@ == as_pairs(self@),
    {
        self.line.get_vec()
    }
}

} // verus!
