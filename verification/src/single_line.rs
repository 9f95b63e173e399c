//! One series: the bounded history of the values of one field.

use std::collections::VecDeque;
use vstd::prelude::*;

verus! {

/// The window width, in positions, of a series that was given no policy.
pub const DEFAULT_MAX_AGE: u32 = 30;

/// One point of a series: a value and the position at which it arrived.
#[derive(Clone, Copy, Debug, PartialEq, Eq, Structural)]
pub struct DataPoint {
    /// The position on the horizontal axis: a counter of arrivals, no time.
    pub x: i64,
    /// The value.
    pub y: i64,
}

/// How a series sheds its oldest points.
#[derive(Clone, Copy, Debug, PartialEq, Eq, Structural)]
pub enum WindowPolicy {
    /// Keep the `max_points` points that were appended last.
    CountBounded { max_points: usize },
    /// Keep the points that are less than `max_age` positions behind the
    /// current position.
    PositionBounded { max_age: u32 },
}

/// `points` without the points at its head whose position is below `cutoff`.
/// Removal stops at the first point that is not below it.
pub open spec fn drop_older(points: Seq<DataPoint>, cutoff: int) -> Seq<DataPoint>
    decreases points.len(),
{
    if points.len() > 0 && points.first().x < cutoff {
        drop_older(points.drop_first(), cutoff)
    } else {
        points
    }
}

/// The last `max_points` points of `points`, or all of them if there are
/// fewer.
pub open spec fn keep_latest(points: Seq<DataPoint>, max_points: int) -> Seq<DataPoint> {
    if points.len() > max_points >= 0 {
        points.skip(points.len() - max_points)
    } else {
        points
    }
}

/// What a series holds after `point` was appended to `points`.
pub open spec fn appended(policy: WindowPolicy, points: Seq<DataPoint>, point: DataPoint) -> Seq<
    DataPoint,
> {
    match policy {
        WindowPolicy::CountBounded { max_points } => keep_latest(
            points.push(point),
            max_points as int,
        ),
        WindowPolicy::PositionBounded { .. } => points.push(point),
    }
}

/// What a series holds after it was pruned for the current position
/// `position`.
pub open spec fn aged(policy: WindowPolicy, points: Seq<DataPoint>, position: int) -> Seq<
    DataPoint,
> {
    match policy {
        WindowPolicy::CountBounded { .. } => points,
        WindowPolicy::PositionBounded { max_age } => drop_older(points, position - max_age),
    }
}

/// Whether every point lies at a higher position than the one before it.
pub open spec fn positions_increase(points: Seq<DataPoint>) -> bool {
    forall|i: int, j: int| 0 <= i < j < points.len() ==> points[i].x < points[j].x
}

/// Whether `kept` is what is left of `points` after some of its oldest
/// points were removed.
pub open spec fn is_tail_of(kept: Seq<DataPoint>, points: Seq<DataPoint>) -> bool {
    kept.len() <= points.len() && kept == points.skip(points.len() - kept.len())
}

/// The points of a series as pairs of position and value.
pub open spec fn as_pairs(points: Seq<DataPoint>) -> Seq<(i64, i64)> {
    points.map_values(|point: DataPoint| (point.x, point.y))
}

/// Pruning by position removes points at the head only, all of them below
/// the cutoff, and stops at a point that is not below it.
pub proof fn lemma_drop_older(points: Seq<DataPoint>, cutoff: int)
    ensures
        is_tail_of(drop_older(points, cutoff), points),
        forall|i: int|
            0 <= i < points.len() - drop_older(points, cutoff).len() ==> points[i].x < cutoff,
        drop_older(points, cutoff).len() > 0 ==> drop_older(points, cutoff).first().x >= cutoff,
    decreases points.len(),
{
    if points.len() > 0 && points.first().x < cutoff {
        let rest = points.drop_first();
        lemma_drop_older(rest, cutoff);
        let kept = drop_older(rest, cutoff);
        assert(rest.skip(rest.len() - kept.len()) =~= points.skip(points.len() - kept.len()));
        assert forall|i: int| 0 <= i < points.len() - kept.len() implies points[i].x < cutoff by {
            if i > 0 {
                assert(points[i] == rest[i - 1]);
            }
        }
    } else {
        assert(points.skip(0) =~= points);
    }
}

/// In a series whose positions increase, pruning by position leaves exactly
/// the points that are not below the cutoff.
pub proof fn lemma_drop_older_of_increasing(points: Seq<DataPoint>, cutoff: int)
    requires
        positions_increase(points),
    ensures
        is_tail_of(drop_older(points, cutoff), points),
        forall|k: int|
            0 <= k < drop_older(points, cutoff).len() ==> drop_older(points, cutoff)[k].x
                >= cutoff,
        forall|i: int|
            0 <= i < points.len() - drop_older(points, cutoff).len() ==> points[i].x < cutoff,
{
    lemma_drop_older(points, cutoff);
    let kept = drop_older(points, cutoff);
    let gone = points.len() - kept.len();
    assert forall|k: int| 0 <= k < kept.len() implies kept[k].x >= cutoff by {
        assert(kept[k] == points[gone + k]);
        assert(kept[0] == points[gone]);
    }
}

/// Bounding by count removes points at the head only and leaves no more
/// than the bound.
pub proof fn lemma_keep_latest(points: Seq<DataPoint>, max_points: int)
    requires
        max_points >= 0,
    ensures
        is_tail_of(keep_latest(points, max_points), points),
        keep_latest(points, max_points).len() <= max_points,
        keep_latest(points, max_points).len() == if points.len() <= max_points {
            points.len() as int
        } else {
            max_points
        },
{
    assert(points.skip(0) =~= points);
}

/// What is left after points were removed at the head is in the order it
/// was in.
pub proof fn lemma_tail_keeps_order(kept: Seq<DataPoint>, points: Seq<DataPoint>)
    requires
        is_tail_of(kept, points),
        positions_increase(points),
    ensures
        positions_increase(kept),
        forall|k: int| 0 <= k < kept.len() ==> points.contains(#[trigger] kept[k]),
{
    let gone = points.len() - kept.len();
    assert forall|i: int, j: int| 0 <= i < j < kept.len() implies kept[i].x < kept[j].x by {
        assert(kept[i] == points[gone + i]);
        assert(kept[j] == points[gone + j]);
    }
    assert forall|k: int| 0 <= k < kept.len() implies points.contains(#[trigger] kept[k]) by {
        assert(kept[k] == points[gone + k]);
    }
}

/// Neither appending nor pruning removes a point from the middle or the
/// tail of a series: what a series holds after either is a tail of what it
/// held with the new point, if any.
pub proof fn lemma_eviction_is_at_head(
    policy: WindowPolicy,
    points: Seq<DataPoint>,
    point: DataPoint,
    position: int,
)
    ensures
        is_tail_of(appended(policy, points, point), points.push(point)),
        is_tail_of(aged(policy, points, position), points),
{
    assert(points.skip(0) =~= points);
    assert(points.push(point).skip(0) =~= points.push(point));
    match policy {
        WindowPolicy::CountBounded { max_points } => {
            lemma_keep_latest(points.push(point), max_points as int);
        },
        WindowPolicy::PositionBounded { max_age } => {
            lemma_drop_older(points, position - max_age);
        },
    }
}

/// Two series with the same pairs hold the same points.
pub proof fn lemma_pairs_are_faithful(a: Seq<DataPoint>, b: Seq<DataPoint>)
    requires
        as_pairs(a) == as_pairs(b),
    ensures
        a == b,
{
    assert(as_pairs(a).len() == a.len());
    assert(as_pairs(b).len() == b.len());
    assert forall|i: int| 0 <= i < a.len() implies a[i] == b[i] by {
        assert(as_pairs(a)[i] == (a[i].x, a[i].y));
        assert(as_pairs(b)[i] == (b[i].x, b[i].y));
    }
    assert(a =~= b);
}

/// A bounded, ordered sequence of points.
#[derive(Debug)]
pub struct SerialDataSingleLine {
    line: VecDeque<DataPoint>,
    policy: WindowPolicy,
}

impl View for SerialDataSingleLine {
    type V = Seq<DataPoint>;

    /// The points of the series, oldest first.
    closed spec fn view(&self) -> Seq<DataPoint> {
        self.line@
    }
}

impl SerialDataSingleLine {
    /// The policy that the series was made with.
    pub closed spec fn policy(&self) -> WindowPolicy {
        self.policy
    }

    /// An empty series with a window of `DEFAULT_MAX_AGE` positions.
    pub fn new() -> (series: Self)
        ensures
            series@ == Seq::<DataPoint>::empty(),
            series.policy() == (WindowPolicy::PositionBounded { max_age: DEFAULT_MAX_AGE }),
    {
        SerialDataSingleLine {
            line: VecDeque::new(),
            policy: WindowPolicy::PositionBounded { max_age: DEFAULT_MAX_AGE },
        }
    }

    /// An empty series with the given policy.
    pub fn with_policy(policy: WindowPolicy) -> (series: Self)
        ensures
            series@ == Seq::<DataPoint>::empty(),
            series.policy() == policy,
    {
        SerialDataSingleLine { line: VecDeque::new(), policy }
    }

    /// The policy that the series was made with.
    pub fn window_policy(&self) -> (policy: WindowPolicy)
        ensures
            policy == self.policy(),
    {
        self.policy
    }

    /// The number of points in the series.
    pub fn len(&self) -> (len: usize)
        ensures
            len == self@.len(),
    {
        self.line.len()
    }

    /// Appends the value `val` at position `x_counter`. A count-bounded
    /// series then sheds its oldest points until it is within its bound; a
    /// position-bounded series sheds nothing until it is pruned.
    pub fn add_val(&mut self, val: i64, x_counter: i32)
        ensures
            final(self)@ == appended(
                old(self).policy(),
                old(self)@,
                DataPoint { x: x_counter as i64, y: val },
            ),
            final(self).policy() == old(self).policy(),
    {
        self.add_point(DataPoint { x: x_counter as i64, y: val });
    }

    /// Appends `point`, as `add_val` does with a value and its position.
    pub fn add_point(&mut self, point: DataPoint)
        ensures
            final(self)@ == appended(old(self).policy(), old(self)@, point),
            final(self).policy() == old(self).policy(),
    {
        self.line.push_back(point);
        match self.policy {
            WindowPolicy::CountBounded { max_points } => {
                self.truncate_front(max_points);
            },
            WindowPolicy::PositionBounded { .. } => {},
        }
    }

    /// Removes points from the head until at most `max_points` are left.
    fn truncate_front(&mut self, max_points: usize)
        ensures
            final(self)@ == keep_latest(old(self)@, max_points as int),
            final(self).policy() == old(self).policy(),
    {
        let ghost points = self.line@;
        assert(points.skip(0) =~= points);
        while self.line.len() > max_points
            invariant
                self.policy == old(self).policy,
                points == old(self)@,
                self.line@.len() <= points.len(),
                self.line@.len() >= max_points || self.line@.len() == points.len(),
                self.line@ == points.skip(points.len() - self.line@.len()),
            decreases self.line@.len(),
        {
            let ghost before = self.line@;
            self.line.pop_front();
            assert(self.line@ =~= points.skip(points.len() - before.len() + 1));
        }
    }

    /// Removes the points at the head of the series whose position is below
    /// `x_cutoff`, up to the first point that is not.
    pub fn prune_beyond_x_lookback(&mut self, x_cutoff: i32)
        ensures
            final(self)@ == drop_older(old(self)@, x_cutoff as int),
            final(self).policy() == old(self).policy(),
    {
        self.prune_below(x_cutoff as i64);
    }

    /// Prunes a position-bounded series for the current position
    /// `position`: the points at its head that are `max_age` positions or
    /// more behind it are removed. A count-bounded series is left as it is.
    pub fn prune_to_window(&mut self, position: i32)
        ensures
            final(self)@ == aged(old(self).policy(), old(self)@, position as int),
            final(self).policy() == old(self).policy(),
    {
        match self.policy {
            WindowPolicy::CountBounded { .. } => {},
            WindowPolicy::PositionBounded { max_age } => {
                self.prune_below(position as i64 - max_age as i64);
            },
        }
    }

    fn prune_below(&mut self, cutoff: i64)
        ensures
            final(self)@ == drop_older(old(self)@, cutoff as int),
            final(self).policy() == old(self).policy(),
    {
        while self.line.len() > 0 && self.line[0].x < cutoff
            invariant
                self.policy == old(self).policy,
                drop_older(self.line@, cutoff as int) == drop_older(old(self).line@, cutoff as int),
            decreases self.line@.len(),
        {
            let ghost before = self.line@;
            self.line.pop_front();
            assert(self.line@ =~= before.drop_first());
        }
    }

    /// Removes all points.
    pub fn clear(&mut self)
        ensures
            final(self)@ == Seq::<DataPoint>::empty(),
            final(self).policy() == old(self).policy(),
    {
        self.line = VecDeque::new();
    }

    /// The points of the series as pairs of position and value, oldest
    /// first. The series is left as it is.
    pub fn get_vec(&self) -> (points: Vec<(i64, i64)>)
        ensures
            points@ == as_pairs(self@),
    {
        let mut points: Vec<(i64, i64)> = Vec::new();
        let mut i: usize = 0;
        while i < self.line.len()
            invariant
                i <= self.line@.len(),
                points@ == as_pairs(self.line@.take(i as int)),
            decreases self.line@.len() - i,
        {
            let point = self.line[i];
            points.push((point.x, point.y));
            i += 1;
            assert(as_pairs(self.line@.take(i as int)) =~= as_pairs(
                self.line@.take(i as int - 1),
            ).push((point.x, point.y)));
        }
        assert(self.line@.take(self.line@.len() as int) =~= self.line@);
        points
    }

    /// The points of the series, oldest first. The series is left as it is.
    pub fn snapshot(&self) -> (points: Vec<DataPoint>)
        ensures
            points@ == self@,
    {
        let mut points: Vec<DataPoint> = Vec::new();
        let mut i: usize = 0;
        while i < self.line.len()
            invariant
                i <= self.line@.len(),
                points@ == self.line@.take(i as int),
            decreases self.line@.len() - i,
        {
            points.push(self.line[i]);
            i += 1;
            assert(self.line@.take(i as int) =~= self.line@.take(i as int - 1).push(
                self.line@[i as int - 1],
            ));
        }
        assert(self.line@.take(self.line@.len() as int) =~= self.line@);
        points
    }
}

} // verus!
