//! The store: one series per field index, filled record by record.

use crate::single_line::{
    aged, appended, lemma_drop_older_of_increasing, lemma_eviction_is_at_head, lemma_keep_latest,
    lemma_tail_keeps_order, positions_increase, DataPoint, SerialDataSingleLine, WindowPolicy,
    DEFAULT_MAX_AGE,
};
use crate::tokenizer::{record_values, tokenize, ParseError};
use vstd::prelude::*;

verus! {

/// What a store holds, as plain values.
pub struct StoreModel {
    /// The points of each series, by field index.
    pub lines: Seq<Seq<DataPoint>>,
    /// The position that the next record is stored at.
    pub position: int,
    /// The policy of every series.
    pub policy: WindowPolicy,
}

impl StoreModel {
    /// The points of series `i`, none if the store has no such series.
    pub open spec fn line(self, i: int) -> Seq<DataPoint> {
        if 0 <= i < self.lines.len() {
            self.lines[i]
        } else {
            Seq::empty()
        }
    }

    /// Series `i` after a record with the field values `values` went in:
    /// if the record has a field `i`, its value was appended at the store's
    /// position; with or without it the series was then pruned for the next
    /// position.
    pub open spec fn line_after(self, values: Seq<i32>, i: int) -> Seq<DataPoint> {
        let with_value = if 0 <= i < values.len() {
            appended(
                self.policy,
                self.line(i),
                DataPoint { x: self.position as i64, y: values[i] as i64 },
            )
        } else {
            self.line(i)
        };
        aged(self.policy, with_value, self.position + 1)
    }

    /// The store after a record with the field values `values` went in. A
    /// record without fields changes nothing. Any other record leaves as
    /// many series as the larger of the two counts, series and fields, and
    /// moves the position on by one.
    pub open spec fn ingest(self, values: Seq<i32>) -> StoreModel {
        if values.len() == 0 {
            self
        } else {
            StoreModel {
                lines: Seq::new(
                    if values.len() > self.lines.len() {
                        values.len()
                    } else {
                        self.lines.len()
                    },
                    |i: int| self.line_after(values, i),
                ),
                position: self.position + 1,
                policy: self.policy,
            }
        }
    }

    /// Whether in every series the positions increase and lie below the
    /// store's position.
    pub open spec fn aligned(self) -> bool {
        forall|i: int|
            0 <= i < self.lines.len() ==> {
                &&& positions_increase(#[trigger] self.lines[i])
                &&& forall|k: int|
                    0 <= k < self.lines[i].len() ==> (#[trigger] self.lines[i][k]).x
                        < self.position
            }
    }
}

/// A store that is aligned stays so when a record goes in: the new points
/// lie at the store's position, above all that the series hold, and eviction
/// takes points from the head only.
pub proof fn lemma_ingest_keeps_alignment(store: StoreModel, values: Seq<i32>)
    requires
        store.aligned(),
        i32::MIN <= store.position < i32::MAX,
    ensures
        store.ingest(values).aligned(),
{
    if values.len() > 0 {
        let after = store.ingest(values);
        assert forall|i: int| 0 <= i < after.lines.len() implies {
            &&& positions_increase(#[trigger] after.lines[i])
            &&& forall|k: int|
                0 <= k < after.lines[i].len() ==> (#[trigger] after.lines[i][k]).x
                    < after.position
        } by {
            let held = store.line(i);
            if i < store.lines.len() {
                assert(positions_increase(store.lines[i]));
            }
            let point = DataPoint {
                x: store.position as i64,
                y: if i < values.len() {
                    values[i] as i64
                } else {
                    0
                },
            };
            let full = if i < values.len() {
                held.push(point)
            } else {
                held
            };
            assert(positions_increase(full) && forall|k: int|
                0 <= k < full.len() ==> (#[trigger] full[k]).x < after.position) by {
                assert forall|k: int| 0 <= k < held.len() implies (#[trigger] held[k]).x
                    < store.position by {
                    assert(held[k] == store.lines[i][k]);
                }
            }
            let with_value = if i < values.len() {
                appended(store.policy, held, point)
            } else {
                held
            };
            lemma_eviction_is_at_head(store.policy, held, point, store.position + 1);
            assert(held.skip(0) =~= held);
            lemma_tail_keeps_order(with_value, full);
            lemma_eviction_is_at_head(store.policy, with_value, point, store.position + 1);
            lemma_tail_keeps_order(after.lines[i], with_value);
            assert forall|k: int| 0 <= k < after.lines[i].len() implies (
            #[trigger] after.lines[i][k]).x < after.position by {
                assert(with_value.contains(after.lines[i][k]));
                let m = choose|m: int|
                    0 <= m < with_value.len() && with_value[m] == after.lines[i][k];
                assert(full.contains(with_value[m]));
            }
        }
    }
}

/// The number of series never shrinks: after a record it is the larger of
/// the number before and the number of fields.
pub proof fn lemma_ingest_series_count(store: StoreModel, values: Seq<i32>)
    ensures
        store.ingest(values).lines.len() >= store.lines.len(),
        store.ingest(values).lines.len() >= values.len(),
        store.ingest(values).lines.len() == store.lines.len() || store.ingest(values).lines.len()
            == values.len(),
{
}

/// A series that a record creates holds no history: nothing but the point
/// of that record, if eviction left it.
pub proof fn lemma_new_series_hold_no_history(store: StoreModel, values: Seq<i32>, i: int)
    requires
        store.lines.len() <= i < values.len(),
    ensures
        store.ingest(values).lines[i].len() <= 1,
        forall|k: int|
            0 <= k < store.ingest(values).lines[i].len() ==> store.ingest(values).lines[i][k]
                == (DataPoint { x: store.position as i64, y: values[i] as i64 }),
{
    let point = DataPoint { x: store.position as i64, y: values[i] as i64 };
    let held = Seq::<DataPoint>::empty();
    let with_value = appended(store.policy, held, point);
    lemma_eviction_is_at_head(store.policy, held, point, store.position + 1);
    lemma_eviction_is_at_head(store.policy, with_value, point, store.position + 1);
}

/// A record with fewer fields than there are series is no error: the series
/// beyond its fields get no point and are pruned like the others.
pub proof fn lemma_short_record(store: StoreModel, values: Seq<i32>, i: int)
    requires
        0 < values.len() <= i < store.lines.len(),
    ensures
        store.ingest(values).lines[i] == aged(store.policy, store.lines[i], store.position + 1),
{
}

/// In an aligned store with a window of `max_age` positions, no series holds
/// a point that is `max_age` positions or more behind the position that a
/// record left the store at, whether the series got a value from the record
/// or not.
pub proof fn lemma_ingest_evicts_by_position(
    store: StoreModel,
    values: Seq<i32>,
    max_age: u32,
    i: int,
    k: int,
)
    requires
        store.aligned(),
        i32::MIN <= store.position < i32::MAX,
        store.policy == (WindowPolicy::PositionBounded { max_age }),
        values.len() > 0,
        0 <= i < store.ingest(values).lines.len(),
        0 <= k < store.ingest(values).lines[i].len(),
    ensures
        store.ingest(values).lines[i][k].x >= store.ingest(values).position - max_age,
{
    let held = store.line(i);
    let point = DataPoint {
        x: store.position as i64,
        y: if i < values.len() {
            values[i] as i64
        } else {
            0
        },
    };
    let with_value = if i < values.len() {
        held.push(point)
    } else {
        held
    };
    if i < store.lines.len() {
        assert(positions_increase(store.lines[i]));
        assert forall|m: int| 0 <= m < held.len() implies (#[trigger] held[m]).x
            < store.position by {
            assert(held[m] == store.lines[i][m]);
        }
    }
    assert(positions_increase(with_value));
    lemma_drop_older_of_increasing(with_value, store.position + 1 - max_age);
}

/// With a bound of `max_points` points, a series that got a value from a
/// record holds no more than `max_points` points afterwards.
pub proof fn lemma_ingest_evicts_by_count(
    store: StoreModel,
    values: Seq<i32>,
    max_points: usize,
    i: int,
)
    requires
        store.policy == (WindowPolicy::CountBounded { max_points }),
        0 <= i < values.len(),
    ensures
        store.ingest(values).lines[i].len() <= max_points,
{
    let point = DataPoint { x: store.position as i64, y: values[i] as i64 };
    lemma_keep_latest(store.line(i).push(point), max_points as int);
}

/// An ordered collection of series, one for each field index seen so far.
#[derive(Debug)]
pub struct SerialDataMultiLine {
    line_vec: Vec<SerialDataSingleLine>,
    x_counter: i32,
    policy: WindowPolicy,
}

impl View for SerialDataMultiLine {
    type V = StoreModel;

    closed spec fn view(&self) -> StoreModel {
        StoreModel {
            lines: Seq::new(self.line_vec@.len(), |i: int| self.line_vec@[i]@),
            position: self.x_counter as int,
            policy: self.policy,
        }
    }
}

impl SerialDataMultiLine {
    /// Whether the store is consistent: every series has the store's policy,
    /// and the store is aligned.
    pub closed spec fn wf(&self) -> bool {
        &&& self.policies_match()
        &&& self@.aligned()
    }

    /// A consistent store is aligned.
    pub proof fn lemma_wf_is_aligned(&self)
        requires
            self.wf(),
        ensures
            self@.aligned(),
    {
    }

    spec fn policies_match(&self) -> bool {
        forall|i: int|
            0 <= i < self.line_vec@.len() ==> (#[trigger] self.line_vec@[i]).policy()
                == self.policy
    }

    /// A store with one empty series, at position 0, with a window of
    /// `DEFAULT_MAX_AGE` positions.
    pub fn new() -> (store: Self)
        ensures
            store.wf(),
            store@.lines == seq![Seq::<DataPoint>::empty()],
            store@.position == 0,
            store@.policy == (WindowPolicy::PositionBounded { max_age: DEFAULT_MAX_AGE }),
    {
        let store = Self::with_config(
            WindowPolicy::PositionBounded { max_age: DEFAULT_MAX_AGE },
            1,
            0,
        );
        assert(store@.lines =~= seq![Seq::<DataPoint>::empty()]);
        store
    }

    /// A store with `line_count` empty series of the policy `policy`, at
    /// position `position`.
    pub fn with_config(policy: WindowPolicy, line_count: usize, position: i32) -> (store: Self)
        ensures
            store.wf(),
            store@.lines == Seq::new(line_count as nat, |i: int| Seq::<DataPoint>::empty()),
            store@.position == position,
            store@.policy == policy,
    {
        let mut line_vec: Vec<SerialDataSingleLine> = Vec::new();
        while line_vec.len() < line_count
            invariant
                line_vec@.len() <= line_count,
                forall|i: int|
                    0 <= i < line_vec@.len() ==> {
                        &&& (#[trigger] line_vec@[i]).policy() == policy
                        &&& line_vec@[i]@ == Seq::<DataPoint>::empty()
                    },
            decreases line_count - line_vec@.len(),
        {
            line_vec.push(SerialDataSingleLine::with_policy(policy));
        }
        let store = SerialDataMultiLine { line_vec, x_counter: position, policy };
        assert(store@.lines =~= Seq::new(line_count as nat, |i: int| Seq::<DataPoint>::empty()));
        store
    }

    /// Takes one record in.
    ///
    /// The record is tokenized first. If a token is no integer, the record
    /// is dropped: the store stays as it is and the error names the token.
    /// A record without fields changes nothing either. Otherwise series are
    /// added until there is one for each field, each value is appended to
    /// the series of its field at the store's position, the position moves
    /// on by one, and every series is pruned for the new position, also
    /// those that got no value.
    pub fn add_new_data(&mut self, new_serial_line_str: &str) -> (result: Result<(), ParseError>)
        requires
            old(self).wf(),
            old(self)@.position < i32::MAX,
        ensures
            final(self).wf(),
            match record_values(new_serial_line_str@) {
                Ok(values) => result is Ok && final(self)@ == old(self)@.ingest(values),
                Err(token) => {
                    &&& result is Err
                    &&& result->Err_0.token@ == token
                    &&& final(self)@ == old(self)@
                },
            },
    {
        let new_vals = match tokenize(new_serial_line_str) {
            Ok(values) => values,
            Err(error) => {
                return Err(error);
            },
        };
        if new_vals.len() == 0 {
            return Ok(());
        }
        let ghost before = self@;
        let ghost values = new_vals@;
        proof {
            lemma_ingest_keeps_alignment(before, values);
        }
        self.grow_to(new_vals.len());
        let ghost grown = self@;
        let policy = self.policy;
        let position = self.x_counter;
        let mut idx: usize = 0;
        while idx < new_vals.len()
            invariant
                idx <= new_vals@.len() <= self.line_vec@.len(),
                new_vals@ == values,
                self.line_vec@.len() == grown.lines.len(),
                self.policy == policy,
                self.x_counter == position,
                self.policies_match(),
                forall|i: int|
                    0 <= i < idx ==> (#[trigger] self.line_vec@[i])@ == appended(
                        policy,
                        grown.lines[i],
                        DataPoint { x: position as i64, y: values[i] as i64 },
                    ),
                forall|i: int|
                    idx <= i < self.line_vec@.len() ==> (#[trigger] self.line_vec@[i])@
                        == grown.lines[i],
            decreases new_vals@.len() - idx,
        {
            self.line_vec[idx].add_val(new_vals[idx] as i64, position);
            idx += 1;
        }
        self.x_counter = position + 1;
        let ghost filled = self@;
        let mut idx: usize = 0;
        while idx < self.line_vec.len()
            invariant
                idx <= self.line_vec@.len(),
                self.line_vec@.len() == filled.lines.len(),
                self.policy == policy,
                self.x_counter == position + 1,
                self.policies_match(),
                forall|i: int|
                    0 <= i < idx ==> (#[trigger] self.line_vec@[i])@ == aged(
                        policy,
                        filled.lines[i],
                        position + 1,
                    ),
                forall|i: int|
                    idx <= i < self.line_vec@.len() ==> (#[trigger] self.line_vec@[i])@
                        == filled.lines[i],
            decreases self.line_vec@.len() - idx,
        {
            self.line_vec[idx].prune_to_window(position + 1);
            idx += 1;
        }
        proof {
            assert forall|i: int| 0 <= i < self@.lines.len() implies self@.lines[i]
                == before.line_after(values, i) by {
                assert(self@.lines[i] == self.line_vec@[i]@);
                assert(filled.lines[i] == if i < values.len() {
                    appended(
                        policy,
                        grown.lines[i],
                        DataPoint { x: position as i64, y: values[i] as i64 },
                    )
                } else {
                    grown.lines[i]
                });
                assert(grown.lines[i] == before.line(i));
            }
            assert(self@.lines =~= before.ingest(values).lines);
        }
        Ok(())
    }

    /// Adds empty series until the store has `count` of them.
    fn grow_to(&mut self, count: usize)
        requires
            old(self).wf(),
        ensures
            final(self)@.position == old(self)@.position,
            final(self)@.policy == old(self)@.policy,
            final(self)@.lines.len() == if count > old(self)@.lines.len() {
                count as nat
            } else {
                old(self)@.lines.len()
            },
            forall|i: int|
                0 <= i < final(self)@.lines.len() ==> final(self)@.lines[i] == old(self)@.line(i),
            final(self).policies_match(),
    {
        let ghost held = self.line_vec@;
        while self.line_vec.len() < count
            invariant
                self.x_counter == old(self).x_counter,
                self.policy == old(self).policy,
                held == old(self).line_vec@,
                held.len() <= self.line_vec@.len(),
                self.line_vec@.len() <= count || self.line_vec@.len() == held.len(),
                self.policies_match(),
                forall|i: int|
                    0 <= i < held.len() ==> (#[trigger] self.line_vec@[i])@ == held[i]@,
                forall|i: int|
                    held.len() <= i < self.line_vec@.len() ==> (#[trigger] self.line_vec@[i])@
                        == Seq::<DataPoint>::empty(),
            decreases count - self.line_vec@.len(),
        {
            self.line_vec.push(SerialDataSingleLine::with_policy(self.policy));
        }
    }

    /// The number of series.
    pub fn line_count(&self) -> (count: usize)
        ensures
            count == self@.lines.len(),
    {
        self.line_vec.len()
    }

    /// The position that the next record is stored at.
    pub fn x_counter(&self) -> (position: i32)
        ensures
            position == self@.position,
    {
        self.x_counter
    }

    /// The policy of every series.
    pub fn window_policy(&self) -> (policy: WindowPolicy)
        ensures
            policy == self@.policy,
    {
        self.policy
    }

    /// The series of field `idx`.
    pub fn line(&self, idx: usize) -> (series: &SerialDataSingleLine)
        requires
            idx < self@.lines.len(),
        ensures
            series@ == self@.lines[idx as int],
    {
        &self.line_vec[idx]
    }

    /// The points of the series of field `idx` as pairs of position and
    /// value, or `None` if there is no such series.
    pub fn get_vec(&self, idx: usize) -> (points: Option<Vec<(i64, i64)>>)
        ensures
            match points {
                Some(points) => idx < self@.lines.len() && points@ == crate::single_line::as_pairs(
                    self@.lines[idx as int],
                ),
                None => idx >= self@.lines.len(),
            },
    {
        if idx < self.line_vec.len() {
            Some(self.line_vec[idx].get_vec())
        } else {
            None
        }
    }
}

} // verus!
