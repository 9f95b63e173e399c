//! A stand-in for a serial device: it hands out a line of four values on
//! every fifth read, and raises each value by one after each line.

use crate::text::{decimal_text, push_decimal};
use vstd::prelude::*;

verus! {

/// The number of reads that give nothing before one gives a line.
pub const IDLE_READS: u8 = 4;

/// The value that follows `value`: one more, and the lowest value after the
/// highest.
pub open spec fn next_value(value: i8) -> i8 {
    if value == i8::MAX {
        i8::MIN
    } else {
        (value + 1) as i8
    }
}

/// The line that spells `values`: each in base 10, a comma and a space
/// between two of them.
pub open spec fn joined(values: Seq<i8>) -> Seq<char>
    decreases values.len(),
{
    if values.len() == 0 {
        Seq::empty()
    } else if values.len() == 1 {
        decimal_text(values[0] as int)
    } else {
        joined(values.drop_last()) + seq![',', ' '] + decimal_text(values.last() as int)
    }
}

/// A device that makes its data up.
#[derive(Debug)]
pub struct FakeSerialHandler {
    line_val_vec: Vec<i8>,
    read_counter: u8,
}

impl FakeSerialHandler {
    /// The values of the line that comes next.
    pub closed spec fn values(&self) -> Seq<i8> {
        self.line_val_vec@
    }

    /// The number of reads since the last line, up to `IDLE_READS`.
    pub closed spec fn reads(&self) -> u8 {
        self.read_counter
    }

    /// A device whose first line holds 0, 50, 100 and -50.
    pub fn new() -> (handler: Self)
        ensures
            handler.values() == seq![0i8, 50i8, 100i8, -50i8],
            handler.reads() == 0,
    {
        let mut line_val_vec: Vec<i8> = Vec::new();
        line_val_vec.push(0);
        line_val_vec.push(50);
        line_val_vec.push(100);
        line_val_vec.push(-50);
        assert(line_val_vec@ =~= seq![0i8, 50i8, 100i8, -50i8]);
        FakeSerialHandler { line_val_vec, read_counter: 0 }
    }

    /// One read. The first `IDLE_READS` reads after a line give nothing.
    /// The next gives the line of the current values; every value then
    /// moves on to the one that follows it, and the count of reads starts
    /// again.
    pub fn process_serial_data(&mut self) -> (line: Option<String>)
        ensures
            old(self).reads() < IDLE_READS ==> {
                &&& line is None
                &&& final(self).reads() == old(self).reads() + 1
                &&& final(self).values() == old(self).values()
            },
            old(self).reads() >= IDLE_READS ==> {
                &&& line is Some
                &&& line->0@ == joined(old(self).values())
                &&& final(self).reads() == 0
                &&& final(self).values() == old(self).values().map_values(
                    |value: i8| next_value(value),
                )
            },
    {
        if self.read_counter < IDLE_READS {
            self.read_counter += 1;
            return None;
        }
        let ghost values = self.line_val_vec@;
        let mut line = String::new();
        let mut next: Vec<i8> = Vec::new();
        let mut i: usize = 0;
        while i < self.line_val_vec.len()
            invariant
                i <= values.len(),
                self.line_val_vec@ == values,
                line@ == joined(values.take(i as int)),
                next@ == values.take(i as int).map_values(|value: i8| next_value(value)),
            decreases values.len() - i,
        {
            let value = self.line_val_vec[i];
            if i > 0 {
                line.push(',');
                line.push(' ');
            }
            push_decimal(&mut line, value as i64);
            next.push(
                if value == i8::MAX {
                    i8::MIN
                } else {
                    value + 1
                },
            );
            i += 1;
            proof {
                let taken = values.take(i as int);
                assert(taken.drop_last() =~= values.take(i as int - 1));
                assert(taken.last() == value);
                if i > 1 {
                    assert(line@ =~= joined(taken.drop_last()) + seq![',', ' '] + decimal_text(
                        value as int,
                    ));
                } else {
                    assert(line@ =~= decimal_text(value as int));
                }
                assert(next@ =~= taken.map_values(|value: i8| next_value(value)));
            }
        }
        assert(values.take(values.len() as int) =~= values);
        self.read_counter = 0;
        self.line_val_vec = next;
        Some(line)
    }
}

/// The ports that the stand-in offers: one, by its name and by its label.
pub fn get_available_port_names() -> (ports: Option<(Vec<String>, Vec<String>)>)
    ensures
        match ports {
            Some((names, labels)) => {
                &&& names.deep_view() == seq!["Fake Port"@]
                &&& labels.deep_view() == seq!["Fake Port"@]
            },
            None => false,
        },
{
    let mut names: Vec<String> = Vec::new();
    names.push("Fake Port".to_string());
    let mut labels: Vec<String> = Vec::new();
    labels.push("Fake Port".to_string());
    assert(names.deep_view() =~= seq!["Fake Port"@]);
    assert(labels.deep_view() =~= seq!["Fake Port"@]);
    Some((names, labels))
}

} // verus!
