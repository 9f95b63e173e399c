//! The baud rates that a serial line can be opened at.

use crate::text::{decimal_text, format_decimal};
use vstd::prelude::*;
use vstd::std_specs::convert::FromSpecImpl;

verus! {

/// A baud rate.
#[derive(Clone, Copy, Debug, PartialEq, Eq, Structural)]
pub enum Baud {
    BAUD110,
    BAUD300,
    BAUD600,
    BAUD1200,
    BAUD2400,
    BAUD4800,
    BAUD9600,
    BAUD14400,
    BAUD19200,
    BAUD38400,
    BAUD57600,
    BAUD115200,
    BAUD128000,
    BAUD256000,
}

/// Every baud rate, from the slowest to the fastest.
pub open spec fn all_bauds() -> Seq<Baud> {
    seq![
        Baud::BAUD110,
        Baud::BAUD300,
        Baud::BAUD600,
        Baud::BAUD1200,
        Baud::BAUD2400,
        Baud::BAUD4800,
        Baud::BAUD9600,
        Baud::BAUD14400,
        Baud::BAUD19200,
        Baud::BAUD38400,
        Baud::BAUD57600,
        Baud::BAUD115200,
        Baud::BAUD128000,
        Baud::BAUD256000,
    ]
}

impl Baud {
    /// The rate in bits per second.
    pub open spec fn bits_per_second(self) -> u32 {
        match self {
            Baud::BAUD110 => 110,
            Baud::BAUD300 => 300,
            Baud::BAUD600 => 600,
            Baud::BAUD1200 => 1200,
            Baud::BAUD2400 => 2400,
            Baud::BAUD4800 => 4800,
            Baud::BAUD9600 => 9600,
            Baud::BAUD14400 => 14400,
            Baud::BAUD19200 => 19200,
            Baud::BAUD38400 => 38400,
            Baud::BAUD57600 => 57600,
            Baud::BAUD115200 => 115200,
            Baud::BAUD128000 => 128000,
            Baud::BAUD256000 => 256000,
        }
    }

    /// The rate in bits per second.
    pub fn rate(self) -> (rate: u32)
        ensures
            rate == self.bits_per_second(),
    {
        match self {
            Baud::BAUD110 => 110,
            Baud::BAUD300 => 300,
            Baud::BAUD600 => 600,
            Baud::BAUD1200 => 1200,
            Baud::BAUD2400 => 2400,
            Baud::BAUD4800 => 4800,
            Baud::BAUD9600 => 9600,
            Baud::BAUD14400 => 14400,
            Baud::BAUD19200 => 19200,
            Baud::BAUD38400 => 38400,
            Baud::BAUD57600 => 57600,
            Baud::BAUD115200 => 115200,
            Baud::BAUD128000 => 128000,
            Baud::BAUD256000 => 256000,
        }
    }

    /// The rate as text, in base 10.
    pub fn label(self) -> (text: String)
        ensures
            text@ == decimal_text(self.bits_per_second() as int),
    {
        format_decimal(self.rate() as i64)
    }

    /// Every baud rate, from the slowest to the fastest.
    pub fn all() -> (bauds: Vec<Baud>)
        ensures
            bauds@ == all_bauds(),
    {
        let mut bauds: Vec<Baud> = Vec::new();
        bauds.push(Baud::BAUD110);
        bauds.push(Baud::BAUD300);
        bauds.push(Baud::BAUD600);
        bauds.push(Baud::BAUD1200);
        bauds.push(Baud::BAUD2400);
        bauds.push(Baud::BAUD4800);
        bauds.push(Baud::BAUD9600);
        bauds.push(Baud::BAUD14400);
        bauds.push(Baud::BAUD19200);
        bauds.push(Baud::BAUD38400);
        bauds.push(Baud::BAUD57600);
        bauds.push(Baud::BAUD115200);
        bauds.push(Baud::BAUD128000);
        bauds.push(Baud::BAUD256000);
        assert(bauds@ =~= all_bauds());
        bauds
    }
}

impl Default for Baud {
    /// The rate that is chosen where none was: 115200.
    fn default() -> (baud: Baud)
        ensures
            baud == Baud::BAUD115200,
    {
        Baud::BAUD115200
    }
}

impl From<Baud> for u32 {
    fn from(baud: Baud) -> (rate: u32) {
        baud.rate()
    }
}

impl FromSpecImpl<Baud> for u32 {
    open spec fn obeys_from_spec() -> bool {
        true
    }

    open spec fn from_spec(baud: Baud) -> u32 {
        baud.bits_per_second()
    }
}

/// The rates are listed in increasing order, each of them once.
pub proof fn lemma_bauds_increase()
    ensures
        all_bauds().len() == 14,
        forall|i: int, j: int|
            0 <= i < j < all_bauds().len() ==> all_bauds()[i].bits_per_second()
                < all_bauds()[j].bits_per_second(),
{
}

} // verus!
