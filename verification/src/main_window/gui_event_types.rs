//! What the window tells the backend.

use crate::baud::Baud;
use vstd::prelude::*;

verus! {

/// A request from the window.
#[derive(Debug)]
pub enum GuiEvent {
    /// Stop reading from the serial line.
    StopSerial,
    /// Open the serial line with these settings and read from it.
    StartSerial(SerialSettings),
}

/// How to open a serial line.
#[derive(Debug)]
pub struct SerialSettings {
    pub port_name: String,
    pub baud_rate: Baud,
}

} // verus!
