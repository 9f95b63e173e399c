//! Line framing, record tokenizing and windowed multi-series storage for a
//! serial data plotter.

pub mod backend;
pub mod baud;
pub mod dummy_data_generator;
pub mod fake_serial_comms;
pub mod line_framer;
pub mod main_window;
pub mod multi_line;
pub mod serial_comms;
pub mod single_line;
pub mod text;
pub mod tokenizer;
