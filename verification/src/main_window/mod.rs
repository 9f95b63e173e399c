//! The state of the window's panes and the events that the window sends to
//! the backend. Drawing is left to the application.

pub mod gui_event_types;
pub mod log_settings_pane;
pub mod plot_settings_pane;
pub mod serial_settings_pane;

use self::gui_event_types::{GuiEvent, SerialSettings};
use self::serial_settings_pane::SerialSettingsPaneInfo;
use vstd::prelude::*;

verus! {

/// The events that a pane's report calls for: a start with the chosen
/// settings if the start button was clicked, then a stop if the stop button
/// was.
pub open spec fn pane_events(info: SerialSettingsPaneInfo) -> Seq<GuiEvent> {
    let start = if info.start_clicked {
        seq![
            GuiEvent::StartSerial(
                SerialSettings {
                    port_name: info.selected_port_name->0,
                    baud_rate: info.selected_baud_rate,
                },
            ),
        ]
    } else {
        Seq::empty()
    };
    let stop = if info.stop_clicked {
        seq![GuiEvent::StopSerial]
    } else {
        Seq::empty()
    };
    start + stop
}

/// Turns the report of the serial settings pane into the events to send,
/// in the order in which to send them. A start needs a port: a report with
/// a click on start and no port is not accepted.
pub fn process_pane_info(serial_settings_pane_info: SerialSettingsPaneInfo) -> (events: Vec<
    GuiEvent,
>)
    requires
        serial_settings_pane_info.start_clicked
            ==> serial_settings_pane_info.selected_port_name is Some,
    ensures
        events@ == pane_events(serial_settings_pane_info),
{
    let mut events: Vec<GuiEvent> = Vec::new();
    let stop_clicked = serial_settings_pane_info.stop_clicked;
    if serial_settings_pane_info.start_clicked {
        match serial_settings_pane_info.selected_port_name {
            Some(port_name) => {
                events.push(
                    GuiEvent::StartSerial(
                        SerialSettings {
                            port_name,
                            baud_rate: serial_settings_pane_info.selected_baud_rate,
                        },
                    ),
                );
            },
            None => {},
        }
    }
    if stop_clicked {
        events.push(GuiEvent::StopSerial);
    }
    assert(events@ =~= pane_events(serial_settings_pane_info));
    events
}

} // verus!
