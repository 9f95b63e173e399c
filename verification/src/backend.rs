//! What the backend does with the window's requests.

use crate::main_window::gui_event_types::{GuiEvent, SerialSettings};
use vstd::prelude::*;

verus! {

/// Whether the backend reads from a serial line.
#[derive(Clone, Copy, Debug, PartialEq, Eq, Structural)]
pub enum BackendState {
    /// No line is open: the backend waits for a request.
    Idle,
    /// A line is open: the backend reads from it and looks for a request
    /// between two reads.
    Running,
}

/// What the backend has to do after a request.
#[derive(Debug)]
pub enum BackendAction {
    /// Go on as before.
    Proceed,
    /// Open the serial line with these settings.
    Open(SerialSettings),
    /// Stop reading and close the serial line.
    Close,
}

/// The state after `event` arrived in `state`, and what to do. A start
/// counts only while no line is open, a stop only while one is.
pub open spec fn step(state: BackendState, event: GuiEvent) -> (BackendState, BackendAction) {
    match (state, event) {
        (BackendState::Idle, GuiEvent::StartSerial(settings)) => (
            BackendState::Running,
            BackendAction::Open(settings),
        ),
        (BackendState::Running, GuiEvent::StopSerial) => (
            BackendState::Idle,
            BackendAction::Close,
        ),
        (state, _) => (state, BackendAction::Proceed),
    }
}

/// Takes one request of the window in.
pub fn on_gui_event(state: BackendState, event: GuiEvent) -> (next: (BackendState, BackendAction))
    ensures
        next == step(state, event),
{
    match state {
        BackendState::Idle => match event {
            GuiEvent::StartSerial(settings) => (
                BackendState::Running,
                BackendAction::Open(settings),
            ),
            GuiEvent::StopSerial => (BackendState::Idle, BackendAction::Proceed),
        },
        BackendState::Running => match event {
            GuiEvent::StopSerial => (BackendState::Idle, BackendAction::Close),
            GuiEvent::StartSerial(_) => (BackendState::Running, BackendAction::Proceed),
        },
    }
}

/// A line is opened only from `Idle` and closed only from `Running`: the two
/// actions alternate, whatever the window sends.
pub proof fn lemma_open_and_close_alternate(state: BackendState, event: GuiEvent)
    ensures
        step(state, event).1 is Open ==> state == BackendState::Idle && step(state, event).0
            == BackendState::Running,
        step(state, event).1 is Close ==> state == BackendState::Running && step(state, event).0
            == BackendState::Idle,
        step(state, event).1 is Proceed ==> step(state, event).0 == state,
{
}

} // verus!
