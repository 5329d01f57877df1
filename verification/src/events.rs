//! What the console hears of.

use vstd::prelude::*;

use crate::db::{Command, RowView};

verus! {

/// What a console listener receives.
#[derive(Debug, Clone)]
pub enum Event {
    /// The current state of a command.
    Command { command: Command },
    /// The kill switch moved. Sent so that no open tab ever shows a stale
    /// switch, the one piece of state on the page where being wrong matters.
    Injection { enabled: bool },
}

/// An event, over the view of its command.
pub enum EventView {
    Command(RowView),
    Injection(bool),
}

impl View for Event {
    type V = EventView;

    open spec fn view(&self) -> EventView {
        match self {
            Event::Command { command } => EventView::Command(command@),
            Event::Injection { enabled } => EventView::Injection(*enabled),
        }
    }
}

/// The view of an event that may be absent.
pub open spec fn opt_event(e: Option<Event>) -> Option<EventView> {
    match e {
        Some(e) => Some(e@),
        None => None,
    }
}

} // verus!
