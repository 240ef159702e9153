//! A session kept by a web service; not implemented.

use vstd::prelude::*;

use crate::session::data::{SessionData, SessionEvent};
use crate::session::formatter::SessionFormatter;
use crate::session::Session;

verus! {

/// A session kept by a web service. None of its operations is implemented,
/// so none of them can be called.
pub struct WebSession;

impl Session for WebSession {
    open spec fn is_operational(&self) -> bool {
        false
    }

    open spec fn is_running(&self) -> bool {
        false
    }

    open spec fn drains_on_next_event(&self) -> bool {
        false
    }

    open spec fn pending_events(&self) -> nat {
        0
    }

    open spec fn recorded_breaks(&self) -> Seq<(u128, Option<u128>)> {
        Seq::empty()
    }

    open spec fn is_collected(&self, d: SessionData) -> bool {
        false
    }


    fn check_operational(&self) -> (r: bool) {
        false
    }

    fn drains_next(&self) -> (r: bool) {
        false
    }

    fn start(&mut self) {
    }

    fn stop(&mut self) {
    }

    fn collect(&self) -> (d: Option<SessionData>) {
        None
    }

    fn log_event<F: SessionFormatter>(&mut self, event: SessionEvent, formatter: &F) -> (lines: Vec<String>) {
        Vec::new()
    }

    fn finish_log(&mut self, written: bool) {
    }

    fn drain<F: SessionFormatter>(&self, formatter: &F) -> (lines: Vec<String>) {
        Vec::new()
    }

    fn save<F: SessionFormatter>(&mut self, formatter: &F) -> (content: Option<String>) {
        None
    }
}

} // verus!
