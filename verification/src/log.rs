//! Structured logging of the core's events.
//!
//! The core hands entries to a sink it is given; there is no global
//! logger.  A sink that keeps everything doubles as the log view of the
//! front end.

use vstd::prelude::*;

verus! {

use crate::interface::{SkkIncomingEvent, SkkOutGoingEvent};
use crate::text::str_eq;

/// One logged occurrence and its level.
#[derive(Clone, Debug)]
pub struct LogEntry {
    pub event: LogEvent,
    pub level: u8,
}

/// What is logged: a decoded request, an encoded response, or a plain
/// message.
#[derive(Clone, Debug)]
pub enum LogEvent {
    Incoming(SkkIncomingEvent),
    OutGoing(SkkOutGoingEvent),
    Message(String),
}

/// A sink that keeps every entry, in order of arrival.
pub struct LogSink {
    pub entries: Vec<LogEntry>,
}

impl LogSink {
    /// An empty sink.
    pub fn new() -> (r: LogSink)
        ensures
            r.entries@.len() == 0,
    {
        LogSink { entries: Vec::new() }
    }

    /// Everything logged so far.
    pub fn get_logs(&self) -> (r: &Vec<LogEntry>)
        ensures
            r@ == self.entries@,
    {
        &self.entries
    }
}

/// Record one entry at the end of the sink.
pub fn log(sink: &mut LogSink, log_entry: LogEntry)
    ensures
        final(sink).entries@ == old(sink).entries@.push(log_entry),
{
    sink.entries.push(log_entry);
}

/// What a trace event's recognized field carries.
#[derive(Clone, Debug)]
pub enum LogData {
    Message(String),
    ConvertInput(String),
    ConvertOutput(String),
}

/// Collects the one recognized field of a trace event, if any.  The
/// surrounding application feeds it each field name with its rendered
/// value.
pub struct LogVisitor {
    pub data: Option<LogData>,
}

impl LogVisitor {
    /// A visitor that has seen nothing.
    pub fn new() -> (r: LogVisitor)
        ensures
            r.data is None,
    {
        LogVisitor { data: None }
    }

    /// Classify one field: the `message` field and the conversion
    /// input/output fields are kept, anything else is ignored.
    pub fn record_field(&mut self, name: &str, rendered: String)
        ensures
            name@ == "message"@ ==> (final(self).data matches Some(LogData::Message(s)) && s@
                == rendered@),
            name@ == "nzskkserv_input"@ ==> (final(self).data matches Some(
                LogData::ConvertInput(s),
            ) && s@ == rendered@),
            name@ == "nzskkserv_output"@ ==> (final(self).data matches Some(
                LogData::ConvertOutput(s),
            ) && s@ == rendered@),
            (name@ != "message"@ && name@ != "nzskkserv_input"@ && name@ != "nzskkserv_output"@)
                ==> final(self).data == old(self).data,
    {
        proof {
            broadcast use vstd::string::group_string_axioms;

            reveal_strlit("message");
            reveal_strlit("nzskkserv_input");
            reveal_strlit("nzskkserv_output");
            assert("message"@.len() == 7);
            assert("nzskkserv_input"@.len() == 15);
            assert("nzskkserv_output"@.len() == 16);
        }
        if str_eq(name, "message") {
            self.data = Some(LogData::Message(rendered));
        } else if str_eq(name, "nzskkserv_input") {
            self.data = Some(LogData::ConvertInput(rendered));
        } else if str_eq(name, "nzskkserv_output") {
            self.data = Some(LogData::ConvertOutput(rendered));
        }
    }
}

} // verus!
