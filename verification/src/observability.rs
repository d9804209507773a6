//! Records of events, for observers outside the process.

use vstd::prelude::*;

use crate::json::{Json, JsonView};
use crate::text::opt_view;
use crate::time::Moment;

verus! {

/// The version of the records that are made now.
pub const AGENT_EVENT_RECORD_SCHEMA_VERSION: u16 = 1;

/// What was taken out of a record.
#[derive(Debug, PartialEq, Eq)]
pub struct RedactionRecord {
    pub field: String,
    pub reason: String,
}

pub struct RedactionView {
    pub field: Seq<char>,
    pub reason: Seq<char>,
}

impl View for RedactionRecord {
    type V = RedactionView;

    open spec fn view(&self) -> RedactionView {
        RedactionView { field: self.field@, reason: self.reason@ }
    }
}

pub open spec fn redaction_views(redactions: Seq<RedactionRecord>) -> Seq<RedactionView> {
    redactions.map_values(|r: RedactionRecord| r@)
}

/// How grave an event is.
#[derive(Debug, Clone, Copy, PartialEq, Eq, Structural)]
pub enum EventSeverity {
    Trace,
    Debug,
    Info,
    Warn,
    Error,
}

/// A record of one event, without raw content.
#[derive(Debug, PartialEq)]
pub struct AgentEventRecord {
    pub schema_version: u16,
    pub run_id: Option<String>,
    /// The event's number, counted by who made it.
    pub sequence: Option<u64>,
    pub timestamp: Moment,
    pub name: String,
    pub severity: EventSeverity,
    pub payload: Json,
    pub redactions: Vec<RedactionRecord>,
}

pub struct EventRecordView {
    pub schema_version: u16,
    pub run_id: Option<Seq<char>>,
    pub sequence: Option<u64>,
    pub timestamp: Moment,
    pub name: Seq<char>,
    pub severity: EventSeverity,
    pub payload: JsonView,
    pub redactions: Seq<RedactionView>,
}

impl View for AgentEventRecord {
    type V = EventRecordView;

    open spec fn view(&self) -> EventRecordView {
        EventRecordView {
            schema_version: self.schema_version,
            run_id: opt_view(self.run_id),
            sequence: self.sequence,
            timestamp: self.timestamp,
            name: self.name@,
            severity: self.severity,
            payload: self.payload@,
            redactions: redaction_views(self.redactions@),
        }
    }
}

impl AgentEventRecord {
    /// A record made at `timestamp`, without run, number or redactions.
    pub fn new(name: &str, severity: EventSeverity, payload: Json, timestamp: Moment) -> (r:
        AgentEventRecord)
        ensures
            r@ == (EventRecordView {
                schema_version: AGENT_EVENT_RECORD_SCHEMA_VERSION,
                run_id: None,
                sequence: None,
                timestamp,
                name: name@,
                severity,
                payload: payload@,
                redactions: Seq::empty(),
            }),
    {
        let redactions: Vec<RedactionRecord> = Vec::new();
        assert(redaction_views(redactions@) =~= Seq::empty());
        AgentEventRecord {
            schema_version: AGENT_EVENT_RECORD_SCHEMA_VERSION,
            run_id: None,
            sequence: None,
            timestamp,
            name: name.to_owned(),
            severity,
            payload,
            redactions,
        }
    }

    pub fn with_run_id(self, run_id: &str) -> (r: AgentEventRecord)
        ensures
            r@ == (EventRecordView { run_id: Some(run_id@), ..self@ }),
    {
        let mut r = self;
        r.run_id = Some(run_id.to_owned());
        r
    }

    pub fn with_sequence(self, sequence: u64) -> (r: AgentEventRecord)
        ensures
            r@ == (EventRecordView { sequence: Some(sequence), ..self@ }),
    {
        let mut r = self;
        r.sequence = Some(sequence);
        r
    }

    pub fn with_redactions(self, redactions: Vec<RedactionRecord>) -> (r: AgentEventRecord)
        ensures
            r@ == (EventRecordView { redactions: redaction_views(redactions@), ..self@ }),
    {
        let mut r = self;
        r.redactions = redactions;
        r
    }
}

} // verus!
