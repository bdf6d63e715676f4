//! Record kinds of the session and archive tiers, and the archive's query
//! shapes.
use vstd::prelude::*;
use crate::text::{owned, str_eq};

verus! {

/// Kind of a session or archive entry.
#[derive(Clone, Copy, Debug, PartialEq, Eq, Structural)]
pub enum EntryType {
    UserMessage,
    AgentResponse,
    Decision,
    AgentState,
    Action,
    Data,
}

/// The stored name of an entry kind.
pub open spec fn entry_type_name(t: EntryType) -> Seq<char> {
    match t {
        EntryType::UserMessage => "user_message"@,
        EntryType::AgentResponse => "agent_response"@,
        EntryType::Decision => "decision"@,
        EntryType::AgentState => "agent_state"@,
        EntryType::Action => "action"@,
        EntryType::Data => "data"@,
    }
}

impl EntryType {
    /// The kind stored as `s`; any unknown name reads as `Data`.
    pub fn parse(s: &str) -> (r: Self)
        ensures
            s@ == "user_message"@ ==> r == EntryType::UserMessage,
            s@ == "agent_response"@ ==> r == EntryType::AgentResponse,
            s@ == "decision"@ ==> r == EntryType::Decision,
            s@ == "agent_state"@ ==> r == EntryType::AgentState,
            s@ == "action"@ ==> r == EntryType::Action,
            s@ != "user_message"@ && s@ != "agent_response"@ && s@ != "decision"@ && s@ != "agent_state"@ && s@
                != "action"@ ==> r == EntryType::Data,
    {
        proof {
            reveal_strlit("user_message");
            reveal_strlit("agent_response");
            reveal_strlit("decision");
            reveal_strlit("agent_state");
            reveal_strlit("action");
            assert("user_message"@[0] != "agent_response"@[0]);
            assert("user_message"@[0] != "decision"@[0]);
            assert("user_message"@[0] != "agent_state"@[0]);
            assert("user_message"@[0] != "action"@[0]);
            assert("agent_response"@.len() != "agent_state"@.len());
            assert("agent_response"@.len() != "action"@.len());
            assert("agent_response"@[0] != "decision"@[0]);
            assert("decision"@[0] != "agent_state"@[0]);
            assert("decision"@[0] != "action"@[0]);
            assert("agent_state"@.len() != "action"@.len());
        }
        if str_eq(s, "user_message") {
            EntryType::UserMessage
        } else if str_eq(s, "agent_response") {
            EntryType::AgentResponse
        } else if str_eq(s, "decision") {
            EntryType::Decision
        } else if str_eq(s, "agent_state") {
            EntryType::AgentState
        } else if str_eq(s, "action") {
            EntryType::Action
        } else {
            EntryType::Data
        }
    }

    /// The stored name of this kind.
    pub fn name(&self) -> (r: String)
        ensures
            r@ == entry_type_name(*self),
    {
        match self {
            EntryType::UserMessage => owned("user_message"),
            EntryType::AgentResponse => owned("agent_response"),
            EntryType::Decision => owned("decision"),
            EntryType::AgentState => owned("agent_state"),
            EntryType::Action => owned("action"),
            EntryType::Data => owned("data"),
        }
    }
}

/// Counts the archive can aggregate.
#[derive(Clone, Copy, Debug, PartialEq, Eq, Structural)]
pub enum AggregateMetric {
    Count,
    CountByType,
    CountByDay,
    CountByHour,
}

/// A query on the archive; instants in seconds since the Unix epoch.
#[derive(Clone, Debug)]
pub enum ArchiveQuery {
    TimeRange { start_timestamp: i64, end_timestamp: i64, entry_type: Option<String> },
    Aggregate { metric: AggregateMetric, group_by: Option<String>, start_timestamp: i64, end_timestamp: i64 },
    Search { query_text: String, start_timestamp: Option<i64>, end_timestamp: Option<i64>, limit: usize },
}

/// Figures of the archive.
#[derive(Clone, Debug)]
pub struct ArchiveStats {
    pub total_entries: usize,
    pub oldest_timestamp: Option<i64>,
    pub newest_timestamp: Option<i64>,
    pub total_size_bytes: u64,
    pub db_path: String,
}

} // verus!
