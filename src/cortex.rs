//! Decisions of an agent's cognitive loop: what to query memory with, how to
//! answer a message, which messages are milestones, and when to pulse.
//! The loop itself (receiving, sleeping, posting) runs outside.
use vstd::prelude::*;
use crate::text::owned;
use crate::vox::{VoxMessage, VoxPayload};

verus! {

/// Priority of an acknowledgement.
pub const ACK_PRIORITY: u8 = 2;

/// An acknowledgement to send back to the sender of a task.
#[derive(Clone, Debug)]
pub struct AckDecision {
    /// The sender of the task, who receives the acknowledgement.
    pub to_agent: String,
    /// The thread of the task.
    pub thread_id: String,
    pub task_id: String,
    pub result: String,
    pub priority: u8,
}

/// The memory query a message leads to.
pub open spec fn query_text_spec(m: VoxMessage) -> Seq<char> {
    match m.payload {
        VoxPayload::TaskAssignment { description, .. } => description@,
        VoxPayload::Proposal { content } => content@,
        VoxPayload::Observation { content } => content@,
        _ => "general coordination"@,
    }
}

/// The text to query memory with for `msg`: the task description, the
/// proposal or the observation, else a general query.
pub fn memory_query_text(msg: &VoxMessage) -> (r: String)
    ensures
        r@ == query_text_spec(*msg),
{
    match &msg.payload {
        VoxPayload::TaskAssignment { description, .. } => description.clone(),
        VoxPayload::Proposal { content } => content.clone(),
        VoxPayload::Observation { content } => content.clone(),
        _ => owned("general coordination"),
    }
}

/// What the agent answers to `msg`: a task assignment is acknowledged to
/// its sender on the same thread at priority 2; anything else gets no answer.
pub fn decide(msg: &VoxMessage) -> (r: Option<AckDecision>)
    ensures
        match msg.payload {
            VoxPayload::TaskAssignment { task_id, .. } => r matches Some(a) && a.to_agent == msg.sender
                && a.thread_id == msg.correlation_id && a.task_id == task_id && a.priority == ACK_PRIORITY
                && a.result@ == "Acknowledged via VOX"@,
            _ => r is None,
        },
{
    match &msg.payload {
        VoxPayload::TaskAssignment { task_id, .. } => Some(AckDecision {
            to_agent: msg.sender.clone(),
            thread_id: msg.correlation_id.clone(),
            task_id: task_id.clone(),
            result: owned("Acknowledged via VOX"),
            priority: ACK_PRIORITY,
        }),
        _ => None,
    }
}

/// Whether `msg` marks a milestone worth reflecting on: an acknowledgement.
pub fn is_milestone(msg: &VoxMessage) -> (r: bool)
    ensures
        r == (msg.payload is Ack),
{
    match &msg.payload {
        VoxPayload::Ack { .. } => true,
        _ => false,
    }
}

/// Extra wait before a heartbeat, in seconds, from a random draw `draw`:
/// one to five seconds.
pub fn pulse_jitter_secs(draw: u64) -> (r: u64)
    ensures
        r == draw % 5 + 1,
        1 <= r <= 5,
{
    draw % 5 + 1
}

} // verus!
