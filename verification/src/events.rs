//! Events, their payloads, and the schedule commands components emit.
//!
//! A request is identified by a 128-bit id laid out as
//! `[origin node id : 32 | random salt : 32 | per-client counter : 64]`.
//! The `path` carried by request and response events is the ordered list of
//! node ids the request has traversed on its way forward; responses walk it
//! backwards by popping.
use vstd::prelude::*;
use crate::network::NodeId;

verus! {

/// Identifier of one request, unique within a run with overwhelming
/// probability.
pub type RequestId = u128;

/// The payload of an event, tagged by kind.
pub enum EventType {
    /// A request hop entering a node.
    Arrival { request_id: RequestId, path: Vec<NodeId>, start_time: u64, timeout: u64 },
    /// A server finished servicing a request.
    ProcessComplete {
        request_id: RequestId,
        success: bool,
        start_time: u64,
        path: Vec<NodeId>,
        timeout: u64,
    },
    /// A reply hop returning through the path.
    Response { request_id: RequestId, path: Vec<NodeId>, start_time: u64, success: bool, timeout: u64 },
    /// A client's self-tick; stale generations are ignored.
    GenerateNext { generation_id: u64 },
    /// End of a self-scheduled maintenance window: the component becomes
    /// healthy again.
    MaintenanceComplete,
}

impl EventType {
    /// A terminal response: a reply that has returned all the way to the
    /// originating client, whose path holds that client alone.
    pub open spec fn is_terminal_response(&self) -> bool {
        match *self {
            EventType::Response { ref path, .. } => path@.len() == 1,
            _ => false,
        }
    }
}

/// An event in the queue: a payload due at `time` (microseconds of virtual
/// time) at node `node_id`.
pub struct Event {
    pub time: u64,
    pub node_id: NodeId,
    pub event_type: EventType,
}

/// What a component asks the kernel to schedule: `event_type` delivered to
/// `node_id` after `delay` microseconds, plus whatever the link in between
/// adds.
pub struct ScheduleCmd {
    pub delay: u64,
    pub node_id: NodeId,
    pub event_type: EventType,
}

} // verus!
