//! Deterministic discrete-event simulator of request-serving topologies.
//!
//! A directed graph of components (load-generating clients, queueing servers,
//! retry-aware load balancers) exchanges request and response events through
//! links with latency, jitter and loss. The simulation advances a virtual
//! clock in microseconds, one event at a time, and keeps throughput and
//! latency statistics.
use vstd::prelude::*;

pub mod analytics;
pub mod assoc;
pub mod balancer;
pub mod client;
pub mod codec;
pub mod component;
pub mod engine;
pub mod events;
pub mod hist;
pub mod inspector;
pub mod network;
pub mod queue;
pub mod rng;
pub mod server;

pub use analytics::{MetricPoint, MetricsCollector};
pub use balancer::{BalancingStrategy, LoadBalancer, LoadBalancerConfig, LoadBalancerView,
    RetryStrategy};
pub use client::{Client, ClientConfig, ClientView};
pub use component::{Component, ComponentSnapshot};
pub use engine::Simulation;
pub use events::{Event, EventType, RequestId, ScheduleCmd};
pub use inspector::SystemInspector;
pub use network::{canonical_key, EdgeConfig, Link, NodeId};
pub use server::{Server, ServerConfig, ServerView};

verus! {

/// Fixed processing overhead a load balancer adds to each hop, in microseconds.
pub const PROCESS_OVERHEAD_US: u64 = 2_000;

} // verus!
