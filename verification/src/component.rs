//! The closed set of component kinds and their common capability set.
//!
//! The simulator knows exactly three kinds of component — client, server,
//! load balancer — so the kernel dispatches over a tagged union rather
//! than through indirection; the registry of kinds is this enum.
use vstd::prelude::*;
use crate::client::{Client, ClientView, client_dispatch};
use crate::balancer::{LoadBalancer, LoadBalancerView, lb_dispatch};
use crate::events::{Event, EventType, ScheduleCmd};
use crate::inspector::SystemInspector;
use crate::network::NodeId;
use crate::server::{Server, ServerView, server_dispatch, trimmed_window};

verus! {

/// A node of the topology: one of the three component kinds.
pub enum Component {
    Client(Client),
    Server(Server),
    LoadBalancer(LoadBalancer),
}

/// A component's read-only display snapshot, by kind.
pub enum ComponentSnapshot {
    Client(ClientView),
    Server(ServerView),
    LoadBalancer(LoadBalancerView),
}

/// `post` is `pre` with `target` registered as an outbound target:
/// the single hop of a client or server, a fresh backend of a balancer.
pub open spec fn added_target(pre: Component, post: Component, target: NodeId) -> bool {
    match (pre, post) {
        (Component::Client(c0), Component::Client(c1)) => c1 == (Client {
            target_id: Option::Some(target),
            ..c0
        }),
        (Component::Server(s0), Component::Server(s1)) => s1 == (Server {
            next_hop: Option::Some(target),
            ..s0
        }),
        (Component::LoadBalancer(b0), Component::LoadBalancer(b1)) => {
            &&& b1 == (LoadBalancer { targets: b1.targets, ..b0 })
            &&& (b0.targets@.contains(target) || b0.targets@.len()
                >= crate::balancer::MAX_TARGETS ==> b1.targets@ == b0.targets@)
            &&& (!b0.targets@.contains(target) && b0.targets@.len()
                < crate::balancer::MAX_TARGETS ==> b1.targets@ == b0.targets@.push(target))
        },
        _ => false,
    }
}

/// `post` is `pre` with every outbound reference to `target` forgotten.
pub open spec fn removed_target(pre: Component, post: Component, target: NodeId) -> bool {
    match (pre, post) {
        (Component::Client(c0), Component::Client(c1)) => c1 == (Client {
            target_id: if c0.target_id == Option::Some(target) {
                Option::None
            } else {
                c0.target_id
            },
            ..c0
        }),
        (Component::Server(s0), Component::Server(s1)) => s1 == (Server {
            next_hop: if s0.next_hop == Option::Some(target) {
                Option::None
            } else {
                s0.next_hop
            },
            ..s0
        }),
        (Component::LoadBalancer(b0), Component::LoadBalancer(b1)) => {
            &&& b1.config == b0.config
            &&& b1.name@ == b0.name@
            &&& b1.is_healthy == b0.is_healthy
            &&& b1.total_retries == b0.total_retries
            &&& b1.retry_token_balance_milli == b0.retry_token_balance_milli
            &&& b1.first_failures == b0.first_failures
            &&& b1.in_flight_retries@ == b0.in_flight_retries@
            &&& !b1.targets@.contains(target)
            &&& !crate::assoc::assoc_has(b1.active_loads@, target)
            &&& forall|i: int|
                0 <= i < b1.state_table@.len() ==> (#[trigger] b1.state_table@[i]).1 != target
        },
        _ => false,
    }
}

/// `post` is `pre` with only its random generator replaced.
pub open spec fn reseeded(pre: Component, post: Component) -> bool {
    match (pre, post) {
        (Component::Client(c0), Component::Client(c1)) => c1 == (Client { rng: c1.rng, ..c0 }),
        (Component::Server(s0), Component::Server(s1)) => s1 == (Server { rng: s1.rng, ..s0 }),
        (Component::LoadBalancer(b0), Component::LoadBalancer(b1)) => b1 == (LoadBalancer {
            rng: b1.rng,
            ..b0
        }),
        _ => false,
    }
}

/// The two components are of the same kind with the same configuration
/// and name.
pub open spec fn same_kind_and_config(pre: Component, post: Component) -> bool {
    match (pre, post) {
        (Component::Client(c0), Component::Client(c1)) => c1.config == c0.config && c1.name@
            == c0.name@,
        (Component::Server(s0), Component::Server(s1)) => s1.config == s0.config && s1.name@
            == s0.name@,
        (Component::LoadBalancer(b0), Component::LoadBalancer(b1)) => b1.config == b0.config
            && b1.name@ == b0.name@,
        _ => false,
    }
}

impl Component {
    /// Structural soundness of the inner component.
    pub open spec fn inv(&self) -> bool {
        match self {
            Component::Client(c) => c.bounded(),
            Component::Server(s) => s.bounded(),
            Component::LoadBalancer(lb) => lb.inv(),
        }
    }

    /// The configured limits are respected: a server keeps no more active
    /// threads than its concurrency and no longer a queue than its
    /// backlog limit.
    pub open spec fn within_limits(&self) -> bool {
        match self {
            Component::Server(s) => s.inv(),
            _ => true,
        }
    }

    /// The kind does not change over the component's life.
    pub open spec fn same_kind(&self, other: &Component) -> bool {
        match (self, other) {
            (Component::Client(_), Component::Client(_)) => true,
            (Component::Server(_), Component::Server(_)) => true,
            (Component::LoadBalancer(_), Component::LoadBalancer(_)) => true,
            _ => false,
        }
    }

    /// Dispatch one event to the component: each kind acts exactly as
    /// its own dispatch contract says.
    pub fn on_event(&mut self, event: Event, inspector: &SystemInspector) -> (cmds: Vec<
        ScheduleCmd,
    >)
        requires
            old(self).inv(),
            inspector.wf(),
        ensures
            final(self).inv(),
            old(self).within_limits() ==> final(self).within_limits(),
            final(self).same_kind(old(self)),
            same_kind_and_config(*old(self), *final(self)),
            (match (*old(self), *final(self)) {
                (Component::Client(c0), Component::Client(c1)) => client_dispatch(
                    c0,
                    c1,
                    event,
                    cmds@,
                ),
                (Component::Server(s0), Component::Server(s1)) => server_dispatch(
                    s0,
                    s1,
                    event,
                    cmds@,
                ),
                (Component::LoadBalancer(b0), Component::LoadBalancer(b1)) => lb_dispatch(
                    b0,
                    b1,
                    *inspector,
                    event,
                    cmds@,
                ),
                _ => false,
            }),
    {
        match self {
            Component::Client(c) => c.on_event(event, inspector),
            Component::Server(s) => s.on_event(event, inspector),
            Component::LoadBalancer(lb) => lb.on_event(event, inspector),
        }
    }

    pub fn is_healthy(&self) -> (r: bool)
        ensures
            r == self.spec_is_healthy(),
    {
        match self {
            Component::Client(c) => c.is_healthy(),
            Component::Server(s) => s.is_healthy(),
            Component::LoadBalancer(lb) => lb.is_healthy(),
        }
    }

    pub open spec fn spec_is_healthy(&self) -> bool {
        match self {
            Component::Client(c) => c.healthy,
            Component::Server(s) => s.healthy,
            Component::LoadBalancer(lb) => lb.is_healthy,
        }
    }

    pub fn set_healthy(&mut self, healthy: bool)
        requires
            old(self).inv(),
        ensures
            final(self).inv(),
            old(self).within_limits() ==> final(self).within_limits(),
            final(self).spec_is_healthy() == healthy,
            final(self).same_kind(old(self)),
            same_kind_and_config(*old(self), *final(self)),
    {
        match self {
            Component::Client(c) => c.set_healthy(healthy),
            Component::Server(s) => s.set_healthy(healthy),
            Component::LoadBalancer(lb) => lb.set_healthy(healthy),
        }
    }

    /// Register an outbound target: the single hop of a client or server,
    /// one of a balancer's backends.
    pub fn add_target(&mut self, target: NodeId)
        requires
            old(self).inv(),
        ensures
            final(self).inv(),
            old(self).within_limits() ==> final(self).within_limits(),
            final(self).same_kind(old(self)),
            added_target(*old(self), *final(self), target),
    {
        match self {
            Component::Client(c) => c.add_target(target),
            Component::Server(s) => s.add_target(target),
            Component::LoadBalancer(lb) => lb.add_target(target),
        }
    }

    /// Forget an outbound target wherever it is referenced.
    pub fn remove_target(&mut self, target: NodeId)
        requires
            old(self).inv(),
        ensures
            final(self).inv(),
            old(self).within_limits() ==> final(self).within_limits(),
            final(self).same_kind(old(self)),
            removed_target(*old(self), *final(self), target),
    {
        match self {
            Component::Client(c) => c.remove_target(target),
            Component::Server(s) => s.remove_target(target),
            Component::LoadBalancer(lb) => lb.remove_target(target),
        }
    }

    pub fn clear_targets(&mut self)
        requires
            old(self).inv(),
        ensures
            final(self).inv(),
            old(self).within_limits() ==> final(self).within_limits(),
            final(self).same_kind(old(self)),
            same_kind_and_config(*old(self), *final(self)),
            (match (*old(self), *final(self)) {
                (Component::Client(c0), Component::Client(c1)) => c1 == (Client {
                    target_id: Option::None,
                    ..c0
                }),
                (Component::Server(s0), Component::Server(s1)) => s1 == (Server {
                    next_hop: Option::None,
                    ..s0
                }),
                (Component::LoadBalancer(b0), Component::LoadBalancer(b1)) => b1.targets@.len()
                    == 0 && b1.active_loads@.len() == 0 && b1.state_table@.len() == 0
                    && b1.config == b0.config && b1.name@ == b0.name@,
                _ => false,
            }),
    {
        match self {
            Component::Client(c) => c.clear_targets(),
            Component::Server(s) => s.clear_targets(),
            Component::LoadBalancer(lb) => lb.clear_targets(),
        }
    }

    pub fn get_targets(&self) -> Vec<NodeId> {
        match self {
            Component::Client(c) => c.get_targets(),
            Component::Server(s) => s.get_targets(),
            Component::LoadBalancer(lb) => lb.get_targets(),
        }
    }

    /// Requests the component currently holds.
    pub fn active_requests(&self) -> u64
        requires
            self.inv(),
    {
        match self {
            Component::Client(_) => 0,
            Component::Server(s) => s.active_requests() as u64,
            Component::LoadBalancer(lb) => lb.active_requests(),
        }
    }

    pub fn error_count(&self) -> u64 {
        match self {
            Component::Client(_) => 0,
            Component::Server(s) => s.error_count(),
            Component::LoadBalancer(lb) => lb.error_count(),
        }
    }

    /// The component's display snapshot.
    pub fn get_visual_snapshot(&self) -> ComponentSnapshot
        requires
            self.inv(),
    {
        match self {
            Component::Client(c) => ComponentSnapshot::Client(c.get_visual_snapshot()),
            Component::Server(s) => ComponentSnapshot::Server(s.get_visual_snapshot()),
            Component::LoadBalancer(lb) => ComponentSnapshot::LoadBalancer(
                lb.get_visual_snapshot(),
            ),
        }
    }

    /// Trim the display windows up to `now`.
    pub fn sync_display_stats(&mut self, now: u64)
        requires
            old(self).inv(),
        ensures
            final(self).inv(),
            old(self).within_limits() ==> final(self).within_limits(),
            final(self).same_kind(old(self)),
            same_kind_and_config(*old(self), *final(self)),
            (match (*old(self), *final(self)) {
                (Component::Client(c0), Component::Client(c1)) => c1 == (Client {
                    window: c1.window,
                    ..c0
                }) && c1.window@ == trimmed_window(c0.window@, now),
                (Component::Server(s0), Component::Server(s1)) => s1 == (Server {
                    arrival_window: s1.arrival_window,
                    ..s0
                }) && s1.arrival_window@ == trimmed_window(s0.arrival_window@, now),
                (Component::LoadBalancer(b0), Component::LoadBalancer(b1)) => b1 == (
                LoadBalancer { arrival_window: b1.arrival_window, ..b0 }) && b1.arrival_window@
                    == trimmed_window(b0.arrival_window@, now),
                _ => false,
            }),
    {
        match self {
            Component::Client(c) => c.sync_display_stats(now),
            Component::Server(s) => s.sync_display_stats(now),
            Component::LoadBalancer(lb) => lb.sync_display_stats(now),
        }
    }

    /// Drop transient traffic state; configuration and topology stay.
    pub fn reset_internal_stats(&mut self)
        requires
            old(self).inv(),
        ensures
            final(self).inv(),
            final(self).within_limits(),
            final(self).same_kind(old(self)),
            same_kind_and_config(*old(self), *final(self)),
            (match (*old(self), *final(self)) {
                (Component::Client(c0), Component::Client(c1)) => c1 == (Client {
                    window: c1.window,
                    ..c0
                }) && c1.window@.len() == 0,
                (Component::Server(s0), Component::Server(s1)) => s1.config == s0.config
                    && s1.next_hop == s0.next_hop && s1.healthy == s0.healthy && s1.errors == 0
                    && s1.active_threads == 0 && s1.queue@.len() == 0 && s1.arrival_window@.len()
                    == 0,
                (Component::LoadBalancer(b0), Component::LoadBalancer(b1)) => b1.config
                    == b0.config && b1.targets@ == b0.targets@ && b1.is_healthy == b0.is_healthy
                    && b1.total_retries == 0 && b1.state_table@.len() == 0
                    && b1.in_flight_retries@.len() == 0 && b1.active_loads@.len() == 0
                    && b1.arrival_window@.len() == 0,
                _ => false,
            }),
    {
        match self {
            Component::Client(c) => c.reset_internal_stats(),
            Component::Server(s) => s.reset_internal_stats(),
            Component::LoadBalancer(lb) => lb.reset_internal_stats(),
        }
    }

    /// The initial kick-off commands of this component: a client starts
    /// its regeneration cycle, the other kinds wake with nothing to do.
    pub fn wake_up(&self, node_id: NodeId) -> (cmds: Vec<ScheduleCmd>)
        ensures
            (match self {
                Component::Client(c) => cmds@.len() == 1 && cmds@[0].delay == 0
                    && cmds@[0].node_id == node_id && (cmds@[0].event_type matches
                EventType::GenerateNext { generation_id } && generation_id
                    == c.config.generation_id),
                _ => cmds@.len() == 0,
            }),
    {
        match self {
            Component::Client(c) => c.wake_up(node_id),
            Component::Server(_) => Vec::new(),
            Component::LoadBalancer(lb) => lb.wake_up(),
        }
    }

    /// The component's configuration as its canonical JSON line.
    pub fn encode_config(&self) -> (out: Vec<u8>)
        requires
            self.inv(),
        ensures
            match self {
                Component::Client(c) => out@ == crate::codec::client_json(c.config),
                Component::Server(srv) => out@ == crate::codec::server_json(srv.config),
                Component::LoadBalancer(lb) => out@ == crate::codec::lb_json(lb.config),
            },
    {
        match self {
            Component::Client(c) => crate::codec::encode_client_config(&c.config),
            Component::Server(srv) => crate::codec::encode_server_config(&srv.config),
            Component::LoadBalancer(lb) => crate::codec::encode_lb_config(&lb.config),
        }
    }

    /// Reseed the component generator; the kernel calls this on insertion
    /// so the whole run is a function of the simulation seed.
    pub fn set_seed(&mut self, seed: u64)
        requires
            old(self).inv(),
        ensures
            final(self).inv(),
            old(self).within_limits() ==> final(self).within_limits(),
            final(self).same_kind(old(self)),
            reseeded(*old(self), *final(self)),
    {
        match self {
            Component::Client(c) => c.set_seed(seed),
            Component::Server(s) => s.set_seed(seed),
            Component::LoadBalancer(lb) => lb.set_seed(seed),
        }
    }
}

} // verus!
