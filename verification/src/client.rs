//! The open-loop load source.
//!
//! A client re-schedules its own `GenerateNext` tick: each tick emits the
//! next tick after one mean inter-arrival interval, jittered by five
//! percent either way, and — when a target is connected — one request
//! toward it. A configuration change bumps the generation id, and ticks of
//! older generations die out silently, which is how a stale rate stops
//! producing load.
//!
//! The arrival rate is carried in thousandths of a request per second, so
//! the rates the interface offers as decimals stay exact integers here.
use vstd::prelude::*;
use crate::events::{Event, EventType, ScheduleCmd};
use crate::inspector::SystemInspector;
use crate::network::NodeId;
use crate::rng::{rng_below, rng_from_seed, rng_next_u32};
use crate::server::{sat_inc, trimmed_window};

verus! {

/// Ceiling on the arrival rate: one million requests per second, in
/// thousandths.
pub const MAX_RATE_MILLI: u64 = 1_000_000_000;

/// Ceiling on the request timeout: one day, in milliseconds.
pub const MAX_TIMEOUT_MS: u64 = 86_400_000;

/// Configuration of a client.
pub struct ClientConfig {
    /// Offered load, in thousandths of a request per second.
    pub arrival_rate_milli: u64,
    /// Time allowed from emission to terminal response, in milliseconds.
    pub timeout: u64,
    /// Monotone token invalidating older self-ticks.
    pub generation_id: u64,
}

impl ClientConfig {
    pub open spec fn wf(&self) -> bool {
        &&& self.arrival_rate_milli <= MAX_RATE_MILLI
        &&& self.timeout <= MAX_TIMEOUT_MS
    }

    /// The value of `clamped`, as a specification.
    pub open spec fn clamped_spec(&self) -> ClientConfig {
        ClientConfig {
            arrival_rate_milli: if self.arrival_rate_milli > MAX_RATE_MILLI {
                MAX_RATE_MILLI
            } else {
                self.arrival_rate_milli
            },
            timeout: if self.timeout > MAX_TIMEOUT_MS {
                MAX_TIMEOUT_MS
            } else {
                self.timeout
            },
            generation_id: self.generation_id,
        }
    }

    /// The same configuration with every field forced into range.
    pub fn clamped(&self) -> (r: Self)
        ensures
            r.wf(),
            self.wf() ==> r == *self,
            r == self.clamped_spec(),
    {
        ClientConfig {
            arrival_rate_milli: if self.arrival_rate_milli > MAX_RATE_MILLI {
                MAX_RATE_MILLI
            } else {
                self.arrival_rate_milli
            },
            timeout: if self.timeout > MAX_TIMEOUT_MS {
                MAX_TIMEOUT_MS
            } else {
                self.timeout
            },
            generation_id: self.generation_id,
        }
    }
}

impl Clone for ClientConfig {
    fn clone(&self) -> (r: Self)
        ensures
            r == *self,
    {
        ClientConfig {
            arrival_rate_milli: self.arrival_rate_milli,
            timeout: self.timeout,
            generation_id: self.generation_id,
        }
    }
}

impl Default for ClientConfig {
    /// Five requests per second, a five second timeout, generation one.
    fn default() -> (r: Self)
        ensures
            r == (ClientConfig { arrival_rate_milli: 5_000, timeout: 5_000, generation_id: 1 }),
            r.wf(),
    {
        ClientConfig { arrival_rate_milli: 5_000, timeout: 5_000, generation_id: 1 }
    }
}

/// The mean inter-arrival interval in microseconds; one second when the
/// rate is zero.
pub open spec fn interval_us_spec(cfg: ClientConfig) -> int {
    if cfg.arrival_rate_milli > 0 {
        1_000_000_000int / cfg.arrival_rate_milli as int
    } else {
        1_000_000
    }
}

/// The next self-tick delay at jitter `j` thousandths: the interval scaled
/// by `j`, and at least one microsecond so virtual time always advances.
pub open spec fn tick_delay_spec(cfg: ClientConfig, j: u64) -> int {
    let d = interval_us_spec(cfg) * j / 1000;
    if d < 1 {
        1
    } else {
        d
    }
}

/// The request id layout: origin node, then a random salt, then the
/// per-client counter.
pub open spec fn request_id_spec(node: NodeId, salt: u32, counter: u64) -> u128 {
    ((node as u128) << 96) | ((salt as u128) << 64) | (counter as u128)
}

/// What a `GenerateNext` tick does: nothing when stale or unhealthy;
/// otherwise the next self-tick after one jittered interval, plus one
/// request toward the target when one is connected.
pub open spec fn tick_outcome(
    pre: Client,
    post: Client,
    cmds: Seq<ScheduleCmd>,
    time: u64,
    node: NodeId,
    gid: u64,
) -> bool {
    let live = pre.healthy && gid == pre.config.generation_id;
    &&& (!live ==> {
        &&& cmds.len() == 0
        &&& post.request_counter == pre.request_counter
        &&& post.window@ == trimmed_window(pre.window@, time)
    })
    &&& (live ==> {
        &&& cmds[0].node_id == node
        &&& cmds[0].event_type matches EventType::GenerateNext { generation_id: g } && g == gid
        &&& exists|j: u64|
            950 <= j <= 1050 && cmds[0].delay == #[trigger] tick_delay_spec(pre.config, j)
        &&& (pre.target_id is None ==> {
            &&& cmds.len() == 1
            &&& post.request_counter == pre.request_counter
            &&& post.window@ == trimmed_window(pre.window@, time)
        })
        &&& (pre.target_id matches Option::Some(t) ==> {
            &&& cmds.len() == 2
            &&& post.request_counter == sat_inc(pre.request_counter)
            &&& post.window@ == trimmed_window(pre.window@, time).push(time)
            &&& cmds[1].delay == 0
            &&& cmds[1].node_id == t
            &&& cmds[1].event_type matches EventType::Arrival {
                request_id,
                path,
                start_time,
                timeout,
            } && {
                &&& exists|salt: u32|
                    request_id == #[trigger] request_id_spec(node, salt, post.request_counter)
                &&& path@ == seq![node]
                &&& start_time == time
                &&& timeout == pre.config.timeout * 1000
            }
        })
    })
}

/// The full dispatch contract of a client, as one predicate: the
/// configuration, target, health and name are untouched; a current-
/// generation tick behaves as `tick_outcome` says; everything else is
/// ignored beyond the window trim.
pub open spec fn client_dispatch(
    pre: Client,
    post: Client,
    event: Event,
    cmds: Seq<ScheduleCmd>,
) -> bool {
    &&& post.config == pre.config
    &&& post.target_id == pre.target_id
    &&& post.healthy == pre.healthy
    &&& post.name@ == pre.name@
    &&& (event.event_type matches EventType::GenerateNext { generation_id } ==> tick_outcome(
        pre,
        post,
        cmds,
        event.time,
        event.node_id,
        generation_id,
    ))
    &&& (!(event.event_type is GenerateNext) ==> {
        &&& cmds.len() == 0
        &&& post.request_counter == pre.request_counter
        &&& post.window@ == trimmed_window(pre.window@, event.time)
    })
}

/// The open-loop load source.
pub struct Client {
    pub name: String,
    pub config: ClientConfig,
    /// The single outbound target, if connected.
    pub target_id: Option<NodeId>,
    pub rng: rand::rngs::StdRng,
    /// Timestamps of the requests of the last second, for throughput
    /// display.
    pub window: Vec<u64>,
    /// Requests emitted so far; the low 64 bits of the next request id.
    pub request_counter: u64,
    pub healthy: bool,
}

/// What the client shows the outside world.
pub struct ClientView {
    /// Configured rate, in thousandths of a request per second.
    pub rate_milli: u64,
}

impl Client {
    pub open spec fn bounded(&self) -> bool {
        self.config.wf()
    }

    pub fn new(name: String, rate_milli: u64) -> (r: Self)
        ensures
            r.bounded(),
            r.config.arrival_rate_milli == if rate_milli > MAX_RATE_MILLI {
                MAX_RATE_MILLI
            } else {
                rate_milli
            },
            r.config.timeout == 5_000,
            r.config.generation_id == 1,
            r.target_id is None,
            r.request_counter == 0,
            r.healthy,
            r.window@.len() == 0,
            r.name == name,
    {
        let config = ClientConfig {
            arrival_rate_milli: rate_milli,
            timeout: 5_000,
            generation_id: 1,
        }.clamped();
        Client {
            name,
            config,
            target_id: Option::None,
            rng: rng_from_seed(0),
            window: Vec::new(),
            request_counter: 0,
            healthy: true,
        }
    }

    /// Drop window entries older than one second before `now`.
    fn update_window(&mut self, now: u64)
        ensures
            final(self).window@ == trimmed_window(old(self).window@, now),
            *final(self) == (Client { window: final(self).window, ..*old(self) }),
    {
        let ghost s0 = self.window@;
        while self.window.len() > 0 && now > self.window[0].saturating_add(1_000_000)
            invariant
                trimmed_window(self.window@, now) == trimmed_window(s0, now),
                *self == (Client { window: self.window, ..*old(self) }),
            decreases self.window@.len(),
        {
            proof {
                assert(self.window@.remove(0) =~= self.window@.drop_first());
            }
            self.window.remove(0);
        }
    }

    /// Dispatch one event to this client.
    ///
    /// Only a `GenerateNext` tick of the current generation does anything:
    /// it always re-schedules itself after one jittered interval, and emits
    /// one request toward the target when one is connected. A tick of an
    /// older generation, or any tick on an unhealthy client, dies out.
    #[verifier::rlimit(100)]
    #[verifier::spinoff_prover]
    pub fn on_event(&mut self, event: Event, _inspector: &SystemInspector) -> (cmds: Vec<
        ScheduleCmd,
    >)
        requires
            old(self).bounded(),
        ensures
            final(self).bounded(),
            client_dispatch(*old(self), *final(self), event, cmds@),
    {
        let Event { time, node_id, event_type } = event;
        let ghost pre = *old(self);
        self.update_window(time);
        match event_type {
            EventType::GenerateNext { generation_id } => {
                let mut cmds: Vec<ScheduleCmd> = Vec::new();
                if self.healthy && generation_id == self.config.generation_id {
                    let interval_us: u64 = if self.config.arrival_rate_milli > 0 {
                        1_000_000_000 / self.config.arrival_rate_milli
                    } else {
                        1_000_000
                    };
                    let j: u64 = 950 + rng_below(&mut self.rng, 101);
                    let scaled: u64 = {
                        proof {
                            assert(interval_us * j <= 1_000_000_000 * 1050) by (nonlinear_arith)
                                requires
                                    interval_us <= 1_000_000_000,
                                    j <= 1050,
                            ;
                        }
                        interval_us * j / 1000
                    };
                    let next_delay: u64 = if scaled < 1 {
                        1
                    } else {
                        scaled
                    };
                    proof {
                        assert(interval_us == interval_us_spec(self.config));
                        assert(next_delay == tick_delay_spec(pre.config, j));
                    }
                    cmds.push(
                        ScheduleCmd {
                            delay: next_delay,
                            node_id,
                            event_type: EventType::GenerateNext { generation_id },
                        },
                    );
                    if let Option::Some(target) = self.target_id {
                        self.request_counter = if self.request_counter < u64::MAX {
                            self.request_counter + 1
                        } else {
                            self.request_counter
                        };
                        let salt = rng_next_u32(&mut self.rng);
                        let rid: u128 = ((node_id as u128) << 96) | ((salt as u128) << 64) | (
                        self.request_counter as u128);
                        proof {
                            assert(rid == request_id_spec(node_id, salt, self.request_counter));
                        }
                        self.window.push(time);
                        let mut path: Vec<NodeId> = Vec::new();
                        path.push(node_id);
                        cmds.push(
                            ScheduleCmd {
                                delay: 0,
                                node_id: target,
                                event_type: EventType::Arrival {
                                    request_id: rid,
                                    path,
                                    start_time: time,
                                    timeout: self.config.timeout * 1000,
                                },
                            },
                        );
                    }
                }
                proof {
                    let live = pre.healthy && generation_id == pre.config.generation_id;
                    if live {
                        assert(cmds@[0].node_id == node_id);
                        assert(cmds@[0].event_type matches EventType::GenerateNext {
                            generation_id: g,
                        } && g == generation_id);
                        assert(exists|j: u64|
                            950 <= j <= 1050 && cmds@[0].delay == #[trigger] tick_delay_spec(
                                pre.config,
                                j,
                            ));
                        if pre.target_id is None {
                            assert(cmds@.len() == 1);
                            assert(self.request_counter == pre.request_counter);
                            assert(self.window@ == trimmed_window(pre.window@, time));
                        } else {
                            assert(cmds@.len() == 2);
                            assert(self.request_counter == sat_inc(pre.request_counter));
                            assert(self.window@ == trimmed_window(pre.window@, time).push(time));
                            assert(cmds@[1].delay == 0);
                            assert(cmds@[1].event_type matches EventType::Arrival {
                                request_id,
                                path,
                                start_time,
                                timeout,
                            } && {
                                &&& exists|salt: u32|
                                    request_id == #[trigger] request_id_spec(
                                        node_id,
                                        salt,
                                        self.request_counter,
                                    )
                                &&& path@ == seq![node_id]
                                &&& start_time == time
                                &&& timeout == pre.config.timeout * 1000
                            });
                        }
                    } else {
                        assert(cmds@.len() == 0);
                    }
                    assert(tick_outcome(pre, *self, cmds@, time, node_id, generation_id));
                }
                cmds
            },
            _ => Vec::new(),
        }
    }

    /// The initial kick-off: the tick that starts the regeneration cycle.
    pub fn wake_up(&self, node_id: NodeId) -> (cmds: Vec<ScheduleCmd>)
        ensures
            cmds@.len() == 1,
            cmds@[0].delay == 0,
            cmds@[0].node_id == node_id,
            cmds@[0].event_type matches EventType::GenerateNext { generation_id } && generation_id
                == self.config.generation_id,
    {
        let mut cmds: Vec<ScheduleCmd> = Vec::new();
        cmds.push(
            ScheduleCmd {
                delay: 0,
                node_id,
                event_type: EventType::GenerateNext {
                    generation_id: self.config.generation_id,
                },
            },
        );
        cmds
    }

    /// Replace the configuration (clamped into range). On a healthy client
    /// this re-kicks the tick under the new generation id; the old
    /// generation's pending tick then dies out.
    pub fn set_config(&mut self, config: ClientConfig, node_id: NodeId) -> (cmds: Vec<ScheduleCmd>)
        ensures
            final(self).bounded(),
            *final(self) == (Client { config: final(self).config, ..*old(self) }),
            final(self).config == config.clamped_spec(),
            old(self).healthy ==> cmds@.len() == 1 && cmds@[0].delay == 0 && cmds@[0].node_id
                == node_id && (cmds@[0].event_type matches EventType::GenerateNext {
                generation_id,
            } && generation_id == config.generation_id),
            !old(self).healthy ==> cmds@.len() == 0,
    {
        self.config = config.clamped();
        if self.healthy {
            let mut cmds: Vec<ScheduleCmd> = Vec::new();
            cmds.push(
                ScheduleCmd {
                    delay: 0,
                    node_id,
                    event_type: EventType::GenerateNext {
                        generation_id: self.config.generation_id,
                    },
                },
            );
            cmds
        } else {
            Vec::new()
        }
    }

    pub fn set_healthy(&mut self, healthy: bool)
        ensures
            *final(self) == (Client { healthy, ..*old(self) }),
    {
        self.healthy = healthy;
    }

    pub fn is_healthy(&self) -> (r: bool)
        ensures
            r == self.healthy,
    {
        self.healthy
    }

    pub fn add_target(&mut self, target: NodeId)
        ensures
            *final(self) == (Client { target_id: Option::Some(target), ..*old(self) }),
    {
        self.target_id = Option::Some(target);
    }

    pub fn remove_target(&mut self, target: NodeId)
        ensures
            *final(self) == (Client {
                target_id: if old(self).target_id == Option::Some(target) {
                    Option::None
                } else {
                    old(self).target_id
                },
                ..*old(self)
            }),
    {
        if self.target_id == Option::Some(target) {
            self.target_id = Option::None;
        }
    }

    pub fn clear_targets(&mut self)
        ensures
            *final(self) == (Client { target_id: Option::None, ..*old(self) }),
    {
        self.target_id = Option::None;
    }

    pub fn get_targets(&self) -> (r: Vec<NodeId>)
        ensures
            self.target_id matches Option::Some(t) ==> r@ == seq![t],
            self.target_id is None ==> r@ == Seq::<NodeId>::empty(),
    {
        let mut r: Vec<NodeId> = Vec::new();
        if let Option::Some(t) = self.target_id {
            r.push(t);
        }
        r
    }

    /// Requests emitted within the last second, as displayed; an unhealthy
    /// client displays zero.
    pub fn display_throughput(&self) -> (r: u64)
        ensures
            r == if self.healthy {
                self.window@.len() as int
            } else {
                0
            },
    {
        if self.healthy {
            self.window.len() as u64
        } else {
            0
        }
    }

    pub fn get_visual_snapshot(&self) -> (r: ClientView)
        ensures
            r.rate_milli == self.config.arrival_rate_milli,
    {
        ClientView { rate_milli: self.config.arrival_rate_milli }
    }

    /// Trim the one-second window up to `now`.
    pub fn sync_display_stats(&mut self, now: u64)
        ensures
            final(self).window@ == trimmed_window(old(self).window@, now),
            *final(self) == (Client { window: final(self).window, ..*old(self) }),
    {
        self.update_window(now);
    }

    /// Drop the throughput window; configuration and topology stay.
    pub fn reset_internal_stats(&mut self)
        ensures
            *final(self) == (Client { window: final(self).window, ..*old(self) }),
            final(self).window@.len() == 0,
    {
        self.window.clear();
    }

    /// Reseed the component generator.
    pub fn set_seed(&mut self, seed: u64)
        ensures
            *final(self) == (Client { rng: final(self).rng, ..*old(self) }),
    {
        self.rng = rng_from_seed(seed);
    }
}

} // verus!
