//! The queued service station: bounded concurrency, a bounded backlog, a
//! failure coin, and a smooth saturation penalty on the service time.
//!
//! Probabilities and ratios are carried as plain integers: parts per
//! million for the failure probability, thousandths for the saturation
//! penalty and for the multiplicative jitter. The service-time law is
//!
//! ```text
//! penalty_milli = 1000 + active^2 * saturation_penalty_milli / concurrency^2
//! delay_us      = service_time_ms * jitter_permille * penalty_milli / 1000
//! ```
//!
//! with the jitter drawn uniformly from [950, 1050], so a server at rest
//! serves in `service_time` give or take five percent, and a saturated
//! server with penalty 1000 serves at twice that.
use vstd::prelude::*;
use crate::events::{Event, EventType, RequestId, ScheduleCmd};
use crate::inspector::SystemInspector;
use crate::network::NodeId;
use crate::rng::{rng_below, rng_from_seed};

verus! {

/// Ceiling on the configured service time, in milliseconds (one hour).
pub const MAX_SERVICE_TIME_MS: u64 = 3_600_000;

/// Ceiling on concurrency and backlog sizes.
pub const MAX_WIDTH: u32 = 1_000_000;

/// Ceiling on the saturation penalty factor, in thousandths.
pub const MAX_PENALTY_MILLI: u64 = 1_000_000;

/// One, in parts per million.
pub const PPM: u32 = 1_000_000;

/// Configuration of a server. All fields are hot-applied; out-of-range
/// values are clamped on the way in.
pub struct ServerConfig {
    /// Time to service one request, in milliseconds.
    pub service_time: u64,
    /// Requests serviced at once.
    pub concurrency: u32,
    /// Requests that may wait in the queue.
    pub backlog_limit: u32,
    /// Probability that a request fails on arrival, in parts per million.
    pub failure_ppm: u32,
    /// Saturation penalty factor, in thousandths (0 disables, 1000 doubles
    /// the service time at full load).
    pub saturation_penalty_milli: u64,
}

impl ServerConfig {
    pub open spec fn wf(&self) -> bool {
        &&& self.service_time <= MAX_SERVICE_TIME_MS
        &&& self.concurrency <= MAX_WIDTH
        &&& self.backlog_limit <= MAX_WIDTH
        &&& self.failure_ppm <= PPM
        &&& self.saturation_penalty_milli <= MAX_PENALTY_MILLI
    }

    /// The value of `clamped`, as a specification.
    pub open spec fn clamped_spec(&self) -> ServerConfig {
        ServerConfig {
            service_time: if self.service_time > MAX_SERVICE_TIME_MS {
                MAX_SERVICE_TIME_MS
            } else {
                self.service_time
            },
            concurrency: if self.concurrency > MAX_WIDTH {
                MAX_WIDTH
            } else {
                self.concurrency
            },
            backlog_limit: if self.backlog_limit > MAX_WIDTH {
                MAX_WIDTH
            } else {
                self.backlog_limit
            },
            failure_ppm: if self.failure_ppm > PPM {
                PPM
            } else {
                self.failure_ppm
            },
            saturation_penalty_milli: if self.saturation_penalty_milli > MAX_PENALTY_MILLI {
                MAX_PENALTY_MILLI
            } else {
                self.saturation_penalty_milli
            },
        }
    }

    /// The same configuration with every field forced into range.
    pub fn clamped(&self) -> (r: Self)
        ensures
            r.wf(),
            self.wf() ==> r == *self,
            r == self.clamped_spec(),
    {
        ServerConfig {
            service_time: if self.service_time > MAX_SERVICE_TIME_MS {
                MAX_SERVICE_TIME_MS
            } else {
                self.service_time
            },
            concurrency: if self.concurrency > MAX_WIDTH {
                MAX_WIDTH
            } else {
                self.concurrency
            },
            backlog_limit: if self.backlog_limit > MAX_WIDTH {
                MAX_WIDTH
            } else {
                self.backlog_limit
            },
            failure_ppm: if self.failure_ppm > PPM {
                PPM
            } else {
                self.failure_ppm
            },
            saturation_penalty_milli: if self.saturation_penalty_milli > MAX_PENALTY_MILLI {
                MAX_PENALTY_MILLI
            } else {
                self.saturation_penalty_milli
            },
        }
    }
}

impl Clone for ServerConfig {
    fn clone(&self) -> (r: Self)
        ensures
            r == *self,
    {
        ServerConfig {
            service_time: self.service_time,
            concurrency: self.concurrency,
            backlog_limit: self.backlog_limit,
            failure_ppm: self.failure_ppm,
            saturation_penalty_milli: self.saturation_penalty_milli,
        }
    }
}

impl Default for ServerConfig {
    fn default() -> (r: Self)
        ensures
            r == (ServerConfig {
                service_time: 200,
                concurrency: 4,
                backlog_limit: 50,
                failure_ppm: 0,
                saturation_penalty_milli: 0,
            }),
            r.wf(),
    {
        ServerConfig {
            service_time: 200,
            concurrency: 4,
            backlog_limit: 50,
            failure_ppm: 0,
            saturation_penalty_milli: 0,
        }
    }
}

/// A request waiting in the backlog.
pub struct QueuedRequest {
    pub request_id: RequestId,
    pub path: Vec<NodeId>,
    pub start_time: u64,
    pub timeout: u64,
}

/// The saturation penalty in thousandths for a server with `active`
/// requests in service: `1000 + active^2 * penalty / concurrency^2`,
/// integer division. A zero concurrency carries no penalty.
pub open spec fn penalty_milli_spec(cfg: ServerConfig, active: u32) -> int {
    if cfg.concurrency == 0 {
        1000
    } else {
        1000 + (active * active * cfg.saturation_penalty_milli) / (
        cfg.concurrency * cfg.concurrency)
    }
}

/// The service delay in microseconds for jitter `j` (in thousandths):
/// `service_time * j * penalty_milli / 1000`, saturated at `u64::MAX`.
pub open spec fn processing_delay_spec(cfg: ServerConfig, active: u32, j: u64) -> int {
    let d = cfg.service_time * j * penalty_milli_spec(cfg, active) / 1000;
    if d > u64::MAX {
        u64::MAX as int
    } else {
        d
    }
}

/// `cmd` is a response addressed to `to` with the given fields and delay.
pub open spec fn is_response_cmd(
    cmd: ScheduleCmd,
    to: NodeId,
    rid: RequestId,
    path: Seq<NodeId>,
    start: u64,
    ok: bool,
    t_out: u64,
    delay: u64,
) -> bool {
    &&& cmd.delay == delay
    &&& cmd.node_id == to
    &&& cmd.event_type matches EventType::Response {
        request_id,
        path: p,
        start_time,
        success,
        timeout,
    } && request_id == rid && p@ == path && start_time == start && success == ok && timeout
        == t_out
}

/// `cmd` is a zero-delay failed response addressed to `to`.
pub open spec fn is_failure_response(
    cmd: ScheduleCmd,
    to: NodeId,
    rid: RequestId,
    path: Seq<NodeId>,
    start: u64,
    t_out: u64,
) -> bool {
    is_response_cmd(cmd, to, rid, path, start, false, t_out, 0)
}

/// `cmd` is an arrival addressed to `to` with the given fields and delay.
pub open spec fn is_arrival_cmd(
    cmd: ScheduleCmd,
    to: NodeId,
    rid: RequestId,
    path: Seq<NodeId>,
    start: u64,
    t_out: u64,
    delay: u64,
) -> bool {
    &&& cmd.delay == delay
    &&& cmd.node_id == to
    &&& cmd.event_type matches EventType::Arrival { request_id, path: p, start_time, timeout }
        && request_id == rid && p@ == path && start_time == start && timeout == t_out
}

/// `cmd` is a completion the server schedules to itself (the delay is
/// constrained separately).
pub open spec fn is_process_complete_cmd(
    cmd: ScheduleCmd,
    to: NodeId,
    rid: RequestId,
    ok: bool,
    path: Seq<NodeId>,
    start: u64,
    t_out: u64,
) -> bool {
    &&& cmd.node_id == to
    &&& cmd.event_type matches EventType::ProcessComplete {
        request_id,
        success,
        start_time,
        path: p,
        timeout,
    } && request_id == rid && success == ok && start_time == start && p@ == path && timeout
        == t_out
}

/// `x + 1`, stopping at the top of `u64`.
pub open spec fn sat_inc(x: u64) -> u64 {
    if x < u64::MAX {
        (x + 1) as u64
    } else {
        x
    }
}

/// `s` with every timestamp older than a second before `now` dropped from
/// the front.
pub open spec fn trimmed_window(s: Seq<u64>, now: u64) -> Seq<u64>
    decreases s.len(),
{
    if s.len() > 0 && now > s[0] + 1_000_000 {
        trimmed_window(s.drop_first(), now)
    } else {
        s
    }
}

/// The full dispatch contract of a server, as one predicate: what each
/// event kind does to the state and which commands come back.
pub open spec fn server_dispatch(
    pre: Server,
    post: Server,
    event: Event,
    cmds: Seq<ScheduleCmd>,
) -> bool {
    &&& same_static(pre, post)
    &&& (event.event_type matches EventType::Arrival { request_id, path, start_time, timeout }
        ==> {
                                        let w1 = trimmed_window(pre.arrival_window@, event.time).push(event.time);
        let rejected = arrival_rejected(
            pre,
            post,
            cmds,
            w1,
            request_id,
            path@,
            start_time,
            timeout,
        );
        let admitted = arrival_admitted(
            pre,
            post,
            cmds,
            w1,
            event.node_id,
            request_id,
            path@,
            start_time,
            timeout,
        );
        let queued = arrival_queued(
            pre,
            post,
            cmds,
            w1,
            request_id,
            path@,
            start_time,
            timeout,
        );
        &&& rejected || admitted || queued
        &&& !pre.healthy ==> rejected
        &&& pre.healthy && pre.config.failure_ppm == PPM ==> rejected
        &&& pre.healthy && pre.config.failure_ppm == 0
            && pre.active_threads < pre.config.concurrency ==> admitted
        &&& pre.healthy && pre.config.failure_ppm == 0
            && pre.active_threads >= pre.config.concurrency
            && pre.queue@.len() < pre.config.backlog_limit ==> queued
        &&& pre.healthy && pre.config.failure_ppm == 0
            && pre.active_threads >= pre.config.concurrency
            && pre.queue@.len() >= pre.config.backlog_limit ==> rejected
    })
    &&& (event.event_type matches EventType::ProcessComplete {
        request_id,
        success,
        start_time,
        path,
        timeout,
    } ==> {
                                        let forwards = success && pre.next_hop is Some;
        let n_head: int = if forwards || path@.len() > 0 {
            1
        } else {
            0
        };
        &&& post.errors == pre.errors
        &&& post.arrival_window@ == trimmed_window(pre.arrival_window@, event.time)
        &&& (forwards ==> is_arrival_cmd(
            cmds[0],
            pre.next_hop->0,
            request_id,
            path@.push(event.node_id),
            start_time,
            timeout,
            0,
        ))
        &&& (!forwards && path@.len() > 0 ==> is_response_cmd(
            cmds[0],
            path@.last(),
            request_id,
            path@,
            start_time,
            success,
            timeout,
            0,
        ))
        &&& if pre.queue@.len() > 0 {
            &&& post.active_threads == pre.active_threads
            &&& post.queue@ == pre.queue@.drop_first()
            &&& cmds.len() == n_head + 1
            &&& is_process_complete_cmd(
                cmds[n_head],
                event.node_id,
                pre.queue@[0].request_id,
                true,
                pre.queue@[0].path@,
                pre.queue@[0].start_time,
                pre.queue@[0].timeout,
            )
            &&& exists|j: u64|
                950 <= j <= 1050 && cmds[n_head].delay == #[trigger] processing_delay_spec(
                    pre.config,
                    pre.active_threads,
                    j,
                )
        } else {
            &&& post.active_threads == sat_dec(pre.active_threads)
            &&& post.queue@ == pre.queue@
            &&& cmds.len() == n_head
        }
    })
    &&& (event.event_type matches EventType::Response {
        request_id,
        path,
        start_time,
        success,
        timeout,
    } ==> {
                                        &&& post.active_threads == pre.active_threads
        &&& post.queue@ == pre.queue@
        &&& post.errors == pre.errors
        &&& post.arrival_window@ == trimmed_window(pre.arrival_window@, event.time)
        &&& if path@.len() >= 2 {
            cmds.len() == 1 && is_response_cmd(
                cmds[0],
                path@[path@.len() - 2],
                request_id,
                path@.drop_last(),
                start_time,
                success,
                timeout,
                0,
            )
        } else {
            cmds.len() == 0
        }
    })
    &&& (match event.event_type {
        EventType::GenerateNext { .. } | EventType::MaintenanceComplete => {
                                                    &&& post.active_threads == pre.active_threads
            &&& post.queue@ == pre.queue@
            &&& post.errors == pre.errors
            &&& post.arrival_window@ == trimmed_window(pre.arrival_window@, event.time)
            &&& cmds.len() == 0
        },
        _ => true,
    })
}

/// `x - 1`, stopping at zero.
pub open spec fn sat_dec(x: u32) -> u32 {
    if x > 0 {
        (x - 1) as u32
    } else {
        0
    }
}

/// A backend server.
pub struct Server {
    pub name: String,
    pub config: ServerConfig,
    /// Requests currently in service.
    pub active_threads: u32,
    /// Requests waiting for a free slot, oldest first.
    pub queue: Vec<QueuedRequest>,
    /// Where serviced requests are forwarded, if anywhere.
    pub next_hop: Option<NodeId>,
    /// Requests refused: unhealthy, failure coin, or full backlog.
    pub errors: u64,
    pub healthy: bool,
    pub rng: rand::rngs::StdRng,
    /// Timestamps of the arrivals of the last second, for throughput
    /// display.
    pub arrival_window: Vec<u64>,
}

/// What the server shows the outside world.
pub struct ServerView {
    /// Arrivals within the last second.
    pub rps: u64,
    pub threads: u32,
    pub concurrency: u32,
    pub queue_len: u32,
    /// The saturation penalty at the current load, in thousandths.
    pub current_penalty_milli: u64,
}

/// Everything but the load state and the statistics window is untouched.
pub open spec fn same_static(pre: Server, post: Server) -> bool {
    &&& post.config == pre.config
    &&& post.next_hop == pre.next_hop
    &&& post.healthy == pre.healthy
    &&& post.name@ == pre.name@
}

/// The arrival was refused: the error count went up and, when the path
/// names a sender, a failed response goes back to it at once.
pub open spec fn arrival_rejected(
    pre: Server,
    post: Server,
    cmds: Seq<ScheduleCmd>,
    w1: Seq<u64>,
    rid: RequestId,
    path: Seq<NodeId>,
    start: u64,
    t_out: u64,
) -> bool {
    &&& same_static(pre, post)
    &&& post.active_threads == pre.active_threads
    &&& post.queue@ == pre.queue@
    &&& post.errors == sat_inc(pre.errors)
    &&& post.arrival_window@ == w1
    &&& if path.len() > 0 {
        cmds.len() == 1 && is_failure_response(cmds[0], path.last(), rid, path, start, t_out)
    } else {
        cmds.len() == 0
    }
}

/// The arrival was admitted into a free slot: one more active thread, and
/// a completion self-scheduled after the jittered, penalty-weighted
/// service delay computed at the post-admission load.
pub open spec fn arrival_admitted(
    pre: Server,
    post: Server,
    cmds: Seq<ScheduleCmd>,
    w1: Seq<u64>,
    self_node: NodeId,
    rid: RequestId,
    path: Seq<NodeId>,
    start: u64,
    t_out: u64,
) -> bool {
    &&& pre.active_threads < pre.config.concurrency
    &&& same_static(pre, post)
    &&& post.active_threads == pre.active_threads + 1
    &&& post.queue@ == pre.queue@
    &&& post.errors == pre.errors
    &&& post.arrival_window@ == w1
    &&& cmds.len() == 1
    &&& is_process_complete_cmd(cmds[0], self_node, rid, true, path, start, t_out)
    &&& exists|j: u64|
        950 <= j <= 1050 && cmds[0].delay == #[trigger] processing_delay_spec(
            pre.config,
            (pre.active_threads + 1) as u32,
            j,
        )
}

/// The arrival found all slots busy but room in the backlog: it waits.
pub open spec fn arrival_queued(
    pre: Server,
    post: Server,
    cmds: Seq<ScheduleCmd>,
    w1: Seq<u64>,
    rid: RequestId,
    path: Seq<NodeId>,
    start: u64,
    t_out: u64,
) -> bool {
    &&& pre.active_threads >= pre.config.concurrency
    &&& pre.queue@.len() < pre.config.backlog_limit
    &&& same_static(pre, post)
    &&& post.active_threads == pre.active_threads
    &&& post.errors == pre.errors
    &&& post.arrival_window@ == w1
    &&& post.queue@.len() == pre.queue@.len() + 1
    &&& forall|i: int| 0 <= i < pre.queue@.len() ==> post.queue@[i] == pre.queue@[i]
    &&& post.queue@.last().request_id == rid
    &&& post.queue@.last().path@ == path
    &&& post.queue@.last().start_time == start
    &&& post.queue@.last().timeout == t_out
    &&& cmds.len() == 0
}

impl Server {
    /// Counts that no run can exceed, whatever the configuration history.
    pub open spec fn bounded(&self) -> bool {
        &&& self.config.wf()
        &&& self.active_threads <= MAX_WIDTH
        &&& self.queue@.len() <= MAX_WIDTH
    }

    /// The server respects its configured limits: no more threads than the
    /// concurrency, no longer a queue than the backlog limit.
    pub open spec fn inv(&self) -> bool {
        &&& self.bounded()
        &&& self.active_threads <= self.config.concurrency
        &&& self.queue@.len() <= self.config.backlog_limit
    }

    pub fn new(name: String, service_time: u64, concurrency: u32, backlog: u32) -> (r: Self)
        ensures
            r.inv(),
            r.config == (ServerConfig {
                service_time: if service_time > MAX_SERVICE_TIME_MS {
                    MAX_SERVICE_TIME_MS
                } else {
                    service_time
                },
                concurrency: if concurrency > MAX_WIDTH {
                    MAX_WIDTH
                } else {
                    concurrency
                },
                backlog_limit: if backlog > MAX_WIDTH {
                    MAX_WIDTH
                } else {
                    backlog
                },
                failure_ppm: 0u32,
                saturation_penalty_milli: 500u64,
            }),
            r.active_threads == 0,
            r.queue@.len() == 0,
            r.next_hop is None,
            r.errors == 0,
            r.healthy,
            r.name == name,
    {
        let config = ServerConfig {
            service_time,
            concurrency,
            backlog_limit: backlog,
            failure_ppm: 0,
            saturation_penalty_milli: 500,
        }.clamped();
        Server {
            name,
            config,
            active_threads: 0,
            queue: Vec::new(),
            next_hop: Option::None,
            errors: 0,
            healthy: true,
            rng: rng_from_seed(0),
            arrival_window: Vec::new(),
        }
    }

    /// Drop window entries older than one second before `now`.
    fn update_rps_window(&mut self, now: u64)
        ensures
            final(self).arrival_window@ == trimmed_window(old(self).arrival_window@, now),
            *final(self) == (Server { arrival_window: final(self).arrival_window, ..*old(self) }),
    {
        let ghost s0 = self.arrival_window@;
        while self.arrival_window.len() > 0 && now > self.arrival_window[0].saturating_add(
            1_000_000,
        )
            invariant
                trimmed_window(self.arrival_window@, now) == trimmed_window(s0, now),
                *self == (Server { arrival_window: self.arrival_window, ..*old(self) }),
            decreases self.arrival_window@.len(),
        {
            proof {
                assert(self.arrival_window@.remove(0) =~= self.arrival_window@.drop_first());
            }
            self.arrival_window.remove(0);
        }
    }

    /// The service delay for the present configuration and load, with a
    /// fresh multiplicative jitter drawn from [0.95, 1.05].
    pub fn calculate_processing_delay(
        rng: &mut rand::rngs::StdRng,
        config: &ServerConfig,
        active: u32,
    ) -> (r: u64)
        requires
            config.wf(),
            active <= MAX_WIDTH,
        ensures
            exists|j: u64| 950 <= j <= 1050 && r == #[trigger] processing_delay_spec(*config, active, j),
    {
        let j: u64 = 950 + rng_below(rng, 101);
        Self::delay_for_jitter(config, active, j)
    }

    /// The service delay at jitter `j` thousandths: exactly
    /// `processing_delay_spec`.
    pub fn delay_for_jitter(config: &ServerConfig, active: u32, j: u64) -> (r: u64)
        requires
            config.wf(),
            active <= MAX_WIDTH,
            950 <= j <= 1050,
        ensures
            r == processing_delay_spec(*config, active, j),
    {
        let pen: u128 = if config.concurrency == 0 {
            1000
        } else {
            let a = active as u128;
            let s = config.saturation_penalty_milli as u128;
            let c = config.concurrency as u128;
            proof {
                assert(a * a <= 1_000_000_000_000) by (nonlinear_arith)
                    requires
                        a <= 1_000_000,
                ;
                assert(a * a * s <= 1_000_000_000_000 * 1_000_000) by (nonlinear_arith)
                    requires
                        a * a <= 1_000_000_000_000,
                        s <= 1_000_000,
                ;
                assert(c * c <= 1_000_000_000_000) by (nonlinear_arith)
                    requires
                        c <= 1_000_000,
                ;
                assert(c * c >= 1) by (nonlinear_arith)
                    requires
                        c >= 1,
                ;
                assert(a * a * s / (c * c) <= 1_000_000_000_000_000_000) by (nonlinear_arith)
                    requires
                        a * a * s <= 1_000_000_000_000_000_000,
                        c * c >= 1,
                ;
            }
            1000 + (a * a * s) / (c * c)
        };
        proof {
            assert(pen <= 1_000_000_000_000_001_000);
            let st = config.service_time as u128;
            let jj = j as u128;
            assert(st * jj <= 3_600_000 * 1050) by (nonlinear_arith)
                requires
                    st <= 3_600_000,
                    jj <= 1050,
            ;
            assert(st * jj * pen <= 3_780_000_000 * 1_000_000_000_000_001_000) by (nonlinear_arith)
                requires
                    st * jj <= 3_780_000_000,
                    pen <= 1_000_000_000_000_001_000,
            ;
        }
        let prod: u128 = (config.service_time as u128) * (j as u128) * pen / 1000;
        proof {
            assert(penalty_milli_spec(*config, active) == pen);
            assert(config.service_time * j * penalty_milli_spec(*config, active) == (
            config.service_time as u128) * (j as u128) * pen);
        }
        if prod > u64::MAX as u128 {
            u64::MAX
        } else {
            prod as u64
        }
    }

    /// Refuse an arrival: count the error and, when the path names a
    /// sender, answer it with an immediate failed response.
    fn reject_arrival(
        &mut self,
        rid: RequestId,
        path: Vec<NodeId>,
        start: u64,
        t_out: u64,
    ) -> (cmds: Vec<ScheduleCmd>)
        ensures
            *final(self) == (Server { errors: sat_inc(old(self).errors), ..*old(self) }),
            path@.len() > 0 ==> cmds@.len() == 1 && is_failure_response(
                cmds@[0],
                path@.last(),
                rid,
                path@,
                start,
                t_out,
            ),
            path@.len() == 0 ==> cmds@.len() == 0,
    {
        self.errors = if self.errors < u64::MAX {
            self.errors + 1
        } else {
            self.errors
        };
        let mut cmds: Vec<ScheduleCmd> = Vec::new();
        if path.len() > 0 {
            let prev = path[path.len() - 1];
            cmds.push(
                ScheduleCmd {
                    delay: 0,
                    node_id: prev,
                    event_type: EventType::Response {
                        request_id: rid,
                        path,
                        start_time: start,
                        success: false,
                        timeout: t_out,
                    },
                },
            );
        }
        cmds
    }

    /// Dispatch one event to this server.
    ///
    /// An arrival is refused outright when the server is unhealthy, by the
    /// failure coin, or when backlog and slots are full; otherwise it is
    /// admitted into a slot or queued. A completion answers downstream or
    /// forwards to the next hop, then pulls the oldest queued request into
    /// the freed slot. A response hop pops the path and forwards upstream.
    /// The configured limits are never exceeded: this is where the
    /// invariant `active_threads <= concurrency` and
    /// `queue <= backlog_limit` is preserved.
    pub fn on_event(&mut self, event: Event, _inspector: &SystemInspector) -> (cmds: Vec<
        ScheduleCmd,
    >)
        requires
            old(self).bounded(),
        ensures
            final(self).bounded(),
            old(self).inv() ==> final(self).inv(),
            server_dispatch(*old(self), *final(self), event, cmds@),
    {
        let Event { time, node_id, event_type } = event;
        self.update_rps_window(time);
        match event_type {
            EventType::Arrival { request_id, path, start_time, timeout } => {
                self.arrival_window.push(time);
                if !self.healthy {
                    return self.reject_arrival(request_id, path, start_time, timeout);
                }
                if self.config.failure_ppm > 0 {
                    let draw = rng_below(&mut self.rng, 1_000_000);
                    if draw < self.config.failure_ppm as u64 {
                        return self.reject_arrival(request_id, path, start_time, timeout);
                    }
                }
                if self.active_threads < self.config.concurrency {
                    self.active_threads = self.active_threads + 1;
                    let delay = Self::calculate_processing_delay(
                        &mut self.rng,
                        &self.config,
                        self.active_threads,
                    );
                    let mut cmds: Vec<ScheduleCmd> = Vec::new();
                    cmds.push(
                        ScheduleCmd {
                            delay,
                            node_id,
                            event_type: EventType::ProcessComplete {
                                request_id,
                                success: true,
                                start_time,
                                path,
                                timeout,
                            },
                        },
                    );
                    cmds
                } else if self.queue.len() < self.config.backlog_limit as usize {
                    self.queue.push(QueuedRequest { request_id, path, start_time, timeout });
                    Vec::new()
                } else {
                    self.reject_arrival(request_id, path, start_time, timeout)
                }
            },
            EventType::ProcessComplete { request_id, success, start_time, path, timeout } => {
                let mut cmds: Vec<ScheduleCmd> = Vec::new();
                let hop = self.next_hop;
                if success && hop.is_some() {
                    let mut p = path;
                    p.push(node_id);
                    cmds.push(
                        ScheduleCmd {
                            delay: 0,
                            node_id: hop.unwrap(),
                            event_type: EventType::Arrival {
                                request_id,
                                path: p,
                                start_time,
                                timeout,
                            },
                        },
                    );
                } else if path.len() > 0 {
                    let prev = path[path.len() - 1];
                    cmds.push(
                        ScheduleCmd {
                            delay: 0,
                            node_id: prev,
                            event_type: EventType::Response {
                                request_id,
                                path,
                                start_time,
                                success,
                                timeout,
                            },
                        },
                    );
                }
                if self.queue.len() > 0 {
                    proof {
                        assert(self.queue@.remove(0) =~= self.queue@.drop_first());
                    }
                    let next = self.queue.remove(0);
                    let delay = Self::calculate_processing_delay(
                        &mut self.rng,
                        &self.config,
                        self.active_threads,
                    );
                    cmds.push(
                        ScheduleCmd {
                            delay,
                            node_id,
                            event_type: EventType::ProcessComplete {
                                request_id: next.request_id,
                                success: true,
                                start_time: next.start_time,
                                path: next.path,
                                timeout: next.timeout,
                            },
                        },
                    );
                } else {
                    self.active_threads = if self.active_threads > 0 {
                        self.active_threads - 1
                    } else {
                        0
                    };
                }
                cmds
            },
            EventType::Response { request_id, path, start_time, success, timeout } => {
                let mut cmds: Vec<ScheduleCmd> = Vec::new();
                if path.len() > 0 {
                    let mut p = path;
                    p.pop();
                    if p.len() > 0 {
                        let prev = p[p.len() - 1];
                        cmds.push(
                            ScheduleCmd {
                                delay: 0,
                                node_id: prev,
                                event_type: EventType::Response {
                                    request_id,
                                    path: p,
                                    start_time,
                                    success,
                                    timeout,
                                },
                            },
                        );
                    }
                }
                cmds
            },
            EventType::GenerateNext { .. } => Vec::new(),
            EventType::MaintenanceComplete => Vec::new(),
        }
    }

    /// Replace the configuration, clamped into range. A shrunken limit is
    /// not enforced retroactively: the load drains down to it.
    pub fn set_config(&mut self, config: ServerConfig)
        requires
            old(self).bounded(),
        ensures
            final(self).bounded(),
            *final(self) == (Server { config: final(self).config, ..*old(self) }),
            final(self).config == config.clamped_spec(),
    {
        self.config = config.clamped();
    }

    pub fn set_healthy(&mut self, healthy: bool)
        ensures
            *final(self) == (Server { healthy, ..*old(self) }),
    {
        self.healthy = healthy;
    }

    pub fn is_healthy(&self) -> (r: bool)
        ensures
            r == self.healthy,
    {
        self.healthy
    }

    /// Point serviced requests at `target`.
    pub fn add_target(&mut self, target: NodeId)
        ensures
            *final(self) == (Server { next_hop: Option::Some(target), ..*old(self) }),
    {
        self.next_hop = Option::Some(target);
    }

    /// Forget `target` if it is the next hop.
    pub fn remove_target(&mut self, target: NodeId)
        ensures
            *final(self) == (Server {
                next_hop: if old(self).next_hop == Option::Some(target) {
                    Option::None
                } else {
                    old(self).next_hop
                },
                ..*old(self)
            }),
    {
        if self.next_hop == Option::Some(target) {
            self.next_hop = Option::None;
        }
    }

    pub fn clear_targets(&mut self)
        ensures
            *final(self) == (Server { next_hop: Option::None, ..*old(self) }),
    {
        self.next_hop = Option::None;
    }

    pub fn get_targets(&self) -> (r: Vec<NodeId>)
        ensures
            self.next_hop matches Option::Some(t) ==> r@ == seq![t],
            self.next_hop is None ==> r@ == Seq::<NodeId>::empty(),
    {
        let mut r: Vec<NodeId> = Vec::new();
        if let Option::Some(t) = self.next_hop {
            r.push(t);
        }
        r
    }

    /// Requests in service plus requests waiting.
    pub fn active_requests(&self) -> (r: u32)
        requires
            self.bounded(),
        ensures
            r == self.active_threads + self.queue@.len(),
    {
        self.active_threads + self.queue.len() as u32
    }

    pub fn error_count(&self) -> (r: u64)
        ensures
            r == self.errors,
    {
        self.errors
    }

    /// Drop all transient state, keeping the configuration and topology.
    pub fn reset_internal_stats(&mut self)
        requires
            old(self).bounded(),
        ensures
            final(self).inv(),
            final(self).config == old(self).config,
            final(self).next_hop == old(self).next_hop,
            final(self).healthy == old(self).healthy,
            final(self).name@ == old(self).name@,
            final(self).errors == 0,
            final(self).active_threads == 0,
            final(self).queue@.len() == 0,
            final(self).arrival_window@.len() == 0,
    {
        self.errors = 0;
        self.arrival_window.clear();
        self.queue.clear();
        self.active_threads = 0;
    }

    /// Reseed the component generator; the kernel does this when the
    /// component is inserted, making the whole run a function of the
    /// simulation seed.
    pub fn set_seed(&mut self, seed: u64)
        ensures
            *final(self) == (Server { rng: final(self).rng, ..*old(self) }),
    {
        self.rng = rng_from_seed(seed);
    }

    /// The outward snapshot: arrivals of the last second, load, and the
    /// penalty at the current load.
    pub fn get_visual_snapshot(&self) -> (r: ServerView)
        requires
            self.bounded(),
        ensures
            r.rps == self.arrival_window@.len(),
            r.threads == self.active_threads,
            r.concurrency == self.config.concurrency,
            r.queue_len == self.queue@.len(),
            r.current_penalty_milli == penalty_milli_spec(self.config, self.active_threads),
    {
        let pen: u128 = if self.config.concurrency == 0 {
            1000
        } else {
            let a = self.active_threads as u128;
            let s = self.config.saturation_penalty_milli as u128;
            let c = self.config.concurrency as u128;
            proof {
                assert(a * a <= 1_000_000_000_000) by (nonlinear_arith)
                    requires
                        a <= 1_000_000,
                ;
                assert(a * a * s <= 1_000_000_000_000 * 1_000_000) by (nonlinear_arith)
                    requires
                        a * a <= 1_000_000_000_000,
                        s <= 1_000_000,
                ;
                assert(c * c <= 1_000_000_000_000) by (nonlinear_arith)
                    requires
                        c <= 1_000_000,
                ;
                assert(c * c >= 1) by (nonlinear_arith)
                    requires
                        c >= 1,
                ;
                assert(a * a * s / (c * c) <= 1_000_000_000_000_000_000) by (nonlinear_arith)
                    requires
                        a * a * s <= 1_000_000_000_000_000_000,
                        c * c >= 1,
                ;
            }
            1000 + (a * a * s) / (c * c)
        };
        ServerView {
            rps: self.arrival_window.len() as u64,
            threads: self.active_threads,
            concurrency: self.config.concurrency,
            queue_len: self.queue.len() as u32,
            current_penalty_milli: pen as u64,
        }
    }

    /// Trim the one-second arrival window up to `now`, so the displayed
    /// throughput reflects the last second only.
    pub fn sync_display_stats(&mut self, now: u64)
        ensures
            final(self).arrival_window@ == trimmed_window(old(self).arrival_window@, now),
            *final(self) == (Server { arrival_window: final(self).arrival_window, ..*old(self) }),
    {
        self.update_rps_window(now);
    }
}

/// The saturation penalty law, at the canonical three points: a server
/// with a 10 ms service time and a penalty factor of one serves in about
/// 10 ms when idle, about 12.5 ms at half load, and about 20 ms at full
/// load — each within the five percent the jitter allows.
pub proof fn lemma_saturation_penalty_points(cfg: ServerConfig, j: u64)
    requires
        cfg.service_time == 10,
        cfg.concurrency == 10,
        cfg.saturation_penalty_milli == 1000,
        950 <= j <= 1050,
    ensures
        9_500 <= processing_delay_spec(cfg, 0, j) <= 10_500,
        11_875 <= processing_delay_spec(cfg, 5, j) <= 13_125,
        19_000 <= processing_delay_spec(cfg, 10, j) <= 21_000,
{
    assert(penalty_milli_spec(cfg, 0) == 1000);
    assert((5 * 5 * cfg.saturation_penalty_milli) / (cfg.concurrency * cfg.concurrency) == 250)
        by (nonlinear_arith)
        requires
            cfg.saturation_penalty_milli == 1000,
            cfg.concurrency == 10,
    ;
    assert((10 * 10 * cfg.saturation_penalty_milli) / (cfg.concurrency * cfg.concurrency) == 1000)
        by (nonlinear_arith)
        requires
            cfg.saturation_penalty_milli == 1000,
            cfg.concurrency == 10,
    ;
    assert(penalty_milli_spec(cfg, 5) == 1250);
    assert(penalty_milli_spec(cfg, 10) == 2000);
    assert(10 * j * 1000 / 1000 == 10 * j);
    assert(10 * j * 1250 / 1000 == 12 * j + j / 2) by (nonlinear_arith)
        requires
            950 <= j <= 1050,
    ;
    assert(10 * j * 2000 / 1000 == 20 * j) by (nonlinear_arith)
        requires
            950 <= j <= 1050,
    ;
}

} // verus!
