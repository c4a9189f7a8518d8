//! The simulation kernel: virtual clock, event dispatch, link physics,
//! and the run's outcome counters.
//!
//! `step` pops the earliest event (first-in-first-out among equal times),
//! advances the clock to it, settles a terminal response into the success
//! and failure counters and the latency records, snapshots every
//! component's health, dispatches the event to its target, and applies
//! the per-edge latency, jitter and loss to the commands that come back.
//!
//! Two ghost counters keep the books: every unit on
//! `success_count + failure_count` stems from exactly one terminal
//! response or one packet dropped in flight.
use vstd::prelude::*;
use crate::assoc::{assoc_has, assoc_val, keys_unique, assoc_find_u32, assoc_find_u64,
    lemma_assoc_val_at};
use crate::component::{Component, same_kind_and_config};
use crate::events::{Event, EventType, ScheduleCmd};
use crate::hist::{LatencyHistogram, hist_values, hist_percentile_value, hist_high, HIST_HIGH_US};
use crate::inspector::SystemInspector;
use crate::network::{canonical_key, Link, NodeId};
use crate::queue::{dispatched_before, EventQueue};
use crate::rng::{rng_below, rng_from_seed, rng_next_u64};
use crate::server::sat_inc;

verus! {

/// How long the latency ring looks back, in microseconds.
pub const LATENCY_RING_US: u64 = 60_000_000;

/// Every component of the table is structurally sound.
pub open spec fn components_ok(s: Seq<(NodeId, Component)>) -> bool {
    forall|i: int| 0 <= i < s.len() ==> (#[trigger] s[i]).1.inv()
}

/// Every server of the table respects its configured limits.
pub open spec fn components_within_limits(s: Seq<(NodeId, Component)>) -> bool {
    forall|i: int| 0 <= i < s.len() ==> (#[trigger] s[i]).1.within_limits()
}

/// Every link of the table is within range.
pub open spec fn links_ok(s: Seq<(u64, Link)>) -> bool {
    forall|i: int| 0 <= i < s.len() ==> (#[trigger] s[i]).1.wf()
}

/// The unordered pair `{a, b}` packed into one key, smaller id high.
pub open spec fn link_key_spec(a: NodeId, b: NodeId) -> int {
    if a < b {
        (a as int) * 0x1_0000_0000 + b
    } else {
        (b as int) * 0x1_0000_0000 + a
    }
}


/// `s` with every entry whose arrival time is before `cutoff` dropped
/// from the front.
pub open spec fn ring_trimmed(s: Seq<(u64, u64)>, cutoff: u64) -> Seq<(u64, u64)>
    decreases s.len(),
{
    if s.len() > 0 && s[0].0 < cutoff {
        ring_trimmed(s.drop_first(), cutoff)
    } else {
        s
    }
}

/// One when the event is a terminal response that settles as a failure
/// (timed out or unsuccessful), zero otherwise.
pub open spec fn terminal_failure_bit(e: Event) -> int {
    if e.event_type.is_terminal_response() {
        match e.event_type {
            EventType::Response { start_time, success, timeout, .. } => {
                let elapsed = if e.time >= start_time {
                    (e.time - start_time) as u64
                } else {
                    0u64
                };
                if elapsed > timeout || !success {
                    1int
                } else {
                    0int
                }
            },
            _ => 0int,
        }
    } else {
        0int
    }
}

/// How dispatching `e` settles the run's records: a terminal response
/// advances the terminal ledger by one and, by its elapsed/timeout/
/// success outcome, either counts one success — recorded into the
/// latency ring (trimmed to the last sixty seconds) and the histogram —
/// or leaves the success records alone (its failure is counted
/// separately, together with dropped packets). Any other event touches
/// none of them.
pub open spec fn step_settlement(pre: Simulation, post: Simulation, e: Event) -> bool {
    let terminal = e.event_type.is_terminal_response();
    &&& post.terminal_responses@ == pre.terminal_responses@ + (if terminal {
        1int
    } else {
        0int
    })
    &&& (!terminal ==> {
        &&& post.success_count == pre.success_count
        &&& post.latencies@ == pre.latencies@
        &&& hist_values(post.histogram) == hist_values(pre.histogram)
    })
    &&& (terminal ==> (e.event_type matches EventType::Response {
        start_time,
        success,
        timeout,
        ..
    } ==> {
        let elapsed = if e.time >= start_time {
            (e.time - start_time) as u64
        } else {
            0u64
        };
        if elapsed <= timeout && success {
            &&& post.success_count == sat_inc(pre.success_count)
            &&& post.latencies@ == ring_trimmed(
                pre.latencies@.push((e.time, elapsed)),
                if e.time >= LATENCY_RING_US {
                    (e.time - LATENCY_RING_US) as u64
                } else {
                    0u64
                },
            )
            &&& (elapsed <= HIST_HIGH_US ==> hist_values(post.histogram) == hist_values(
                pre.histogram,
            ).insert(elapsed))
            &&& (elapsed > HIST_HIGH_US ==> hist_values(post.histogram) == hist_values(
                pre.histogram,
            ))
        } else {
            &&& post.success_count == pre.success_count
            &&& post.latencies@ == pre.latencies@
            &&& hist_values(post.histogram) == hist_values(pre.histogram)
        }
    }))
}

/// Failures are accounted exactly: the settled terminal failure, if any,
/// plus one per packet dropped in flight — while the total fits.
pub open spec fn step_failures(pre: Simulation, post: Simulation, e: Event) -> bool {
    pre.failure_count + terminal_failure_bit(e) + (post.dropped_commands@
        - pre.dropped_commands@) <= u64::MAX ==> post.failure_count == pre.failure_count
        + terminal_failure_bit(e) + (post.dropped_commands@ - pre.dropped_commands@)
}


/// The edge configuration governing traffic from `a` to `b`: the stored
/// direction of their canonical link, or a zero edge (no latency, no
/// jitter, no loss) when the pair has none.
pub open spec fn edge_between(links: Seq<(u64, Link)>, a: NodeId, b: NodeId) -> crate::network::EdgeConfig {
    if assoc_has(links, link_key_spec(a, b) as u64) {
        let l = assoc_val(links, link_key_spec(a, b) as u64);
        if a < b {
            l.min_to_max
        } else {
            l.max_to_min
        }
    } else {
        crate::network::EdgeConfig { latency_us: 0, jitter_us: 0, packet_loss_ppm: 0 }
    }
}

/// A command that crosses a link: a request or response hop addressed
/// to another node.
pub open spec fn cmd_crosses(cmd: ScheduleCmd, node: NodeId) -> bool {
    &&& (cmd.event_type is Arrival || cmd.event_type is Response)
    &&& cmd.node_id != node
}

/// `ev` is `cmd` delivered across `edge`: addressed and typed as the
/// command, due after the command's delay plus the edge's latency and
/// a jitter of at most the edge's `jitter_us` (saturating).
pub open spec fn delivered_event(
    ev: Event,
    cmd: ScheduleCmd,
    edge: crate::network::EdgeConfig,
    now: u64,
) -> bool {
    &&& ev.node_id == cmd.node_id
    &&& ev.event_type == cmd.event_type
    &&& exists|j: u64|
        0 <= j <= edge.jitter_us && ev.time == #[trigger] crate::balancer::sat_add64(
            now,
            crate::balancer::sat_add64(
                cmd.delay,
                crate::balancer::sat_add64(edge.latency_us, j),
            ),
        )
}

/// How a handler's commands reach the queue: in order, each crossing
/// command is either lost — possible only on an edge that carries loss,
/// and counted as one drop — or delivered with the edge's physics; a
/// self-addressed command or a completion takes only its own delay.
pub open spec fn cmds_delivered(
    cmds: Seq<ScheduleCmd>,
    appended: Seq<Event>,
    node: NodeId,
    links: Seq<(u64, Link)>,
    now: u64,
    drops: int,
) -> bool
    decreases cmds.len(),
{
    if cmds.len() == 0 {
        appended.len() == 0 && drops == 0
    } else {
        let cmd = cmds[0];
        if cmd_crosses(cmd, node) {
            let edge = edge_between(links, node, cmd.node_id);
            ||| (edge.packet_loss_ppm > 0 && drops > 0 && cmds_delivered(
                cmds.drop_first(),
                appended,
                node,
                links,
                now,
                drops - 1,
            ))
            ||| (appended.len() > 0 && delivered_event(appended[0], cmd, edge, now)
                && cmds_delivered(
                cmds.drop_first(),
                appended.drop_first(),
                node,
                links,
                now,
                drops,
            ))
        } else {
            &&& appended.len() > 0
            &&& appended[0].node_id == cmd.node_id
            &&& appended[0].event_type == cmd.event_type
            &&& appended[0].time == crate::balancer::sat_add64(now, cmd.delay)
            &&& cmds_delivered(
                cmds.drop_first(),
                appended.drop_first(),
                node,
                links,
                now,
                drops,
            )
        }
    }
}

/// Losing one more crossing command extends a delivery record by one
/// drop.
proof fn lemma_cmds_delivered_drop(
    cmds: Seq<ScheduleCmd>,
    appended: Seq<Event>,
    node: NodeId,
    links: Seq<(u64, Link)>,
    now: u64,
    drops: int,
    cmd: ScheduleCmd,
)
    requires
        cmds_delivered(cmds, appended, node, links, now, drops),
        cmd_crosses(cmd, node),
        edge_between(links, node, cmd.node_id).packet_loss_ppm > 0,
    ensures
        cmds_delivered(cmds.push(cmd), appended, node, links, now, drops + 1),
    decreases cmds.len(),
{
    if cmds.len() == 0 {
        assert(cmds.push(cmd).drop_first() =~= cmds);
        assert(cmds.push(cmd)[0] == cmd);
    } else {
        assert(cmds.push(cmd).drop_first() =~= cmds.drop_first().push(cmd));
        assert(cmds.push(cmd)[0] == cmds[0]);
        if cmd_crosses(cmds[0], node) {
            let edge = edge_between(links, node, cmds[0].node_id);
            if edge.packet_loss_ppm > 0 && drops > 0 && cmds_delivered(
                cmds.drop_first(),
                appended,
                node,
                links,
                now,
                drops - 1,
            ) {
                lemma_cmds_delivered_drop(
                    cmds.drop_first(),
                    appended,
                    node,
                    links,
                    now,
                    drops - 1,
                    cmd,
                );
            } else {
                lemma_cmds_delivered_drop(
                    cmds.drop_first(),
                    appended.drop_first(),
                    node,
                    links,
                    now,
                    drops,
                    cmd,
                );
            }
        } else {
            lemma_cmds_delivered_drop(
                cmds.drop_first(),
                appended.drop_first(),
                node,
                links,
                now,
                drops,
                cmd,
            );
        }
    }
}

/// Delivering one more command extends a delivery record by its event.
proof fn lemma_cmds_delivered_event(
    cmds: Seq<ScheduleCmd>,
    appended: Seq<Event>,
    node: NodeId,
    links: Seq<(u64, Link)>,
    now: u64,
    drops: int,
    cmd: ScheduleCmd,
    ev: Event,
)
    requires
        cmds_delivered(cmds, appended, node, links, now, drops),
        cmd_crosses(cmd, node) ==> delivered_event(
            ev,
            cmd,
            edge_between(links, node, cmd.node_id),
            now,
        ),
        !cmd_crosses(cmd, node) ==> ev.node_id == cmd.node_id && ev.event_type == cmd.event_type
            && ev.time == crate::balancer::sat_add64(now, cmd.delay),
    ensures
        cmds_delivered(cmds.push(cmd), appended.push(ev), node, links, now, drops),
    decreases cmds.len(),
{
    if cmds.len() == 0 {
        assert(cmds.push(cmd).drop_first() =~= cmds);
        assert(appended.push(ev).drop_first() =~= appended);
        assert(cmds.push(cmd)[0] == cmd);
        assert(appended.push(ev)[0] == ev);
    } else {
        assert(cmds.push(cmd).drop_first() =~= cmds.drop_first().push(cmd));
        assert(cmds.push(cmd)[0] == cmds[0]);
        if appended.len() > 0 {
            assert(appended.push(ev)[0] == appended[0]);
        }
        if cmd_crosses(cmds[0], node) {
            let edge = edge_between(links, node, cmds[0].node_id);
            if edge.packet_loss_ppm > 0 && drops > 0 && cmds_delivered(
                cmds.drop_first(),
                appended,
                node,
                links,
                now,
                drops - 1,
            ) {
                lemma_cmds_delivered_event(
                    cmds.drop_first(),
                    appended,
                    node,
                    links,
                    now,
                    drops - 1,
                    cmd,
                    ev,
                );
            } else {
                assert(appended.push(ev).drop_first() =~= appended.drop_first().push(ev));
                lemma_cmds_delivered_event(
                    cmds.drop_first(),
                    appended.drop_first(),
                    node,
                    links,
                    now,
                    drops,
                    cmd,
                    ev,
                );
            }
        } else {
            assert(appended.push(ev).drop_first() =~= appended.drop_first().push(ev));
            lemma_cmds_delivered_event(
                cmds.drop_first(),
                appended.drop_first(),
                node,
                links,
                now,
                drops,
                cmd,
                ev,
            );
        }
    }
}

/// How many components of the table are clients.
pub open spec fn client_count(s: Seq<(NodeId, Component)>) -> int
    decreases s.len(),
{
    if s.len() == 0 {
        0
    } else {
        (if s[0].1 is Client {
            1int
        } else {
            0int
        }) + client_count(s.drop_first())
    }
}

/// A kick-off entry: due now, addressed to a client of the table, carrying
/// that client's own generation id.
pub open spec fn kickoff_event(ev: Event, comps: Seq<(NodeId, Component)>, now: u64) -> bool {
    &&& ev.time == now
    &&& assoc_has(comps, ev.node_id)
    &&& (match assoc_val(comps, ev.node_id) {
        Component::Client(c) => ev.event_type == (EventType::GenerateNext {
            generation_id: c.config.generation_id,
        }),
        _ => false,
    })
}

proof fn lemma_client_count_take(s: Seq<(NodeId, Component)>, k: int)
    requires
        0 <= k < s.len(),
    ensures
        client_count(s.subrange(0, k + 1)) == client_count(s.subrange(0, k)) + (if s[k].1
            is Client {
            1int
        } else {
            0int
        }),
    decreases k,
{
    if k == 0 {
        assert(s.subrange(0, 1) =~= Seq::<(NodeId, Component)>::empty().push(s[0]));
        assert(s.subrange(0, 1).drop_first() =~= s.subrange(0, 0));
        assert(s.subrange(0, 0) =~= Seq::<(NodeId, Component)>::empty());
    } else {
        assert(s.subrange(0, k + 1).drop_first() =~= s.drop_first().subrange(0, k));
        assert(s.subrange(0, k).drop_first() =~= s.drop_first().subrange(0, k - 1));
        lemma_client_count_take(s.drop_first(), k - 1);
        assert(s.drop_first().subrange(0, k - 1 + 1) =~= s.subrange(0, k + 1).drop_first());
        assert(s.drop_first()[k - 1] == s[k]);
    }
}

/// The discrete-event simulation: components and links, the future-event
/// queue, the virtual clock, and the outcome counters.
pub struct Simulation {
    /// The virtual clock, in microseconds; never moves backwards.
    pub time: u64,
    /// Components by node id, in insertion order.
    pub components: Vec<(NodeId, Component)>,
    /// The future-event queue.
    pub events: EventQueue,
    /// Terminal responses that arrived in time and succeeded.
    pub success_count: u64,
    /// Terminal responses that failed or timed out, plus packets lost in
    /// flight.
    pub failure_count: u64,
    /// `(arrival time, latency)` of recent successes, oldest first,
    /// covering the last sixty seconds.
    pub latencies: Vec<(u64, u64)>,
    /// The cumulative latency histogram.
    pub histogram: LatencyHistogram,
    /// Links by packed canonical pair key.
    pub links: Vec<(u64, Link)>,
    pub rng: rand::rngs::StdRng,
    /// The seed this run is reproducible from.
    pub seed: u64,
    /// Terminal responses settled so far.
    pub terminal_responses: Ghost<nat>,
    /// Commands dropped by packet loss so far.
    pub dropped_commands: Ghost<nat>,
}

impl Simulation {
    /// The ledger: while the counts are small enough to be exact, every
    /// counted outcome is one terminal response or one dropped packet.
    pub open spec fn counters_settled(&self) -> bool {
        self.terminal_responses@ + self.dropped_commands@ <= u64::MAX
            ==> self.success_count + self.failure_count == self.terminal_responses@
            + self.dropped_commands@
    }

    pub open spec fn wf(&self) -> bool {
        &&& hist_high(self.histogram) == HIST_HIGH_US
        &&& keys_unique(self.components@)
        &&& components_ok(self.components@)
        &&& keys_unique(self.links@)
        &&& links_ok(self.links@)
        &&& self.events.wf()
        &&& self.events.none_before(self.time)
        &&& self.counters_settled()
    }

    /// Every server respects its configured concurrency and backlog
    /// limits.
    pub open spec fn all_within_limits(&self) -> bool {
        components_within_limits(self.components@)
    }

    /// A fresh simulation, reproducible from `seed`.
    pub fn new(seed: u64) -> (r: Self)
        ensures
            r.wf(),
            r.all_within_limits(),
            r.time == 0,
            r.components@.len() == 0,
            r.links@.len() == 0,
            r.events@.len() == 0,
            r.success_count == 0,
            r.failure_count == 0,
            r.latencies@.len() == 0,
            hist_values(r.histogram).len() == 0,
            hist_high(r.histogram) == HIST_HIGH_US,
            r.seed == seed,
            r.terminal_responses@ == 0,
            r.dropped_commands@ == 0,
    {
        Simulation {
            time: 0,
            components: Vec::new(),
            events: EventQueue::new(),
            success_count: 0,
            failure_count: 0,
            latencies: Vec::new(),
            histogram: LatencyHistogram::new(),
            links: Vec::new(),
            rng: rng_from_seed(seed),
            seed,
            terminal_responses: Ghost(0),
            dropped_commands: Ghost(0),
        }
    }

    /// Insert a component under `id`, seeding its generator from the
    /// kernel generator; an existing component under `id` is replaced.
    pub fn add_component(&mut self, id: NodeId, component: Component)
        requires
            old(self).wf(),
            component.inv(),
            component.within_limits(),
        ensures
            final(self).wf(),
            old(self).all_within_limits() ==> final(self).all_within_limits(),
            *final(self) == (Simulation {
                components: final(self).components,
                rng: final(self).rng,
                ..*old(self)
            }),
            assoc_has(final(self).components@, id),
            crate::assoc::assoc_same_except(old(self).components@, final(self).components@, id),
            crate::component::reseeded(component, assoc_val(final(self).components@, id)),
    {
        let mut component = component;
        let component_seed = rng_next_u64(&mut self.rng);
        component.set_seed(component_seed);
        let ghost pre = self.components@;
        let ghost stored = component;
        match assoc_find_u32(&self.components, id) {
            Option::Some(i) => {
                self.components[i] = (id, component);
                proof {
                    lemma_assoc_val_at(pre, id, i as int);
                    assert(self.components@ == pre.update(i as int, (id, stored)));
                    crate::assoc::lemma_assoc_update(pre, i as int, id, stored);
                }
            },
            Option::None => {
                self.components.push((id, component));
                proof {
                    crate::assoc::lemma_assoc_push(pre, id, stored);
                }
            },
        }
    }

    /// Remove the component under `id`, every outbound reference to it,
    /// and every link that touches it. In-flight events addressed to it
    /// are absorbed on dispatch.
    pub fn remove_node(&mut self, id: NodeId)
        requires
            old(self).wf(),
        ensures
            final(self).wf(),
            old(self).all_within_limits() ==> final(self).all_within_limits(),
            !assoc_has(final(self).components@, id),
            final(self).time == old(self).time,
            forall|j: int|
                0 <= j < final(self).links@.len() ==> (#[trigger] final(self).links@[j]).0
                    / 0x1_0000_0000 != id && final(self).links@[j].0 % 0x1_0000_0000 != id,
            *final(self) == (Simulation {
                components: final(self).components,
                links: final(self).links,
                ..*old(self)
            }),
            forall|nid: NodeId|
                nid != id ==> #[trigger] assoc_has(final(self).components@, nid) == assoc_has(
                    old(self).components@,
                    nid,
                ),
            forall|nid: NodeId|
                nid != id && #[trigger] assoc_has(old(self).components@, nid)
                    ==> crate::component::removed_target(
                    assoc_val(old(self).components@, nid),
                    assoc_val(final(self).components@, nid),
                    id,
                ),
            forall|k: u64|
                k / 0x1_0000_0000 != id && k % 0x1_0000_0000 != id ==> #[trigger] assoc_has(
                    final(self).links@,
                    k,
                ) == assoc_has(old(self).links@, k) && (assoc_has(old(self).links@, k)
                    ==> assoc_val(final(self).links@, k) == assoc_val(old(self).links@, k)),
    {
        let ghost pre = self.components@;
        let mut updated: Vec<(NodeId, Component)> = Vec::new();
        let ghost mut consumed: int = 0int;
        proof {
            assert(pre.subrange(0, pre.len() as int) =~= pre);
        }
        while self.components.len() > 0
            invariant
                keys_unique(pre),
                components_ok(pre),
                0 <= consumed,
                consumed + self.components@.len() == pre.len(),
                self.components@ == pre.subrange(consumed, pre.len() as int),
                *self == (Simulation { components: self.components, ..*old(self) }),
                old(self).wf(),
                keys_unique(updated@),
                components_ok(updated@),
                components_within_limits(pre) ==> components_within_limits(updated@),
                forall|i: int| 0 <= i < updated@.len() ==> (#[trigger] updated@[i]).0 != id,
                forall|i: int|
                    0 <= i < updated@.len() ==> exists|j: int|
                        0 <= j < consumed && (#[trigger] updated@[i]).0 == pre[j].0 && pre[j].0
                            != id && crate::component::removed_target(
                            pre[j].1,
                            updated@[i].1,
                            id,
                        ),
                forall|j: int|
                    0 <= j < consumed && (#[trigger] pre[j]).0 != id ==> assoc_has(
                        updated@,
                        pre[j].0,
                    ),
            decreases self.components@.len(),
        {
            proof {
                assert(self.components@.remove(0) =~= self.components@.drop_first());
                assert(self.components@[0] == pre[consumed]);
                assert(self.components@.drop_first() =~= pre.subrange(
                    consumed + 1,
                    pre.len() as int,
                ));
            }
            let mut entry = self.components.remove(0);
            proof {
                consumed = consumed + 1;
            }
            if entry.0 != id {
                let ghost entry_pre = pre[consumed - 1].1;
                entry.1.remove_target(id);
                proof {
                    assert forall|i: int| 0 <= i < updated@.len() implies (#[trigger] updated@[i]).0
                        != entry.0 by {
                        let j = choose|j: int|
                            0 <= j < consumed - 1 && (#[trigger] updated@[i]).0 == pre[j].0
                                && pre[j].0 != id && crate::component::removed_target(
                                pre[j].1,
                                updated@[i].1,
                                id,
                            );
                        assert(pre[j].0 != pre[consumed - 1].0);
                    }
                    assert(crate::component::removed_target(entry_pre, entry.1, id));
                }
                let ghost upd_pre = updated@;
                updated.push(entry);
                proof {
                    assert(updated@[updated@.len() - 1] == entry);
                    assert forall|j: int|
                        0 <= j < consumed && (#[trigger] pre[j]).0 != id implies assoc_has(
                        updated@,
                        pre[j].0,
                    ) by {
                        if j < consumed - 1 {
                            let i = choose|i: int|
                                0 <= i < upd_pre.len() && (#[trigger] upd_pre[i]).0 == pre[j].0;
                            assert(updated@[i].0 == pre[j].0);
                        } else {
                            assert(updated@[updated@.len() - 1].0 == pre[j].0);
                        }
                    }
                }
            }
        }
        self.components = updated;
        let ghost comps_mid = self.components@;
        let ghost lpre = self.links@;
        let mut kept_links: Vec<(u64, Link)> = Vec::new();
        let ghost mut lconsumed: int = 0int;
        proof {
            assert(lpre.subrange(0, lpre.len() as int) =~= lpre);
        }
        while self.links.len() > 0
            invariant
                keys_unique(lpre),
                links_ok(lpre),
                0 <= lconsumed,
                lconsumed + self.links@.len() == lpre.len(),
                self.links@ == lpre.subrange(lconsumed, lpre.len() as int),
                self.components@ == comps_mid,
                keys_unique(comps_mid),
                components_ok(comps_mid),
                forall|i: int| 0 <= i < comps_mid.len() ==> (#[trigger] comps_mid[i]).0 != id,
                components_within_limits(old(self).components@) ==> components_within_limits(
                    comps_mid,
                ),
                *self == (Simulation {
                    components: self.components,
                    links: self.links,
                    ..*old(self)
                }),
                old(self).wf(),
                keys_unique(kept_links@),
                links_ok(kept_links@),
                forall|i: int|
                    0 <= i < kept_links@.len() ==> exists|j: int|
                        0 <= j < lconsumed && #[trigger] kept_links@[i] == lpre[j],
                forall|i: int|
                    0 <= i < kept_links@.len() ==> (#[trigger] kept_links@[i]).0 / 0x1_0000_0000
                        != id && kept_links@[i].0 % 0x1_0000_0000 != id,
                forall|j: int|
                    0 <= j < lconsumed && (#[trigger] lpre[j]).0 / 0x1_0000_0000 != id && lpre[j].0
                        % 0x1_0000_0000 != id ==> assoc_has(kept_links@, lpre[j].0),
            decreases self.links@.len(),
        {
            proof {
                assert(self.links@.remove(0) =~= self.links@.drop_first());
                assert(self.links@[0] == lpre[lconsumed]);
                assert(self.links@.drop_first() =~= lpre.subrange(
                    lconsumed + 1,
                    lpre.len() as int,
                ));
            }
            let entry = self.links.remove(0);
            proof {
                lconsumed = lconsumed + 1;
            }
            let hi = entry.0 / 0x1_0000_0000;
            let lo = entry.0 % 0x1_0000_0000;
            if hi != id as u64 && lo != id as u64 {
                proof {
                    assert forall|i: int|
                        0 <= i < kept_links@.len() implies (#[trigger] kept_links@[i]).0
                        != entry.0 by {
                        let j = choose|j: int|
                            0 <= j < lconsumed - 1 && #[trigger] kept_links@[i] == lpre[j];
                        assert(lpre[j].0 != lpre[lconsumed - 1].0);
                    }
                }
                let ghost kept_pre = kept_links@;
                kept_links.push(entry);
                proof {
                    assert(kept_links@[kept_links@.len() - 1] == entry);
                    assert forall|j: int|
                        0 <= j < lconsumed && (#[trigger] lpre[j]).0 / 0x1_0000_0000 != id
                            && lpre[j].0 % 0x1_0000_0000 != id implies assoc_has(
                        kept_links@,
                        lpre[j].0,
                    ) by {
                        if j < lconsumed - 1 {
                            let i = choose|i: int|
                                0 <= i < kept_pre.len() && (#[trigger] kept_pre[i]).0 == lpre[j].0;
                            assert(kept_links@[i].0 == lpre[j].0);
                        } else {
                            assert(kept_links@[kept_links@.len() - 1].0 == lpre[j].0);
                        }
                    }
                }
            }
        }
        self.links = kept_links;
        proof {
            if assoc_has(self.components@, id) {
                let i = choose|i: int|
                    0 <= i < self.components@.len() && (#[trigger] self.components@[i]).0 == id;
            }
            assert forall|nid: NodeId| nid != id implies #[trigger] assoc_has(
                self.components@,
                nid,
            ) == assoc_has(pre, nid) by {
                if assoc_has(pre, nid) {
                    let j = choose|j: int| 0 <= j < pre.len() && (#[trigger] pre[j]).0 == nid;
                    assert(assoc_has(self.components@, nid));
                }
                if assoc_has(self.components@, nid) {
                    let i = choose|i: int|
                        0 <= i < self.components@.len() && (#[trigger] self.components@[i]).0
                            == nid;
                    let j = choose|j: int|
                        0 <= j < pre.len() && self.components@[i].0 == pre[j].0 && pre[j].0 != id
                            && crate::component::removed_target(
                            pre[j].1,
                            self.components@[i].1,
                            id,
                        );
                    assert(assoc_has(pre, nid));
                }
            }
            assert forall|nid: NodeId|
                nid != id && #[trigger] assoc_has(pre, nid) implies crate::component::removed_target(
                assoc_val(pre, nid),
                assoc_val(self.components@, nid),
                id,
            ) by {
                let j = choose|j: int| 0 <= j < pre.len() && (#[trigger] pre[j]).0 == nid;
                assert(assoc_has(self.components@, nid));
                let i = choose|i: int|
                    0 <= i < self.components@.len() && (#[trigger] self.components@[i]).0 == nid;
                let j2 = choose|j2: int|
                    0 <= j2 < pre.len() && self.components@[i].0 == pre[j2].0 && pre[j2].0 != id
                        && crate::component::removed_target(pre[j2].1, self.components@[i].1, id);
                assert(j2 == j);
                crate::assoc::lemma_assoc_val_at(pre, nid, j);
                crate::assoc::lemma_assoc_val_at(self.components@, nid, i);
            }
            assert forall|k: u64|
                k / 0x1_0000_0000 != id && k % 0x1_0000_0000 != id implies #[trigger] assoc_has(
                self.links@,
                k,
            ) == assoc_has(lpre, k) && (assoc_has(lpre, k) ==> assoc_val(self.links@, k)
                == assoc_val(lpre, k)) by {
                if assoc_has(lpre, k) {
                    let j = choose|j: int| 0 <= j < lpre.len() && (#[trigger] lpre[j]).0 == k;
                    assert(assoc_has(self.links@, k));
                    let i = choose|i: int|
                        0 <= i < self.links@.len() && (#[trigger] self.links@[i]).0 == k;
                    let j2 = choose|j2: int|
                        0 <= j2 < lpre.len() && #[trigger] self.links@[i] == lpre[j2];
                    assert(j2 == j);
                    crate::assoc::lemma_assoc_val_at(lpre, k, j);
                    crate::assoc::lemma_assoc_val_at(self.links@, k, i);
                }
                if assoc_has(self.links@, k) {
                    let i = choose|i: int|
                        0 <= i < self.links@.len() && (#[trigger] self.links@[i]).0 == k;
                    let j2 = choose|j2: int|
                        0 <= j2 < lpre.len() && #[trigger] self.links@[i] == lpre[j2];
                    assert(assoc_has(lpre, k));
                }
            }
        }
    }

    /// Register `to` as an outbound target of `from` and store the link
    /// for the pair (clamped into range), replacing any earlier link.
    pub fn connect_node(&mut self, from: NodeId, to: NodeId, link: Link)
        requires
            old(self).wf(),
        ensures
            final(self).wf(),
            old(self).all_within_limits() ==> final(self).all_within_limits(),
            *final(self) == (Simulation {
                links: final(self).links,
                components: final(self).components,
                ..*old(self)
            }),
            assoc_has(final(self).links@, link_key_spec(from, to) as u64),
            assoc_val(final(self).links@, link_key_spec(from, to) as u64).min_to_max
                == link.min_to_max.clamped_spec(),
            assoc_val(final(self).links@, link_key_spec(from, to) as u64).max_to_min
                == link.max_to_min.clamped_spec(),
            crate::assoc::assoc_same_except(
                old(self).links@,
                final(self).links@,
                link_key_spec(from, to) as u64,
            ),
            !assoc_has(old(self).components@, from) ==> final(self).components@ == old(self).components@,
            assoc_has(old(self).components@, from) ==> assoc_has(final(self).components@, from)
                && crate::component::added_target(
                assoc_val(old(self).components@, from),
                assoc_val(final(self).components@, from),
                to,
            ) && crate::assoc::assoc_same_except(
                old(self).components@,
                final(self).components@,
                from,
            ),
    {
        let (a, b) = canonical_key(from, to);
        proof {
            assert((a as u64) * 0x1_0000_0000 + (b as u64) <= u64::MAX) by (nonlinear_arith)
                requires
                    a <= 0xFFFF_FFFFu64,
                    b <= 0xFFFF_FFFFu64,
            ;
        }
        let key: u64 = (a as u64) * 0x1_0000_0000 + (b as u64);
        let clamped = link.clamped();
        proof {
            assert(key == link_key_spec(from, to));
        }
        let ghost lpre = self.links@;
        match assoc_find_u64(&self.links, key) {
            Option::Some(i) => {
                self.links[i] = (key, clamped);
                proof {
                    crate::assoc::lemma_assoc_update(lpre, i as int, key, clamped);
                }
            },
            Option::None => {
                self.links.push((key, clamped));
                proof {
                    crate::assoc::lemma_assoc_push(lpre, key, clamped);
                }
            },
        }
        let ghost cpre = self.components@;
        match assoc_find_u32(&self.components, from) {
            Option::Some(i) => {
                proof {
                    assert(cpre[i as int].1.inv());
                    lemma_assoc_val_at(cpre, from, i as int);
                }
                self.components[i].1.add_target(to);
                proof {
                    let post = self.components@;
                    assert(post == cpre.update(i as int, (from, post[i as int].1)));
                    crate::assoc::lemma_assoc_update(cpre, i as int, from, post[i as int].1);
                    assert forall|x: int| 0 <= x < post.len() implies (
                    #[trigger] post[x]).1.inv() by {
                        if x != i {
                            assert(post[x] == cpre[x]);
                        }
                    }
                    if components_within_limits(cpre) {
                        assert forall|x: int|
                            0 <= x < post.len() implies (#[trigger] post[x]).1.within_limits() by {
                            if x != i {
                                assert(post[x] == cpre[x]);
                            }
                        }
                    }
                }
            },
            Option::None => {
            },
        }
    }

    /// Insert a raw event, used by the driver for initial kick-offs. An
    /// event dated before the current clock is scheduled now, so the
    /// clock never moves backwards.
    pub fn schedule(&mut self, time: u64, node_id: NodeId, event_type: EventType)
        requires
            old(self).wf(),
        ensures
            final(self).wf(),
            old(self).all_within_limits() ==> final(self).all_within_limits(),
            *final(self) == (Simulation { events: final(self).events, ..*old(self) }),
            old(self).events.spec_next_seq() < u64::MAX ==> final(self).events@ == old(self).events@.push(
                crate::queue::PendingEvent {
                    seq: old(self).events.spec_next_seq(),
                    event: Event {
                        time: if time < old(self).time {
                            old(self).time
                        } else {
                            time
                        },
                        node_id,
                        event_type,
                    },
                },
            ),
            old(self).events.spec_next_seq() == u64::MAX ==> final(self).events@ == old(self).events@,
    {
        let t = if time < self.time {
            self.time
        } else {
            time
        };
        self.events.push(Event { time: t, node_id, event_type });
    }

    /// Hand every component its initial kick-off: one fresh
    /// `GenerateNext` tick, dated now, joins the queue for every client;
    /// the other kinds wake with nothing to do. Nothing else changes.
    pub fn start(&mut self)
        requires
            old(self).wf(),
        ensures
            final(self).wf(),
            old(self).all_within_limits() ==> final(self).all_within_limits(),
            *final(self) == (Simulation { events: final(self).events, ..*old(self) }),
            final(self).events@.len() >= old(self).events@.len(),
            final(self).events@.subrange(0, old(self).events@.len() as int) == old(self).events@,
            forall|j: int|
                old(self).events@.len() <= j < final(self).events@.len() ==> kickoff_event(
                    (#[trigger] final(self).events@[j]).event,
                    old(self).components@,
                    old(self).time,
                ),
            old(self).events.spec_next_seq() + old(self).components@.len() <= u64::MAX ==> final(self).events@.len() == old(self).events@.len() + client_count(old(self).components@),
    {
        let ghost n0 = self.events@.len() as int;
        let mut k: usize = 0;
        while k < self.components.len()
            invariant
                self.wf(),
                *self == (Simulation { events: self.events, ..*old(self) }),
                k <= self.components@.len(),
                self.events@.len() >= n0,
                n0 == old(self).events@.len(),
                self.events@.subrange(0, n0) == old(self).events@,
                forall|j: int|
                    n0 <= j < self.events@.len() ==> kickoff_event(
                        (#[trigger] self.events@[j]).event,
                        old(self).components@,
                        old(self).time,
                    ),
                self.events.spec_next_seq() <= old(self).events.spec_next_seq() + k,
                old(self).events.spec_next_seq() + old(self).components@.len() <= u64::MAX
                    ==> self.events@.len() == n0 + client_count(
                    self.components@.subrange(0, k as int),
                ),
            decreases self.components@.len() - k,
        {
            let id = self.components[k].0;
            proof {
                assert(self.components@[k as int].1.inv());
                lemma_client_count_take(self.components@, k as int);
            }
            let mut cmds = self.components[k].1.wake_up(id);
            if cmds.len() > 0 {
                let ghost pre_push = self.events@;
                let cmd = cmds.remove(0);
                let t = if cmd.delay > u64::MAX - self.time {
                    u64::MAX
                } else {
                    self.time + cmd.delay
                };
                self.events.push(
                    Event { time: t, node_id: cmd.node_id, event_type: cmd.event_type },
                );
                proof {
                    if self.events@.len() > pre_push.len() {
                        assert(self.events@.subrange(0, n0) =~= pre_push.subrange(0, n0));
                        lemma_assoc_val_at(self.components@, id, k as int);
                        assert(kickoff_event(
                            self.events@[self.events@.len() - 1].event,
                            old(self).components@,
                            old(self).time,
                        ));
                    }
                }
            }
            k += 1;
        }
        proof {
            assert(self.components@.subrange(0, self.components@.len() as int)
                =~= self.components@);
        }
    }

    /// The component under `id`, if any.
    pub fn get_component(&self, id: NodeId) -> (r: Option<&Component>)
        requires
            self.wf(),
        ensures
            match r {
                Option::Some(c) => assoc_has(self.components@, id) && *c == assoc_val(
                    self.components@,
                    id,
                ) && c.inv(),
                Option::None => !assoc_has(self.components@, id),
            },
    {
        match assoc_find_u32(&self.components, id) {
            Option::Some(i) => {
                proof {
                    lemma_assoc_val_at(self.components@, id, i as int);
                }
                Option::Some(&self.components[i].1)
            },
            Option::None => Option::None,
        }
    }

    /// Dispatch `event` to the component it addresses, if it exists, and
    /// collect the returned schedule commands. Only the component table
    /// changes.
    fn dispatch_event(&mut self, event: Event, insp: &SystemInspector) -> (cmds: Vec<ScheduleCmd>)
        requires
            keys_unique(old(self).components@),
            components_ok(old(self).components@),
            insp.wf(),
        ensures
            keys_unique(final(self).components@),
            components_ok(final(self).components@),
            components_within_limits(old(self).components@) ==> components_within_limits(
                final(self).components@,
            ),
            *final(self) == (Simulation { components: final(self).components, ..*old(self) }),
            forall|id: NodeId| #[trigger]
                assoc_has(final(self).components@, id) == assoc_has(old(self).components@, id),
            forall|id: NodeId| #[trigger]
                assoc_has(old(self).components@, id) ==> same_kind_and_config(
                    assoc_val(old(self).components@, id),
                    assoc_val(final(self).components@, id),
                ),
            !assoc_has(old(self).components@, event.node_id) ==> cmds@.len() == 0
                && final(self).components@ == old(self).components@,
            assoc_has(old(self).components@, event.node_id) ==> (match (
                assoc_val(old(self).components@, event.node_id),
                assoc_val(final(self).components@, event.node_id),
            ) {
                (Component::Client(c0), Component::Client(c1)) => crate::client::client_dispatch(
                    c0,
                    c1,
                    event,
                    cmds@,
                ),
                (Component::Server(s0), Component::Server(s1)) => crate::server::server_dispatch(
                    s0,
                    s1,
                    event,
                    cmds@,
                ),
                (Component::LoadBalancer(b0), Component::LoadBalancer(b1)) =>
                    crate::balancer::lb_dispatch(b0, b1, *insp, event, cmds@),
                _ => false,
            }),
    {
        let node_id = event.node_id;
        match assoc_find_u32(&self.components, node_id) {
            Option::None => Vec::new(),
            Option::Some(i) => {
                let ghost pre = self.components@;
                let mut entry = self.components.swap_remove(i);
                proof {
                    let mid = self.components@;
                    assert(mid =~= pre.update(i as int, pre.last()).drop_last());
                    assert forall|a: int, b: int|
                        0 <= a < b < mid.len() implies (#[trigger] mid[a]).0 != (
                    #[trigger] mid[b]).0 by {
                        let a0 = if a == i {
                            pre.len() - 1
                        } else {
                            a
                        };
                        let b0 = if b == i {
                            pre.len() - 1
                        } else {
                            b
                        };
                        assert(mid[a] == pre[a0] && mid[b] == pre[b0]);
                        if a0 < b0 {
                            assert(pre[a0].0 != pre[b0].0);
                        } else if b0 < a0 {
                            assert(pre[b0].0 != pre[a0].0);
                        }
                    }
                    assert forall|a: int| 0 <= a < mid.len() implies (#[trigger] mid[a]).0
                        != entry.0 by {
                        let a0 = if a == i {
                            pre.len() - 1
                        } else {
                            a
                        };
                        assert(mid[a] == pre[a0]);
                        if a0 != i {
                            if a0 < i {
                                assert(pre[a0].0 != pre[i as int].0);
                            } else {
                                assert(pre[i as int].0 != pre[a0].0);
                            }
                        }
                    }
                    assert forall|a: int| 0 <= a < mid.len() implies (#[trigger] mid[a]).1.inv()
                        && (components_within_limits(pre) ==> mid[a].1.within_limits()) by {
                        let a0 = if a == i {
                            pre.len() - 1
                        } else {
                            a
                        };
                        assert(mid[a] == pre[a0]);
                    }
                }
                let ghost mid = self.components@;
                let ghost dispatched = entry.0;
                let cmds = entry.1.on_event(event, insp);
                self.components.push(entry);
                proof {
                    let post = self.components@;
                    assert forall|a: int, b: int|
                        0 <= a < b < post.len() implies (#[trigger] post[a]).0 != (
                    #[trigger] post[b]).0 by {
                        if b == post.len() - 1 {
                            assert(post[a] == mid[a]);
                        } else {
                            assert(post[a] == mid[a] && post[b] == mid[b]);
                        }
                    }
                    assert forall|a: int| 0 <= a < post.len() implies (#[trigger] post[a]).1.inv()
                        && (components_within_limits(pre) ==> post[a].1.within_limits()) by {
                        if a < post.len() - 1 {
                            assert(post[a] == mid[a]);
                        }
                    }
                    assert(dispatched == pre[i as int].0);
                    lemma_assoc_val_at(pre, dispatched, i as int);
                    lemma_assoc_val_at(post, dispatched, post.len() - 1);
                    assert(assoc_val(pre, dispatched) == pre[i as int].1);
                    assert(assoc_val(post, dispatched) == post[post.len() - 1].1);
                    assert forall|id: NodeId| #[trigger]
                        assoc_has(post, id) == assoc_has(pre, id) by {
                        if assoc_has(pre, id) {
                            let a = choose|a: int| 0 <= a < pre.len() && (#[trigger] pre[a]).0 == id;
                            let a1 = if a == i {
                                post.len() - 1
                            } else if a == pre.len() - 1 {
                                i as int
                            } else {
                                a
                            };
                            assert(post[a1].0 == id);
                        }
                        if assoc_has(post, id) {
                            let b = choose|b: int|
                                0 <= b < post.len() && (#[trigger] post[b]).0 == id;
                            let b0 = if b == post.len() - 1 {
                                i as int
                            } else if b == i {
                                pre.len() - 1
                            } else {
                                b
                            };
                            assert(pre[b0].0 == id);
                        }
                    }
                    assert forall|id: NodeId| #[trigger]
                        assoc_has(pre, id) implies same_kind_and_config(
                        assoc_val(pre, id),
                        assoc_val(post, id),
                    ) by {
                        let a = choose|a: int| 0 <= a < pre.len() && (#[trigger] pre[a]).0 == id;
                        lemma_assoc_val_at(pre, id, a);
                        let a1 = if a == i {
                            post.len() - 1
                        } else if a == pre.len() - 1 {
                            i as int
                        } else {
                            a
                        };
                        assert(post[a1].0 == id);
                        lemma_assoc_val_at(post, id, a1);
                        if a == i {
                            assert(same_kind_and_config(pre[a].1, post[post.len() - 1].1));
                        } else {
                            assert(post[a1].1 == pre[a].1);
                            assert(same_kind_and_config(pre[a].1, pre[a].1));
                        }
                    }
                }
                cmds
            },
        }
    }

    /// Dispatch one event: the heart of the simulation.
    ///
    /// Pops the earliest pending event and advances the clock to it — the
    /// clock never moves backwards, and every remaining event stays in
    /// the future. A terminal response (its path holds only the
    /// originating client) settles into exactly one of the two counters:
    /// a failure when it was unsuccessful or outlived its timeout, a
    /// success otherwise, recorded into the histogram and the latency
    /// ring. The target component then handles the event under a
    /// read-only health snapshot, and each returned command crosses its
    /// link: lost with the edge's probability (counted as a failure at
    /// once), otherwise delayed by latency plus uniform jitter. Server
    /// limits hold afterwards whenever they held before.
    ///
    /// Returns `false`, changing nothing, when the queue is empty.
    #[verifier::rlimit(100)]
    #[verifier::loop_isolation(false)]
    pub fn step(&mut self) -> (r: bool)
        requires
            old(self).wf(),
        ensures
            final(self).wf(),
            final(self).time >= old(self).time,
            final(self).seed == old(self).seed,
            old(self).all_within_limits() ==> final(self).all_within_limits(),
            !r ==> *final(self) == *old(self) && old(self).events@.len() == 0,
            r ==> old(self).events@.len() > 0,
            final(self).terminal_responses@ >= old(self).terminal_responses@,
            final(self).terminal_responses@ <= old(self).terminal_responses@ + 1,
            final(self).dropped_commands@ >= old(self).dropped_commands@,
            r ==> final(self).links@ == old(self).links@,
            r ==> forall|id: NodeId| #[trigger]
                assoc_has(final(self).components@, id) == assoc_has(old(self).components@, id),
            r ==> forall|id: NodeId| #[trigger]
                assoc_has(old(self).components@, id) ==> same_kind_and_config(
                    assoc_val(old(self).components@, id),
                    assoc_val(final(self).components@, id),
                ),
            r ==> exists|i: int|
                #![trigger old(self).events@[i]]
                {
                    &&& 0 <= i < old(self).events@.len()
                    &&& forall|j: int|
                        0 <= j < old(self).events@.len() && j != i ==> dispatched_before(
                            old(self).events@[i],
                            #[trigger] old(self).events@[j],
                        )
                    &&& final(self).time == old(self).events@[i].event.time
                    &&& step_settlement(*old(self), *final(self), old(self).events@[i].event)
                    &&& step_failures(*old(self), *final(self), old(self).events@[i].event)
                    &&& (!assoc_has(old(self).components@, old(self).events@[i].event.node_id)
                        ==> final(self).events@ == old(self).events@.remove(i) && final(self).components@ == old(self).components@ && final(self).dropped_commands@ == old(self).dropped_commands@)
                    &&& (assoc_has(old(self).components@, old(self).events@[i].event.node_id)
                        ==> exists|insp: SystemInspector|
                        #![trigger snapshot_of(insp, old(self).components@)]
                        {
                            &&& insp.wf()
                            &&& snapshot_of(insp, old(self).components@)
                            &&& exists|cmds: Seq<ScheduleCmd>, appended: Seq<Event>|
                                #![trigger cmds_delivered(
                                    cmds,
                                    appended,
                                    old(self).events@[i].event.node_id,
                                    old(self).links@,
                                    old(self).events@[i].event.time,
                                    final(self).dropped_commands@ - old(self).dropped_commands@,
                                )]
                                {
                                    &&& (match (
                                        assoc_val(
                                            old(self).components@,
                                            old(self).events@[i].event.node_id,
                                        ),
                                        assoc_val(
                                            final(self).components@,
                                            old(self).events@[i].event.node_id,
                                        ),
                                    ) {
                                        (Component::Client(c0), Component::Client(c1)) =>
                                            crate::client::client_dispatch(
                                            c0,
                                            c1,
                                            old(self).events@[i].event,
                                            cmds,
                                        ),
                                        (Component::Server(s0), Component::Server(s1)) =>
                                            crate::server::server_dispatch(
                                            s0,
                                            s1,
                                            old(self).events@[i].event,
                                            cmds,
                                        ),
                                        (
                                            Component::LoadBalancer(b0),
                                            Component::LoadBalancer(b1),
                                        ) => crate::balancer::lb_dispatch(
                                            b0,
                                            b1,
                                            insp,
                                            old(self).events@[i].event,
                                            cmds,
                                        ),
                                        _ => false,
                                    })
                                    &&& cmds_delivered(
                                        cmds,
                                        appended,
                                        old(self).events@[i].event.node_id,
                                        old(self).links@,
                                        old(self).events@[i].event.time,
                                        final(self).dropped_commands@ - old(self).dropped_commands@,
                                    )
                                    &&& (final(self).events.spec_next_seq() < u64::MAX ==> {
                                        &&& final(self).events@.len() == old(self).events@.len()
                                            - 1 + appended.len()
                                        &&& final(self).events@.subrange(
                                            0,
                                            old(self).events@.len() - 1,
                                        ) == old(self).events@.remove(i)
                                        &&& forall|k: int|
                                            0 <= k < appended.len() ==> (#[trigger] final(self).events@[old(self).events@.len() - 1 + k]).event
                                                == appended[k]
                                    })
                                }
                        })
                },
    {
        let popped = self.events.pop();
        let r: bool;
        match popped {
            Option::None => {
                r = false;
            },
            Option::Some(event) => {
                self.time = event.time;
                let ghost e0 = event;
                let ghost q0 = old(self).events@;
                let ghost gi: int = choose|i: int|
                    {
                        &&& 0 <= i < q0.len()
                        &&& event == (#[trigger] q0[i]).event
                        &&& self.events@ == q0.remove(i)
                        &&& forall|j: int|
                            0 <= j < q0.len() && j != i ==> dispatched_before(
                                q0[i],
                                #[trigger] q0[j],
                            )
                    };
                proof {
                    assert(q0[gi].event.time >= old(self).time);
                    assert forall|j: int|
                        0 <= j < self.events@.len() implies (#[trigger] self.events@[j]).event.time
                        >= self.time by {
                        let j0 = if j < gi {
                            j
                        } else {
                            j + 1
                        };
                        assert(self.events@[j] == q0[j0]);
                        if j0 != gi {
                            assert(dispatched_before(q0[gi], q0[j0]));
                        }
                    }
                    assert(self.events.none_before(self.time));
                }
                match &event.event_type {
                    EventType::Response { start_time, success, timeout, path, .. } => {
                        if path.len() == 1 {
                            proof {
                                self.terminal_responses@ = self.terminal_responses@ + 1;
                            }
                            let elapsed = if self.time >= *start_time {
                                self.time - *start_time
                            } else {
                                0
                            };
                            if elapsed > *timeout {
                                self.failure_count = if self.failure_count < u64::MAX {
                                    self.failure_count + 1
                                } else {
                                    self.failure_count
                                };
                            } else if *success {
                                self.success_count = if self.success_count < u64::MAX {
                                    self.success_count + 1
                                } else {
                                    self.success_count
                                };
                                self.latencies.push((self.time, elapsed));
                                let cutoff = if self.time >= LATENCY_RING_US {
                                    self.time - LATENCY_RING_US
                                } else {
                                    0
                                };
                                let ghost ringed = *self;
                                while self.latencies.len() > 0 && self.latencies[0].0 < cutoff
                                    invariant
                                        *self == (Simulation {
                                            latencies: self.latencies,
                                            ..ringed
                                        }),
                                        ring_trimmed(self.latencies@, cutoff) == ring_trimmed(
                                            ringed.latencies@,
                                            cutoff,
                                        ),
                                    decreases self.latencies@.len(),
                                {
                                    proof {
                                        assert(self.latencies@.remove(0)
                                            =~= self.latencies@.drop_first());
                                    }
                                    self.latencies.remove(0);
                                }
                                proof {
                                    assert(self.latencies@ == ring_trimmed(
                                        ringed.latencies@,
                                        cutoff,
                                    ));
                                }
                                if elapsed <= HIST_HIGH_US {
                                    let _ = self.histogram.record(elapsed);
                                }
                            } else {
                                self.failure_count = if self.failure_count < u64::MAX {
                                    self.failure_count + 1
                                } else {
                                    self.failure_count
                                };
                            }
                        }
                    },
                    _ => {},
                }
                proof {
                    assert(step_settlement(*old(self), *self, e0));
                    assert(old(self).failure_count + terminal_failure_bit(e0) <= u64::MAX
                        ==> self.failure_count == old(self).failure_count + terminal_failure_bit(
                        e0,
                    ));
                    assert(self.components@ == old(self).components@);
                }
                let insp = snapshot_health(&self.components);
                let node_id = event.node_id;
                let mut cmds = self.dispatch_event(event, &insp);
                let ghost mid = *self;
                let ghost absorbed = !assoc_has(old(self).components@, e0.node_id);
                let ghost cmds0 = cmds@;
                let ghost mut done: Seq<ScheduleCmd> = Seq::empty();
                let ghost mut appended: Seq<Event> = Seq::empty();
                proof {
                    assert(absorbed ==> cmds@.len() == 0 && mid.components@ == old(self).components@);
                    assert(mid.events@ == q0.remove(gi));
                    assert(mid.dropped_commands@ == old(self).dropped_commands@);
                    assert(cmds0 =~= done + cmds@);
                    assert(mid.events@.subrange(0, mid.events@.len() as int) =~= mid.events@);
                }
                while cmds.len() > 0
                    invariant
                        self.wf(),
                        components_within_limits(old(self).components@)
                            ==> components_within_limits(self.components@),
                        self.time >= old(self).time,
                        self.seed == old(self).seed,
                        self.terminal_responses@ >= old(self).terminal_responses@,
                        self.terminal_responses@ <= old(self).terminal_responses@ + 1,
                        self.dropped_commands@ >= old(self).dropped_commands@,
                        self.time == mid.time,
                        self.components@ == mid.components@,
                        self.links@ == mid.links@,
                        self.success_count == mid.success_count,
                        self.latencies@ == mid.latencies@,
                        hist_values(self.histogram) == hist_values(mid.histogram),
                        self.terminal_responses@ == mid.terminal_responses@,
                        old(self).failure_count + terminal_failure_bit(e0) + (
                        self.dropped_commands@ - old(self).dropped_commands@) <= u64::MAX
                            ==> self.failure_count == old(self).failure_count
                            + terminal_failure_bit(e0) + (self.dropped_commands@ - old(self).dropped_commands@),
                        absorbed ==> cmds@.len() == 0,
                        absorbed ==> self.events@ == q0.remove(gi) && self.dropped_commands@
                            == old(self).dropped_commands@,
                        cmds0 == done + cmds@,
                        cmds_delivered(
                            done,
                            appended,
                            e0.node_id,
                            old(self).links@,
                            mid.time,
                            self.dropped_commands@ - old(self).dropped_commands@,
                        ),
                        self.events.spec_next_seq() < u64::MAX ==> {
                            &&& self.events@.len() == mid.events@.len() + appended.len()
                            &&& self.events@.subrange(0, mid.events@.len() as int) == mid.events@
                            &&& forall|k: int|
                                0 <= k < appended.len() ==> (#[trigger] self.events@[
                                mid.events@.len() + k]).event == appended[k]
                        },
                    decreases cmds@.len(),
                {
                    let ghost it_cmds = cmds@;
                    let cmd = cmds.remove(0);
                    let ghost cmdg = cmd;
                    proof {
                        assert(it_cmds =~= seq![cmdg] + cmds@);
                        assert(done + it_cmds =~= done.push(cmdg) + cmds@);
                    }
                    let ghost mut jg: u64 = 0;
                    let crosses = match &cmd.event_type {
                        EventType::Arrival { .. } => cmd.node_id != node_id,
                        EventType::Response { .. } => cmd.node_id != node_id,
                        _ => false,
                    };
                    let mut delay = cmd.delay;
                    let mut dropped = false;
                    if crosses {
                        let (a, b) = canonical_key(node_id, cmd.node_id);
                        proof {
                            assert((a as u64) * 0x1_0000_0000 + (b as u64) <= u64::MAX)
                                by (nonlinear_arith)
                                requires
                                    a <= 0xFFFF_FFFFu64,
                                    b <= 0xFFFF_FFFFu64,
                            ;
                        }
                        let key: u64 = (a as u64) * 0x1_0000_0000 + (b as u64);
                        let (latency, jitter, loss_ppm) = match assoc_find_u64(&self.links, key) {
                            Option::Some(li) => {
                                let edge = self.links[li].1.get_config(node_id, cmd.node_id);
                                proof {
                                    assert(self.links@[li as int].1.wf());
                                    lemma_assoc_val_at(self.links@, key, li as int);
                                }
                                (edge.latency_us, edge.jitter_us, edge.packet_loss_ppm)
                            },
                            Option::None => (0u64, 0u64, 0u32),
                        };
                        proof {
                            assert(key == link_key_spec(node_id, cmd.node_id) as u64);
                            assert(edge_between(old(self).links@, node_id, cmd.node_id) == (
                            crate::network::EdgeConfig {
                                latency_us: latency,
                                jitter_us: jitter,
                                packet_loss_ppm: loss_ppm,
                            }));
                        }
                        if loss_ppm > 0 {
                            let draw = rng_below(&mut self.rng, 1_000_000);
                            if draw < loss_ppm as u64 {
                                dropped = true;
                                proof {
                                    self.dropped_commands@ = self.dropped_commands@ + 1;
                                }
                                self.failure_count = if self.failure_count < u64::MAX {
                                    self.failure_count + 1
                                } else {
                                    self.failure_count
                                };
                            }
                        }
                        if !dropped {
                            let j = if jitter > 0 {
                                rng_below(&mut self.rng, jitter + 1)
                            } else {
                                0
                            };
                            proof {
                                jg = j;
                            }
                            let extra = if latency > u64::MAX - j {
                                u64::MAX
                            } else {
                                latency + j
                            };
                            delay = if delay > u64::MAX - extra {
                                u64::MAX
                            } else {
                                delay + extra
                            };
                        }
                    }
                    if !dropped {
                        let t = if delay > u64::MAX - self.time {
                            u64::MAX
                        } else {
                            self.time + delay
                        };
                        let ghost ev = Event {
                            time: t,
                            node_id: cmdg.node_id,
                            event_type: cmdg.event_type,
                        };
                        proof {
                            assert(crosses == cmd_crosses(cmdg, e0.node_id));
                            if crosses {
                                let edge = edge_between(
                                    old(self).links@,
                                    e0.node_id,
                                    cmdg.node_id,
                                );
                                assert(jg <= edge.jitter_us);
                                assert(ev.time == crate::balancer::sat_add64(
                                    mid.time,
                                    crate::balancer::sat_add64(
                                        cmdg.delay,
                                        crate::balancer::sat_add64(edge.latency_us, jg),
                                    ),
                                ));
                                assert(delivered_event(ev, cmdg, edge, mid.time));
                            } else {
                                assert(ev.time == crate::balancer::sat_add64(
                                    mid.time,
                                    cmdg.delay,
                                ));
                            }
                            lemma_cmds_delivered_event(
                                done,
                                appended,
                                e0.node_id,
                                old(self).links@,
                                mid.time,
                                self.dropped_commands@ - old(self).dropped_commands@,
                                cmdg,
                                ev,
                            );
                        }
                        let ghost pre_push = self.events@;
                        self.events.push(
                            Event { time: t, node_id: cmd.node_id, event_type: cmd.event_type },
                        );
                        proof {
                            done = done.push(cmdg);
                            appended = appended.push(ev);
                            if self.events.spec_next_seq() < u64::MAX {
                                assert(self.events@.subrange(0, mid.events@.len() as int)
                                    =~= pre_push.subrange(0, mid.events@.len() as int));
                            }
                        }
                    } else {
                        proof {
                            lemma_cmds_delivered_drop(
                                done,
                                appended,
                                e0.node_id,
                                old(self).links@,
                                mid.time,
                                self.dropped_commands@ - old(self).dropped_commands@ - 1,
                                cmdg,
                            );
                            done = done.push(cmdg);
                        }
                    }
                }
                proof {
                    assert(e0 == q0[gi].event);
                    assert(self.time == q0[gi].event.time);
                    assert(step_settlement(*old(self), *self, q0[gi].event));
                    assert(step_failures(*old(self), *self, q0[gi].event));
                    assert forall|id: NodeId| #[trigger]
                        assoc_has(self.components@, id) == assoc_has(
                        old(self).components@,
                        id,
                    ) by {}
                    if !absorbed {
                        assert(done =~= cmds0);
                        assert(snapshot_of(insp, old(self).components@));
                        assert(cmds_delivered(
                            cmds0,
                            appended,
                            q0[gi].event.node_id,
                            old(self).links@,
                            q0[gi].event.time,
                            self.dropped_commands@ - old(self).dropped_commands@,
                        ));
                    }
                }
                r = true;
            },
        }
        r
    }

    /// Step while the next event is due at or before `t_us`, then move
    /// the clock to `t_us`. Returns `false` only in the pathological case
    /// that the step budget (`u64::MAX` dispatches) ran out first, which
    /// a zero-delay event cycle could cause.
    pub fn advance_until(&mut self, t_us: u64) -> (r: bool)
        requires
            old(self).wf(),
        ensures
            final(self).wf(),
            final(self).time >= old(self).time,
            old(self).all_within_limits() ==> final(self).all_within_limits(),
            r ==> final(self).time >= t_us,
            !r ==> final(self).events@.len() > 0 && final(self).time <= t_us && exists|i: int|
                0 <= i < final(self).events@.len() && (#[trigger] final(self).events@[i].event).time <= t_us,
            final(self).seed == old(self).seed,
            final(self).links@ == old(self).links@,
            forall|id: NodeId| #[trigger]
                assoc_has(final(self).components@, id) == assoc_has(old(self).components@, id),
            forall|id: NodeId| #[trigger]
                assoc_has(old(self).components@, id) ==> same_kind_and_config(
                    assoc_val(old(self).components@, id),
                    assoc_val(final(self).components@, id),
                ),
            final(self).terminal_responses@ >= old(self).terminal_responses@,
            final(self).dropped_commands@ >= old(self).dropped_commands@,
    {
        let mut fuel: u64 = u64::MAX;
        loop
            invariant
                self.wf(),
                self.time >= old(self).time,
                components_within_limits(old(self).components@) ==> components_within_limits(
                    self.components@,
                ),
                self.seed == old(self).seed,
                self.links@ == old(self).links@,
                forall|id: NodeId| #[trigger]
                    assoc_has(self.components@, id) == assoc_has(old(self).components@, id),
                forall|id: NodeId| #[trigger]
                    assoc_has(old(self).components@, id) ==> same_kind_and_config(
                        assoc_val(old(self).components@, id),
                        assoc_val(self.components@, id),
                    ),
                self.terminal_responses@ >= old(self).terminal_responses@,
                self.dropped_commands@ >= old(self).dropped_commands@,
            decreases fuel,
        {
            let next = self.events.peek_time();
            let proceed = match next {
                Option::Some(tm) => tm <= t_us,
                Option::None => false,
            };
            if !proceed {
                if t_us > self.time {
                    proof {
                        assert forall|i: int|
                            0 <= i < self.events@.len() implies (
                        #[trigger] self.events@[i].event).time >= t_us by {
                            match next {
                                Option::Some(tm) => {
                                    assert(self.events@[i].event.time >= tm);
                                },
                                Option::None => {},
                            }
                        }
                    }
                    self.time = t_us;
                }
                return true;
            }
            if fuel == 0 {
                proof {
                    let tm = next->0;
                    assert(exists|i: int|
                        0 <= i < self.events@.len() && (#[trigger] self.events@[i].event).time
                            == tm);
                    let i = choose|i: int|
                        0 <= i < self.events@.len() && (#[trigger] self.events@[i].event).time
                            == tm;
                    assert(self.events@[i].event.time <= t_us);
                    assert(self.time <= self.events@[i].event.time);
                }
                return false;
            }
            fuel = fuel - 1;
            let ghost pre_step = *self;
            self.step();
            proof {
                assert forall|id: NodeId| #[trigger]
                    assoc_has(old(self).components@, id) implies same_kind_and_config(
                    assoc_val(old(self).components@, id),
                    assoc_val(self.components@, id),
                ) by {
                    assert(assoc_has(pre_step.components@, id));
                    assert(same_kind_and_config(
                        assoc_val(old(self).components@, id),
                        assoc_val(pre_step.components@, id),
                    ));
                    assert(same_kind_and_config(
                        assoc_val(pre_step.components@, id),
                        assoc_val(self.components@, id),
                    ));
                }
            }
        }
    }

    /// Zero the counters, the latency records and the histogram; the
    /// topology and the clock stay.
    pub fn reset_stats(&mut self)
        requires
            old(self).wf(),
        ensures
            final(self).wf(),
            old(self).all_within_limits() ==> final(self).all_within_limits(),
            *final(self) == (Simulation {
                success_count: 0,
                failure_count: 0,
                latencies: final(self).latencies,
                histogram: final(self).histogram,
                terminal_responses: Ghost(0),
                dropped_commands: Ghost(0),
                ..*old(self)
            }),
            final(self).latencies@.len() == 0,
            hist_values(final(self).histogram).len() == 0,
            hist_high(final(self).histogram) == hist_high(
                old(self).histogram,
            ),
    {
        self.success_count = 0;
        self.failure_count = 0;
        self.latencies.clear();
        self.histogram.reset();
        proof {
            self.terminal_responses@ = 0;
            self.dropped_commands@ = 0;
        }
    }

    /// The histogram value at the given whole percentile, over all
    /// recorded latencies; `None` when nothing was recorded yet. The
    /// window argument is advisory: the histogram is cumulative.
    pub fn get_percentile(&self, percent: u32, _window_us: u64) -> (r: Option<u64>)
        ensures
            r is None <==> hist_values(self.histogram).len() == 0,
            r matches Option::Some(v) ==> v == hist_percentile_value(self.histogram, percent),
    {
        if self.histogram.len() == 0 {
            return Option::None;
        }
        Option::Some(self.histogram.value_at_percentile(percent))
    }
}

/// The component under `id` became the client configured by `cfg`
/// (clamped), everything else stayed, and the returned commands are the
/// client's re-kick: one fresh tick under the new generation when it
/// was healthy, none otherwise.
pub open spec fn client_config_applied(
    pre: Simulation,
    post: Simulation,
    id: NodeId,
    cfg: crate::client::ClientConfig,
    cmds: Seq<ScheduleCmd>,
) -> bool {
    &&& post == (Simulation { components: post.components, ..pre })
    &&& assoc_has(post.components@, id)
    &&& crate::assoc::assoc_same_except(pre.components@, post.components@, id)
    &&& match (assoc_val(pre.components@, id), assoc_val(post.components@, id)) {
        (Component::Client(c0), Component::Client(c1)) => {
            &&& c1 == (crate::client::Client { config: cfg.clamped_spec(), ..c0 })
            &&& (c0.healthy ==> cmds.len() == 1 && cmds[0].delay == 0 && cmds[0].node_id == id
                && (cmds[0].event_type matches EventType::GenerateNext { generation_id }
                && generation_id == cfg.generation_id))
            &&& (!c0.healthy ==> cmds.len() == 0)
        },
        _ => false,
    }
}

/// The component under `id` became the server configured by `cfg`
/// (clamped), everything else stayed.
pub open spec fn server_config_applied(
    pre: Simulation,
    post: Simulation,
    id: NodeId,
    cfg: crate::server::ServerConfig,
) -> bool {
    &&& post == (Simulation { components: post.components, ..pre })
    &&& assoc_has(post.components@, id)
    &&& crate::assoc::assoc_same_except(pre.components@, post.components@, id)
    &&& match (assoc_val(pre.components@, id), assoc_val(post.components@, id)) {
        (Component::Server(s0), Component::Server(s1)) => s1 == (crate::server::Server {
            config: cfg.clamped_spec(),
            ..s0
        }),
        _ => false,
    }
}

/// The component under `id` became the balancer configured by `cfg`
/// (clamped) and entered its maintenance window: unhealthy, budget
/// clamped to the new bound, and one self-directed recovery command
/// half a second out.
pub open spec fn lb_config_applied(
    pre: Simulation,
    post: Simulation,
    id: NodeId,
    cfg: crate::balancer::LoadBalancerConfig,
    cmds: Seq<ScheduleCmd>,
) -> bool {
    &&& post == (Simulation { components: post.components, ..pre })
    &&& assoc_has(post.components@, id)
    &&& crate::assoc::assoc_same_except(pre.components@, post.components@, id)
    &&& match (assoc_val(pre.components@, id), assoc_val(post.components@, id)) {
        (Component::LoadBalancer(b0), Component::LoadBalancer(b1)) => {
            &&& b1 == (crate::balancer::LoadBalancer {
                config: cfg.clamped_spec(),
                is_healthy: false,
                retry_token_balance_milli: b1.retry_token_balance_milli,
                ..b0
            })
            &&& b1.retry_token_balance_milli == if b0.retry_token_balance_milli
                > cfg.clamped_spec().retry_budget_max_tokens_milli {
                cfg.clamped_spec().retry_budget_max_tokens_milli
            } else {
                b0.retry_token_balance_milli
            }
            &&& cmds.len() == 1
            &&& cmds[0].delay == crate::balancer::MAINTENANCE_US
            &&& cmds[0].node_id == id
            &&& cmds[0].event_type is MaintenanceComplete
        },
        _ => false,
    }
}

impl Simulation {
    /// Replace the configuration of the client under `id`; the returned
    /// commands (the re-kick of its generation cycle) are for the driver
    /// to schedule. A missing or differently-kinded node is a no-op.
    pub fn apply_client_config(&mut self, id: NodeId, config: crate::client::ClientConfig) -> (cmds:
        Vec<ScheduleCmd>)
        requires
            old(self).wf(),
        ensures
            final(self).wf(),
            old(self).all_within_limits() ==> final(self).all_within_limits(),
            !assoc_has(old(self).components@, id) ==> *final(self) == *old(self) && cmds@.len()
                == 0,
            assoc_has(old(self).components@, id) && !(assoc_val(old(self).components@, id)
                is Client) ==> final(self).components@ == old(self).components@ && *final(self)
                == (Simulation { components: final(self).components, ..*old(self) })
                && cmds@.len() == 0,
            assoc_has(old(self).components@, id) && (assoc_val(old(self).components@, id)
                is Client) ==> client_config_applied(*old(self), *final(self), id, config, cmds@),
    {
        let ghost pre = self.components@;
        match assoc_find_u32(&self.components, id) {
            Option::Some(i) => {
                proof {
                    lemma_assoc_val_at(pre, id, i as int);
                }
                let mut entry = self.components.remove(i);
                let cmds = match &mut entry.1 {
                    Component::Client(c) => c.set_config(config, id),
                    _ => Vec::new(),
                };
                self.components.insert(i, entry);
                proof {
                    assert(self.components@ =~= pre.update(
                        i as int,
                        (id, self.components@[i as int].1),
                    ));
                    crate::assoc::lemma_assoc_update(
                        pre,
                        i as int,
                        id,
                        self.components@[i as int].1,
                    );
                    if !(pre[i as int].1 is Client) {
                        assert(self.components@ =~= pre);
                    }
                }
                cmds
            },
            Option::None => Vec::new(),
        }
    }

    /// Replace the configuration of the server under `id`, clamped into
    /// range. A shrunken limit is not enforced retroactively: the load
    /// drains down to it, which is the one way a server can be outside
    /// its limits until then.
    pub fn apply_server_config(&mut self, id: NodeId, config: crate::server::ServerConfig) -> (cmds:
        Vec<ScheduleCmd>)
        requires
            old(self).wf(),
        ensures
            final(self).wf(),
            cmds@.len() == 0,
            !assoc_has(old(self).components@, id) ==> *final(self) == *old(self),
            assoc_has(old(self).components@, id) && !(assoc_val(old(self).components@, id)
                is Server) ==> final(self).components@ == old(self).components@ && *final(self)
                == (Simulation { components: final(self).components, ..*old(self) }),
            assoc_has(old(self).components@, id) && (assoc_val(old(self).components@, id)
                is Server) ==> server_config_applied(*old(self), *final(self), id, config),
    {
        let ghost pre = self.components@;
        match assoc_find_u32(&self.components, id) {
            Option::Some(i) => {
                proof {
                    lemma_assoc_val_at(pre, id, i as int);
                }
                let mut entry = self.components.remove(i);
                match &mut entry.1 {
                    Component::Server(srv) => srv.set_config(config),
                    _ => {},
                }
                self.components.insert(i, entry);
                proof {
                    assert(self.components@ =~= pre.update(
                        i as int,
                        (id, self.components@[i as int].1),
                    ));
                    crate::assoc::lemma_assoc_update(
                        pre,
                        i as int,
                        id,
                        self.components@[i as int].1,
                    );
                    if !(pre[i as int].1 is Server) {
                        assert(self.components@ =~= pre);
                    }
                }
            },
            Option::None => {},
        }
        Vec::new()
    }

    /// Replace the configuration of the balancer under `id`. The balancer
    /// goes into a maintenance window; the returned command (its
    /// recovery) is for the driver to schedule.
    pub fn apply_lb_config(&mut self, id: NodeId, config: crate::balancer::LoadBalancerConfig) -> (cmds:
        Vec<ScheduleCmd>)
        requires
            old(self).wf(),
        ensures
            final(self).wf(),
            old(self).all_within_limits() ==> final(self).all_within_limits(),
            !assoc_has(old(self).components@, id) ==> *final(self) == *old(self) && cmds@.len()
                == 0,
            assoc_has(old(self).components@, id) && !(assoc_val(old(self).components@, id)
                is LoadBalancer) ==> final(self).components@ == old(self).components@ && *final(self) == (Simulation { components: final(self).components, ..*old(self) }) && cmds@.len()
                == 0,
            assoc_has(old(self).components@, id) && (assoc_val(old(self).components@, id)
                is LoadBalancer) ==> lb_config_applied(*old(self), *final(self), id, config, cmds@),
    {
        let ghost pre = self.components@;
        match assoc_find_u32(&self.components, id) {
            Option::Some(i) => {
                proof {
                    lemma_assoc_val_at(pre, id, i as int);
                }
                let mut entry = self.components.remove(i);
                let cmds = match &mut entry.1 {
                    Component::LoadBalancer(lb) => lb.set_config(config, id),
                    _ => Vec::new(),
                };
                self.components.insert(i, entry);
                proof {
                    assert(self.components@ =~= pre.update(
                        i as int,
                        (id, self.components@[i as int].1),
                    ));
                    crate::assoc::lemma_assoc_update(
                        pre,
                        i as int,
                        id,
                        self.components@[i as int].1,
                    );
                    if !(pre[i as int].1 is LoadBalancer) {
                        assert(self.components@ =~= pre);
                    }
                }
                cmds
            },
            Option::None => Vec::new(),
        }
    }
}

impl Simulation {
    /// The canonical JSON line of the configuration of the component
    /// under `id`, if any.
    pub fn encode_config(&self, id: NodeId) -> (r: Option<Vec<u8>>)
        requires
            self.wf(),
        ensures
            r is Some <==> assoc_has(self.components@, id),
            r matches Option::Some(v) ==> match assoc_val(self.components@, id) {
                Component::Client(c) => v@ == crate::codec::client_json(c.config),
                Component::Server(srv) => v@ == crate::codec::server_json(srv.config),
                Component::LoadBalancer(lb) => v@ == crate::codec::lb_json(lb.config),
            },
    {
        match self.get_component(id) {
            Option::Some(c) => Option::Some(c.encode_config()),
            Option::None => Option::None,
        }
    }

    /// Hot-apply a configuration given as its JSON line to the component
    /// under `id`. The bytes must be the canonical encoding of a
    /// configuration of that component's kind; anything else — a missing
    /// node, a kind mismatch, or bytes that are no canonical encoding —
    /// is a no-op returning no commands. The returned commands are for
    /// the driver to schedule.
    pub fn apply_config(&mut self, id: NodeId, bytes: &Vec<u8>) -> (cmds: Vec<ScheduleCmd>)
        requires
            old(self).wf(),
        ensures
            final(self).wf(),
            !assoc_has(old(self).components@, id) ==> *final(self) == *old(self) && cmds@.len()
                == 0,
            assoc_has(old(self).components@, id) ==> match assoc_val(old(self).components@, id) {
                Component::Client(_) => {
                    &&& (exists|cfg: crate::client::ClientConfig|
                        cfg.wf() && bytes@ == #[trigger] crate::codec::client_json(cfg))
                        ==> exists|cfg: crate::client::ClientConfig|
                        cfg.wf() && bytes@ == #[trigger] crate::codec::client_json(cfg)
                            && client_config_applied(*old(self), *final(self), id, cfg, cmds@)
                    &&& !(exists|cfg: crate::client::ClientConfig|
                        cfg.wf() && bytes@ == #[trigger] crate::codec::client_json(cfg)) ==> *final(self) == *old(self) && cmds@.len() == 0
                },
                Component::Server(_) => {
                    &&& (exists|cfg: crate::server::ServerConfig|
                        cfg.wf() && bytes@ == #[trigger] crate::codec::server_json(cfg))
                        ==> exists|cfg: crate::server::ServerConfig|
                        cfg.wf() && bytes@ == #[trigger] crate::codec::server_json(cfg)
                            && server_config_applied(*old(self), *final(self), id, cfg)
                            && cmds@.len() == 0
                    &&& !(exists|cfg: crate::server::ServerConfig|
                        cfg.wf() && bytes@ == #[trigger] crate::codec::server_json(cfg)) ==> *final(self) == *old(self) && cmds@.len() == 0
                },
                Component::LoadBalancer(_) => {
                    &&& (exists|cfg: crate::balancer::LoadBalancerConfig|
                        cfg.wf() && bytes@ == #[trigger] crate::codec::lb_json(cfg))
                        ==> exists|cfg: crate::balancer::LoadBalancerConfig|
                        cfg.wf() && bytes@ == #[trigger] crate::codec::lb_json(cfg)
                            && lb_config_applied(*old(self), *final(self), id, cfg, cmds@)
                    &&& !(exists|cfg: crate::balancer::LoadBalancerConfig|
                        cfg.wf() && bytes@ == #[trigger] crate::codec::lb_json(cfg)) ==> *final(self) == *old(self) && cmds@.len() == 0
                },
            },
    {
        let kind = match assoc_find_u32(&self.components, id) {
            Option::Some(i) => {
                match &self.components[i].1 {
                    Component::Client(_) => 0u8,
                    Component::Server(_) => 1u8,
                    Component::LoadBalancer(_) => 2u8,
                }
            },
            Option::None => {
                return Vec::new();
            },
        };
        if kind == 0 {
            match crate::codec::decode_client_config(bytes) {
                Option::Some(cfg) => self.apply_client_config(id, cfg),
                Option::None => Vec::new(),
            }
        } else if kind == 1 {
            match crate::codec::decode_server_config(bytes) {
                Option::Some(cfg) => {
                    self.apply_server_config(id, cfg)
                },
                Option::None => Vec::new(),
            }
        } else {
            match crate::codec::decode_lb_config(bytes) {
                Option::Some(cfg) => self.apply_lb_config(id, cfg),
                Option::None => Vec::new(),
            }
        }
    }
}

/// Every counted outcome has a cause: while the counts are exact, the
/// sum of successes and failures equals the terminal responses settled
/// plus the packets dropped in flight — and with no loss configured, it
/// equals the terminal responses alone.
pub proof fn lemma_outcome_accounting(sim: &Simulation)
    requires
        sim.wf(),
        sim.terminal_responses@ + sim.dropped_commands@ <= u64::MAX,
    ensures
        sim.success_count + sim.failure_count == sim.terminal_responses@
            + sim.dropped_commands@,
        sim.dropped_commands@ == 0 ==> sim.success_count + sim.failure_count
            == sim.terminal_responses@,
        sim.success_count + sim.failure_count >= sim.terminal_responses@,
{
}

/// Health of every component, snapshotted for one dispatch.
/// The inspector reports exactly the health of the table's components,
/// and nothing else as healthy.
pub open spec fn snapshot_of(insp: SystemInspector, s: Seq<(NodeId, Component)>) -> bool {
    forall|id: NodeId| #[trigger]
        insp.spec_is_healthy(id) == (assoc_has(s, id) && assoc_val(s, id).spec_is_healthy())
}

fn snapshot_health(components: &Vec<(NodeId, Component)>) -> (insp: SystemInspector)
    requires
        keys_unique(components@),
    ensures
        insp.wf(),
        snapshot_of(insp, components@),
{
    let mut insp = SystemInspector::new();
    let mut k: usize = 0;
    while k < components.len()
        invariant
            keys_unique(components@),
            k <= components@.len(),
            insp.wf(),
            insp@.len() == k,
            forall|m: int|
                0 <= m < k ==> (#[trigger] insp@[m]) == (
                components@[m].0,
                components@[m].1.spec_is_healthy(),
            ),
        decreases components@.len() - k,
    {
        let id = components[k].0;
        proof {
            if assoc_has(insp@, id) {
                let m = choose|m: int| 0 <= m < insp@.len() && (#[trigger] insp@[m]).0 == id;
                assert(components@[m].0 == components@[k as int].0);
            }
        }
        let healthy = components[k].1.is_healthy();
        insp.record(id, healthy);
        k += 1;
    }
    proof {
        assert forall|id: NodeId| #[trigger]
            insp.spec_is_healthy(id) == (assoc_has(components@, id) && assoc_val(
                components@,
                id,
            ).spec_is_healthy()) by {
            if assoc_has(insp@, id) {
                let m = choose|m: int| 0 <= m < insp@.len() && (#[trigger] insp@[m]).0 == id;
                assert(components@[m].0 == id);
                crate::assoc::lemma_assoc_val_at(insp@, id, m);
                crate::assoc::lemma_assoc_val_at(components@, id, m);
            } else {
                if assoc_has(components@, id) {
                    let m = choose|m: int|
                        0 <= m < components@.len() && (#[trigger] components@[m]).0 == id;
                    assert(insp@[m].0 == id);
                }
            }
        }
    }
    insp
}

} // verus!
