//! Links between node pairs: per-direction latency, jitter and packet loss.
//!
//! A link is stored once per unordered node pair, at the canonical key
//! `(min(a, b), max(a, b))`; the two directions carry independent edge
//! configurations.
use vstd::prelude::*;

verus! {

/// Identifier of a node in the topology, assigned by the driver.
pub type NodeId = u32;

/// One direction of a link. `packet_loss_ppm` is the drop probability in
/// parts per million (1_000_000 means every packet is lost).
pub struct EdgeConfig {
    /// Base one-way latency in microseconds.
    pub latency_us: u64,
    /// Amplitude of the uniform random addition to the latency, in microseconds.
    pub jitter_us: u64,
    /// Probability of dropping a packet, in parts per million.
    pub packet_loss_ppm: u32,
}

/// Largest meaningful parts-per-million value: certainty.
pub const PPM_ONE: u32 = 1_000_000;

/// Ceiling on one-way latency and on jitter: one day, in microseconds.
pub const MAX_EDGE_US: u64 = 86_400_000_000;

impl EdgeConfig {
    /// An edge configuration is well formed when the loss probability is a
    /// probability and the delays are within a day.
    pub open spec fn wf(&self) -> bool {
        &&& self.packet_loss_ppm <= PPM_ONE
        &&& self.latency_us <= MAX_EDGE_US
        &&& self.jitter_us <= MAX_EDGE_US
    }

    /// The value of `clamped`, as a specification.
    pub open spec fn clamped_spec(&self) -> EdgeConfig {
        EdgeConfig {
            latency_us: if self.latency_us > MAX_EDGE_US {
                MAX_EDGE_US
            } else {
                self.latency_us
            },
            jitter_us: if self.jitter_us > MAX_EDGE_US {
                MAX_EDGE_US
            } else {
                self.jitter_us
            },
            packet_loss_ppm: if self.packet_loss_ppm > PPM_ONE {
                PPM_ONE
            } else {
                self.packet_loss_ppm
            },
        }
    }

    /// The same configuration with every field forced into range.
    pub fn clamped(&self) -> (r: Self)
        ensures
            r.wf(),
            self.wf() ==> r == *self,
            r == self.clamped_spec(),
    {
        EdgeConfig {
            latency_us: if self.latency_us > MAX_EDGE_US {
                MAX_EDGE_US
            } else {
                self.latency_us
            },
            jitter_us: if self.jitter_us > MAX_EDGE_US {
                MAX_EDGE_US
            } else {
                self.jitter_us
            },
            packet_loss_ppm: if self.packet_loss_ppm > PPM_ONE {
                PPM_ONE
            } else {
                self.packet_loss_ppm
            },
        }
    }
}

impl Clone for EdgeConfig {
    fn clone(&self) -> (r: Self)
        ensures
            r == *self,
    {
        EdgeConfig {
            latency_us: self.latency_us,
            jitter_us: self.jitter_us,
            packet_loss_ppm: self.packet_loss_ppm,
        }
    }
}

impl Default for EdgeConfig {
    /// The default edge: 10 ms one way, no jitter, no loss.
    fn default() -> (r: Self)
        ensures
            r.latency_us == 10_000,
            r.jitter_us == 0,
            r.packet_loss_ppm == 0,
    {
        EdgeConfig { latency_us: 10_000, jitter_us: 0, packet_loss_ppm: 0 }
    }
}

/// A bidirectional link between two nodes, stored under the canonical key
/// `(min(a, b), max(a, b))`. The two directions are configured separately.
pub struct Link {
    /// Configuration for traffic from the smaller node id to the larger.
    pub min_to_max: EdgeConfig,
    /// Configuration for traffic from the larger node id to the smaller.
    pub max_to_min: EdgeConfig,
}

impl Link {
    pub open spec fn wf(&self) -> bool {
        self.min_to_max.wf() && self.max_to_min.wf()
    }

    /// Both directions forced into range.
    pub fn clamped(&self) -> (r: Self)
        ensures
            r.wf(),
            self.wf() ==> r == *self,
            r.min_to_max == self.min_to_max.clamped_spec(),
            r.max_to_min == self.max_to_min.clamped_spec(),
    {
        Link { min_to_max: self.min_to_max.clamped(), max_to_min: self.max_to_min.clamped() }
    }
}

impl Clone for Link {
    fn clone(&self) -> (r: Self)
        ensures
            r == *self,
    {
        Link { min_to_max: self.min_to_max.clone(), max_to_min: self.max_to_min.clone() }
    }
}

impl Default for Link {
    fn default() -> (r: Self)
        ensures
            r.min_to_max.latency_us == 10_000,
            r.min_to_max.jitter_us == 0,
            r.min_to_max.packet_loss_ppm == 0,
            r.max_to_min.latency_us == 10_000,
            r.max_to_min.jitter_us == 0,
            r.max_to_min.packet_loss_ppm == 0,
    {
        Link { min_to_max: EdgeConfig::default(), max_to_min: EdgeConfig::default() }
    }
}

impl Link {
    /// The configuration that governs traffic flowing from `from` to `to`.
    pub fn get_config(&self, from: NodeId, to: NodeId) -> (r: &EdgeConfig)
        ensures
            from < to ==> r == &self.min_to_max,
            from >= to ==> r == &self.max_to_min,
    {
        if from < to {
            &self.min_to_max
        } else {
            &self.max_to_min
        }
    }

    /// Mutable access to the configuration for the direction `from` to `to`.
    pub fn get_config_mut(&mut self, from: NodeId, to: NodeId) -> (r: &mut EdgeConfig)
        ensures
            from < to ==> *r == old(self).min_to_max && *final(self) == (Link {
                min_to_max: *final(r),
                ..*old(self)
            }),
            from >= to ==> *r == old(self).max_to_min && *final(self) == (Link {
                max_to_min: *final(r),
                ..*old(self)
            }),
    {
        if from < to {
            &mut self.min_to_max
        } else {
            &mut self.max_to_min
        }
    }
}

/// The canonical storage key of the unordered pair `{a, b}`: the smaller id
/// first.
pub fn canonical_key(a: NodeId, b: NodeId) -> (r: (NodeId, NodeId))
    ensures
        r.0 == if a < b { a } else { b },
        r.1 == if a < b { b } else { a },
        r.0 <= r.1,
{
    if a < b {
        (a, b)
    } else {
        (b, a)
    }
}

} // verus!
