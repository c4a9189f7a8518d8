//! The read-only health view handed to components during dispatch.
//!
//! Before dispatching an event, the kernel snapshots the health of every
//! component into one of these; handlers consult the snapshot instead of
//! reaching into each other, so a handler sees a consistent view and cannot
//! mutate its peers.
use vstd::prelude::*;
use crate::assoc::{assoc_has, assoc_val, keys_unique, assoc_find_u32, lemma_assoc_val_at};
use crate::network::NodeId;

verus! {

/// A per-step snapshot of every component's health.
pub struct SystemInspector {
    entries: Vec<(NodeId, bool)>,
}

impl SystemInspector {
    pub closed spec fn view(&self) -> Seq<(NodeId, bool)> {
        self.entries@
    }

    pub open spec fn wf(&self) -> bool {
        keys_unique(self@)
    }

    /// Health of node `id` in the snapshot; a node that is not present is
    /// treated as unhealthy.
    pub open spec fn spec_is_healthy(&self, id: NodeId) -> bool {
        assoc_has(self@, id) && assoc_val(self@, id)
    }

    pub fn new() -> (r: Self)
        ensures
            r@ == Seq::<(NodeId, bool)>::empty(),
            r.wf(),
    {
        SystemInspector { entries: Vec::new() }
    }

    /// Record the health of one more node; `id` must not be recorded yet.
    pub fn record(&mut self, id: NodeId, healthy: bool)
        requires
            old(self).wf(),
            !assoc_has(old(self)@, id),
        ensures
            final(self).wf(),
            final(self)@ == old(self)@.push((id, healthy)),
    {
        self.entries.push((id, healthy));
    }

    /// Whether node `id` was healthy when the snapshot was taken.
    pub fn is_node_healthy(&self, id: NodeId) -> (r: bool)
        requires
            self.wf(),
        ensures
            r == self.spec_is_healthy(id),
    {
        match assoc_find_u32(&self.entries, id) {
            Option::Some(i) => {
                let h = self.entries[i].1;
                proof {
                    lemma_assoc_val_at(self@, id, i as int);
                }
                h
            },
            Option::None => false,
        }
    }
}

} // verus!
