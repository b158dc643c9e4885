use vstd::prelude::*;
use crate::atomic_ref::AtomicRef;
use crate::atomic_ref::CellStore;
use crate::atomic_ref::Nullable;
use crate::node::Node;

verus! {

/// The published record of one thread's operation: its phase, whether it is
/// still pending, its kind (enqueue or dequeue), and the link to the node
/// involved. A descriptor is immutable once constructed; announcing a new
/// operation replaces a slot's descriptor wholesale, so helpers always see
/// a consistent snapshot.
pub struct OpDesc {
    phase: i64,
    pending: bool,
    enqueue: bool,
    node: AtomicRef,
}

impl OpDesc {
    pub closed spec fn spec_phase(self) -> i64 {
        self.phase
    }

    pub closed spec fn spec_pending(self) -> bool {
        self.pending
    }

    pub closed spec fn spec_enqueue(self) -> bool {
        self.enqueue
    }

    pub closed spec fn spec_node(self) -> AtomicRef {
        self.node
    }

    /// Still relevant for a helper working at `phase`: flagged pending and
    /// announced no later than that phase.
    pub open spec fn is_pending_spec(self, phase: i64) -> bool {
        self.spec_pending() && self.spec_phase() <= phase
    }

    /// A fresh descriptor over a newly allocated cell holding `node`.
    pub fn new<T>(
        nodes: &mut CellStore<Node<T>>,
        phase: i64,
        pending: bool,
        enqueue: bool,
        node: Node<T>,
    ) -> (d: OpDesc)
        requires
            old(nodes).wf(),
        ensures
            final(nodes).wf(),
            final(nodes).len() == old(nodes).len() + 1,
            d.spec_phase() == phase,
            d.spec_pending() == pending,
            d.spec_enqueue() == enqueue,
            d.spec_node().points_to(old(nodes).len() as int),
            final(nodes).live(old(nodes).len() as int),
            final(nodes).rc_of(old(nodes).len() as int) == 1,
            final(nodes).value_of(old(nodes).len() as int) == node,
            CellStore::unchanged_outside(*old(nodes), *final(nodes), Set::empty()),
    {
        let r = AtomicRef::new(nodes, node);
        OpDesc { phase, pending, enqueue, node: r }
    }

    /// A retired enqueue: no longer pending, pointing at the linked node,
    /// whose handle the descriptor takes over.
    pub fn finished_enqueue(phase: i64, node: AtomicRef) -> (d: OpDesc)
        ensures
            d.spec_phase() == phase,
            !d.spec_pending(),
            d.spec_enqueue(),
            d.spec_node() == node,
    {
        OpDesc { phase, pending: false, enqueue: true, node }
    }

    /// Assembles a descriptor from its parts, taking the handle over.
    pub(crate) fn from_parts(phase: i64, pending: bool, enqueue: bool, node: AtomicRef) -> (d: OpDesc)
        ensures
            d.spec_phase() == phase,
            d.spec_pending() == pending,
            d.spec_enqueue() == enqueue,
            d.spec_node() == node,
    {
        OpDesc { phase, pending, enqueue, node }
    }

    pub fn phase(&self) -> (r: i64)
        ensures
            r == self.spec_phase(),
    {
        self.phase
    }

    pub fn is_enqueue(&self) -> (r: bool)
        ensures
            r == self.spec_enqueue(),
    {
        self.enqueue
    }

    pub fn is_dequeue(&self) -> (r: bool)
        ensures
            r == !self.spec_enqueue(),
    {
        !self.enqueue
    }

    pub fn is_pending(&self, phase: i64) -> (r: bool)
        ensures
            r == self.is_pending_spec(phase),
    {
        self.pending && self.phase <= phase
    }

    /// An uncounted snapshot of the descriptor's node link.
    pub fn node(&self) -> (r: AtomicRef)
        ensures
            r.target() == self.spec_node().target(),
    {
        self.node.snapshot()
    }
}

impl Default for OpDesc {
    /// The initial descriptor of every slot: no operation announced yet.
    fn default() -> (d: Self)
        ensures
            d.spec_phase() == -1,
            !d.spec_pending(),
            !d.spec_enqueue(),
            d.spec_node().is_null_spec(),
    {
        OpDesc {
            phase: -1,
            pending: false,
            enqueue: false,
            node: <AtomicRef as Nullable>::null(),
        }
    }
}

} // verus!
