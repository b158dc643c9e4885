use vstd::prelude::*;
use crate::atomic_ref::AtomicRef;
use crate::atomic_ref::CellStore;
use crate::atomic_ref::Nullable;
use crate::node::Node;
use crate::node::next_of;
use crate::op_desc::OpDesc;
use crate::handle::WFQueueHandle;

verus! {

broadcast use crate::atomic_ref::lemma_live_in_range, crate::atomic_ref::lemma_live_rc_positive;

/// The queue: the explicit stores backing its nodes and descriptors, the
/// `head`/`tail` links, one descriptor slot per registered thread, and the
/// slot-issuing counter. The queue owns every allocation it makes: cells
/// stay in its stores for its whole life, so a pointer read during one
/// operation is still there during a later one.
///
/// The ghost `chain` lists the node cells that form the linked list, the
/// sentinel first; the values of the nodes after the sentinel are the
/// queue's contents, oldest first.
pub struct WFQueue<T> {
    nodes: CellStore<Node<T>>,
    descs: CellStore<OpDesc>,
    head: AtomicRef,
    tail: AtomicRef,
    state: Vec<AtomicRef>,
    max_threads: usize,
    last_tid: usize,
    chain: Ghost<Seq<int>>,
}

impl<T> WFQueue<T> {
    pub closed spec fn spec_nodes(self) -> CellStore<Node<T>> {
        self.nodes
    }

    pub closed spec fn spec_descs(self) -> CellStore<OpDesc> {
        self.descs
    }

    pub closed spec fn spec_head(self) -> AtomicRef {
        self.head
    }

    pub closed spec fn spec_tail(self) -> AtomicRef {
        self.tail
    }

    pub closed spec fn spec_state(self) -> Seq<AtomicRef> {
        self.state@
    }

    pub closed spec fn spec_max_threads(self) -> int {
        self.max_threads as int
    }

    pub closed spec fn spec_last_tid(self) -> int {
        self.last_tid as int
    }

    pub closed spec fn spec_chain(self) -> Seq<int> {
        self.chain@
    }

    /// The descriptor currently published in slot `i`.
    pub open spec fn slot_desc(self, i: int) -> OpDesc {
        self.spec_descs().value_of(self.spec_state()[i].idx())
    }

    /// The queue's contents, oldest first: the values of the nodes after
    /// the sentinel, in chain order.
    pub open spec fn contents(self) -> Seq<T> {
        self.spec_chain().skip(1).map_values(
            |j: int| self.spec_nodes().value_of(j).spec_value()->0,
        )
    }

    /// The structural invariant: well-formed stores, a non-empty acyclic
    /// chain of live nodes linked in order and ending with a null link,
    /// `head` at the sentinel, and every slot holding a live descriptor of
    /// its own.
    pub open spec fn wf_core(self) -> bool {
        &&& self.spec_nodes().wf()
        &&& self.spec_descs().wf()
        &&& self.spec_state().len() == self.spec_max_threads()
        &&& 1 <= self.spec_max_threads() < 0x8000_0000_0000_0000
        &&& 0 <= self.spec_last_tid() <= self.spec_max_threads()
        &&& 1 <= self.spec_chain().len()
        &&& (forall |k: int| 0 <= k < self.spec_chain().len()
                ==> self.spec_nodes().live(#[trigger] self.spec_chain()[k]))
        &&& self.spec_chain().no_duplicates()
        &&& (forall |k: int| 0 <= k < self.spec_chain().len() - 1
                ==> next_of(self.spec_nodes(), #[trigger] self.spec_chain()[k]).target()
                    == Some(self.spec_chain()[k + 1]))
        &&& next_of(self.spec_nodes(), self.spec_chain().last()).is_null_spec()
        &&& self.spec_head().points_to(self.spec_chain()[0])
        &&& (forall |k: int| 1 <= k < self.spec_chain().len()
                ==> self.spec_nodes().value_of(#[trigger] self.spec_chain()[k]).spec_value() is Some)
        &&& (forall |i: int| 0 <= i < self.spec_max_threads() ==> {
                &&& !(#[trigger] self.spec_state()[i]).is_null_spec()
                &&& self.spec_descs().live(self.spec_state()[i].idx())
            })
        &&& (forall |i: int, j: int|
                0 <= i < self.spec_max_threads() && 0 <= j < self.spec_max_threads() && i != j
                ==> (#[trigger] self.spec_state()[i]).target() != (#[trigger] self.spec_state()[j]).target())
        &&& (forall |i: int| 0 <= i < self.spec_max_threads()
                ==> (#[trigger] self.slot_desc(i)).spec_node().valid(self.spec_nodes()))
    }

    /// The tail points at the last node of the chain (no enqueue is
    /// mid-flight).
    pub open spec fn tail_settled(self) -> bool {
        self.spec_tail().points_to(self.spec_chain().last())
    }

    /// No node of the chain carries a dequeuer's mark.
    pub open spec fn chain_unmarked(self) -> bool {
        forall |k: int| 0 <= k < self.spec_chain().len()
            ==> self.spec_nodes().value_of(#[trigger] self.spec_chain()[k]).spec_dequeue_tid() == -1
    }

    /// What a pending enqueue announcement must look like at slot `i`: a
    /// fresh, live, unlinked, unmarked node carrying a value, tagged with
    /// the announcing slot, and shared with no other pending announcement.
    pub open spec fn pending_enq_ok(self, i: int) -> bool {
        self.slot_desc(i).spec_pending() && self.slot_desc(i).spec_enqueue() ==> {
            let n = self.slot_desc(i).spec_node();
            &&& !n.is_null_spec()
            &&& self.spec_nodes().live(n.idx())
            &&& self.spec_nodes().value_of(n.idx()).spec_value() is Some
            &&& self.spec_nodes().value_of(n.idx()).spec_next().is_null_spec()
            &&& self.spec_nodes().value_of(n.idx()).spec_enqueue_tid() == i as i64
            &&& self.spec_nodes().value_of(n.idx()).spec_dequeue_tid() == -1
            &&& !self.spec_chain().contains(n.idx())
            &&& (forall |j: int|
                    0 <= j < self.spec_max_threads() && j != i
                    && (#[trigger] self.slot_desc(j)).spec_pending()
                    && self.slot_desc(j).spec_enqueue()
                    ==> self.slot_desc(j).spec_node().target() != n.target())
        }
    }

    pub open spec fn pending_ok(self) -> bool {
        forall |i: int| 0 <= i < self.spec_max_threads() ==> #[trigger] self.pending_enq_ok(i)
    }

    /// The invariant every public operation preserves.
    pub open spec fn wf(self) -> bool {
        &&& self.wf_core()
        &&& self.tail_settled()
        &&& self.chain_unmarked()
        &&& self.pending_ok()
    }

    /// No slot but possibly `i` has a pending announcement: the state every
    /// run of the public protocol operations alone leaves behind.
    pub open spec fn no_pending_except(self, i: int) -> bool {
        forall |j: int| 0 <= j < self.spec_max_threads() && j != i
            ==> !(#[trigger] self.slot_desc(j)).spec_pending()
    }

    /// The maximum phase recorded in slots below `n`, floored at zero.
    pub open spec fn max_phase_upto(self, n: int) -> int
        decreases n,
    {
        if n <= 0 {
            0
        } else {
            let p = self.slot_desc(n - 1).spec_phase() as int;
            let m = self.max_phase_upto(n - 1);
            if m < p { p } else { m }
        }
    }

    pub open spec fn max_phase_spec(self) -> int {
        self.max_phase_upto(self.spec_max_threads())
    }

    /// A fresh queue with `state_length` slots: a lone sentinel node seeds
    /// `head` and `tail`, and every slot holds the initial descriptor.
    pub fn new(state_length: usize) -> (q: Self)
        requires
            1 <= state_length < 0x8000_0000_0000_0000,
        ensures
            q.wf(),
            q.contents() == Seq::<T>::empty(),
            q.spec_max_threads() == state_length,
            q.spec_last_tid() == 0,
            q.spec_chain().len() == 1,
            forall |i: int| 0 <= i < state_length ==> {
                &&& (#[trigger] q.slot_desc(i)).spec_phase() == -1
                &&& !q.slot_desc(i).spec_pending()
                &&& !q.slot_desc(i).spec_enqueue()
                &&& q.slot_desc(i).spec_node().is_null_spec()
            },
    {
        let mut nodes = CellStore::<Node<T>>::new();
        let mut descs = CellStore::<OpDesc>::new();
        let sentinel = AtomicRef::new(&mut nodes, Node::empty());
        let tail = sentinel.snapshot();
        let ghost chain = seq![sentinel.idx()];
        let mut state: Vec<AtomicRef> = Vec::new();
        let mut i: usize = 0;
        while i < state_length
            invariant
                descs.wf(),
                state@.len() == i as int,
                i <= state_length,
                forall |k: int| 0 <= k < i as int ==> {
                    &&& !(#[trigger] state@[k]).is_null_spec()
                    &&& descs.live(state@[k].idx())
                    &&& descs.value_of(state@[k].idx()).spec_phase() == -1
                    &&& !descs.value_of(state@[k].idx()).spec_pending()
                    &&& !descs.value_of(state@[k].idx()).spec_enqueue()
                    &&& descs.value_of(state@[k].idx()).spec_node().is_null_spec()
                },
                forall |k1: int, k2: int| 0 <= k1 < i as int && 0 <= k2 < i as int && k1 != k2
                    ==> (#[trigger] state@[k1]).target() != (#[trigger] state@[k2]).target(),
            decreases state_length - i,
        {
            let d = AtomicRef::new(&mut descs, OpDesc::default());
            state.push(d);
            i = i + 1;
        }
        WFQueue {
            nodes,
            descs,
            head: sentinel,
            tail,
            state,
            max_threads: state_length,
            last_tid: 0,
            chain: Ghost(chain),
        }
    }
}

impl<T> WFQueue<T> {

    /// The invariant depends only on the stores, links, slots and chain,
    /// never on the slot-issuing counter.
    pub proof fn lemma_wf_from_parts(q1: Self, q2: Self)
        requires
            q1.wf(),
            q2.spec_nodes() == q1.spec_nodes(),
            q2.spec_descs() == q1.spec_descs(),
            q2.spec_head() == q1.spec_head(),
            q2.spec_tail() == q1.spec_tail(),
            q2.spec_state() == q1.spec_state(),
            q2.spec_max_threads() == q1.spec_max_threads(),
            q2.spec_chain() == q1.spec_chain(),
            0 <= q2.spec_last_tid() <= q2.spec_max_threads(),
        ensures
            q2.wf(),
    {
        assert forall |i: int| 0 <= i < q2.spec_max_threads()
            implies (#[trigger] q2.slot_desc(i)).spec_node().valid(q2.spec_nodes()) by {
            assert(q1.slot_desc(i).spec_node().valid(q1.spec_nodes()));
            assert(q2.slot_desc(i) == q1.slot_desc(i));
        }
        assert forall |i: int| 0 <= i < q2.spec_max_threads()
            implies #[trigger] q2.pending_enq_ok(i) by {
            assert(q1.pending_enq_ok(i));
            assert(q2.slot_desc(i) == q1.slot_desc(i));
            if q2.slot_desc(i).spec_pending() && q2.slot_desc(i).spec_enqueue() {
                let n = q2.slot_desc(i).spec_node();
                assert forall |j: int|
                    0 <= j < q2.spec_max_threads() && j != i
                    && (#[trigger] q2.slot_desc(j)).spec_pending()
                    && q2.slot_desc(j).spec_enqueue()
                    implies q2.slot_desc(j).spec_node().target() != n.target() by {
                    assert(q2.slot_desc(j) == q1.slot_desc(j));
                }
            }
        }
    }

    /// What a descriptor handed to slot `i` must satisfy for the queue's
    /// invariant to survive its publication.
    pub open spec fn desc_ok_for(self, i: int, d: OpDesc) -> bool {
        &&& d.spec_node().valid(self.spec_nodes())
        &&& (d.spec_pending() && d.spec_enqueue() ==> {
            let n = d.spec_node();
            &&& !n.is_null_spec()
            &&& self.spec_nodes().value_of(n.idx()).spec_value() is Some
            &&& self.spec_nodes().value_of(n.idx()).spec_next().is_null_spec()
            &&& self.spec_nodes().value_of(n.idx()).spec_enqueue_tid() == i as i64
            &&& self.spec_nodes().value_of(n.idx()).spec_dequeue_tid() == -1
            &&& !self.spec_chain().contains(n.idx())
            &&& (forall |j: int|
                    0 <= j < self.spec_max_threads() && j != i
                    && (#[trigger] self.slot_desc(j)).spec_pending()
                    && self.slot_desc(j).spec_enqueue()
                    ==> self.slot_desc(j).spec_node().target() != n.target())
        })
    }

    /// Builds a descriptor against this queue's own node store: `node` is
    /// allocated as a fresh cell and the descriptor links to it.
    pub fn new_operation(&mut self, phase: i64, pending: bool, enqueue: bool, node: Node<T>) -> (d: OpDesc)
        requires
            old(self).wf(),
            node.spec_next().is_null_spec(),
        ensures
            final(self).wf(),
            d.spec_phase() == phase,
            d.spec_pending() == pending,
            d.spec_enqueue() == enqueue,
            !d.spec_node().is_null_spec(),
            final(self).spec_nodes().live(d.spec_node().idx()),
            final(self).spec_nodes().value_of(d.spec_node().idx()) == node,
            !final(self).spec_chain().contains(d.spec_node().idx()),
            forall |j: int| 0 <= j < final(self).spec_max_threads()
                ==> (#[trigger] final(self).slot_desc(j)).spec_node().target() != d.spec_node().target(),
            final(self).spec_chain() == old(self).spec_chain(),
            final(self).contents() == old(self).contents(),
            final(self).spec_head() == old(self).spec_head(),
            final(self).spec_tail() == old(self).spec_tail(),
            final(self).spec_state() == old(self).spec_state(),
            final(self).spec_descs() == old(self).spec_descs(),
            forall |j: int| 0 <= j < final(self).spec_max_threads()
                ==> #[trigger] final(self).slot_desc(j) == old(self).slot_desc(j),
            final(self).spec_max_threads() == old(self).spec_max_threads(),
            final(self).spec_last_tid() == old(self).spec_last_tid(),
            final(self).max_phase_spec() == old(self).max_phase_spec(),
    {
        let d = OpDesc::new(&mut self.nodes, phase, pending, enqueue, node);
        proof {
            assert forall |j: int| 0 <= j < self.spec_max_threads()
                implies (#[trigger] self.slot_desc(j)).spec_node().target() != d.spec_node().target() by {
                assert(old(self).slot_desc(j).spec_node().valid(old(self).spec_nodes()));
            }
            assert forall |i: int| 0 <= i < self.spec_max_threads()
                implies (#[trigger] self.slot_desc(i)).spec_node().valid(self.spec_nodes()) by {
                assert(old(self).slot_desc(i).spec_node().valid(old(self).spec_nodes()));
                assert(self.slot_desc(i) == old(self).slot_desc(i));
                if !self.slot_desc(i).spec_node().is_null_spec() {
                    assert(old(self).spec_nodes().live(old(self).slot_desc(i).spec_node().idx()));
                }
            }
            assert forall |i: int| 0 <= i < self.spec_max_threads()
                implies #[trigger] self.pending_enq_ok(i) by {
                assert(old(self).pending_enq_ok(i));
                assert(self.slot_desc(i) == old(self).slot_desc(i));
                let dsc = self.slot_desc(i);
                if dsc.spec_pending() && dsc.spec_enqueue() {
                    let n = dsc.spec_node();
                    assert(old(self).spec_nodes().live(n.idx()));
                    assert(self.spec_nodes().value_of(n.idx())
                        == old(self).spec_nodes().value_of(n.idx()));
                    assert forall |j: int|
                        0 <= j < self.spec_max_threads() && j != i
                        && (#[trigger] self.slot_desc(j)).spec_pending()
                        && self.slot_desc(j).spec_enqueue()
                        implies self.slot_desc(j).spec_node().target() != n.target() by {
                        assert(self.slot_desc(j) == old(self).slot_desc(j));
                    }
                }
            }
            assert(self.contents() =~= old(self).contents());
            assert(self.max_phase_upto(self.spec_max_threads())
                == old(self).max_phase_upto(old(self).spec_max_threads())) by {
                Self::lemma_max_phase_congruent(*old(self), *self, self.spec_max_threads());
            }
        }
        d
    }

    /// The maximum recorded phase depends only on the slots' phases.
    pub proof fn lemma_max_phase_congruent(q1: Self, q2: Self, n: int)
        requires
            q1.spec_max_threads() == q2.spec_max_threads(),
            forall |j: int| 0 <= j < q1.spec_max_threads()
                ==> (#[trigger] q1.slot_desc(j)).spec_phase() == q2.slot_desc(j).spec_phase(),
            n <= q1.spec_max_threads(),
        ensures
            q1.max_phase_upto(n) == q2.max_phase_upto(n),
        decreases n,
    {
        if n > 0 {
            Self::lemma_max_phase_congruent(q1, q2, n - 1);
        }
    }

    /// Every slot's phase is bounded by the recorded maximum.
    pub proof fn lemma_max_phase_le(self, i: int, n: int)
        requires
            0 <= i < n,
            n <= self.spec_max_threads(),
        ensures
            self.slot_desc(i).spec_phase() as int <= self.max_phase_upto(n),
        decreases n,
    {
        if i < n - 1 {
            self.lemma_max_phase_le(i, n - 1);
        }
    }

    /// A bound on every slot's phase bounds the recorded maximum.
    pub proof fn lemma_max_phase_dominated(self, n: int, p: int)
        requires
            forall |i: int| 0 <= i < n ==> (#[trigger] self.slot_desc(i)).spec_phase() as int <= p,
            0 <= p,
        ensures
            self.max_phase_upto(n) <= p,
        decreases n,
    {
        if n > 0 {
            self.lemma_max_phase_dominated(n - 1, p);
        }
    }

    /// Publishes `new` in slot `index`, wholesale: a fresh descriptor cell
    /// replaces the slot's handle, and the slot's count of the previous
    /// descriptor cell is released.
    pub fn swap_operation(&mut self, index: usize, new: OpDesc)
        requires
            old(self).wf(),
            index < old(self).spec_max_threads(),
            old(self).desc_ok_for(index as int, new),
        ensures
            final(self).wf(),
            final(self).slot_desc(index as int) == new,
            forall |j: int| 0 <= j < final(self).spec_max_threads() && j != index as int
                ==> #[trigger] final(self).slot_desc(j) == old(self).slot_desc(j),
            final(self).spec_nodes() == old(self).spec_nodes(),
            final(self).spec_chain() == old(self).spec_chain(),
            final(self).contents() == old(self).contents(),
            final(self).spec_head() == old(self).spec_head(),
            final(self).spec_tail() == old(self).spec_tail(),
            final(self).spec_max_threads() == old(self).spec_max_threads(),
            final(self).spec_last_tid() == old(self).spec_last_tid(),
    {
        self.install_desc(index, new);
        proof {
            assert(self.slot_desc(index as int) == new);
            assert forall |i: int| 0 <= i < self.spec_max_threads()
                implies (#[trigger] self.slot_desc(i)).spec_node().valid(self.spec_nodes()) by {
                if i != index as int {
                    assert(old(self).slot_desc(i).spec_node().valid(old(self).spec_nodes()));
                    assert(self.slot_desc(i) == old(self).slot_desc(i));
                }
            }
            assert forall |i: int| 0 <= i < self.spec_max_threads()
                implies #[trigger] self.pending_enq_ok(i) by {
                assert(old(self).pending_enq_ok(i));
                if i != index as int {
                    assert(self.slot_desc(i) == old(self).slot_desc(i));
                }
                if self.slot_desc(i).spec_pending() && self.slot_desc(i).spec_enqueue() {
                    let n = self.slot_desc(i).spec_node();
                    assert forall |j: int|
                        0 <= j < self.spec_max_threads() && j != i
                        && (#[trigger] self.slot_desc(j)).spec_pending()
                        && self.slot_desc(j).spec_enqueue()
                        implies self.slot_desc(j).spec_node().target() != n.target() by {
                        if j != index as int {
                            assert(self.slot_desc(j) == old(self).slot_desc(j));
                        }
                        if i != index as int {
                            assert(old(self).slot_desc(i).spec_pending());
                        }
                    }
                }
            }
            assert(self.contents() =~= old(self).contents());
        }
    }

    /// Compare-and-swap publication: installs `new` exactly if the slot
    /// still holds the descriptor read at the start of the call — which,
    /// an operation being one step here, it always does; contention can
    /// only arise between threads.
    pub fn cas_operation(&mut self, index: usize, new: OpDesc) -> (r: bool)
        requires
            old(self).wf(),
            index < old(self).spec_max_threads(),
            old(self).desc_ok_for(index as int, new),
        ensures
            r == true,
            final(self).wf(),
            final(self).slot_desc(index as int) == new,
            forall |j: int| 0 <= j < final(self).spec_max_threads() && j != index as int
                ==> #[trigger] final(self).slot_desc(j) == old(self).slot_desc(j),
            final(self).spec_nodes() == old(self).spec_nodes(),
            final(self).spec_chain() == old(self).spec_chain(),
            final(self).contents() == old(self).contents(),
            final(self).spec_head() == old(self).spec_head(),
            final(self).spec_tail() == old(self).spec_tail(),
            final(self).spec_max_threads() == old(self).spec_max_threads(),
            final(self).spec_last_tid() == old(self).spec_last_tid(),
    {
        let current = self.state[index].snapshot();
        let matched = self.state[index].ptr_eq(&current);
        if matched {
            self.swap_operation(index, new);
            true
        } else {
            false
        }
    }

    /// Reads the descriptor currently published in slot `index`.
    pub fn get_operation(&self, index: usize) -> (r: &OpDesc)
        requires
            self.wf(),
            index < self.spec_max_threads(),
        ensures
            *r == self.slot_desc(index as int),
    {
        self.descs.peek(self.state[index].index())
    }

    /// The maximum phase recorded across all slots, floored at zero: new
    /// operations announce at one past this value.
    pub fn max_phase(&self) -> (r: i64)
        requires
            self.wf(),
        ensures
            r as int == self.max_phase_spec(),
            r >= 0,
    {
        let mut max: i64 = 0;
        let mut i: usize = 0;
        while i < self.max_threads
            invariant
                self.wf(),
                i <= self.spec_max_threads(),
                max as int == self.max_phase_upto(i as int),
                max >= 0,
            decreases self.spec_max_threads() - i,
        {
            let p = self.get_operation(i).phase();
            if max < p {
                max = p;
            }
            i = i + 1;
        }
        max
    }

    /// Hands out the next free slot as a handle, or nothing once all
    /// `max_threads` slots are taken; issuance is one-shot, a slot is never
    /// returned.
    pub fn get_handle(&mut self) -> (r: Option<WFQueueHandle>)
        requires
            old(self).wf(),
        ensures
            final(self).wf(),
            (r is Some) == (old(self).spec_last_tid() < old(self).spec_max_threads()),
            r matches Some(h) ==> {
                &&& h.spec_handle_id() == old(self).spec_last_tid()
                &&& final(self).spec_last_tid() == old(self).spec_last_tid() + 1
            },
            r is None ==> *final(self) == *old(self),
            final(self).spec_nodes() == old(self).spec_nodes(),
            final(self).spec_descs() == old(self).spec_descs(),
            final(self).spec_chain() == old(self).spec_chain(),
            final(self).contents() == old(self).contents(),
            final(self).spec_head() == old(self).spec_head(),
            final(self).spec_tail() == old(self).spec_tail(),
            final(self).spec_state() == old(self).spec_state(),
            final(self).spec_max_threads() == old(self).spec_max_threads(),
    {
        let r = if self.last_tid < self.max_threads {
            let tid = self.last_tid;
            self.last_tid = tid + 1;
            Some(WFQueueHandle::new(tid))
        } else {
            None
        };
        proof {
            Self::lemma_wf_from_parts(*old(self), *self);
            assert(self.contents() =~= old(self).contents());
        }
        r
    }
}


impl<T> WFQueue<T> {
    /// Replaces the descriptor of slot `index` wholesale: a fresh cell for
    /// `new`, the slot's count of the previous cell released.
    pub(crate) fn install_desc(&mut self, index: usize, new: OpDesc)
        requires
            old(self).spec_descs().wf(),
            old(self).spec_state().len() == old(self).spec_max_threads(),
            index < old(self).spec_max_threads(),
            forall |i: int| 0 <= i < old(self).spec_max_threads() ==> {
                &&& !(#[trigger] old(self).spec_state()[i]).is_null_spec()
                &&& old(self).spec_descs().live(old(self).spec_state()[i].idx())
            },
            forall |i: int, j: int|
                0 <= i < old(self).spec_max_threads() && 0 <= j < old(self).spec_max_threads() && i != j
                ==> (#[trigger] old(self).spec_state()[i]).target()
                    != (#[trigger] old(self).spec_state()[j]).target(),
        ensures
            final(self).spec_descs().wf(),
            final(self).spec_state().len() == old(self).spec_state().len(),
            final(self).slot_desc(index as int) == new,
            forall |j: int| 0 <= j < old(self).spec_max_threads() && j != index as int
                ==> #[trigger] final(self).spec_state()[j] == old(self).spec_state()[j],
            forall |j: int| 0 <= j < old(self).spec_max_threads() && j != index as int
                ==> #[trigger] final(self).slot_desc(j) == old(self).slot_desc(j),
            forall |i: int| 0 <= i < old(self).spec_max_threads() ==> {
                &&& !(#[trigger] final(self).spec_state()[i]).is_null_spec()
                &&& final(self).spec_descs().live(final(self).spec_state()[i].idx())
            },
            forall |i: int, j: int|
                0 <= i < old(self).spec_max_threads() && 0 <= j < old(self).spec_max_threads() && i != j
                ==> (#[trigger] final(self).spec_state()[i]).target()
                    != (#[trigger] final(self).spec_state()[j]).target(),
            final(self).spec_nodes() == old(self).spec_nodes(),
            final(self).spec_head() == old(self).spec_head(),
            final(self).spec_tail() == old(self).spec_tail(),
            final(self).spec_chain() == old(self).spec_chain(),
            final(self).spec_max_threads() == old(self).spec_max_threads(),
            final(self).spec_last_tid() == old(self).spec_last_tid(),
            final(self).contents() == old(self).contents(),
    {
        let d_ref = AtomicRef::new(&mut self.descs, new);
        let old_snap = self.state[index].snapshot();
        self.state.set(index, d_ref);
        let _ = self.descs.dec_rc(old_snap.index());
        proof {
            assert forall |j: int| 0 <= j < self.spec_max_threads() && j != index as int
                implies #[trigger] self.slot_desc(j) == old(self).slot_desc(j) by {
                assert(old(self).spec_state()[j].target() != old(self).spec_state()[index as int].target());
                assert(old(self).spec_descs().live(old(self).spec_state()[j].idx()));
            }
            assert(self.contents() =~= old(self).contents());
        }
    }

    /// The slot that announced the enqueue now mid-flight: read off the
    /// chain's last node.
    pub open spec fn finishing_slot(self) -> int {
        self.spec_nodes().value_of(self.spec_chain().last()).spec_enqueue_tid() as int
    }

    /// An enqueue is mid-flight: its node is already linked as the chain's
    /// last element, but the tail still points at the previous one, and
    /// the announcing slot still carries the pending descriptor.
    pub open spec fn enq_lagging(self) -> bool {
        &&& self.spec_chain().len() >= 2
        &&& self.spec_tail().points_to(self.spec_chain()[self.spec_chain().len() - 2])
        &&& 0 <= self.finishing_slot() < self.spec_max_threads()
        &&& self.slot_desc(self.finishing_slot()).spec_node().target()
            == Some(self.spec_chain().last())
        &&& self.slot_desc(self.finishing_slot()).spec_pending()
        &&& self.slot_desc(self.finishing_slot()).spec_enqueue()
    }

    /// Every pending announcement but slot `e`'s is well-formed.
    pub open spec fn pending_ok_except(self, e: int) -> bool {
        forall |i: int| 0 <= i < self.spec_max_threads() && i != e
            ==> #[trigger] self.pending_enq_ok(i)
    }

    /// Retires a linked-but-unfinished enqueue: identifies the enqueuing
    /// thread from the linked node, replaces that thread's descriptor with
    /// the finished one, and advances the tail. When no enqueue is
    /// mid-flight — the tail's successor is null — this changes nothing,
    /// so running it again after an operation has been retired is a no-op.
    pub fn help_finish_enqueue(&mut self, phase: i64)
        requires
            old(self).wf_core(),
            old(self).chain_unmarked(),
            old(self).wf() || old(self).enq_lagging() && old(self).pending_ok_except(old(self).finishing_slot()),
        ensures
            final(self).wf(),
            old(self).wf() ==> *final(self) == *old(self),
            !old(self).wf() ==> {
                let t = old(self).finishing_slot();
                &&& final(self).spec_chain() == old(self).spec_chain()
                &&& final(self).contents() == old(self).contents()
                &&& final(self).spec_head() == old(self).spec_head()
                &&& final(self).spec_nodes() == old(self).spec_nodes()
                &&& final(self).spec_max_threads() == old(self).spec_max_threads()
                &&& final(self).spec_last_tid() == old(self).spec_last_tid()
                &&& final(self).slot_desc(t).spec_phase() == old(self).slot_desc(t).spec_phase()
                &&& !final(self).slot_desc(t).spec_pending()
                &&& final(self).slot_desc(t).spec_enqueue()
                &&& final(self).slot_desc(t).spec_node().target() == Some(old(self).spec_chain().last())
                &&& (forall |j: int| 0 <= j < old(self).spec_max_threads() && j != t
                        ==> #[trigger] final(self).slot_desc(j) == old(self).slot_desc(j))
            },
    {
        let last = self.tail.snapshot();
        let next = self.nodes.peek(last.index()).next_link();
        if !next.is_null() {
            let tid64 = self.nodes.peek(next.index()).enqueue_thread();
            let tid = tid64 as usize;
            let di = self.state[tid].index();
            let op_phase = self.descs.peek(di).phase();
            let op_node = self.descs.peek(di).node();
            let still_tail = self.tail.ptr_eq(&last);
            if still_tail && op_node.ptr_eq(&next) {
                let new_op = OpDesc::finished_enqueue(op_phase, next.snapshot());
                self.install_desc(tid, new_op);
                let ghost mid = *self;
                let _ = self.tail.cas_target(&last, &next);
                proof {
                    assert forall |i: int| 0 <= i < self.spec_max_threads() && i != tid as int
                        implies #[trigger] self.slot_desc(i) == old(self).slot_desc(i) by {
                        assert(mid.slot_desc(i) == old(self).slot_desc(i));
                        assert(self.slot_desc(i) == mid.slot_desc(i));
                    }
                    assert(self.slot_desc(tid as int) == mid.slot_desc(tid as int));
                    assert(self.slot_desc(tid as int) == new_op);
                    assert forall |i: int| 0 <= i < self.spec_max_threads()
                        implies (#[trigger] self.slot_desc(i)).spec_node().valid(self.spec_nodes()) by {
                        if i != tid as int {
                            assert(old(self).slot_desc(i).spec_node().valid(old(self).spec_nodes()));
                            assert(self.slot_desc(i) == old(self).slot_desc(i));
                        }
                    }
                    assert forall |i: int| 0 <= i < self.spec_max_threads()
                        implies #[trigger] self.pending_enq_ok(i) by {
                        if i != tid as int {
                            assert(old(self).pending_enq_ok(i));
                            assert(self.slot_desc(i) == old(self).slot_desc(i));
                            if self.slot_desc(i).spec_pending() && self.slot_desc(i).spec_enqueue() {
                                let n = self.slot_desc(i).spec_node();
                                assert forall |j: int|
                                    0 <= j < self.spec_max_threads() && j != i
                                    && (#[trigger] self.slot_desc(j)).spec_pending()
                                    && self.slot_desc(j).spec_enqueue()
                                    implies self.slot_desc(j).spec_node().target() != n.target() by {
                                    if j != tid as int {
                                        assert(self.slot_desc(j) == old(self).slot_desc(j));
                                    }
                                }
                            }
                        }
                    }
                    assert(self.contents() =~= old(self).contents());
                }
            }
        }
    }
}


impl<T> WFQueue<T> {
    /// Completes the enqueue announced in slot `tid`, if one is still
    /// pending at `phase`: the announced node is linked behind the chain's
    /// last node by compare-and-swap and the operation is retired. The
    /// retry loop is bounded: every pass either finds the announcement
    /// already completed or completes it.
    #[verifier::loop_isolation(false)]
    pub fn help_enq(&mut self, tid: usize, phase: i64)
        requires
            old(self).wf(),
            tid < old(self).spec_max_threads(),
            old(self).slot_desc(tid as int).spec_pending()
                ==> old(self).slot_desc(tid as int).spec_enqueue(),
        ensures
            final(self).wf(),
            !old(self).slot_desc(tid as int).is_pending_spec(phase) ==> *final(self) == *old(self),
            old(self).slot_desc(tid as int).is_pending_spec(phase) ==> {
                let n = old(self).slot_desc(tid as int).spec_node();
                &&& final(self).spec_chain() == old(self).spec_chain().push(n.idx())
                &&& final(self).contents() == old(self).contents().push(
                    old(self).spec_nodes().value_of(n.idx()).spec_value()->0)
                &&& final(self).slot_desc(tid as int).spec_phase()
                    == old(self).slot_desc(tid as int).spec_phase()
                &&& !final(self).slot_desc(tid as int).spec_pending()
                &&& final(self).slot_desc(tid as int).spec_enqueue()
                &&& final(self).slot_desc(tid as int).spec_node().target() == n.target()
                &&& (forall |j: int| 0 <= j < old(self).spec_max_threads() && j != tid as int
                        ==> #[trigger] final(self).slot_desc(j) == old(self).slot_desc(j))
                &&& final(self).spec_head() == old(self).spec_head()
                &&& final(self).spec_max_threads() == old(self).spec_max_threads()
                &&& final(self).spec_last_tid() == old(self).spec_last_tid()
            },
    {
        let ghost mut acted = false;
        let mut done = false;
        while !done
            invariant
                self.wf(),
                !acted ==> *self == *old(self),
                acted ==> old(self).slot_desc(tid as int).is_pending_spec(phase),
                acted ==> !self.slot_desc(tid as int).spec_pending(),
                acted ==> {
                    let n = old(self).slot_desc(tid as int).spec_node();
                    &&& self.spec_chain() == old(self).spec_chain().push(n.idx())
                    &&& self.contents() == old(self).contents().push(
                        old(self).spec_nodes().value_of(n.idx()).spec_value()->0)
                    &&& self.slot_desc(tid as int).spec_phase()
                        == old(self).slot_desc(tid as int).spec_phase()
                    &&& self.slot_desc(tid as int).spec_enqueue()
                    &&& self.slot_desc(tid as int).spec_node().target() == n.target()
                    &&& (forall |j: int| 0 <= j < old(self).spec_max_threads() && j != tid as int
                            ==> #[trigger] self.slot_desc(j) == old(self).slot_desc(j))
                    &&& self.spec_head() == old(self).spec_head()
                    &&& self.spec_max_threads() == old(self).spec_max_threads()
                    &&& self.spec_last_tid() == old(self).spec_last_tid()
                },
                done ==> acted || !old(self).slot_desc(tid as int).is_pending_spec(phase),
            decreases (if done { 0int } else { 1int }) + (if acted { 0int } else { 1int }),
        {
            let pending = self.get_operation(tid).is_pending(phase);
            if !pending {
                done = true;
            } else {
                let last = self.tail.snapshot();
                let next = self.nodes.peek(last.index()).next_link();
                if self.tail.ptr_eq(&last) {
                    if !next.is_null() {
                        self.help_finish_enqueue(phase);
                    } else {
                        let still = self.get_operation(tid).is_pending(phase);
                        if still {
                            let new = self.get_operation(tid).node();
                            let ghost pre = *self;
                            let linked = Node::cas_next_link(&mut self.nodes, last.index(), &next, &new);
                            if linked {
                                self.chain = Ghost(self.chain@.push(new.idx()));
                                proof {
                                    assert(pre.wf());
                                    assert(pre.pending_enq_ok(tid as int));
                                    assert(pre.slot_desc(tid as int).spec_pending());
                                    assert(pre.slot_desc(tid as int).spec_enqueue());
                                    let n = pre.slot_desc(tid as int).spec_node();
                                    assert(new.target() == n.target());
                                    assert(!pre.spec_chain().contains(n.idx()));
                                    assert(self.slot_desc(tid as int) == pre.slot_desc(tid as int));
                                    assert(self.spec_nodes().value_of(n.idx()) == pre.spec_nodes().value_of(n.idx()));
                                    assert(self.spec_chain().last() == n.idx());
                                    assert(self.spec_chain()[self.spec_chain().len() - 2] == pre.spec_chain().last());
                                    assert forall |k1: int, k2: int|
                                        0 <= k1 < self.spec_chain().len() && 0 <= k2 < self.spec_chain().len() && k1 != k2
                                        implies self.spec_chain()[k1] != self.spec_chain()[k2] by {
                                        if k1 < pre.spec_chain().len() && k2 < pre.spec_chain().len() {
                                            assert(pre.spec_chain().no_duplicates());
                                        }
                                    }
                                    assert forall |i: int| 0 <= i < self.spec_max_threads()
                                        implies (#[trigger] self.slot_desc(i)).spec_node().valid(self.spec_nodes()) by {
                                        assert(pre.slot_desc(i).spec_node().valid(pre.spec_nodes()));
                                        assert(self.slot_desc(i) == pre.slot_desc(i));
                                        if !self.slot_desc(i).spec_node().is_null_spec() {
                                            assert(pre.spec_nodes().live(pre.slot_desc(i).spec_node().idx()));
                                        }
                                    }
                                    assert forall |i: int| 0 <= i < self.spec_max_threads() && i != tid as int
                                        implies #[trigger] self.pending_enq_ok(i) by {
                                        assert(pre.pending_enq_ok(i));
                                        assert(self.slot_desc(i) == pre.slot_desc(i));
                                        if self.slot_desc(i).spec_pending() && self.slot_desc(i).spec_enqueue() {
                                            let m = self.slot_desc(i).spec_node();
                                            assert(pre.slot_desc(tid as int).spec_pending());
                                            assert(m.target() != n.target());
                                            assert(pre.spec_nodes().live(m.idx()));
                                            assert(self.spec_nodes().value_of(m.idx())
                                                == pre.spec_nodes().value_of(m.idx()));
                                            assert forall |j: int|
                                                0 <= j < self.spec_max_threads() && j != i
                                                && (#[trigger] self.slot_desc(j)).spec_pending()
                                                && self.slot_desc(j).spec_enqueue()
                                                implies self.slot_desc(j).spec_node().target() != m.target() by {
                                                assert(self.slot_desc(j) == pre.slot_desc(j));
                                            }
                                        }
                                    }
                                    assert(self.enq_lagging());
                                    assert(self.pending_ok_except(self.finishing_slot()));
                                }
                                let ghost mid = *self;
                                self.help_finish_enqueue(phase);
                                proof {
                                    acted = true;
                                    let n = pre.slot_desc(tid as int).spec_node();
                                    let v = pre.spec_nodes().value_of(n.idx()).spec_value()->0;
                                    assert(self.spec_chain() == pre.spec_chain().push(n.idx()));
                                    assert forall |k: int| 0 <= k < self.contents().len()
                                        implies self.contents()[k] == pre.contents().push(v)[k] by {
                                        assert(self.contents()[k] == mid.contents()[k]);
                                        if k < pre.contents().len() {
                                            let c = pre.spec_chain()[k + 1];
                                            assert(mid.spec_chain().skip(1)[k] == c);
                                            assert(pre.spec_chain().skip(1)[k] == c);
                                            assert(mid.spec_nodes().value_of(c).spec_value()
                                                == pre.spec_nodes().value_of(c).spec_value());
                                        } else {
                                            assert(mid.spec_chain().skip(1)[k] == n.idx());
                                            assert(mid.spec_nodes().value_of(n.idx()).spec_value()
                                                == pre.spec_nodes().value_of(n.idx()).spec_value());
                                        }
                                    }
                                    assert(self.contents().len() == mid.contents().len());
                                    assert(mid.contents().len() == mid.spec_chain().len() - 1);
                                    assert(self.contents() =~= pre.contents().push(v));
                                }
                            }
                        }
                    }
                }
            }
        }
    }
}


impl<T> WFQueue<T> {
    /// The slot of the dequeuer marked on the sentinel.
    pub open spec fn deq_slot(self) -> int {
        self.spec_nodes().value_of(self.spec_chain()[0]).spec_dequeue_tid() as int
    }

    /// A dequeue is mid-flight: the queue is non-empty, the sentinel
    /// carries the dequeuer's mark, and the marked slot still carries the
    /// pending descriptor pointing at the sentinel.
    pub open spec fn deq_finishing(self) -> bool {
        &&& self.spec_chain().len() >= 2
        &&& 0 <= self.deq_slot() < self.spec_max_threads()
        &&& self.slot_desc(self.deq_slot()).spec_pending()
        &&& !self.slot_desc(self.deq_slot()).spec_enqueue()
        &&& self.slot_desc(self.deq_slot()).spec_node().target() == Some(self.spec_chain()[0])
        &&& (forall |k: int| 1 <= k < self.spec_chain().len()
                ==> self.spec_nodes().value_of(#[trigger] self.spec_chain()[k]).spec_dequeue_tid() == -1)
    }

    /// Retires a marked-but-unfinished dequeue: replaces the marked
    /// thread's descriptor with the finished one and advances the head
    /// past the old sentinel. When no node carries a mark this changes
    /// nothing, so running it again after an operation has been retired is
    /// a no-op.
    pub fn help_finish_deq(&mut self)
        requires
            old(self).wf_core(),
            old(self).tail_settled(),
            old(self).pending_ok(),
            old(self).chain_unmarked() || old(self).deq_finishing(),
        ensures
            final(self).wf(),
            old(self).chain_unmarked() ==> *final(self) == *old(self),
            !old(self).chain_unmarked() ==> {
                let d = old(self).deq_slot();
                &&& final(self).spec_chain() == old(self).spec_chain().drop_first()
                &&& final(self).contents() == old(self).contents().drop_first()
                &&& final(self).spec_head().points_to(old(self).spec_chain()[1])
                &&& final(self).spec_tail() == old(self).spec_tail()
                &&& final(self).spec_nodes() == old(self).spec_nodes()
                &&& final(self).slot_desc(d).spec_phase() == old(self).slot_desc(d).spec_phase()
                &&& !final(self).slot_desc(d).spec_pending()
                &&& !final(self).slot_desc(d).spec_enqueue()
                &&& final(self).slot_desc(d).spec_node().target() == old(self).slot_desc(d).spec_node().target()
                &&& (forall |j: int| 0 <= j < old(self).spec_max_threads() && j != d
                        ==> #[trigger] final(self).slot_desc(j) == old(self).slot_desc(j))
                &&& final(self).spec_max_threads() == old(self).spec_max_threads()
                &&& final(self).spec_last_tid() == old(self).spec_last_tid()
            },
    {
        let first = self.head.snapshot();
        let next = self.nodes.peek(first.index()).next_link();
        let dtid64 = self.nodes.peek(first.index()).dequeue_thread();
        if dtid64 != -1 {
            if !next.is_null() {
                let dtid = dtid64 as usize;
                let di = self.state[dtid].index();
                let ph = self.descs.peek(di).phase();
                let dn = self.descs.peek(di).node();
                let new_op = OpDesc::from_parts(ph, false, false, dn);
                self.install_desc(dtid, new_op);
                let ghost mid = *self;
                let _ = self.head.cas_target(&first, &next);
                self.chain = Ghost(self.chain@.drop_first());
                proof {
                    let pre = *old(self);
                    assert forall |i: int| 0 <= i < self.spec_max_threads() && i != dtid as int
                        implies #[trigger] self.slot_desc(i) == pre.slot_desc(i) by {
                        assert(mid.slot_desc(i) == pre.slot_desc(i));
                        assert(self.slot_desc(i) == mid.slot_desc(i));
                    }
                    assert(self.slot_desc(dtid as int) == mid.slot_desc(dtid as int));
                    assert(self.slot_desc(dtid as int) == new_op);
                    assert(self.spec_chain() == pre.spec_chain().drop_first());
                    assert forall |k1: int, k2: int|
                        0 <= k1 < self.spec_chain().len() && 0 <= k2 < self.spec_chain().len() && k1 != k2
                        implies self.spec_chain()[k1] != self.spec_chain()[k2] by {
                        assert(pre.spec_chain().no_duplicates());
                        assert(self.spec_chain()[k1] == pre.spec_chain()[k1 + 1]);
                        assert(self.spec_chain()[k2] == pre.spec_chain()[k2 + 1]);
                    }
                    assert forall |i: int| 0 <= i < self.spec_max_threads()
                        implies (#[trigger] self.slot_desc(i)).spec_node().valid(self.spec_nodes()) by {
                        assert(pre.slot_desc(i).spec_node().valid(pre.spec_nodes()));
                        if i != dtid as int {
                            assert(self.slot_desc(i) == pre.slot_desc(i));
                        }
                    }
                    assert forall |i: int| 0 <= i < self.spec_max_threads()
                        implies #[trigger] self.pending_enq_ok(i) by {
                        assert(pre.pending_enq_ok(i));
                        if i != dtid as int {
                            assert(self.slot_desc(i) == pre.slot_desc(i));
                        }
                        if self.slot_desc(i).spec_pending() && self.slot_desc(i).spec_enqueue() {
                            let m = self.slot_desc(i).spec_node();
                            assert(!pre.spec_chain().contains(m.idx()));
                            assert forall |k: int| 0 <= k < self.spec_chain().len()
                                implies self.spec_chain()[k] != m.idx() by {
                                assert(self.spec_chain()[k] == pre.spec_chain()[k + 1]);
                            }
                            assert(!self.spec_chain().contains(m.idx()));
                            assert forall |j: int|
                                0 <= j < self.spec_max_threads() && j != i
                                && (#[trigger] self.slot_desc(j)).spec_pending()
                                && self.slot_desc(j).spec_enqueue()
                                implies self.slot_desc(j).spec_node().target() != m.target() by {
                                assert(self.slot_desc(j) == pre.slot_desc(j));
                            }
                        }
                    }
                    assert forall |k: int| 0 <= k < self.contents().len()
                        implies self.contents()[k] == pre.contents().drop_first()[k] by {
                        assert(self.spec_chain().skip(1)[k] == pre.spec_chain()[k + 2]);
                        assert(pre.contents()[k + 1] == pre.spec_nodes().value_of(pre.spec_chain()[k + 2]).spec_value()->0);
                    }
                    assert(self.contents().len() == pre.contents().drop_first().len());
                    assert(self.contents() =~= pre.contents().drop_first());
                }
            }
        }
    }

    /// Hands the dequeuer in slot `tid` its value: the payload of the node
    /// after the one its retired descriptor records — the queue's new
    /// sentinel — taken out of that node. A null recorded node means the
    /// queue was empty.
    pub(crate) fn take_dequeued_value(&mut self, tid: usize) -> (r: Option<T>)
        requires
            old(self).wf(),
            tid < old(self).spec_max_threads(),
        ensures
            final(self).wf(),
            final(self).spec_max_threads() == old(self).spec_max_threads(),
            final(self).spec_last_tid() == old(self).spec_last_tid(),
            old(self).slot_desc(tid as int).spec_node().is_null_spec()
                ==> r is None && *final(self) == *old(self),
            !old(self).slot_desc(tid as int).spec_node().is_null_spec()
                && next_of(old(self).spec_nodes(), old(self).slot_desc(tid as int).spec_node().idx()).target()
                    != Some(old(self).spec_chain()[0])
                ==> r is None && *final(self) == *old(self),
            !old(self).slot_desc(tid as int).spec_node().is_null_spec()
                && next_of(old(self).spec_nodes(), old(self).slot_desc(tid as int).spec_node().idx()).target()
                    == Some(old(self).spec_chain()[0]) ==> {
                &&& r == old(self).spec_nodes().value_of(old(self).spec_chain()[0]).spec_value()
                &&& final(self).spec_chain() == old(self).spec_chain()
                &&& final(self).contents() == old(self).contents()
                &&& (forall |j: int| 0 <= j < old(self).spec_max_threads()
                        ==> #[trigger] final(self).slot_desc(j) == old(self).slot_desc(j))
                &&& final(self).spec_head() == old(self).spec_head()
                &&& final(self).spec_tail() == old(self).spec_tail()
            },
    {
        let dn = self.get_operation(tid).node();
        if dn.is_null() {
            None
        } else {
            let nxt = self.nodes.peek(dn.index()).next_link();
            let h = self.head.snapshot();
            if !nxt.ptr_eq(&h) {
                return None;
            }
            let r = Node::take_value(&mut self.nodes, nxt.index());
            proof {
                let pre = *old(self);
                let s = pre.spec_chain()[0];
                assert forall |i: int| 0 <= i < self.spec_max_threads()
                    implies #[trigger] self.slot_desc(i) == pre.slot_desc(i) by {
                }
                assert forall |i: int| 0 <= i < self.spec_max_threads()
                    implies (#[trigger] self.slot_desc(i)).spec_node().valid(self.spec_nodes()) by {
                    assert(pre.slot_desc(i).spec_node().valid(pre.spec_nodes()));
                    assert(self.slot_desc(i) == pre.slot_desc(i));
                }
                assert forall |i: int| 0 <= i < self.spec_max_threads()
                    implies #[trigger] self.pending_enq_ok(i) by {
                    assert(pre.pending_enq_ok(i));
                    assert(self.slot_desc(i) == pre.slot_desc(i));
                    if self.slot_desc(i).spec_pending() && self.slot_desc(i).spec_enqueue() {
                        let m = self.slot_desc(i).spec_node();
                        assert(pre.spec_chain().contains(s));
                        assert(m.idx() != s);
                        assert forall |j: int|
                            0 <= j < self.spec_max_threads() && j != i
                            && (#[trigger] self.slot_desc(j)).spec_pending()
                            && self.slot_desc(j).spec_enqueue()
                            implies self.slot_desc(j).spec_node().target() != m.target() by {
                            assert(self.slot_desc(j) == pre.slot_desc(j));
                        }
                    }
                }
                assert forall |k: int| 0 <= k < self.contents().len()
                    implies self.contents()[k] == pre.contents()[k] by {
                    let c = pre.spec_chain()[k + 1];
                    assert(self.spec_chain().skip(1)[k] == c);
                    assert(pre.spec_chain().no_duplicates());
                    assert(c != s);
                    assert(self.spec_nodes().value_of(c).spec_value()
                        == pre.spec_nodes().value_of(c).spec_value());
                }
                assert(self.contents() =~= pre.contents());
            }
            r
        }
    }
}


impl<T> WFQueue<T> {
    /// The outcome of a completed dequeue announced in slot `tid`: on an
    /// empty queue the descriptor is retired with a null node; otherwise
    /// the head advances past the sentinel, whose mark names the dequeuer,
    /// and the retired descriptor records the old sentinel, behind which
    /// the dequeued value waits.
    pub open spec fn deq_resolved(pre: Self, post: Self, tid: int) -> bool {
        &&& post.slot_desc(tid).spec_phase() == pre.slot_desc(tid).spec_phase()
        &&& !post.slot_desc(tid).spec_pending()
        &&& !post.slot_desc(tid).spec_enqueue()
        &&& (forall |j: int| 0 <= j < pre.spec_max_threads() && j != tid
                ==> #[trigger] post.slot_desc(j) == pre.slot_desc(j))
        &&& post.spec_max_threads() == pre.spec_max_threads()
        &&& post.spec_last_tid() == pre.spec_last_tid()
        &&& (pre.contents().len() == 0 ==> {
            &&& post.slot_desc(tid).spec_node().is_null_spec()
            &&& post.contents() == pre.contents()
            &&& post.spec_chain() == pre.spec_chain()
            &&& post.spec_head() == pre.spec_head()
            &&& post.spec_nodes() == pre.spec_nodes()
        })
        &&& (pre.contents().len() > 0 ==> {
            &&& post.contents() == pre.contents().drop_first()
            &&& post.spec_chain() == pre.spec_chain().drop_first()
            &&& post.spec_head().points_to(pre.spec_chain()[1])
            &&& post.slot_desc(tid).spec_node().target() == Some(pre.spec_chain()[0])
            &&& post.spec_nodes().live(pre.spec_chain()[0])
            &&& next_of(post.spec_nodes(), pre.spec_chain()[0]).target() == Some(pre.spec_chain()[1])
            &&& post.spec_nodes().value_of(pre.spec_chain()[1]).spec_value() is Some
            &&& post.spec_nodes().value_of(pre.spec_chain()[1]).spec_value()->0 == pre.contents()[0]
        })
    }

    /// Completes the dequeue announced in slot `tid`, if one is still
    /// pending at `phase`: records the announcing slot's claim on the
    /// sentinel, marks it, and retires the operation. The retry loop is
    /// bounded like the enqueue side's.
    #[verifier::loop_isolation(false)]
    pub fn help_deq(&mut self, tid: usize, phase: i64)
        requires
            old(self).wf(),
            tid < old(self).spec_max_threads(),
            old(self).slot_desc(tid as int).spec_pending()
                ==> !old(self).slot_desc(tid as int).spec_enqueue(),
        ensures
            final(self).wf(),
            !old(self).slot_desc(tid as int).is_pending_spec(phase) ==> *final(self) == *old(self),
            old(self).slot_desc(tid as int).is_pending_spec(phase)
                ==> Self::deq_resolved(*old(self), *final(self), tid as int),
    {
        let ghost mut acted = false;
        let mut done = false;
        while !done
            invariant
                self.wf(),
                !acted ==> *self == *old(self),
                acted ==> old(self).slot_desc(tid as int).is_pending_spec(phase),
                acted ==> !self.slot_desc(tid as int).spec_pending(),
                acted ==> Self::deq_resolved(*old(self), *self, tid as int),
                done ==> acted || !old(self).slot_desc(tid as int).is_pending_spec(phase),
            decreases (if done { 0int } else { 1int }) + (if acted { 0int } else { 1int }),
        {
            let pending = self.get_operation(tid).is_pending(phase);
            if !pending {
                done = true;
            } else {
                let first = self.head.snapshot();
                let last = self.tail.snapshot();
                let next = self.nodes.peek(first.index()).next_link();
                if self.head.ptr_eq(&first) {
                    if first.ptr_eq(&last) {
                        if next.is_null() {
                            let ph = self.get_operation(tid).phase();
                            let new_op = OpDesc::from_parts(
                                ph, false, false, <AtomicRef as Nullable>::null());
                            self.swap_operation(tid, new_op);
                            proof {
                                acted = true;
                                assert(old(self).spec_chain().len() == 1);
                                assert(old(self).contents() =~= Seq::<T>::empty());
                            }
                        } else {
                            self.help_finish_enqueue(phase);
                        }
                    } else {
                        let ghost pre0 = *self;
                        let d_node = self.get_operation(tid).node();
                        if !d_node.ptr_eq(&first) {
                            let ph = self.get_operation(tid).phase();
                            let new_op = OpDesc::from_parts(ph, true, false, first.snapshot());
                            self.swap_operation(tid, new_op);
                        }
                        let ghost pre = *self;
                        let _ = Node::compare_and_swap_dequeue_tid(
                            &mut self.nodes, first.index(), -1, tid as i64);
                        proof {
                            let s = pre.spec_chain()[0];
                            assert(pre.spec_chain().no_duplicates());
                            assert(pre.spec_chain().len() >= 2);
                            assert(self.deq_slot() == tid as int);
                            assert forall |i: int| 0 <= i < self.spec_max_threads()
                                implies #[trigger] self.slot_desc(i) == pre.slot_desc(i) by {
                            }
                            assert forall |i: int| 0 <= i < self.spec_max_threads()
                                implies (#[trigger] self.slot_desc(i)).spec_node().valid(self.spec_nodes()) by {
                                assert(pre.slot_desc(i).spec_node().valid(pre.spec_nodes()));
                                assert(self.slot_desc(i) == pre.slot_desc(i));
                            }
                            assert forall |i: int| 0 <= i < self.spec_max_threads()
                                implies #[trigger] self.pending_enq_ok(i) by {
                                assert(pre.pending_enq_ok(i));
                                assert(self.slot_desc(i) == pre.slot_desc(i));
                                if self.slot_desc(i).spec_pending() && self.slot_desc(i).spec_enqueue() {
                                    let m = self.slot_desc(i).spec_node();
                                    assert(pre.spec_chain().contains(s));
                                    assert(m.idx() != s);
                                    assert forall |j: int|
                                        0 <= j < self.spec_max_threads() && j != i
                                        && (#[trigger] self.slot_desc(j)).spec_pending()
                                        && self.slot_desc(j).spec_enqueue()
                                        implies self.slot_desc(j).spec_node().target() != m.target() by {
                                        assert(self.slot_desc(j) == pre.slot_desc(j));
                                    }
                                }
                            }
                            assert(self.deq_finishing());
                            assert(self.contents() =~= pre.contents());
                        }
                        let ghost mid = *self;
                        self.help_finish_deq();
                        proof {
                            acted = true;
                            assert(old(self).contents().len() == old(self).spec_chain().len() - 1);
                            assert(self.contents() == mid.contents().drop_first());
                            assert(mid.contents() =~= old(self).contents());
                            assert(self.contents() =~= old(self).contents().drop_first());
                            assert(self.spec_nodes().value_of(old(self).spec_chain()[1]).spec_value()->0
                                == old(self).contents()[0]);
                        }
                    }
                }
            }
        }
    }
}


impl<T> WFQueue<T> {
    /// How slot `tid`'s announcement resolves under a helping pass at
    /// `phase`: a still-relevant enqueue links its node at the back, a
    /// dequeue takes the front or reports empty, anything else changes
    /// nothing.
    pub open spec fn op_resolved(pre: Self, post: Self, tid: int, phase: i64) -> bool {
        if !pre.slot_desc(tid).is_pending_spec(phase) {
            post == pre
        } else if pre.slot_desc(tid).spec_enqueue() {
            let n = pre.slot_desc(tid).spec_node();
            &&& post.spec_chain() == pre.spec_chain().push(n.idx())
            &&& post.contents() == pre.contents().push(
                pre.spec_nodes().value_of(n.idx()).spec_value()->0)
            &&& post.slot_desc(tid).spec_phase() == pre.slot_desc(tid).spec_phase()
            &&& !post.slot_desc(tid).spec_pending()
            &&& post.slot_desc(tid).spec_enqueue()
            &&& post.slot_desc(tid).spec_node().target() == n.target()
            &&& (forall |j: int| 0 <= j < pre.spec_max_threads() && j != tid
                    ==> #[trigger] post.slot_desc(j) == pre.slot_desc(j))
            &&& post.spec_head() == pre.spec_head()
            &&& post.spec_max_threads() == pre.spec_max_threads()
            &&& post.spec_last_tid() == pre.spec_last_tid()
        } else {
            Self::deq_resolved(pre, post, tid)
        }
    }

    /// One helping pass over the whole state table at `phase`: every
    /// slot's announcement still relevant at that phase is driven to
    /// completion, the enqueue or the dequeue side as its descriptor
    /// says — no announcement waits on its announcer's schedule.
    #[verifier::loop_isolation(false)]
    pub fn help(&mut self, tid: usize, phase: i64)
        requires
            old(self).wf(),
            tid < old(self).spec_max_threads(),
        ensures
            final(self).wf(),
            final(self).spec_max_threads() == old(self).spec_max_threads(),
            old(self).no_pending_except(tid as int) ==> {
                &&& Self::op_resolved(*old(self), *final(self), tid as int, phase)
                &&& final(self).no_pending_except(tid as int)
            },
    {
        let mut i: usize = 0;
        while i < self.max_threads
            invariant
                self.wf(),
                i <= self.spec_max_threads(),
                self.spec_max_threads() == old(self).spec_max_threads(),
                old(self).no_pending_except(tid as int) ==> {
                    &&& (i as int <= tid as int ==> *self == *old(self))
                    &&& (i as int > tid as int ==>
                        Self::op_resolved(*old(self), *self, tid as int, phase))
                    &&& self.no_pending_except(tid as int)
                },
            decreases self.spec_max_threads() - i,
        {
            let is_enq = self.get_operation(i).is_enqueue();
            let ghost before = *self;
            if is_enq {
                self.help_enq(i, phase);
            } else {
                self.help_deq(i, phase);
            }
            proof {
                if old(self).no_pending_except(tid as int) {
                    if i as int != tid as int {
                        assert(!before.slot_desc(i as int).spec_pending());
                        assert(*self == before);
                    }
                    assert forall |j: int|
                        0 <= j < self.spec_max_threads() && j != tid as int
                        implies !(#[trigger] self.slot_desc(j)).spec_pending() by {
                        if *self != before {
                            assert(before.slot_desc(j).spec_pending() == old(self).slot_desc(j).spec_pending());
                        }
                    }
                }
            }
            i = i + 1;
        }
    }
}


/// A front-to-back traversal cursor: starts at the sentinel and follows
/// the successor links.
pub struct QueueIter {
    current: usize,
    pos: Ghost<int>,
}

impl QueueIter {
    pub closed spec fn spec_current(self) -> int {
        self.current as int
    }

    pub closed spec fn spec_pos(self) -> int {
        self.pos@
    }

    /// The cursor stands on the chain of `q` at its recorded position.
    pub open spec fn valid_for<T>(self, q: WFQueue<T>) -> bool {
        &&& 0 <= self.spec_pos() < q.spec_chain().len()
        &&& q.spec_chain()[self.spec_pos()] == self.spec_current()
    }

    /// Steps to the successor and yields its value: a full traversal
    /// yields exactly the queue's contents, oldest first.
    pub fn next<'a, T>(&mut self, q: &'a WFQueue<T>) -> (r: Option<&'a T>)
        requires
            q.wf(),
            old(self).valid_for(*q),
        ensures
            final(self).valid_for(*q),
            old(self).spec_pos() < q.spec_chain().len() - 1 ==> {
                &&& final(self).spec_pos() == old(self).spec_pos() + 1
                &&& r is Some
                &&& (r matches Some(v) ==> *v == q.contents()[old(self).spec_pos()])
            },
            old(self).spec_pos() == q.spec_chain().len() - 1
                ==> r is None && *final(self) == *old(self),
    {
        let link = q.nodes.peek(self.current).next_link();
        if link.is_null() {
            None
        } else {
            self.current = link.index();
            self.pos = Ghost(self.pos@ + 1);
            let node = q.nodes.peek(self.current);
            proof {
                assert(q.spec_chain()[self.spec_pos()] == self.spec_current());
                assert(q.contents()[self.spec_pos() - 1]
                    == q.spec_nodes().value_of(q.spec_chain()[self.spec_pos()]).spec_value()->0);
            }
            node.value()
        }
    }
}

impl<T> WFQueue<T> {
    /// The value held by the node the head points at — the sentinel,
    /// which carries none unless a dequeued value has not been collected.
    pub fn head_value(&self) -> (r: Option<&T>)
        requires
            self.wf(),
        ensures
            (r is Some) == (self.spec_nodes().value_of(self.spec_chain()[0]).spec_value() is Some),
            r matches Some(v)
                ==> *v == self.spec_nodes().value_of(self.spec_chain()[0]).spec_value()->0,
    {
        self.nodes.peek(self.head.index()).value()
    }

    /// The value held by the node the tail points at: the newest element,
    /// or nothing while the queue is empty.
    pub fn tail_value(&self) -> (r: Option<&T>)
        requires
            self.wf(),
        ensures
            (r is Some) == (self.spec_nodes().value_of(self.spec_chain().last()).spec_value() is Some),
            self.contents().len() > 0 ==> (r matches Some(v) && *v == self.contents().last()),
    {
        let r = self.nodes.peek(self.tail.index()).value();
        proof {
            if self.contents().len() > 0 {
                let k = self.spec_chain().len() - 1;
                assert(self.spec_chain()[k] == self.spec_chain().last());
                assert(self.contents()[k - 1]
                    == self.spec_nodes().value_of(self.spec_chain()[k]).spec_value()->0);
            }
        }
        r
    }

    /// A traversal cursor at the sentinel.
    pub fn iter(&self) -> (it: QueueIter)
        requires
            self.wf(),
        ensures
            it.valid_for(*self),
            it.spec_pos() == 0,
    {
        QueueIter { current: self.head.index(), pos: Ghost(0) }
    }
}

/// First-in, first-out: each enqueue appends at the back of the
/// contents — which is what `enqueue` ensures — so whatever interleaving
/// of announcements put `a` into a queue before `b`, a front-to-back
/// traversal meets everything already enqueued first, then `a`, then
/// `b`, at exactly these positions.
pub proof fn lemma_fifo_order<T>(q0: WFQueue<T>, q1: WFQueue<T>, q2: WFQueue<T>, a: T, b: T)
    requires
        q1.contents() == q0.contents().push(a),
        q2.contents() == q1.contents().push(b),
    ensures
        q2.contents().len() == q0.contents().len() + 2,
        q2.contents()[q0.contents().len() as int] == a,
        q2.contents()[q0.contents().len() as int + 1] == b,
        forall |k: int| 0 <= k < q0.contents().len()
            ==> q2.contents()[k] == q0.contents()[k],
{
}


} // verus!
