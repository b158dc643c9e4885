use vstd::prelude::*;
use crate::atomic_ref::AtomicRef;
use crate::atomic_ref::Nullable;
use crate::node::Node;
use crate::op_desc::OpDesc;
use crate::wf_queue::WFQueue;

verus! {

/// A thin capability bound to one slot of a queue's state table; the
/// queue itself is passed to each operation.
pub struct WFQueueHandle {
    handle_id: usize,
}

impl WFQueueHandle {
    pub closed spec fn spec_handle_id(self) -> int {
        self.handle_id as int
    }

    pub fn new(handle_id: usize) -> (h: Self)
        ensures
            h.spec_handle_id() == handle_id,
    {
        WFQueueHandle { handle_id }
    }

    pub fn handle_id(&self) -> (r: usize)
        ensures
            r == self.spec_handle_id(),
    {
        self.handle_id
    }

    /// Announces the value in this handle's slot at one past the maximum
    /// recorded phase, runs the helping pass over every slot, and retires
    /// the tail. When no other slot has a pending announcement — the only
    /// state the protocol operations themselves ever leave behind — the
    /// value lands at the back of the queue and no other slot is touched.
    pub fn enqueue<T>(&self, q: &mut WFQueue<T>, value: T)
        requires
            old(q).wf(),
            self.spec_handle_id() < old(q).spec_max_threads(),
            old(q).max_phase_spec() < i64::MAX,
        ensures
            final(q).wf(),
            final(q).spec_max_threads() == old(q).spec_max_threads(),
            old(q).no_pending_except(self.spec_handle_id()) ==> {
                &&& final(q).spec_last_tid() == old(q).spec_last_tid()
                &&& final(q).contents() == old(q).contents().push(value)
                &&& (forall |j: int|
                        0 <= j < old(q).spec_max_threads() && j != self.spec_handle_id()
                        ==> #[trigger] final(q).slot_desc(j) == old(q).slot_desc(j))
                &&& !final(q).slot_desc(self.spec_handle_id()).spec_pending()
                &&& final(q).slot_desc(self.spec_handle_id()).spec_enqueue()
                &&& final(q).slot_desc(self.spec_handle_id()).spec_phase() as int
                    == old(q).max_phase_spec() + 1
                &&& final(q).max_phase_spec() == old(q).max_phase_spec() + 1
                &&& final(q).no_pending_except(self.spec_handle_id())
            },
    {
        let phase = q.max_phase() + 1;
        let tid = self.handle_id;
        let node = Node::new(value, tid as i64);
        let d = q.new_operation(phase, true, true, node);
        q.swap_operation(tid, d);
        let ghost announced = *q;
        q.help(tid, phase);
        let ghost helped = *q;
        q.help_finish_enqueue(phase);
        proof {
            if old(q).no_pending_except(tid as int) {
                assert(announced.no_pending_except(tid as int));
                assert(announced.slot_desc(tid as int).is_pending_spec(phase));
                assert(announced.slot_desc(tid as int).spec_enqueue());
                assert(WFQueue::op_resolved(announced, helped, tid as int, phase));
                assert(helped.contents() == announced.contents().push(value));
                assert(*q == helped);
                let m = old(q).max_phase_spec();
                assert forall |i: int| 0 <= i < q.spec_max_threads()
                    implies (#[trigger] q.slot_desc(i)).spec_phase() as int <= m + 1 by {
                    if i != tid as int {
                        assert(q.slot_desc(i) == old(q).slot_desc(i));
                        old(q).lemma_max_phase_le(i, old(q).spec_max_threads());
                    }
                }
                q.lemma_max_phase_dominated(q.spec_max_threads(), m + 1);
                q.lemma_max_phase_le(tid as int, q.spec_max_threads());
            }
        }
    }

    /// Announces a dequeue in this handle's slot, runs the helping pass,
    /// retires the head, and takes the dequeued value — the front of the
    /// queue, or nothing when the queue is empty.
    pub fn dequeue<T>(&self, q: &mut WFQueue<T>) -> (r: Option<T>)
        requires
            old(q).wf(),
            self.spec_handle_id() < old(q).spec_max_threads(),
            old(q).max_phase_spec() < i64::MAX,
        ensures
            final(q).wf(),
            final(q).spec_max_threads() == old(q).spec_max_threads(),
            old(q).no_pending_except(self.spec_handle_id()) ==> {
                &&& final(q).spec_last_tid() == old(q).spec_last_tid()
                &&& (old(q).contents().len() == 0 ==> r is None
                        && final(q).contents() == old(q).contents())
                &&& (old(q).contents().len() > 0 ==> {
                    &&& r == Some(old(q).contents()[0])
                    &&& final(q).contents() == old(q).contents().drop_first()
                })
                &&& (forall |j: int|
                        0 <= j < old(q).spec_max_threads() && j != self.spec_handle_id()
                        ==> #[trigger] final(q).slot_desc(j) == old(q).slot_desc(j))
                &&& !final(q).slot_desc(self.spec_handle_id()).spec_pending()
                &&& final(q).max_phase_spec() == old(q).max_phase_spec() + 1
                &&& final(q).no_pending_except(self.spec_handle_id())
            },
    {
        let phase = q.max_phase() + 1;
        let tid = self.handle_id;
        let d = OpDesc::from_parts(phase, true, false, <AtomicRef as Nullable>::null());
        q.swap_operation(tid, d);
        let ghost announced = *q;
        q.help(tid, phase);
        let ghost helped = *q;
        q.help_finish_deq();
        let ghost retired = *q;
        let r = q.take_dequeued_value(tid);
        proof {
            if old(q).no_pending_except(tid as int) {
                assert(announced.no_pending_except(tid as int));
                assert(announced.slot_desc(tid as int).is_pending_spec(phase));
                assert(!announced.slot_desc(tid as int).spec_enqueue());
                assert(WFQueue::op_resolved(announced, helped, tid as int, phase));
                assert(WFQueue::deq_resolved(announced, helped, tid as int));
                assert(retired == helped);
                if announced.contents().len() > 0 {
                    assert(helped.slot_desc(tid as int).spec_node().target()
                        == Some(announced.spec_chain()[0]));
                    assert(r == Some(announced.contents()[0]));
                }
                let m = old(q).max_phase_spec();
                assert forall |i: int| 0 <= i < q.spec_max_threads()
                    implies (#[trigger] q.slot_desc(i)).spec_phase() as int <= m + 1 by {
                    if i != tid as int {
                        assert(q.slot_desc(i) == old(q).slot_desc(i));
                        old(q).lemma_max_phase_le(i, old(q).spec_max_threads());
                    }
                }
                q.lemma_max_phase_dominated(q.spec_max_threads(), m + 1);
                q.lemma_max_phase_le(tid as int, q.spec_max_threads());
            }
        }
        r
    }

    /// Publishes a descriptor in this handle's slot, wholesale.
    pub fn set_current_operation<T>(&self, q: &mut WFQueue<T>, new: OpDesc)
        requires
            old(q).wf(),
            self.spec_handle_id() < old(q).spec_max_threads(),
            old(q).desc_ok_for(self.spec_handle_id(), new),
        ensures
            final(q).wf(),
            final(q).slot_desc(self.spec_handle_id()) == new,
            forall |j: int| 0 <= j < final(q).spec_max_threads() && j != self.spec_handle_id()
                ==> #[trigger] final(q).slot_desc(j) == old(q).slot_desc(j),
            final(q).contents() == old(q).contents(),
            final(q).spec_max_threads() == old(q).spec_max_threads(),
            final(q).spec_last_tid() == old(q).spec_last_tid(),
    {
        q.swap_operation(self.handle_id, new)
    }

    /// Reads the descriptor currently published in this handle's slot.
    pub fn get_current_operation<'a, T>(&self, q: &'a WFQueue<T>) -> (r: &'a OpDesc)
        requires
            q.wf(),
            self.spec_handle_id() < q.spec_max_threads(),
        ensures
            *r == q.slot_desc(self.spec_handle_id()),
    {
        q.get_operation(self.handle_id)
    }
}

} // verus!
