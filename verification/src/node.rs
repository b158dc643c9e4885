use vstd::prelude::*;
use crate::atomic_ref::AtomicRef;
use crate::atomic_ref::CellStore;
use crate::atomic_ref::Nullable;

verus! {

broadcast use crate::atomic_ref::lemma_live_in_range, crate::atomic_ref::lemma_live_rc_positive;

/// A queue element: the payload (the sentinel carries none), the link to
/// the successor, the id of the enqueuing thread, and the id of the
/// dequeuing thread (-1 while nobody has dequeued the element).
pub struct Node<T> {
    value: Option<T>,
    next: AtomicRef,
    enqueue_tid: i64,
    dequeue_tid: i64,
}

/// The successor link of the node in slot `at`.
pub open spec fn next_of<T>(nodes: CellStore<Node<T>>, at: int) -> AtomicRef {
    nodes.value_of(at).spec_next()
}

impl<T> Node<T> {
    pub closed spec fn spec_value(self) -> Option<T> {
        self.value
    }

    pub closed spec fn spec_next(self) -> AtomicRef {
        self.next
    }

    pub closed spec fn spec_enqueue_tid(self) -> i64 {
        self.enqueue_tid
    }

    pub closed spec fn spec_dequeue_tid(self) -> i64 {
        self.dequeue_tid
    }

    /// A fresh, unlinked element holding `value`, enqueued by `thread_id`.
    pub fn new(value: T, thread_id: i64) -> (n: Self)
        ensures
            n.spec_value() == Some(value),
            n.spec_next().is_null_spec(),
            n.spec_enqueue_tid() == thread_id,
            n.spec_dequeue_tid() == -1,
    {
        Node {
            value: Some(value),
            next: <AtomicRef as Nullable>::null(),
            enqueue_tid: thread_id,
            dequeue_tid: -1,
        }
    }

    /// The sentinel: no payload, no successor, enqueued by nobody.
    pub fn empty() -> (n: Self)
        ensures
            n.spec_value() is None,
            n.spec_next().is_null_spec(),
            n.spec_enqueue_tid() == -1,
            n.spec_dequeue_tid() == -1,
    {
        Node {
            value: None,
            next: <AtomicRef as Nullable>::null(),
            enqueue_tid: -1,
            dequeue_tid: -1,
        }
    }

    pub fn value(&self) -> (r: Option<&T>)
        ensures
            (r is Some) == (self.spec_value() is Some),
            r matches Some(v) ==> *v == self.spec_value()->0,
    {
        self.value.as_ref()
    }

    pub fn enqueue_thread(&self) -> (r: i64)
        ensures
            r == self.spec_enqueue_tid(),
    {
        self.enqueue_tid
    }

    pub(crate) fn dequeue_thread(&self) -> (r: i64)
        ensures
            r == self.spec_dequeue_tid(),
    {
        self.dequeue_tid
    }

    /// An uncounted snapshot of this node's successor link.
    pub(crate) fn next_link(&self) -> (r: AtomicRef)
        ensures
            r.target() == self.spec_next().target(),
    {
        self.next.snapshot()
    }

    /// A counted handle to the successor of the node in slot `at`: the
    /// successor's count goes up by one, as a retained read must.
    pub fn next(nodes: &mut CellStore<Node<T>>, at: usize) -> (r: AtomicRef)
        requires
            old(nodes).wf(),
            old(nodes).live(at as int),
            next_of(*old(nodes), at as int).valid(*old(nodes)),
            !next_of(*old(nodes), at as int).is_null_spec() ==>
                old(nodes).rc_of(next_of(*old(nodes), at as int).idx()) < usize::MAX,
        ensures
            final(nodes).wf(),
            final(nodes).len() == old(nodes).len(),
            r.target() == next_of(*old(nodes), at as int).target(),
            next_of(*old(nodes), at as int).is_null_spec() ==> *final(nodes) == *old(nodes),
            !next_of(*old(nodes), at as int).is_null_spec() ==> {
                &&& final(nodes).live(r.idx())
                &&& final(nodes).rc_of(r.idx()) == old(nodes).rc_of(r.idx()) + 1
                &&& final(nodes).value_of(r.idx()) == old(nodes).value_of(r.idx())
                &&& CellStore::unchanged_outside(*old(nodes), *final(nodes), set![r.idx()])
            },
    {
        let link = nodes.peek(at).next_link();
        link.clone_ref(nodes)
    }

    /// Installs `new` as the successor of the node in slot `at` exactly if
    /// the successor still equals `current` (cell identity). Both handles
    /// are consumed: on success the count `new` held moves into the link,
    /// and both the link's and `current`'s counts of the previous successor
    /// are released; on failure both handles are released and the node is
    /// untouched.
    pub fn compare_and_swap_next(
        nodes: &mut CellStore<Node<T>>,
        at: usize,
        current: AtomicRef,
        new: AtomicRef,
    ) -> (r: bool)
        requires
            old(nodes).wf(),
            old(nodes).live(at as int),
            current.valid(*old(nodes)),
            new.valid(*old(nodes)),
            // two handles must not release one cell twice, and no node
            // links to itself
            !current.is_null_spec() && !new.is_null_spec() ==> current.target() != new.target(),
            !current.is_null_spec() ==> current.idx() != at as int,
            !new.is_null_spec() ==> new.idx() != at as int,
            next_of(*old(nodes), at as int).target() == current.target() && !current.is_null_spec()
                ==> old(nodes).rc_of(current.idx()) >= 2,
        ensures
            final(nodes).wf(),
            final(nodes).len() == old(nodes).len(),
            final(nodes).live(at as int),
            final(nodes).rc_of(at as int) == old(nodes).rc_of(at as int),
            final(nodes).value_of(at as int).spec_value() == old(nodes).value_of(at as int).spec_value(),
            final(nodes).value_of(at as int).spec_enqueue_tid()
                == old(nodes).value_of(at as int).spec_enqueue_tid(),
            final(nodes).value_of(at as int).spec_dequeue_tid()
                == old(nodes).value_of(at as int).spec_dequeue_tid(),
            r == (next_of(*old(nodes), at as int).target() == current.target()),
            r ==> {
                &&& next_of(*final(nodes), at as int).target() == new.target()
                &&& (current.is_null_spec() ==>
                    CellStore::unchanged_outside(*old(nodes), *final(nodes), set![at as int]))
                &&& (!current.is_null_spec() ==> {
                    &&& final(nodes).rc_of(current.idx()) + 2 == old(nodes).rc_of(current.idx())
                    &&& (old(nodes).rc_of(current.idx()) > 2 ==> final(nodes).live(current.idx())
                            && final(nodes).value_of(current.idx()) == old(nodes).value_of(current.idx()))
                    &&& (old(nodes).rc_of(current.idx()) == 2 ==> !final(nodes).live(current.idx()))
                    &&& CellStore::unchanged_outside(
                        *old(nodes), *final(nodes), set![at as int, current.idx()])
                })
            },
            !r ==> {
                &&& next_of(*final(nodes), at as int).target() == next_of(*old(nodes), at as int).target()
                &&& (!current.is_null_spec() ==>
                    CellStore::released_one(*old(nodes), *final(nodes), current.idx()))
                &&& (!new.is_null_spec() ==>
                    CellStore::released_one(*old(nodes), *final(nodes), new.idx()))
                &&& CellStore::unchanged_outside(
                    *old(nodes), *final(nodes), current.target_set().union(new.target_set()))
            },
    {
        let link = nodes.peek(at).next_link();
        let matched = link.ptr_eq(&current);
        if matched {
            let mut node = nodes.replace_value(at, Node::empty());
            node.next = new;
            let _ = nodes.replace_value(at, node);
            if !current.is_null() {
                let ci = current.index();
                let _ = nodes.dec_rc(ci);
                let _ = nodes.dec_rc(ci);
            }
            true
        } else {
            let _ = current.drop_ref(nodes);
            let _ = new.drop_ref(nodes);
            false
        }
    }
}

} // verus!


verus! {


impl<T> Node<T> {
    /// Redirects the successor of the node in slot `at` to `new` by
    /// retrying compare-and-swap until it wins. The handle is consumed,
    /// its count moving into the link, and the link's count of the
    /// previous successor is released.
    #[verifier::loop_isolation(false)]
    pub fn set_next_with_cas_loop(nodes: &mut CellStore<Node<T>>, at: usize, new: AtomicRef)
        requires
            old(nodes).wf(),
            old(nodes).live(at as int),
            new.valid(*old(nodes)),
            next_of(*old(nodes), at as int).valid(*old(nodes)),
            !new.is_null_spec() ==> new.idx() != at as int && old(nodes).rc_of(new.idx()) < usize::MAX,
            !next_of(*old(nodes), at as int).is_null_spec() ==> {
                &&& next_of(*old(nodes), at as int).idx() != at as int
                &&& old(nodes).rc_of(next_of(*old(nodes), at as int).idx()) < usize::MAX
                &&& (!new.is_null_spec() ==>
                    new.target() != next_of(*old(nodes), at as int).target())
            },
        ensures
            final(nodes).wf(),
            final(nodes).len() == old(nodes).len(),
            final(nodes).live(at as int),
            final(nodes).rc_of(at as int) == old(nodes).rc_of(at as int),
            final(nodes).value_of(at as int).spec_value() == old(nodes).value_of(at as int).spec_value(),
            final(nodes).value_of(at as int).spec_enqueue_tid()
                == old(nodes).value_of(at as int).spec_enqueue_tid(),
            final(nodes).value_of(at as int).spec_dequeue_tid()
                == old(nodes).value_of(at as int).spec_dequeue_tid(),
            next_of(*final(nodes), at as int).target() == new.target(),
            !new.is_null_spec() ==> final(nodes).live(new.idx())
                && final(nodes).rc_of(new.idx()) == old(nodes).rc_of(new.idx()),
            !next_of(*old(nodes), at as int).is_null_spec() ==>
                CellStore::released_one(*old(nodes), *final(nodes), next_of(*old(nodes), at as int).idx()),
            CellStore::unchanged_outside(
                *old(nodes),
                *final(nodes),
                set![at as int].union(new.target_set()).union(
                    next_of(*old(nodes), at as int).target_set())),
    {
        let ghost oldnext = next_of(*nodes, at as int);
        let mut done = false;
        while !done
            invariant
                nodes.wf(),
                nodes.len() == old(nodes).len(),
                nodes.live(at as int),
                !done ==> {
                    &&& CellStore::unchanged_outside(*old(nodes), *nodes, Set::empty())
                    &&& nodes.value_of(at as int) == old(nodes).value_of(at as int)
                },
                done ==> {
                    &&& nodes.rc_of(at as int) == old(nodes).rc_of(at as int)
                    &&& nodes.value_of(at as int).spec_value() == old(nodes).value_of(at as int).spec_value()
                    &&& nodes.value_of(at as int).spec_enqueue_tid()
                        == old(nodes).value_of(at as int).spec_enqueue_tid()
                    &&& nodes.value_of(at as int).spec_dequeue_tid()
                        == old(nodes).value_of(at as int).spec_dequeue_tid()
                    &&& next_of(*nodes, at as int).target() == new.target()
                    &&& (!new.is_null_spec() ==> nodes.live(new.idx())
                        && nodes.rc_of(new.idx()) == old(nodes).rc_of(new.idx()) + 1)
                    &&& (!oldnext.is_null_spec() ==>
                        CellStore::released_one(*old(nodes), *nodes, oldnext.idx()))
                    &&& CellStore::unchanged_outside(
                        *old(nodes),
                        *nodes,
                        set![at as int].union(new.target_set()).union(oldnext.target_set()))
                },
            decreases (if done { 0int } else { 1int }),
        {
            let current = Node::next(nodes, at);
            let attempt = new.clone_ref(nodes);
            if Node::compare_and_swap_next(nodes, at, current, attempt) {
                done = true;
            }
        }
        let _ = new.drop_ref(nodes);
    }

    /// Records `new` as the dequeuing thread of the node in slot `at`
    /// exactly if the recorded id still equals `expected`; at most one
    /// thread ever wins this race for a given node.
    pub fn compare_and_swap_dequeue_tid(
        nodes: &mut CellStore<Node<T>>,
        at: usize,
        expected: i64,
        new: i64,
    ) -> (r: bool)
        requires
            old(nodes).wf(),
            old(nodes).live(at as int),
        ensures
            final(nodes).wf(),
            final(nodes).len() == old(nodes).len(),
            final(nodes).live(at as int),
            final(nodes).rc_of(at as int) == old(nodes).rc_of(at as int),
            final(nodes).value_of(at as int).spec_value() == old(nodes).value_of(at as int).spec_value(),
            final(nodes).value_of(at as int).spec_enqueue_tid()
                == old(nodes).value_of(at as int).spec_enqueue_tid(),
            next_of(*final(nodes), at as int) == next_of(*old(nodes), at as int),
            r == (old(nodes).value_of(at as int).spec_dequeue_tid() == expected),
            r ==> final(nodes).value_of(at as int).spec_dequeue_tid() == new,
            !r ==> final(nodes).value_of(at as int).spec_dequeue_tid()
                == old(nodes).value_of(at as int).spec_dequeue_tid(),
            CellStore::unchanged_outside(*old(nodes), *final(nodes), set![at as int]),
    {
        let mut node = nodes.replace_value(at, Node::empty());
        let r = if node.dequeue_tid == expected {
            node.dequeue_tid = new;
            true
        } else {
            false
        };
        let _ = nodes.replace_value(at, node);
        r
    }

    /// Compare-and-swap on the successor link alone, counts untouched:
    /// links `new` exactly if the successor still equals `current`.
    pub(crate) fn cas_next_link(
        nodes: &mut CellStore<Node<T>>,
        at: usize,
        current: &AtomicRef,
        new: &AtomicRef,
    ) -> (r: bool)
        requires
            old(nodes).wf(),
            old(nodes).live(at as int),
        ensures
            final(nodes).wf(),
            final(nodes).len() == old(nodes).len(),
            r == (next_of(*old(nodes), at as int).target() == current.target()),
            !r ==> *final(nodes) == *old(nodes),
            r ==> {
                &&& final(nodes).live(at as int)
                &&& final(nodes).rc_of(at as int) == old(nodes).rc_of(at as int)
                &&& next_of(*final(nodes), at as int).target() == new.target()
                &&& final(nodes).value_of(at as int).spec_value()
                    == old(nodes).value_of(at as int).spec_value()
                &&& final(nodes).value_of(at as int).spec_enqueue_tid()
                    == old(nodes).value_of(at as int).spec_enqueue_tid()
                &&& final(nodes).value_of(at as int).spec_dequeue_tid()
                    == old(nodes).value_of(at as int).spec_dequeue_tid()
                &&& CellStore::unchanged_outside(*old(nodes), *final(nodes), set![at as int])
            },
    {
        let link = nodes.peek(at).next_link();
        let matched = link.ptr_eq(current);
        if matched {
            let mut node = nodes.replace_value(at, Node::empty());
            node.next = new.snapshot();
            let _ = nodes.replace_value(at, node);
        }
        matched
    }

    /// Takes the payload out of the node in slot `at`, leaving the node —
    /// now a value-less sentinel — in place.
    pub(crate) fn take_value(nodes: &mut CellStore<Node<T>>, at: usize) -> (r: Option<T>)
        requires
            old(nodes).wf(),
            old(nodes).live(at as int),
        ensures
            final(nodes).wf(),
            final(nodes).len() == old(nodes).len(),
            final(nodes).live(at as int),
            final(nodes).rc_of(at as int) == old(nodes).rc_of(at as int),
            r == old(nodes).value_of(at as int).spec_value(),
            final(nodes).value_of(at as int).spec_value() is None,
            final(nodes).value_of(at as int).spec_enqueue_tid()
                == old(nodes).value_of(at as int).spec_enqueue_tid(),
            final(nodes).value_of(at as int).spec_dequeue_tid()
                == old(nodes).value_of(at as int).spec_dequeue_tid(),
            next_of(*final(nodes), at as int) == next_of(*old(nodes), at as int),
            CellStore::unchanged_outside(*old(nodes), *final(nodes), set![at as int]),
    {
        let mut node = nodes.replace_value(at, Node::empty());
        let r = node.value.take();
        let _ = nodes.replace_value(at, node);
        r
    }
}

} // verus!
