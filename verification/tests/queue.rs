use wfqueue::Node;
use wfqueue::Nullable;
use wfqueue::OpDesc;
use wfqueue::WFQueue;
use wfqueue::AtomicRef;
use wfqueue::CellStore;

#[test]
fn swap_node() {
    let mut st = CellStore::new();
    let n1 = AtomicRef::new(&mut st, Node::new(10, -1));
    let n2 = AtomicRef::new(&mut st, Node::new(20, -1));
    let at = n1.index();

    Node::set_next_with_cas_loop(&mut st, at, n2);
    let next = Node::next(&mut st, at);
    let v = next.load(&st);
    assert_eq!(v.value(), Some(&20));
}

#[test]
fn test_default() {
    let op = OpDesc::default();
    assert_eq!(op.phase(), -1);
    assert_eq!(op.is_pending(-1), false);
    assert_eq!(op.is_enqueue(), false);
    assert_eq!(op.node().is_null(), true);
}

#[test]
fn test_new_queue() {
    let _ = WFQueue::<()>::new(1);
    let x = vec![1, 2];
    let _y = x.iter();
}

#[test]
fn test_swap_opdesc() {
    let mut q = WFQueue::<()>::new(1);
    let new_op = q.new_operation(1, true, true, Node::empty());
    assert_eq!(q.get_operation(0).is_pending(1), false);
    q.swap_operation(0, new_op);
    assert_eq!(q.get_operation(0).is_pending(1), true)
}

#[test]
fn test_cas_opdesc() {
    let mut q = WFQueue::<()>::new(1);
    let new_op = q.new_operation(1, true, true, Node::empty());
    assert_eq!(q.get_operation(0).is_pending(1), false);
    q.cas_operation(0, new_op);
    assert_eq!(q.get_operation(0).is_pending(1), true)
}

#[test]
fn test_enqueue_single_thread() {
    let mut q = WFQueue::<i64>::new(1);
    let handle = q.get_handle().unwrap();
    handle.enqueue(&mut q, 1);
    assert!(q.tail_value().is_some());
    assert_eq!(q.tail_value().unwrap(), &1);
    // the head stays at the sentinel, which carries no value
    assert!(q.head_value().is_none());
}

#[test]
fn fifo_order_single_handle() {
    let mut q = WFQueue::<i64>::new(1);
    let h = q.get_handle().unwrap();
    h.enqueue(&mut q, 1);
    h.enqueue(&mut q, 2);
    let mut it = q.iter();
    assert_eq!(it.next(&q), Some(&1));
    assert_eq!(it.next(&q), Some(&2));
    assert_eq!(it.next(&q), None);
}

#[test]
fn two_handles_arrival_order() {
    let mut q = WFQueue::<i64>::new(2);
    let h0 = q.get_handle().unwrap();
    let h1 = q.get_handle().unwrap();
    h0.enqueue(&mut q, 10);
    h1.enqueue(&mut q, 20);
    // the sentinel leads, then the values in arrival order
    assert!(q.head_value().is_none());
    let mut it = q.iter();
    assert_eq!(it.next(&q), Some(&10));
    assert_eq!(it.next(&q), Some(&20));
    assert_eq!(it.next(&q), None);
}

#[test]
fn slot_exhaustion() {
    let mut q = WFQueue::<i64>::new(1);
    let first = q.get_handle();
    assert!(first.is_some());
    let second = q.get_handle();
    assert!(second.is_none());
}

#[test]
fn help_finish_enqueue_is_idempotent() {
    let mut q = WFQueue::<i64>::new(1);
    let h = q.get_handle().unwrap();
    h.enqueue(&mut q, 7);
    let phase_before = q.max_phase();
    // the operation is already retired: running the finish step again
    // changes nothing
    q.help_finish_enqueue(phase_before);
    q.help_finish_enqueue(phase_before);
    assert_eq!(q.max_phase(), phase_before);
    let mut it = q.iter();
    assert_eq!(it.next(&q), Some(&7));
    assert_eq!(it.next(&q), None);
}

#[test]
fn help_finish_deq_is_idempotent() {
    let mut q = WFQueue::<i64>::new(1);
    let h = q.get_handle().unwrap();
    h.enqueue(&mut q, 7);
    assert_eq!(h.dequeue(&mut q), Some(7));
    q.help_finish_deq();
    q.help_finish_deq();
    let mut it = q.iter();
    assert_eq!(it.next(&q), None);
}

#[test]
fn dequeue_returns_oldest() {
    let mut q = WFQueue::<i64>::new(1);
    let h = q.get_handle().unwrap();
    h.enqueue(&mut q, 1);
    h.enqueue(&mut q, 2);
    assert_eq!(h.dequeue(&mut q), Some(1));
    assert_eq!(h.dequeue(&mut q), Some(2));
    assert_eq!(h.dequeue(&mut q), None);
}

#[test]
fn dequeue_empty_queue() {
    let mut q = WFQueue::<i64>::new(2);
    let h = q.get_handle().unwrap();
    assert_eq!(h.dequeue(&mut q), None);
    h.enqueue(&mut q, 3);
    assert_eq!(h.dequeue(&mut q), Some(3));
    assert_eq!(h.dequeue(&mut q), None);
}

#[test]
fn interleaved_handles() {
    let mut q = WFQueue::<i64>::new(2);
    let h0 = q.get_handle().unwrap();
    let h1 = q.get_handle().unwrap();
    h0.enqueue(&mut q, 1);
    h1.enqueue(&mut q, 2);
    assert_eq!(h1.dequeue(&mut q), Some(1));
    h0.enqueue(&mut q, 3);
    assert_eq!(h0.dequeue(&mut q), Some(2));
    assert_eq!(h1.dequeue(&mut q), Some(3));
    assert_eq!(h0.dequeue(&mut q), None);
}

#[test]
fn max_phase_counts_operations() {
    let mut q = WFQueue::<i64>::new(2);
    let h = q.get_handle().unwrap();
    assert_eq!(q.max_phase(), 0);
    h.enqueue(&mut q, 1);
    assert_eq!(q.max_phase(), 1);
    h.enqueue(&mut q, 2);
    assert_eq!(q.max_phase(), 2);
    assert_eq!(h.dequeue(&mut q), Some(1));
    assert_eq!(q.max_phase(), 3);
}

#[test]
fn get_and_set_current_operation() {
    let mut q = WFQueue::<i64>::new(1);
    let h = q.get_handle().unwrap();
    assert_eq!(h.get_current_operation(&q).phase(), -1);
    let d = OpDesc::finished_enqueue(4, Nullable::null());
    h.set_current_operation(&mut q, d);
    assert_eq!(h.get_current_operation(&q).phase(), 4);
    assert!(h.get_current_operation(&q).is_enqueue());
    assert!(!h.get_current_operation(&q).is_pending(4));
}

#[test]
fn iterate_empty_queue() {
    let q = WFQueue::<i64>::new(3);
    let mut it = q.iter();
    assert_eq!(it.next(&q), None);
    assert_eq!(it.next(&q), None);
}
