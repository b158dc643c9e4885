//! A multi-producer/multi-consumer FIFO queue in the announce-and-help
//! style, built over an atomic, reference-counted ownership cell.
//!
//! The heap behind the cells is explicit: every allocation is a slot of a
//! [`CellStore`], a pointer ([`AtomicRef`]) is a slot index, and each
//! slot's reference count is plain data, so the whole clone, drop and
//! compare-and-exchange discipline is stated in contracts and proved.
//! [`WFQueue`] owns the stores its nodes and operation descriptors live
//! in; threads register for a slot of its state table, announce their
//! operations there, and every operation — their own or a stalled
//! neighbour's — is driven to completion by the helping pass.

use vstd::prelude::*;

mod atomic_ref;
mod node;
mod op_desc;
mod wf_queue;
mod handle;

pub use atomic_ref::AtomicRef;
pub use atomic_ref::CellStore;
pub use atomic_ref::Nullable;
pub use node::Node;
pub use op_desc::OpDesc;
pub use wf_queue::WFQueue;
pub use wf_queue::QueueIter;
pub use handle::WFQueueHandle;

verus! {

} // verus!
