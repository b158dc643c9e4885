use vstd::prelude::*;

verus! {

/// One allocation: the payload and its reference count. A freed slot keeps
/// its index (indices are never reused) but holds no value and counts zero.
struct CellSlot<T> {
    value: Option<T>,
    rc: usize,
}

/// The explicit heap backing `AtomicRef` handles. A pointer is an index
/// into this store; since freed slots are never reused, an index names one
/// allocation for the whole life of the store, so index equality is
/// pointer identity.
pub struct CellStore<T> {
    cells: Vec<CellSlot<T>>,
}

impl<T> CellStore<T> {
    pub closed spec fn len(self) -> nat {
        self.cells@.len()
    }

    pub closed spec fn rc_of(self, i: int) -> nat {
        self.cells@[i].rc as nat
    }

    /// Slot `i` is an allocated, not yet freed cell.
    pub closed spec fn live(self, i: int) -> bool {
        0 <= i < self.cells@.len() && self.cells@[i].value is Some
    }

    pub closed spec fn value_of(self, i: int) -> T {
        self.cells@[i].value->0
    }

    /// A slot counts zero exactly when it has been freed.
    pub closed spec fn wf(self) -> bool {
        forall |i: int| 0 <= i < self.cells@.len() ==>
            ((#[trigger] self.cells@[i]).rc == 0 <==> self.cells@[i].value is None)
    }

    /// Every slot below the old length and outside `except` is untouched.
    pub open spec fn unchanged_outside(pre: Self, post: Self, except: Set<int>) -> bool {
        forall |j: int|
            #![trigger post.rc_of(j)]
            #![trigger post.live(j)]
            #![trigger post.value_of(j)]
            0 <= j < pre.len() && !except.contains(j) ==> {
                &&& post.rc_of(j) == pre.rc_of(j)
                &&& (post.live(j) <==> pre.live(j))
                &&& (pre.live(j) ==> post.value_of(j) == pre.value_of(j))
            }
    }

    /// One count was released from slot `i`: the cell was freed exactly if
    /// that count was the last one.
    pub open spec fn released_one(pre: Self, post: Self, i: int) -> bool {
        &&& post.rc_of(i) + 1 == pre.rc_of(i)
        &&& (pre.rc_of(i) > 1 ==> post.live(i) && post.value_of(i) == pre.value_of(i))
        &&& (pre.rc_of(i) == 1 ==> !post.live(i))
    }


    pub fn new() -> (s: Self)
        ensures
            s.wf(),
            s.len() == 0,
    {
        CellStore { cells: Vec::new() }
    }

    /// Borrows the value of a live slot.
    pub(crate) fn peek<'a>(&'a self, i: usize) -> (r: &'a T)
        requires
            self.wf(),
            self.live(i as int),
        ensures
            *r == self.value_of(i as int),
    {
        self.cells[i].value.as_ref().unwrap()
    }

    /// Replaces the value of a live slot, handing the previous value back;
    /// the count and liveness of every slot are untouched.
    pub(crate) fn replace_value(&mut self, i: usize, v: T) -> (r: T)
        requires
            old(self).wf(),
            old(self).live(i as int),
        ensures
            r == old(self).value_of(i as int),
            final(self).wf(),
            final(self).len() == old(self).len(),
            final(self).live(i as int),
            final(self).value_of(i as int) == v,
            final(self).rc_of(i as int) == old(self).rc_of(i as int),
            CellStore::unchanged_outside(*old(self), *final(self), set![i as int]),
    {
        let slot = &mut self.cells[i];
        let r = slot.value.take();
        slot.value = Some(v);
        r.unwrap()
    }

    /// Whether slot `i` holds a live cell.
    pub(crate) fn live_check(&self, i: usize) -> (r: bool)
        ensures
            r == self.live(i as int),
    {
        i < self.cells.len() && self.cells[i].value.is_some()
    }

    /// Releases one count of a live slot, freeing it — and handing its value
    /// back — exactly when that count was the last one.
    pub(crate) fn dec_rc(&mut self, i: usize) -> (r: Option<T>)
        requires
            old(self).wf(),
            old(self).live(i as int),
        ensures
            final(self).wf(),
            final(self).len() == old(self).len(),
            CellStore::released_one(*old(self), *final(self), i as int),
            CellStore::unchanged_outside(*old(self), *final(self), set![i as int]),
            old(self).rc_of(i as int) > 1 ==> r is None,
            old(self).rc_of(i as int) == 1 ==> r == Some(old(self).value_of(i as int)),
    {
        let slot = &mut self.cells[i];
        if slot.rc == 1 {
            slot.rc = 0;
            slot.value.take()
        } else {
            slot.rc = slot.rc - 1;
            None
        }
    }
}

/// A live slot lies inside the store.
pub broadcast proof fn lemma_live_in_range<T>(s: CellStore<T>, i: int)
    ensures
        #[trigger] s.live(i) ==> 0 <= i < s.len(),
{
}

/// A live slot of a well-formed store holds at least one count.
pub broadcast proof fn lemma_live_rc_positive<T>(s: CellStore<T>, i: int)
    ensures
        s.wf() && #[trigger] s.live(i) ==> s.rc_of(i) >= 1,
{
}

/// A handle to one cell of a `CellStore`, or the distinguished null handle.
/// Every operation that touches a count takes the store it works against.
#[derive(Debug)]
pub struct AtomicRef {
    ptr: Option<usize>,
}

/// A pointer-like value with a distinguished null state.
pub trait Nullable: Sized {
    spec fn null_spec(&self) -> bool;

    fn null() -> (r: Self)
        ensures
            r.null_spec();

    fn is_null(&self) -> (b: bool)
        ensures
            b == self.null_spec();
}

impl AtomicRef {
    /// The index this handle addresses, if any.
    pub closed spec fn target(self) -> Option<int> {
        match self.ptr {
            Some(i) => Some(i as int),
            None => None,
        }
    }

    pub open spec fn is_null_spec(self) -> bool {
        self.target() is None
    }

    pub open spec fn idx(self) -> int {
        self.target()->0
    }

    pub open spec fn points_to(self, i: int) -> bool {
        self.target() == Some(i)
    }

    /// The handle is null or addresses a live cell of `s`.
    pub open spec fn valid<T>(self, s: CellStore<T>) -> bool {
        !self.is_null_spec() ==> s.live(self.idx())
    }

    /// The set of indices a handle addresses: empty for null.
    pub open spec fn target_set(self) -> Set<int> {
        if self.is_null_spec() {
            Set::empty()
        } else {
            set![self.idx()]
        }
    }

    /// Allocates a fresh cell holding `value` with count one and returns
    /// the sole handle to it.
    pub fn new<T>(store: &mut CellStore<T>, value: T) -> (r: AtomicRef)
        requires
            old(store).wf(),
        ensures
            final(store).wf(),
            final(store).len() == old(store).len() + 1,
            r.points_to(old(store).len() as int),
            final(store).live(old(store).len() as int),
            final(store).rc_of(old(store).len() as int) == 1,
            final(store).value_of(old(store).len() as int) == value,
            CellStore::unchanged_outside(*old(store), *final(store), Set::empty()),
    {
        let i = store.cells.len();
        store.cells.push(CellSlot { value: Some(value), rc: 1 });
        AtomicRef { ptr: Some(i) }
    }

    /// Cloning a handle: the target's count goes up by one before the clone
    /// exists; a null handle clones to null. A count at the representable
    /// maximum cannot be cloned (that state is a reference leak).
    pub fn clone_ref<T>(&self, store: &mut CellStore<T>) -> (r: AtomicRef)
        requires
            old(store).wf(),
            self.valid(*old(store)),
            !self.is_null_spec() ==> old(store).rc_of(self.idx()) < usize::MAX,
        ensures
            final(store).wf(),
            final(store).len() == old(store).len(),
            r.target() == self.target(),
            self.is_null_spec() ==> *final(store) == *old(store),
            !self.is_null_spec() ==> {
                &&& final(store).live(self.idx())
                &&& final(store).rc_of(self.idx()) == old(store).rc_of(self.idx()) + 1
                &&& final(store).value_of(self.idx()) == old(store).value_of(self.idx())
                &&& CellStore::unchanged_outside(*old(store), *final(store), set![self.idx()])
            },
    {
        match self.ptr {
            None => AtomicRef { ptr: None },
            Some(i) => {
                let slot = &mut store.cells[i];
                slot.rc = slot.rc + 1;
                AtomicRef { ptr: Some(i) }
            }
        }
    }

    /// Dropping a handle: the target's count goes down by one, and the cell
    /// is freed — its value handed back — exactly when that count was the
    /// last one. Dropping a null handle does nothing.
    pub fn drop_ref<T>(self, store: &mut CellStore<T>) -> (r: Option<T>)
        requires
            old(store).wf(),
            self.valid(*old(store)),
        ensures
            final(store).wf(),
            final(store).len() == old(store).len(),
            self.is_null_spec() ==> *final(store) == *old(store) && r is None,
            !self.is_null_spec() ==> {
                &&& CellStore::released_one(*old(store), *final(store), self.idx())
                &&& CellStore::unchanged_outside(*old(store), *final(store), set![self.idx()])
                &&& (old(store).rc_of(self.idx()) > 1 ==> r is None)
                &&& (old(store).rc_of(self.idx()) == 1 ==> r == Some(old(store).value_of(self.idx())))
            },
    {
        match self.ptr {
            None => None,
            Some(i) => {
                let slot = &mut store.cells[i];
                if slot.rc == 1 {
                    slot.rc = 0;
                    slot.value.take()
                } else {
                    slot.rc = slot.rc - 1;
                    None
                }
            }
        }
    }

    /// The current reference count of the addressed cell.
    pub fn rc<T>(&self, store: &CellStore<T>) -> (r: usize)
        requires
            store.wf(),
            !self.is_null_spec(),
            self.valid(*store),
        ensures
            r == store.rc_of(self.idx()),
    {
        let i = self.ptr.unwrap();
        store.cells[i].rc
    }

    /// Reads the addressed value. Null handles are a caller error, ruled
    /// out here rather than detected at run time.
    pub fn load<'a, T>(&self, store: &'a CellStore<T>) -> (r: &'a T)
        requires
            store.wf(),
            !self.is_null_spec(),
            self.valid(*store),
        ensures
            *r == store.value_of(self.idx()),
    {
        let i = self.ptr.unwrap();
        store.cells[i].value.as_ref().unwrap()
    }

    /// Installs a freshly allocated cell holding `value` and returns a
    /// handle to the previous cell; the old cell's count is unchanged, its
    /// one count moving from this handle to the returned one.
    pub fn swap<T>(&mut self, store: &mut CellStore<T>, value: T) -> (r: AtomicRef)
        requires
            old(store).wf(),
            !old(self).is_null_spec(),
            old(self).valid(*old(store)),
        ensures
            final(store).wf(),
            final(store).len() == old(store).len() + 1,
            final(self).points_to(old(store).len() as int),
            final(store).live(old(store).len() as int),
            final(store).rc_of(old(store).len() as int) == 1,
            final(store).value_of(old(store).len() as int) == value,
            r.target() == old(self).target(),
            CellStore::unchanged_outside(*old(store), *final(store), Set::empty()),
    {
        let i = store.cells.len();
        store.cells.push(CellSlot { value: Some(value), rc: 1 });
        let old_ptr = self.ptr;
        self.ptr = Some(i);
        AtomicRef { ptr: old_ptr }
    }

    /// Replaces the pointer with `new`'s target exactly if it still equals
    /// `current`'s target — identity of cells, not equality of contents.
    /// Both handles are consumed. On success the previous cell's count drops
    /// by the one `current` held, its remaining count moving to the returned
    /// handle; the installed cell's count is unchanged, `new`'s one count
    /// moving into this pointer. On failure one more count of the live cell
    /// is handed out to the returned handle and both consumed handles are
    /// released.
    pub fn compare_and_exchange<T>(
        &mut self,
        store: &mut CellStore<T>,
        current: AtomicRef,
        new: AtomicRef,
    ) -> (r: Result<AtomicRef, AtomicRef>)
        requires
            old(store).wf(),
            old(self).valid(*old(store)),
            current.valid(*old(store)),
            new.valid(*old(store)),
            // two handles must not release one cell twice
            !current.is_null_spec() && !new.is_null_spec() ==> current.target() != new.target(),
            old(self).target() == current.target() ==> {
                &&& !new.is_null_spec()
                &&& (!current.is_null_spec() ==> old(store).rc_of(current.idx()) >= 2)
            },
            old(self).target() != current.target() ==> {
                &&& !old(self).is_null_spec()
                &&& old(store).rc_of(old(self).idx()) < usize::MAX
                &&& (!new.is_null_spec() ==> new.target() != old(self).target())
            },
        ensures
            final(store).wf(),
            final(store).len() == old(store).len(),
            old(self).target() == current.target() ==> {
                &&& (r matches Ok(h) && h.target() == old(self).target())
                &&& final(self).target() == new.target()
                &&& (current.is_null_spec() ==> *final(store) == *old(store))
                &&& (!current.is_null_spec() ==> {
                    &&& final(store).rc_of(current.idx()) + 1 == old(store).rc_of(current.idx())
                    &&& final(store).live(current.idx())
                    &&& final(store).value_of(current.idx()) == old(store).value_of(current.idx())
                    &&& CellStore::unchanged_outside(*old(store), *final(store), set![current.idx()])
                })
            },
            old(self).target() != current.target() ==> {
                &&& (r matches Err(h) && h.target() == old(self).target())
                &&& final(self).target() == old(self).target()
                &&& final(store).rc_of(old(self).idx()) == old(store).rc_of(old(self).idx()) + 1
                &&& final(store).live(old(self).idx())
                &&& final(store).value_of(old(self).idx()) == old(store).value_of(old(self).idx())
                &&& (!current.is_null_spec() ==> CellStore::released_one(*old(store), *final(store), current.idx()))
                &&& (!new.is_null_spec() ==> CellStore::released_one(*old(store), *final(store), new.idx()))
                &&& CellStore::unchanged_outside(
                    *old(store),
                    *final(store),
                    set![old(self).idx()].union(current.target_set()).union(new.target_set()),
                )
            },
    {
        let matched = match (self.ptr, current.ptr) {
            (None, None) => true,
            (Some(a), Some(b)) => a == b,
            _ => false,
        };
        if matched {
            let old_ptr = self.ptr;
            self.ptr = new.ptr;
            // release the one count `current` held of the previous cell
            if let Some(i) = current.ptr {
                let slot = &mut store.cells[i];
                slot.rc = slot.rc - 1;
            }
            Ok(AtomicRef { ptr: old_ptr })
        } else {
            let i = self.ptr.unwrap();
            {
                let slot = &mut store.cells[i];
                slot.rc = slot.rc + 1;
            }
            let _ = current.drop_ref(store);
            let _ = new.drop_ref(store);
            Err(AtomicRef { ptr: Some(i) })
        }
    }

    /// Pointer identity: two handles are equal exactly when they address
    /// the same cell (or are both null), never by comparing contents.
    pub fn ptr_eq(&self, other: &AtomicRef) -> (b: bool)
        ensures
            b == (self.target() == other.target()),
    {
        match (self.ptr, other.ptr) {
            (None, None) => true,
            (Some(a), Some(b)) => a == b,
            _ => false,
        }
    }

    /// The index of the cell this handle addresses; a null handle
    /// addresses none.
    pub fn index(&self) -> (i: usize)
        requires
            !self.is_null_spec(),
        ensures
            i as int == self.idx(),
    {
        self.ptr.unwrap()
    }

    /// Compare-and-swap on the pointer alone, counts untouched: points at
    /// `new`'s target exactly if it still points at `current`'s.
    pub(crate) fn cas_target(&mut self, current: &AtomicRef, new: &AtomicRef) -> (r: bool)
        ensures
            r == (old(self).target() == current.target()),
            r ==> final(self).target() == new.target(),
            !r ==> *final(self) == *old(self),
    {
        let matched = self.ptr_eq(current);
        if matched {
            self.ptr = new.ptr;
        }
        matched
    }

    /// An uncounted duplicate of a handle, for protocol-internal snapshots;
    /// whoever keeps it beyond the statement must clone instead.
    pub(crate) fn snapshot(&self) -> (r: AtomicRef)
        ensures
            r.target() == self.target(),
    {
        AtomicRef { ptr: self.ptr }
    }
}

impl Nullable for AtomicRef {
    open spec fn null_spec(&self) -> bool {
        self.is_null_spec()
    }

    fn null() -> (r: Self) {
        AtomicRef { ptr: None }
    }

    fn is_null(&self) -> (b: bool) {
        self.ptr.is_none()
    }
}

/// The number of handles alive after `k` steps of a clone/drop history that
/// begins with the one handle allocation returns: `true` is a clone, `false`
/// a drop.
pub open spec fn handles_after(ops: Seq<bool>, k: int) -> int
    decreases k,
{
    if k <= 0 {
        1
    } else {
        handles_after(ops, k - 1) + (if ops[k - 1] { 1int } else { -1int })
    }
}

/// Reference-count correctness: along any clone/drop history in which every
/// step is performed while a handle still exists, the count never goes
/// negative — no drop ever releases an already freed cell — and it reaches
/// zero only at the very end of the history. Together with the contract of
/// `drop_ref`, which frees exactly at the one-to-zero transition, the cell
/// is freed at most once and never before the last handle is dropped.
pub proof fn lemma_refcount_correctness(ops: Seq<bool>, k: int)
    requires
        0 <= k <= ops.len(),
        forall |j: int| 0 <= j < ops.len() ==> #[trigger] handles_after(ops, j) >= 1,
    ensures
        handles_after(ops, k) >= 0,
        handles_after(ops, k) == 0 ==> k == ops.len(),
{
    if k > 0 {
        assert(handles_after(ops, k - 1) >= 1);
    }
}

} // verus!
