use wfqueue::AtomicRef;
use wfqueue::CellStore;
use wfqueue::Nullable;

#[test]
fn test_make_load_atomic_ref() {
    let x = 5;
    let mut st = CellStore::new();
    let ar = AtomicRef::new(&mut st, x);
    let new = *ar.load(&st);

    assert_eq!(5, new);
}

#[test]
fn test_make_load_borrowed() {
    let x = 5;
    let mut st = CellStore::new();
    let ar = AtomicRef::new(&mut st, &x);
    let new = *ar.load(&st);
    assert_eq!(5, *new);
}

#[test]
fn test_store() {
    let mut st = CellStore::new();
    let mut ar = AtomicRef::new(&mut st, 5);
    ar.swap(&mut st, 10);
    assert_eq!(*ar.load(&st), 10);
}

#[test]
fn test_cas_success() {
    let mut st = CellStore::new();
    let mut ar = AtomicRef::new(&mut st, 5);
    assert_eq!(ar.rc(&st), 1);
    let new_value = AtomicRef::new(&mut st, 10);
    assert_eq!(new_value.rc(&st), 1);
    let ar_clone = ar.clone_ref(&mut st);
    assert_eq!(ar_clone.rc(&st), 2);
    let value = ar.compare_and_exchange(&mut st, ar_clone, new_value).unwrap();
    assert_eq!(value.rc(&st), 1);
    assert_eq!(ar.rc(&st), 1);
    assert_eq!(*value.load(&st), 5);
    assert_eq!(*ar.load(&st), 10);
}

#[test]
fn test_cas_failure() {
    let mut st = CellStore::new();
    let mut ar1 = AtomicRef::new(&mut st, 5);
    let ar2 = AtomicRef::new(&mut st, 7);
    let ar3 = AtomicRef::new(&mut st, 7);
    let unchanged_value = ar1
        .compare_and_exchange(&mut st, ar3, ar2)
        .expect_err("CAS Succeded instead of fail");
    assert_eq!(ar1.rc(&st), 2);
    assert_eq!(*unchanged_value.load(&st), 5);
    assert_eq!(*ar1.load(&st), 5);
}

#[test]
fn refcount_lifecycle() {
    // one allocation, one clone, two drops: the count falls back to one
    // and the cell is freed, with its value handed back, exactly at the
    // last drop
    let mut st = CellStore::new();
    let ar = AtomicRef::new(&mut st, 42);
    assert_eq!(ar.rc(&st), 1);
    let c = ar.clone_ref(&mut st);
    assert_eq!(ar.rc(&st), 2);
    let freed_early = c.drop_ref(&mut st);
    assert!(freed_early.is_none());
    assert_eq!(ar.rc(&st), 1);
    let freed = ar.drop_ref(&mut st);
    assert_eq!(freed, Some(42));
}

#[test]
fn null_handle_is_null() {
    let h: AtomicRef = Nullable::null();
    assert!(h.is_null());
    let mut st = CellStore::<u8>::new();
    let n = AtomicRef::new(&mut st, 1);
    assert!(!n.is_null());
    assert!(!n.ptr_eq(&h));
}

#[test]
fn swap_hands_back_previous_cell() {
    let mut st = CellStore::new();
    let mut ar = AtomicRef::new(&mut st, 1);
    let old = ar.swap(&mut st, 2);
    assert_eq!(*old.load(&st), 1);
    assert_eq!(*ar.load(&st), 2);
    assert_eq!(old.rc(&st), 1);
    assert_eq!(ar.rc(&st), 1);
}

#[test]
fn cas_success_installs_new_cell() {
    let mut st = CellStore::new();
    let mut ar = AtomicRef::new(&mut st, 5);
    let current = ar.clone_ref(&mut st);
    let new_value = AtomicRef::new(&mut st, 7);
    let old = ar
        .compare_and_exchange(&mut st, current, new_value)
        .expect("CAS Failed instead of succeded");
    assert_eq!(*ar.load(&st), 7);
    assert_eq!(*old.load(&st), 5);
    // the previous cell is now owned by the returned handle alone
    assert_eq!(old.rc(&st), 1);
    assert_eq!(old.drop_ref(&mut st), Some(5));
}
