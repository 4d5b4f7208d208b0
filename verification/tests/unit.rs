use generational_vector::{GenerationalEntry, GenerationalVector};
use std::num::{NonZeroU8, NonZeroUsize};

#[test]
fn lib_insert_after_delete_generation_changes() {
    let mut gv = GenerationalVector::default();

    let a = gv.push("a");
    let _ = gv.push("b");
    let _ = gv.push("c");

    gv.remove(&a);
    let d = gv.push("d");

    // The index of element "a" was re-assigned to "d",
    // however the generation differs.
    assert_eq!(a.index, d.index);
    assert!(a.generation < d.generation);
    assert_ne!(a, d);
}

#[test]
fn lib_delete_all_free_list_updates() {
    let mut gv = GenerationalVector::default();

    let a = gv.push("a");
    let b = gv.push("b");
    let c = gv.push("c");

    gv.remove(&a);
    gv.remove(&b);
    gv.remove(&c);

    assert_eq!(gv.len(), 0);
    assert!(gv.is_empty());

    // The free head now points at the last element.
    assert_eq!(gv.free_list().len(), 3);
    assert_eq!(*gv.free_list().last().unwrap(), 2);

    assert_eq!(gv.count_num_free(), 3);
}

#[test]
fn lib_delete_all_reverse_free_list_changes() {
    let mut gv = GenerationalVector::default();

    let a = gv.push("a");
    let b = gv.push("b");
    let c = gv.push("c");

    gv.remove(&c);
    gv.remove(&b);
    gv.remove(&a);

    assert_eq!(gv.len(), 0);
    assert!(gv.is_empty());

    // The free head now points at the first element.
    assert_eq!(gv.free_list().len(), 3);
    assert_eq!(*gv.free_list().last().unwrap(), 0);
    assert_eq!(gv.count_num_free(), 3);
}

#[test]
fn lib_delete_all_and_insert_indexes_are_set_in_order() {
    let mut gv = GenerationalVector::default();

    let a = gv.push("a");
    let b = gv.push("b");
    let c = gv.push("c");

    gv.remove(&a);
    gv.remove(&b);
    gv.remove(&c);

    let d = gv.push("d");
    let e = gv.push("e");

    // The last deleted element is assigned first.
    assert_eq!(c.index, d.index);
    assert_eq!(b.index, e.index);
}

#[test]
fn lib_sizeof() {
    assert_eq!(std::mem::size_of::<GenerationalEntry<u8, usize>>(), 16);
    assert_eq!(std::mem::size_of::<GenerationalEntry<u8, u32>>(), 8);
    assert_eq!(std::mem::size_of::<GenerationalEntry<u8, u16>>(), 4);
    assert_eq!(std::mem::size_of::<GenerationalEntry<u8, u8>>(), 3);

    assert_eq!(
        std::mem::size_of::<GenerationalEntry<NonZeroU8, NonZeroUsize>>(),
        16
    );
    assert_eq!(
        std::mem::size_of::<GenerationalEntry<NonZeroU8, NonZeroU8>>(),
        2
    );
}

#[test]
fn vector_insert_after_delete_generation_changes() {
    let mut gv = GenerationalVector::default();

    let a = gv.push("a");
    let _ = gv.push("b");
    let _ = gv.push("c");

    gv.remove(&a);
    let d = gv.push("d");

    // The index of element "a" was re-assigned to "d",
    // however the generation differs.
    assert_eq!(a.index, d.index);
    assert!(a.generation < d.generation);
    assert_ne!(a, d);
}

#[test]
fn vector_delete_all_free_list_updates() {
    let mut gv = GenerationalVector::default();

    let a = gv.push("a");
    let b = gv.push("b");
    let c = gv.push("c");

    gv.remove(&a);
    gv.remove(&b);
    gv.remove(&c);

    assert_eq!(gv.len(), 0);
    assert!(gv.is_empty());

    // The free head now points at the last element.
    assert_eq!(gv.free_list().len(), 3);
    assert_eq!(*gv.free_list().last().unwrap(), 2);

    assert_eq!(gv.count_num_free(), 3);
}

#[test]
fn vector_delete_all_reverse_free_list_changes() {
    let mut gv = GenerationalVector::default();

    let a = gv.push("a");
    let b = gv.push("b");
    let c = gv.push("c");

    gv.remove(&c);
    gv.remove(&b);
    gv.remove(&a);

    assert_eq!(gv.len(), 0);
    assert!(gv.is_empty());

    // The free head now points at the first element.
    assert_eq!(gv.free_list().len(), 3);
    assert_eq!(*gv.free_list().last().unwrap(), 0);
    assert_eq!(gv.count_num_free(), 3);
}

#[test]
fn vector_delete_all_and_insert_indexes_are_set_in_order() {
    let mut gv = GenerationalVector::default();

    let a = gv.push("a");
    let b = gv.push("b");
    let c = gv.push("c");

    gv.remove(&a);
    gv.remove(&b);
    gv.remove(&c);

    let d = gv.push("d");
    let e = gv.push("e");

    // The last deleted element is assigned first.
    assert_eq!(c.index, d.index);
    assert_eq!(b.index, e.index);
}

#[test]
fn vector_sizeof() {
    assert_eq!(std::mem::size_of::<GenerationalEntry<u8, usize>>(), 16);
    assert_eq!(std::mem::size_of::<GenerationalEntry<u8, u32>>(), 8);
    assert_eq!(std::mem::size_of::<GenerationalEntry<u8, u16>>(), 4);
    assert_eq!(std::mem::size_of::<GenerationalEntry<u8, u8>>(), 3);

    assert_eq!(
        std::mem::size_of::<GenerationalEntry<NonZeroU8, NonZeroUsize>>(),
        16
    );
    assert_eq!(
        std::mem::size_of::<GenerationalEntry<NonZeroU8, NonZeroU8>>(),
        2
    );
}
