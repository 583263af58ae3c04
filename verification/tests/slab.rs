//! Slots that are reused.

use std::rc::Rc;
use xarxa::storage::{Full, Slab};

#[test]
fn test_slab_add_remove_reuse() {
    let mut slab: Slab<usize, 8> = Slab::new();
    assert_eq!(slab.add_with(|i| i * 10), Ok(0));
    assert_eq!(slab.add_with(|i| i * 10), Ok(1));
    assert_eq!(slab.add_with(|i| i * 10), Ok(2));

    slab.remove(1);

    // The freed slot is reused.
    assert_eq!(slab.add_with(|i| i * 10), Ok(1));
    assert_eq!(slab.add_with(|i| i * 10), Ok(3));

    let items: Vec<(usize, usize)> = slab
        .iter_mut()
        .into_iter()
        .map(|(i, item)| (i, *item))
        .collect();
    assert_eq!(items, vec![(0, 0), (1, 10), (2, 20), (3, 30)]);
}

#[test]
#[should_panic]
fn test_slab_remove_empty_slot() {
    let mut slab: Slab<u32, 8> = Slab::new();
    slab.add_with(|_| 1u32).unwrap();
    slab.remove(0);
    slab.remove(0);
}

#[test]
#[should_panic]
fn test_slab_get_empty_slot() {
    let slab: Slab<u32, 8> = Slab::new();
    slab.get(0);
}

#[test]
fn test_slab_full() {
    let mut slab: Slab<usize, 2> = Slab::new();
    assert_eq!(slab.add_with(|i| i), Ok(0));
    assert!(!slab.is_full());
    assert_eq!(slab.add_with(|i| i), Ok(1));
    assert!(slab.is_full());
    assert_eq!(slab.add_with(|i| i), Err(Full));
    slab.remove(0);
    assert!(!slab.is_full());
    assert_eq!(slab.add_with(|i| i), Ok(0));
}

/// Removed items are dropped, and so are the ones left in the slab.
#[test]
fn test_slab_drops_items() {
    let counter = Rc::new(());
    {
        let mut slab: Slab<Rc<()>, 4> = Slab::new();
        for _ in 0..3 {
            slab.add_with(|_| counter.clone()).unwrap();
        }
        assert_eq!(Rc::strong_count(&counter), 4);
        slab.remove(1);
        assert_eq!(Rc::strong_count(&counter), 3);
    }
    assert_eq!(Rc::strong_count(&counter), 1);
}

#[test]
fn slab_items_change_through_references() {
    let mut slab: Slab<u32, 4> = Slab::default();
    for value in [7u32, 8, 9] {
        slab.add_with(|_| value).unwrap();
    }
    slab.remove(1);
    for (index, item) in slab.iter_mut() {
        *item += 100 * (index as u32 + 1);
    }
    *slab.get_mut(2) += 1;
    assert_eq!(slab.iter(), vec![(0, &107), (2, &310)]);
    assert_eq!(slab.next_occupied(0), Some(0));
    assert_eq!(slab.next_occupied(1), Some(2));
    assert_eq!(slab.next_occupied(3), None);
    assert!(slab.contains(2));
    assert!(!slab.contains(1));
    assert!(!slab.contains(40));
    assert_eq!(slab.take(2), 310);
    assert!(!slab.contains(2));
}

#[test]
fn slab_builder_gets_the_index_and_is_not_called_when_full() {
    let mut slab: Slab<usize, 1> = Slab::new();
    assert_eq!(slab.add_with(|i| i + 41), Ok(0));
    assert_eq!(*slab.get(0), 41);
    assert_eq!(slab.add_with(|_| unreachable!()), Err(Full));
}
