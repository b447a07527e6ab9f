use harmony::model::{Access, AccessMode, StoreError, MAX_READERS};
use harmony::store::World;

const A: u64 = 40;
const B: u64 = 41;

fn world() -> World<u32> {
    let mut world = World::new();
    world.new_entity().unwrap();
    world.new_entity().unwrap();
    world.add_component_to_entity(0, A, 100).unwrap();
    world.add_component_to_entity(1, B, 200).unwrap();
    world
}

#[test]
fn two_shared_borrows_both_succeed() {
    let mut world = world();
    let first = world.borrow_components(A).unwrap();
    let second = world.borrow_components(A).unwrap();
    assert_eq!(first.kind(), A);
    assert_eq!(world.get_borrowed(&first, 0), Ok(Some(&100)));
    assert_eq!(world.get_borrowed(&second, 1), Ok(None));
    assert_eq!(world.release_components(first), Ok(()));
    // one reader is left
    assert!(matches!(world.borrow_components_mut(A), Err(StoreError::BorrowConflict)));
    assert_eq!(world.release_components(second), Ok(()));
    assert!(world.borrow_components_mut(A).is_ok());
}

#[test]
fn exclusive_borrow_fails_while_any_borrow_is_outstanding() {
    let mut world = world();
    let shared = world.borrow_components(A).unwrap();
    assert!(matches!(world.borrow_components_mut(A), Err(StoreError::BorrowConflict)));
    // another column is not concerned
    let other = world.borrow_components_mut(B).unwrap();
    assert!(matches!(world.borrow_components_mut(B), Err(StoreError::BorrowConflict)));
    assert!(matches!(world.borrow_components(B), Err(StoreError::BorrowConflict)));
    assert_eq!(world.release_components(shared), Ok(()));
    assert_eq!(world.release_components_mut(other), Ok(()));
    let again = world.borrow_components_mut(A).unwrap();
    assert_eq!(world.release_components_mut(again), Ok(()));
}

#[test]
fn borrow_of_a_kind_without_a_column_is_refused() {
    let mut world = world();
    assert!(matches!(world.borrow_components(99), Err(StoreError::NotRegistered)));
    assert!(matches!(world.borrow_components_mut(99), Err(StoreError::NotRegistered)));
}

#[test]
fn direct_access_respects_outstanding_borrows() {
    let mut world = world();
    let shared = world.borrow_components(A).unwrap();
    // reading beside a reader is fine, writing is not
    assert_eq!(world.get_component_from_entity(0, A), Ok(Some(&100)));
    assert_eq!(world.add_component_to_entity(0, A, 1), Err(StoreError::BorrowConflict));
    assert_eq!(world.remove_component_from_entity(0, A), Err(StoreError::BorrowConflict));
    assert!(matches!(
        world.get_component_from_entity_mut(0, A),
        Err(StoreError::BorrowConflict)
    ));
    assert_eq!(world.new_entity(), Err(StoreError::BorrowConflict));
    assert_eq!(world.delete_entity(0), Err(StoreError::BorrowConflict));
    assert_eq!(world.entity_count(), 2);
    // a column that nobody borrowed can be written
    assert_eq!(world.add_component_to_entity(0, B, 7), Ok(()));
    assert_eq!(world.release_components(shared), Ok(()));

    let exclusive = world.borrow_components_mut(A).unwrap();
    assert_eq!(world.get_component_from_entity(0, A), Err(StoreError::BorrowConflict));
    assert_eq!(
        world.join(&vec![Access { kind: A, mode: AccessMode::Read }]),
        Err(StoreError::BorrowConflict)
    );
    assert_eq!(world.release_components_mut(exclusive), Ok(()));
    assert_eq!(world.get_component_from_entity(0, A), Ok(Some(&100)));
    assert_eq!(world.new_entity(), Ok(2));
}

#[test]
fn exclusive_guard_reads_and_writes_its_column() {
    let mut world = world();
    let guard = world.borrow_components_mut(A).unwrap();
    assert_eq!(guard.kind(), A);
    match world.get_borrowed_mut(&guard, 0) {
        Ok(Some(value)) => *value += 1,
        other => panic!("unexpected {:?}", other),
    }
    assert!(matches!(world.get_borrowed_mut(&guard, 1), Ok(None)));
    assert!(matches!(world.get_borrowed_mut(&guard, 2), Err(StoreError::OutOfRange)));
    assert_eq!(world.put_borrowed(&guard, 1, Some(5)), Ok(()));
    assert_eq!(world.put_borrowed(&guard, 5, Some(5)), Err(StoreError::OutOfRange));
    assert_eq!(world.release_components_mut(guard), Ok(()));
    assert_eq!(world.get_component_from_entity(0, A), Ok(Some(&101)));
    assert_eq!(world.get_component_from_entity(1, A), Ok(Some(&5)));

    let guard = world.borrow_components_mut(A).unwrap();
    assert_eq!(world.put_borrowed(&guard, 0, None), Ok(()));
    assert_eq!(world.release_components_mut(guard), Ok(()));
    assert_eq!(world.get_component_from_entity(0, A), Ok(None));
}

#[test]
fn guard_does_not_write_to_a_deleted_entity() {
    let mut world = world();
    world.delete_entity(1).unwrap();
    let guard = world.borrow_components_mut(B).unwrap();
    assert_eq!(world.put_borrowed(&guard, 1, Some(3)), Err(StoreError::Deleted));
    assert_eq!(world.put_borrowed(&guard, 1, None), Ok(()));
    assert_eq!(world.release_components_mut(guard), Ok(()));
    assert_eq!(world.get_component_from_entity(1, B), Ok(None));
}

#[test]
fn guard_that_matches_no_borrow_is_refused() {
    let mut lender = world();
    let mut other = world();
    let shared = lender.borrow_components(A).unwrap();
    let exclusive = lender.borrow_components_mut(B).unwrap();
    // the other store has lent nothing
    assert_eq!(other.get_borrowed(&shared, 0), Err(StoreError::NotBorrowed));
    assert!(matches!(other.get_borrowed_mut(&exclusive, 0), Err(StoreError::NotBorrowed)));
    assert_eq!(other.put_borrowed(&exclusive, 0, Some(1)), Err(StoreError::NotBorrowed));
    assert_eq!(other.release_components(shared), Err(StoreError::NotBorrowed));
    assert_eq!(other.release_components_mut(exclusive), Err(StoreError::NotBorrowed));
    assert_eq!(other.get_component_from_entity(0, A), Ok(Some(&100)));
}

#[test]
fn shared_borrows_are_counted_up_to_the_limit() {
    let mut world = world();
    let mut guards = Vec::new();
    for _ in 0..MAX_READERS {
        guards.push(world.borrow_components(A).unwrap());
    }
    assert!(matches!(world.borrow_components(A), Err(StoreError::TooManyReaders)));
    assert_eq!(
        world.join(&vec![Access { kind: A, mode: AccessMode::Read }]),
        Err(StoreError::TooManyReaders)
    );
    for guard in guards {
        assert_eq!(world.release_components(guard), Ok(()));
    }
    assert!(world.borrow_components_mut(A).is_ok());
}

#[test]
fn shape_of_the_store_is_kept_while_a_column_is_borrowed() {
    const C: u64 = 42;
    let mut world = world();
    let guard = world.borrow_components(A).unwrap();
    assert!(!world.is_unborrowed());
    assert_eq!(world.new_entity(), Err(StoreError::BorrowConflict));
    assert_eq!(world.delete_entity(0), Err(StoreError::BorrowConflict));
    // a column that has to be created first is not created now
    assert_eq!(world.add_component_to_entity(0, C, 7), Err(StoreError::BorrowConflict));
    // a column that exists and is not borrowed can be written
    assert_eq!(world.add_component_to_entity(0, B, 8), Ok(()));
    assert_eq!(world.entity_count(), 2);
    assert_eq!(world.release_components(guard), Ok(()));
    assert!(world.is_unborrowed());
    assert_eq!(world.add_component_to_entity(0, C, 7), Ok(()));
    assert_eq!(world.get_component_from_entity(0, C), Ok(Some(&7)));
    assert_eq!(world.new_entity(), Ok(2));
}
