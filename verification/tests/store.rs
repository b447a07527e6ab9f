use harmony::model::{Access, AccessMode, StoreError};
use harmony::store::World;

#[derive(Debug, PartialEq, Clone)]
enum Component {
    Position(i32, i32),
    Sprite(u32),
    Health(u32),
}

const POSITION: u64 = 0;
const SPRITE: u64 = 1;
const HEALTH: u64 = 2;

fn read(kind: u64) -> Access {
    Access { kind, mode: AccessMode::Read }
}

fn world_with(entities: usize) -> World<Component> {
    let mut world = World::new();
    for expected in 0..entities {
        assert_eq!(world.new_entity(), Ok(expected));
    }
    world
}

#[test]
fn join_yields_the_one_entity_with_position_and_sprite() {
    let mut world = world_with(3);
    world.add_component_to_entity(0, POSITION, Component::Position(0, 0)).unwrap();
    world.add_component_to_entity(0, SPRITE, Component::Sprite(1)).unwrap();
    world.add_component_to_entity(1, POSITION, Component::Position(5, 5)).unwrap();
    world.add_component_to_entity(2, SPRITE, Component::Sprite(2)).unwrap();

    let found = world.join(&vec![read(POSITION), read(SPRITE)]).unwrap();
    assert_eq!(found, vec![0]);
    assert_eq!(
        world.get_component_from_entity(0, POSITION),
        Ok(Some(&Component::Position(0, 0)))
    );
    assert_eq!(world.get_component_from_entity(0, SPRITE), Ok(Some(&Component::Sprite(1))));
}

#[test]
fn component_added_after_removal_is_the_one_read() {
    let mut world = world_with(5);
    world.add_component_to_entity(4, HEALTH, Component::Health(10)).unwrap();
    world.remove_component_from_entity(4, HEALTH).unwrap();
    assert_eq!(world.get_component_from_entity(4, HEALTH), Ok(None));
    world.add_component_to_entity(4, HEALTH, Component::Health(3)).unwrap();
    assert_eq!(world.get_component_from_entity(4, HEALTH), Ok(Some(&Component::Health(3))));
}

#[test]
fn new_store_is_empty() {
    let world: World<Component> = World::new();
    assert_eq!(world.entity_count(), 0);
    assert_eq!(world.get_component_from_entity(0, POSITION), Err(StoreError::OutOfRange));
}

#[test]
fn entities_are_numbered_from_zero() {
    let mut world: World<Component> = World::new();
    assert_eq!(world.new_entity(), Ok(0));
    assert_eq!(world.new_entity(), Ok(1));
    assert_eq!(world.new_entity(), Ok(2));
    assert_eq!(world.entity_count(), 3);
}

#[test]
fn column_created_late_has_a_slot_for_every_entity() {
    let mut world = world_with(4);
    world.add_component_to_entity(3, HEALTH, Component::Health(7)).unwrap();
    for entity in 0..3 {
        assert_eq!(world.get_component_from_entity(entity, HEALTH), Ok(None));
    }
    assert_eq!(world.get_component_from_entity(3, HEALTH), Ok(Some(&Component::Health(7))));
    let fifth = world.new_entity().unwrap();
    assert_eq!(fifth, 4);
    assert_eq!(world.get_component_from_entity(4, HEALTH), Ok(None));
    world.add_component_to_entity(4, HEALTH, Component::Health(8)).unwrap();
    assert_eq!(world.get_component_from_entity(4, HEALTH), Ok(Some(&Component::Health(8))));
    assert_eq!(world.get_component_from_entity(3, HEALTH), Ok(Some(&Component::Health(7))));
}

#[test]
fn attach_overwrites_silently() {
    let mut world = world_with(1);
    world.add_component_to_entity(0, HEALTH, Component::Health(1)).unwrap();
    world.add_component_to_entity(0, HEALTH, Component::Health(2)).unwrap();
    assert_eq!(world.get_component_from_entity(0, HEALTH), Ok(Some(&Component::Health(2))));
}

#[test]
fn attach_to_an_entity_out_of_range_is_refused() {
    let mut world = world_with(2);
    assert_eq!(
        world.add_component_to_entity(2, HEALTH, Component::Health(1)),
        Err(StoreError::OutOfRange)
    );
    assert_eq!(world.get_component_from_entity(0, HEALTH), Ok(None));
    assert_eq!(world.remove_component_from_entity(2, HEALTH), Err(StoreError::OutOfRange));
    assert_eq!(world.delete_entity(2), Err(StoreError::OutOfRange));
    assert!(matches!(
        world.get_component_from_entity_mut(2, HEALTH),
        Err(StoreError::OutOfRange)
    ));
}

#[test]
fn removing_what_was_never_there_changes_nothing() {
    let mut world = world_with(2);
    world.add_component_to_entity(0, HEALTH, Component::Health(5)).unwrap();
    // no column for SPRITE at all
    assert_eq!(world.remove_component_from_entity(1, SPRITE), Ok(()));
    // a column, but an empty slot
    assert_eq!(world.remove_component_from_entity(1, HEALTH), Ok(()));
    assert_eq!(world.remove_component_from_entity(1, HEALTH), Ok(()));
    assert_eq!(world.entity_count(), 2);
    assert_eq!(world.get_component_from_entity(0, HEALTH), Ok(Some(&Component::Health(5))));
    assert_eq!(world.get_component_from_entity(1, HEALTH), Ok(None));
    assert_eq!(world.get_component_from_entity(1, SPRITE), Ok(None));
}

#[test]
fn component_is_changed_in_place() {
    let mut world = world_with(2);
    world.add_component_to_entity(1, POSITION, Component::Position(1, 2)).unwrap();
    match world.get_component_from_entity_mut(1, POSITION) {
        Ok(Some(Component::Position(x, y))) => {
            *x += 10;
            *y -= 2;
        }
        other => panic!("unexpected {:?}", other),
    }
    assert_eq!(
        world.get_component_from_entity(1, POSITION),
        Ok(Some(&Component::Position(11, 0)))
    );
    assert!(matches!(world.get_component_from_entity_mut(0, POSITION), Ok(None)));
    assert!(matches!(world.get_component_from_entity_mut(0, SPRITE), Ok(None)));
}

#[test]
fn deleted_entity_holds_nothing_and_takes_nothing() {
    let mut world = world_with(3);
    world.add_component_to_entity(1, POSITION, Component::Position(1, 1)).unwrap();
    world.add_component_to_entity(1, HEALTH, Component::Health(9)).unwrap();
    world.add_component_to_entity(2, HEALTH, Component::Health(4)).unwrap();
    assert_eq!(world.delete_entity(1), Ok(()));
    assert_eq!(world.get_component_from_entity(1, POSITION), Ok(None));
    assert_eq!(world.get_component_from_entity(1, HEALTH), Ok(None));
    assert_eq!(world.get_component_from_entity(2, HEALTH), Ok(Some(&Component::Health(4))));
    assert_eq!(
        world.add_component_to_entity(1, HEALTH, Component::Health(1)),
        Err(StoreError::Deleted)
    );
    assert_eq!(world.get_component_from_entity(1, HEALTH), Ok(None));
    // the index is not handed out again
    assert_eq!(world.new_entity(), Ok(3));
    assert_eq!(world.entity_count(), 4);
    // deleting twice is the same as deleting once
    assert_eq!(world.delete_entity(1), Ok(()));
    assert_eq!(world.join(&vec![read(HEALTH)]), Ok(vec![2]));
}

#[test]
fn join_visits_exactly_the_entities_with_both_components() {
    // every combination of present and absent, twice over
    let mut world = world_with(8);
    for entity in 0..8usize {
        if entity % 2 == 1 {
            world
                .add_component_to_entity(entity, POSITION, Component::Position(entity as i32, 0))
                .unwrap();
        }
        if (entity / 2) % 2 == 1 {
            world
                .add_component_to_entity(entity, SPRITE, Component::Sprite(entity as u32))
                .unwrap();
        }
    }
    assert_eq!(world.join(&vec![read(POSITION), read(SPRITE)]), Ok(vec![3, 7]));
    assert_eq!(world.join(&vec![read(SPRITE), read(POSITION)]), Ok(vec![3, 7]));
    assert_eq!(world.join(&vec![read(POSITION)]), Ok(vec![1, 3, 5, 7]));
    assert_eq!(world.join(&vec![read(SPRITE)]), Ok(vec![2, 3, 6, 7]));
    assert_eq!(world.join(&vec![]), Ok(vec![0, 1, 2, 3, 4, 5, 6, 7]));
}

#[test]
fn join_over_a_kind_that_was_never_registered_is_empty() {
    let mut world = world_with(3);
    world.add_component_to_entity(0, POSITION, Component::Position(0, 0)).unwrap();
    assert_eq!(world.join(&vec![read(HEALTH)]), Ok(vec![]));
    assert_eq!(world.join(&vec![read(POSITION), read(HEALTH)]), Ok(vec![]));
    assert_eq!(
        world.join(&vec![Access { kind: HEALTH, mode: AccessMode::Write }]),
        Ok(vec![])
    );
}

#[test]
fn join_that_asks_twice_for_a_column_it_writes_is_refused() {
    let mut world = world_with(1);
    world.add_component_to_entity(0, POSITION, Component::Position(0, 0)).unwrap();
    let write = Access { kind: POSITION, mode: AccessMode::Write };
    assert_eq!(world.join(&vec![read(POSITION), write]), Err(StoreError::BorrowConflict));
    assert_eq!(world.join(&vec![write, read(POSITION)]), Err(StoreError::BorrowConflict));
    assert_eq!(world.join(&vec![write, write]), Err(StoreError::BorrowConflict));
    assert_eq!(world.join(&vec![read(POSITION), read(POSITION)]), Ok(vec![0]));
    // nothing is left borrowed
    assert_eq!(world.join(&vec![write]), Ok(vec![0]));
}
