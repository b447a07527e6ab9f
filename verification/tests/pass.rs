use harmony::model::{Access, AccessMode, StoreError};
use harmony::store::World;
use harmony::system::System;

#[derive(Debug, PartialEq, Clone)]
enum Part {
    Position(i32, i32),
    Velocity(i32, i32),
}

const POSITION: u64 = 10;
const VELOCITY: u64 = 11;

struct Mover {
    visited: Vec<usize>,
}

impl System<Part> for Mover {
    fn visit(&mut self, entity: usize, row: &mut Vec<Part>) {
        let step = match &row[0] {
            Part::Velocity(dx, dy) => (*dx, *dy),
            _ => (0, 0),
        };
        if let Part::Position(x, y) = &mut row[1] {
            *x += step.0;
            *y += step.1;
        }
        self.visited.push(entity);
    }
}

fn request() -> Vec<Access> {
    vec![
        Access { kind: VELOCITY, mode: AccessMode::Read },
        Access { kind: POSITION, mode: AccessMode::Write },
    ]
}

#[test]
fn pass_moves_every_entity_that_has_a_velocity() {
    let mut world: World<Part> = World::new();
    for _ in 0..4 {
        world.new_entity().unwrap();
    }
    world.add_component_to_entity(0, POSITION, Part::Position(1, 1)).unwrap();
    world.add_component_to_entity(1, POSITION, Part::Position(2, 2)).unwrap();
    world.add_component_to_entity(1, VELOCITY, Part::Velocity(10, -1)).unwrap();
    world.add_component_to_entity(2, VELOCITY, Part::Velocity(5, 5)).unwrap();
    world.add_component_to_entity(3, VELOCITY, Part::Velocity(0, 7)).unwrap();
    world.add_component_to_entity(3, POSITION, Part::Position(3, 3)).unwrap();

    let mut mover = Mover { visited: vec![] };
    assert_eq!(world.iterate_entities_with_id(&request(), &mut mover), Ok(()));
    assert_eq!(mover.visited, vec![1, 3]);
    assert_eq!(world.get_component_from_entity(0, POSITION), Ok(Some(&Part::Position(1, 1))));
    assert_eq!(world.get_component_from_entity(1, POSITION), Ok(Some(&Part::Position(12, 1))));
    assert_eq!(world.get_component_from_entity(3, POSITION), Ok(Some(&Part::Position(3, 10))));
    assert_eq!(world.get_component_from_entity(1, VELOCITY), Ok(Some(&Part::Velocity(10, -1))));
    assert_eq!(world.get_component_from_entity(2, POSITION), Ok(None));
}

#[test]
fn pass_is_refused_when_a_kind_is_named_twice() {
    let mut world: World<Part> = World::new();
    world.new_entity().unwrap();
    world.add_component_to_entity(0, POSITION, Part::Position(1, 1)).unwrap();
    let twice = vec![
        Access { kind: POSITION, mode: AccessMode::Read },
        Access { kind: POSITION, mode: AccessMode::Read },
    ];
    let mut mover = Mover { visited: vec![] };
    assert_eq!(
        world.iterate_entities_with_id(&twice, &mut mover),
        Err(StoreError::DuplicateKind)
    );
    assert!(mover.visited.is_empty());
}
