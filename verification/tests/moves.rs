use harmony::game::boxes::BoxType;
use harmony::game::clones::{take_record, Clone as CloneRun};
use harmony::game::collision::{Collider, Colliders};
use harmony::game::common::Cell;
use harmony::game::components::{
    attach, cell_of, create, detach_all, give, mark_clones_for_playback, spawn, Component, CELL,
    CLONE, MOVEABLE, PLAYBACK, PLAYER, SPRITE,
};
use harmony::game::map_gen::create_box;
use harmony::game::math::Vec2i;
use harmony::game::movement::{move_entities, Moveable, Progress};
use harmony::game::player::{
    create as create_player, record_step, set_movement, skip, start_move, step_players, Planned,
    Shove,
};
use harmony::game::render::Sprite;
use harmony::model::StoreError;
use harmony::store::World;

fn moveable_of(world: &World<Component>, entity: usize) -> Moveable {
    match world.get_component_from_entity(entity, MOVEABLE) {
        Ok(Some(Component::Moveable(moveable))) => *moveable,
        _ => panic!("no move"),
    }
}

fn sprite_at(world: &World<Component>, entity: usize) -> Sprite {
    match world.get_component_from_entity(entity, SPRITE) {
        Ok(Some(Component::Sprite(sprite))) => *sprite,
        _ => panic!("no sprite"),
    }
}

fn record_of(world: &World<Component>, entity: usize) -> (bool, Vec<Vec2i>, u8, usize) {
    match world.get_component_from_entity(entity, PLAYER) {
        Ok(Some(Component::Player(player))) => {
            (player.moved, player.playback_dir.clone(), player.color, player.marker)
        }
        _ => panic!("no player"),
    }
}

fn has(world: &World<Component>, entity: usize, kind: u64) -> bool {
    matches!(world.get_component_from_entity(entity, kind), Ok(Some(_)))
}

fn a_clone(world: &mut World<Component>, color: u8, cell: Cell) -> usize {
    create(
        world,
        vec![
            Component::Clone(CloneRun { color, playback_dir: vec![], current_move: 0, paths: vec![] }),
            Component::Cell(cell),
            Component::Moveable(Moveable::resting(cell, 150, false)),
            Component::Sprite(Sprite::new(0, color as u32, 100)),
        ],
    )
}

#[test]
fn created_entity_holds_what_it_was_given() {
    let mut world: World<Component> = World::new();
    let first = spawn(&mut world);
    assert_eq!(first, 0);
    assert_eq!(world.entity_count(), 1);
    give(&mut world, first, Component::Cell(Cell::new(1, 2)));
    assert_eq!(cell_of(&world, first), Some(Cell::new(1, 2)));
    let second = create(
        &mut world,
        vec![
            Component::Cell(Cell::new(3, 4)),
            Component::Sprite(Sprite::new(1, 1, 1)),
            Component::Cell(Cell::new(5, 6)),
        ],
    );
    assert_eq!(second, 1);
    assert_eq!(world.entity_count(), 2);
    // the last of a kind is the one that stays
    assert_eq!(cell_of(&world, second), Some(Cell::new(5, 6)));
    assert_eq!(sprite_at(&world, second), Sprite::new(1, 1, 1));
    assert!(!has(&world, second, PLAYER));
    // the first entity is as it was
    assert_eq!(cell_of(&world, first), Some(Cell::new(1, 2)));
    assert!(!has(&world, first, SPRITE));
}

#[test]
fn player_is_created_with_its_marker() {
    let mut world: World<Component> = World::new();
    spawn(&mut world);
    let made = create_player(&mut world, Cell::new(4, 5));
    assert_eq!(made.player, 1);
    assert_eq!(made.marker, 2);
    assert_eq!(world.entity_count(), 3);
    assert_eq!(cell_of(&world, made.player), Some(Cell::new(4, 5)));
    assert_eq!(sprite_at(&world, made.player), Sprite::new(0, 0, 100));
    assert_eq!(record_of(&world, made.player), (false, vec![], 0, made.marker));
    assert_eq!(moveable_of(&world, made.player), Moveable::resting(Cell::new(0, 0), 150, false));
    assert_eq!(sprite_at(&world, made.marker), Sprite::new(0, 17, 127));
    assert!(!has(&world, made.marker, CELL));
}

#[test]
fn marks_are_given_to_every_clone_and_taken_again() {
    let mut world: World<Component> = World::new();
    let first = a_clone(&mut world, 0, Cell::new(1, 1));
    let other = create(&mut world, vec![Component::Cell(Cell::new(2, 2))]);
    let second = a_clone(&mut world, 1, Cell::new(3, 3));
    assert_eq!(mark_clones_for_playback(&mut world), Ok(()));
    assert!(has(&world, first, PLAYBACK));
    assert!(has(&world, second, PLAYBACK));
    assert!(!has(&world, other, PLAYBACK));
    detach_all(&mut world, PLAYBACK, &vec![first, 99, other]);
    assert!(!has(&world, first, PLAYBACK));
    assert!(has(&world, second, PLAYBACK));
    // nothing is marked while the clones are borrowed for writing
    let guard = world.borrow_components_mut(CLONE).unwrap();
    detach_all(&mut world, PLAYBACK, &vec![second]);
    assert_eq!(mark_clones_for_playback(&mut world), Err(StoreError::BorrowConflict));
    assert!(!has(&world, first, PLAYBACK));
    world.release_components_mut(guard).unwrap();
}

#[test]
fn step_of_the_player_is_planned_recorded_and_begun() {
    let mut world: World<Component> = World::new();
    let mut colliders = Colliders::new(8, 8);
    let made = create_player(&mut world, Cell::new(2, 2));
    let clone = a_clone(&mut world, 1, Cell::new(6, 6));
    set_movement(&mut world, &colliders, made.player, Vec2i::new(1, 0));
    assert_eq!(record_of(&world, made.player), (true, vec![Vec2i::new(1, 0)], 0, made.marker));
    assert_eq!(sprite_at(&world, made.player).index_x, 2);
    let moving = moveable_of(&world, made.player);
    assert_eq!(moving.start_cell, Cell::new(2, 2));
    assert_eq!(moving.end_cell, Cell::new(3, 2));
    assert!(moving.moving);
    assert!(has(&world, clone, PLAYBACK));
    // the cell changes with the first frame of the move
    assert_eq!(cell_of(&world, made.player), Some(Cell::new(2, 2)));
    let drawn = move_entities(&mut world, &mut colliders, 20).unwrap();
    assert_eq!(
        drawn,
        vec![
            (made.player, Progress::Underway { elapsed: 0, duration: 150 }),
            (clone, Progress::Resting),
        ]
    );
    assert_eq!(cell_of(&world, made.player), Some(Cell::new(3, 2)));
    assert_eq!(colliders.get(Cell::new(2, 2)), Collider::Empty);
    assert_eq!(colliders.get(Cell::new(3, 2)), Collider::Solid);
    assert_eq!(moveable_of(&world, made.player).accumulator, 20);
    // a player that is moving takes no other step
    set_movement(&mut world, &colliders, made.player, Vec2i::new(0, 1));
    assert_eq!(record_of(&world, made.player).1, vec![Vec2i::new(1, 0)]);
    // the move ends in the frame in which its clock has reached its duration
    for _ in 0..7 {
        move_entities(&mut world, &mut colliders, 20).unwrap();
    }
    assert_eq!(moveable_of(&world, made.player).accumulator, 160);
    let drawn = move_entities(&mut world, &mut colliders, 20).unwrap();
    assert_eq!(drawn[0], (made.player, Progress::Arrived));
    let rests = moveable_of(&world, made.player);
    assert!(!rests.moving);
    assert_eq!(rests.accumulator, 0);
}

#[test]
fn player_pushes_a_box_that_gives_way() {
    let mut world: World<Component> = World::new();
    let mut colliders = Colliders::new(8, 8);
    let pushed = create_box(&mut world, &mut colliders, Cell::new(3, 2), &BoxType::Any);
    assert_eq!(colliders.get(Cell::new(3, 2)), Collider::Box(BoxType::Any, pushed));
    let made = create_player(&mut world, Cell::new(2, 2));
    assert_eq!(
        step_players(&mut world, &colliders, Vec2i::new(1, 0)),
        Ok(Some(Planned {
            goal: Cell::new(3, 2),
            shove: Some(Shove { pushed, to: Cell::new(4, 2) }),
        }))
    );
    // the step was recorded by the pass; the moves begin with the whole turn
    assert_eq!(record_of(&world, made.player).1, vec![Vec2i::new(1, 0)]);
    assert!(!moveable_of(&world, made.player).moving);
    set_movement(&mut world, &colliders, made.player, Vec2i::new(1, 0));
    assert_eq!(record_of(&world, made.player).1, vec![Vec2i::new(1, 0), Vec2i::new(1, 0)]);
    let shoved = moveable_of(&world, pushed);
    assert_eq!((shoved.start_cell, shoved.end_cell, shoved.moving), (Cell::new(3, 2), Cell::new(4, 2), true));
    let walks = moveable_of(&world, made.player);
    assert_eq!((walks.start_cell, walks.end_cell, walks.moving), (Cell::new(2, 2), Cell::new(3, 2), true));
    move_entities(&mut world, &mut colliders, 20).unwrap();
    assert_eq!(cell_of(&world, pushed), Some(Cell::new(4, 2)));
    assert_eq!(cell_of(&world, made.player), Some(Cell::new(3, 2)));
    assert_eq!(colliders.get(Cell::new(4, 2)), Collider::Box(BoxType::Any, pushed));
    assert_eq!(colliders.get(Cell::new(3, 2)), Collider::Solid);
    assert_eq!(colliders.get(Cell::new(2, 2)), Collider::Empty);
}

#[test]
fn step_against_a_wall_is_taken_on_the_spot() {
    let mut world: World<Component> = World::new();
    let mut colliders = Colliders::new(8, 8);
    colliders.set(Cell::new(2, 3), Collider::Solid);
    let made = create_player(&mut world, Cell::new(2, 2));
    set_movement(&mut world, &colliders, made.player, Vec2i::new(0, 1));
    assert_eq!(record_of(&world, made.player).1, vec![Vec2i::new(0, 1)]);
    let bumps = moveable_of(&world, made.player);
    assert_eq!((bumps.start_cell, bumps.end_cell, bumps.moving), (Cell::new(2, 2), Cell::new(2, 2), true));
    assert_eq!(sprite_at(&world, made.player).index_x, 1);
}

#[test]
fn step_against_a_box_that_cannot_give_way_is_not_taken() {
    let mut world: World<Component> = World::new();
    let mut colliders = Colliders::new(8, 8);
    let pushed = create_box(&mut world, &mut colliders, Cell::new(3, 2), &BoxType::Any);
    colliders.set(Cell::new(4, 2), Collider::Solid);
    let made = create_player(&mut world, Cell::new(2, 2));
    set_movement(&mut world, &colliders, made.player, Vec2i::new(1, 0));
    assert_eq!(record_of(&world, made.player), (false, vec![], 0, made.marker));
    assert!(!moveable_of(&world, made.player).moving);
    assert!(!moveable_of(&world, pushed).moving);
    // no direction, no step
    assert_eq!(step_players(&mut world, &colliders, Vec2i::zero()), Ok(None));
    // a step that would look beyond the map is not taken either
    let mut edge: World<Component> = World::new();
    let at_edge = create_player(&mut edge, Cell::new(0, 0));
    set_movement(&mut edge, &colliders, at_edge.player, Vec2i::new(-1, 0));
    assert_eq!(record_of(&edge, at_edge.player).1, vec![]);
}

#[test]
fn pass_over_the_players_is_refused_while_a_column_is_borrowed() {
    let mut world: World<Component> = World::new();
    let colliders = Colliders::new(8, 8);
    let made = create_player(&mut world, Cell::new(2, 2));
    let guard = world.borrow_components(CELL).unwrap();
    assert_eq!(
        step_players(&mut world, &colliders, Vec2i::new(1, 0)),
        Err(StoreError::BorrowConflict)
    );
    world.release_components(guard).unwrap();
    assert_eq!(record_of(&world, made.player).1, vec![]);
}

#[test]
fn move_is_begun_from_the_cell_of_the_entity() {
    let mut world: World<Component> = World::new();
    let walker = a_clone(&mut world, 0, Cell::new(1, 1));
    attach(&mut world, walker, Component::Cell(Cell::new(5, 5))).unwrap();
    start_move(&mut world, walker, Cell::new(5, 6));
    let moving = moveable_of(&world, walker);
    assert_eq!((moving.start_cell, moving.end_cell, moving.moving), (Cell::new(5, 5), Cell::new(5, 6), true));
    // an entity without a cell is left alone
    let lame = create(&mut world, vec![Component::Moveable(Moveable::resting(Cell::new(0, 0), 150, false))]);
    start_move(&mut world, lame, Cell::new(5, 6));
    assert_eq!(moveable_of(&world, lame), Moveable::resting(Cell::new(0, 0), 150, false));
    // and so is one that was never created
    start_move(&mut world, 77, Cell::new(5, 6));
    assert_eq!(world.entity_count(), 2);
}

#[test]
fn skipped_turn_is_recorded_as_a_step_on_the_spot() {
    let mut world: World<Component> = World::new();
    let made = create_player(&mut world, Cell::new(2, 2));
    let clone = a_clone(&mut world, 1, Cell::new(6, 6));
    record_step(&mut world, made.player, Vec2i::new(0, -1));
    skip(&mut world, made.player);
    assert_eq!(
        record_of(&world, made.player),
        (false, vec![Vec2i::new(0, -1), Vec2i::new(0, 0)], 0, made.marker)
    );
    assert!(has(&world, clone, PLAYBACK));
    assert!(!moveable_of(&world, made.player).moving);
    // what is no player has no record
    record_step(&mut world, clone, Vec2i::new(1, 0));
    assert!(!has(&world, clone, PLAYER));
    // the record is taken all at once
    assert_eq!(take_record(&mut world, made.player), vec![Vec2i::new(0, -1), Vec2i::new(0, 0)]);
    assert_eq!(record_of(&world, made.player), (false, vec![], 0, made.marker));
    assert_eq!(take_record(&mut world, clone), vec![]);
    assert_eq!(take_record(&mut world, 99), vec![]);
}

#[test]
fn resting_entities_and_entities_off_the_map_are_not_moved() {
    let mut world: World<Component> = World::new();
    let mut colliders = Colliders::new(4, 4);
    colliders.set(Cell::new(1, 1), Collider::Solid);
    let rests = a_clone(&mut world, 0, Cell::new(1, 1));
    let outside = create(
        &mut world,
        vec![
            Component::Cell(Cell::new(9, 9)),
            Component::Moveable(Moveable {
                start_cell: Cell::new(9, 9),
                end_cell: Cell::new(9, 10),
                duration: 150,
                accumulator: 0,
                moving: true,
                box_moveable: false,
            }),
        ],
    );
    let drawn = move_entities(&mut world, &mut colliders, 16).unwrap();
    assert_eq!(drawn, vec![(rests, Progress::Resting)]);
    assert_eq!(cell_of(&world, outside), Some(Cell::new(9, 9)));
    assert!(moveable_of(&world, outside).moving);
    assert_eq!(colliders.get(Cell::new(1, 1)), Collider::Solid);
    // the pass is refused while a column is borrowed
    let guard = world.borrow_components(MOVEABLE).unwrap();
    assert_eq!(move_entities(&mut world, &mut colliders, 16), Err(StoreError::BorrowConflict));
    world.release_components(guard).unwrap();
}
