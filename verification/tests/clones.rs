use harmony::game::boxes::BoxType;
use harmony::game::clones::{
    create_clone, play_steps, playback, push_boxes, reset_boxes, respawn_player, retire_clone,
    rewind_clones, rewind_loop, switch_clone, Clone as CloneRun, Loops, Playback, Push,
};
use harmony::game::collision::{empty_tiles, shift_colliders, Collider, Colliders, Shift};
use harmony::game::common::Cell;
use harmony::game::components::{
    attach, cell_of, create, Component, CELL, CLONE, MOVEABLE, PLAYBACK, PLAYER, PUSH_BOX, SPRITE,
};
use harmony::game::map_gen::create_box;
use harmony::game::math::Vec2i;
use harmony::game::movement::Moveable;
use harmony::game::player::{create as create_player, record_step};
use harmony::game::render::Sprite;
use harmony::model::StoreError;
use harmony::store::World;

fn run_of(world: &World<Component>, entity: usize) -> (u8, Vec<Vec2i>, usize, Vec<usize>) {
    match world.get_component_from_entity(entity, CLONE) {
        Ok(Some(Component::Clone(run))) => {
            (run.color, run.playback_dir.clone(), run.current_move, run.paths.clone())
        }
        _ => panic!("no clone"),
    }
}

fn move_of(world: &World<Component>, entity: usize) -> (Cell, Cell, bool) {
    match world.get_component_from_entity(entity, MOVEABLE) {
        Ok(Some(Component::Moveable(moveable))) => {
            (moveable.start_cell, moveable.end_cell, moveable.moving)
        }
        _ => panic!("no move"),
    }
}

fn sprite_on(world: &World<Component>, entity: usize) -> Sprite {
    match world.get_component_from_entity(entity, SPRITE) {
        Ok(Some(Component::Sprite(sprite))) => *sprite,
        _ => panic!("no sprite"),
    }
}

fn color_of_player(world: &World<Component>, entity: usize) -> (u8, Vec<Vec2i>) {
    match world.get_component_from_entity(entity, PLAYER) {
        Ok(Some(Component::Player(player))) => (player.color, player.playback_dir.clone()),
        _ => panic!("no player"),
    }
}

fn holds(world: &World<Component>, entity: usize, kind: u64) -> bool {
    matches!(world.get_component_from_entity(entity, kind), Ok(Some(_)))
}

fn walking_clone(
    world: &mut World<Component>,
    color: u8,
    cell: Cell,
    steps: Vec<Vec2i>,
    current_move: usize,
    marked: bool,
) -> usize {
    let mut components = vec![
        Component::Clone(CloneRun { color, playback_dir: steps, current_move, paths: vec![] }),
        Component::Cell(cell),
        Component::Moveable(Moveable::resting(cell, 150, false)),
        Component::Sprite(Sprite::new(0, color as u32, 100)),
    ];
    if marked {
        components.push(Component::Playback(Playback {}));
    }
    create(world, components)
}

fn spawns() -> Vec<Cell> {
    vec![Cell::new(1, 1), Cell::new(2, 1), Cell::new(3, 1), Cell::new(4, 1), Cell::new(5, 1)]
}

#[test]
fn clones_play_their_next_step() {
    let mut world: World<Component> = World::new();
    let mut colliders = Colliders::new(8, 8);
    let pushed = create_box(&mut world, &mut colliders, Cell::new(3, 2), &BoxType::Color(1));
    colliders.set(Cell::new(5, 6), Collider::Solid);
    let pushes =
        walking_clone(&mut world, 1, Cell::new(2, 2), vec![Vec2i::new(1, 0), Vec2i::new(0, 1)], 0, true);
    let unmarked = walking_clone(&mut world, 2, Cell::new(6, 1), vec![Vec2i::new(1, 0)], 0, false);
    let done = walking_clone(&mut world, 3, Cell::new(6, 2), vec![Vec2i::new(1, 0)], 1, true);
    let bumps = walking_clone(&mut world, 4, Cell::new(5, 5), vec![Vec2i::new(0, 1)], 0, true);
    let leaves = walking_clone(&mut world, 0, Cell::new(0, 7), vec![Vec2i::new(0, 1)], 0, true);
    let (played, shoved) = play_steps(&mut world, &colliders).unwrap();
    assert_eq!(played, vec![pushes, bumps, leaves]);
    assert_eq!(shoved, vec![Push { pushed, from: Cell::new(3, 2), to: Cell::new(4, 2) }]);
    assert_eq!(run_of(&world, pushes).2, 1);
    assert_eq!(move_of(&world, pushes), (Cell::new(2, 2), Cell::new(3, 2), true));
    assert_eq!(sprite_on(&world, pushes).index_x, 2);
    assert_eq!(run_of(&world, unmarked).2, 0);
    assert_eq!(move_of(&world, unmarked), (Cell::new(6, 1), Cell::new(6, 1), false));
    assert_eq!(run_of(&world, done).2, 1);
    assert_eq!(move_of(&world, done), (Cell::new(6, 2), Cell::new(6, 2), false));
    // a wall, or the end of the map: the step is played on the spot
    assert_eq!(run_of(&world, bumps).2, 1);
    assert_eq!(move_of(&world, bumps), (Cell::new(5, 5), Cell::new(5, 5), true));
    assert_eq!(run_of(&world, leaves).2, 1);
    assert_eq!(move_of(&world, leaves), (Cell::new(0, 7), Cell::new(0, 7), true));
    assert_eq!(sprite_on(&world, leaves).index_x, 1);
    // the pass alone leaves the marks and the boxes
    assert!(holds(&world, pushes, PLAYBACK));
    assert_eq!(move_of(&world, pushed), (Cell::new(3, 2), Cell::new(3, 2), false));
}

#[test]
fn playback_takes_the_marks_and_pushes_the_boxes() {
    let mut world: World<Component> = World::new();
    let mut colliders = Colliders::new(8, 8);
    let pushed = create_box(&mut world, &mut colliders, Cell::new(3, 2), &BoxType::Any);
    let walks =
        walking_clone(&mut world, 1, Cell::new(2, 2), vec![Vec2i::new(1, 0), Vec2i::new(0, 1)], 0, true);
    let done = walking_clone(&mut world, 3, Cell::new(6, 2), vec![Vec2i::new(1, 0)], 1, true);
    assert_eq!(playback(&mut world, &colliders), Ok(()));
    assert!(!holds(&world, walks, PLAYBACK));
    assert!(holds(&world, done, PLAYBACK));
    assert_eq!(move_of(&world, walks), (Cell::new(2, 2), Cell::new(3, 2), true));
    assert_eq!(move_of(&world, pushed), (Cell::new(3, 2), Cell::new(4, 2), true));
    // without a mark nothing is played
    assert_eq!(playback(&mut world, &colliders), Ok(()));
    assert_eq!(run_of(&world, walks).2, 1);
    // the pass is refused while one of its columns is borrowed
    attach(&mut world, walks, Component::Playback(Playback {})).unwrap();
    let guard = world.borrow_components(SPRITE).unwrap();
    assert_eq!(playback(&mut world, &colliders), Err(StoreError::BorrowConflict));
    assert_eq!(play_steps(&mut world, &colliders), Err(StoreError::BorrowConflict));
    world.release_components(guard).unwrap();
    assert_eq!(run_of(&world, walks).2, 1);
}

#[test]
fn pushed_boxes_are_set_moving() {
    let mut world: World<Component> = World::new();
    let mut colliders = Colliders::new(8, 8);
    let first = create_box(&mut world, &mut colliders, Cell::new(1, 1), &BoxType::Any);
    let second = create_box(&mut world, &mut colliders, Cell::new(5, 5), &BoxType::Any);
    let still = create(&mut world, vec![Component::Cell(Cell::new(0, 0))]);
    push_boxes(
        &mut world,
        &vec![
            Push { pushed: first, from: Cell::new(1, 1), to: Cell::new(1, 2) },
            Push { pushed: still, from: Cell::new(0, 0), to: Cell::new(0, 1) },
            Push { pushed: 50, from: Cell::new(0, 0), to: Cell::new(0, 1) },
            Push { pushed: first, from: Cell::new(1, 2), to: Cell::new(1, 3) },
        ],
    );
    assert_eq!(move_of(&world, first), (Cell::new(1, 2), Cell::new(1, 3), true));
    assert_eq!(move_of(&world, second), (Cell::new(5, 5), Cell::new(5, 5), false));
    assert!(!holds(&world, still, MOVEABLE));
}

#[test]
fn clone_is_created_with_an_entity_for_each_step() {
    let mut world: World<Component> = World::new();
    create(&mut world, vec![Component::Cell(Cell::new(0, 0))]);
    let steps = vec![Vec2i::new(1, 0), Vec2i::new(0, 1), Vec2i::new(0, 0)];
    let clone = create_clone(&mut world, 3, steps.clone(), Cell::new(4, 2));
    assert_eq!(clone, 1);
    assert_eq!(world.entity_count(), 5);
    assert_eq!(run_of(&world, clone), (3, steps, 0, vec![2, 3, 4]));
    assert_eq!(sprite_on(&world, clone), Sprite::new(0, 3, 100));
    assert_eq!(cell_of(&world, clone), Some(Cell::new(4, 2)));
    assert_eq!(move_of(&world, clone), (Cell::new(4, 2), Cell::new(4, 2), false));
    for path in 2..5 {
        assert!(!holds(&world, path, SPRITE));
        assert!(!holds(&world, path, CELL));
    }
    assert_eq!(cell_of(&world, 0), Some(Cell::new(0, 0)));
    // a clone without steps has no path
    let idle = create_clone(&mut world, 0, vec![], Cell::new(1, 1));
    assert_eq!(idle, 5);
    assert_eq!(world.entity_count(), 6);
    assert_eq!(run_of(&world, idle), (0, vec![], 0, vec![]));
}

#[test]
fn retired_clone_goes_with_its_path() {
    let mut world: World<Component> = World::new();
    let clone = create_clone(&mut world, 2, vec![Vec2i::new(1, 0), Vec2i::new(1, 0)], Cell::new(4, 2));
    let other = create_clone(&mut world, 3, vec![Vec2i::new(0, 1)], Cell::new(4, 3));
    attach(&mut world, 1, Component::Sprite(Sprite::new(6, 2, 2))).unwrap();
    retire_clone(&mut world, clone);
    assert_eq!(world.entity_count(), 5);
    assert!(!holds(&world, clone, CLONE));
    assert!(!holds(&world, clone, CELL));
    assert!(!holds(&world, 1, SPRITE));
    assert_eq!(
        attach(&mut world, clone, Component::Cell(Cell::new(0, 0))),
        Err(StoreError::Deleted)
    );
    assert_eq!(attach(&mut world, 2, Component::Cell(Cell::new(0, 0))), Err(StoreError::Deleted));
    assert_eq!(run_of(&world, other).3, vec![4]);
    assert_eq!(attach(&mut world, 4, Component::Cell(Cell::new(0, 0))), Ok(()));
    // what is no clone goes alone
    retire_clone(&mut world, 4);
    assert!(!holds(&world, 4, CELL));
    assert!(holds(&world, other, CLONE));
}

#[test]
fn clones_are_sent_back_to_where_they_began() {
    let mut world: World<Component> = World::new();
    let first = walking_clone(&mut world, 1, Cell::new(6, 6), vec![Vec2i::new(1, 0)], 1, true);
    let stray = walking_clone(&mut world, 9, Cell::new(7, 7), vec![Vec2i::new(1, 0)], 1, false);
    let second = walking_clone(&mut world, 0, Cell::new(5, 5), vec![], 0, false);
    let (rewound, left) = rewind_clones(&mut world, &spawns()).unwrap();
    assert_eq!(rewound, vec![first, second]);
    assert_eq!(left, vec![Cell::new(6, 6), Cell::new(5, 5)]);
    assert_eq!(run_of(&world, first), (1, vec![Vec2i::new(1, 0)], 0, vec![]));
    assert_eq!(cell_of(&world, first), Some(Cell::new(2, 1)));
    assert_eq!(move_of(&world, first), (Cell::new(2, 1), Cell::new(2, 1), false));
    assert_eq!(cell_of(&world, second), Some(Cell::new(1, 1)));
    // a clone of a colour without a place to begin stays where it is
    assert_eq!(run_of(&world, stray).2, 1);
    assert_eq!(cell_of(&world, stray), Some(Cell::new(7, 7)));
    // the pass itself leaves the marks
    assert!(holds(&world, first, PLAYBACK));
    let guard = world.borrow_components(CELL).unwrap();
    assert_eq!(rewind_clones(&mut world, &spawns()), Err(StoreError::BorrowConflict));
    assert_eq!(reset_boxes(&mut world), Err(StoreError::BorrowConflict));
    world.release_components(guard).unwrap();
}

#[test]
fn loop_ends_with_the_record_taken_and_the_marks_gone() {
    let mut world: World<Component> = World::new();
    let made = create_player(&mut world, Cell::new(3, 3));
    record_step(&mut world, made.player, Vec2i::new(0, 1));
    let first = walking_clone(&mut world, 1, Cell::new(6, 6), vec![Vec2i::new(1, 0)], 1, true);
    let (record, clones, left) = rewind_loop(&mut world, made.player, &spawns());
    assert_eq!(record, vec![Vec2i::new(0, 1)]);
    assert_eq!(clones, 1);
    assert_eq!(left, vec![Cell::new(6, 6)]);
    assert!(!holds(&world, first, PLAYBACK));
    assert_eq!(color_of_player(&world, made.player), (0, vec![]));
    assert_eq!(cell_of(&world, made.player), Some(Cell::new(3, 3)));
}

#[test]
fn boxes_go_back_to_where_they_started() {
    let mut world: World<Component> = World::new();
    let mut colliders = Colliders::new(8, 8);
    let first = create_box(&mut world, &mut colliders, Cell::new(1, 1), &BoxType::Any);
    let second = create_box(&mut world, &mut colliders, Cell::new(2, 1), &BoxType::Color(2));
    // the first box was pushed away, the second onto the tile of the first
    attach(&mut world, first, Component::Cell(Cell::new(1, 4))).unwrap();
    attach(&mut world, second, Component::Cell(Cell::new(1, 1))).unwrap();
    colliders.set(Cell::new(1, 4), Collider::Box(BoxType::Any, first));
    colliders.set(Cell::new(1, 1), Collider::Box(BoxType::Color(2), second));
    colliders.set(Cell::new(2, 1), Collider::Empty);
    let shifts = reset_boxes(&mut world).unwrap();
    assert_eq!(
        shifts,
        vec![
            Shift { from: Cell::new(1, 4), to: Cell::new(1, 1) },
            Shift { from: Cell::new(1, 1), to: Cell::new(2, 1) },
        ]
    );
    assert_eq!(cell_of(&world, first), Some(Cell::new(1, 1)));
    assert_eq!(cell_of(&world, second), Some(Cell::new(2, 1)));
    assert!(holds(&world, first, PUSH_BOX));
    shift_colliders(&mut colliders, &shifts);
    assert_eq!(colliders.get(Cell::new(1, 4)), Collider::Empty);
    assert_eq!(colliders.get(Cell::new(1, 1)), Collider::Box(BoxType::Any, first));
    assert_eq!(colliders.get(Cell::new(2, 1)), Collider::Box(BoxType::Color(2), second));
}

#[test]
fn tiles_are_emptied_and_colliders_carried() {
    let mut colliders = Colliders::new(3, 3);
    colliders.set(Cell::new(0, 0), Collider::Solid);
    colliders.set(Cell::new(1, 1), Collider::Solid);
    colliders.set(Cell::new(2, 2), Collider::Box(BoxType::Any, 7));
    empty_tiles(&mut colliders, &vec![Cell::new(0, 0), Cell::new(5, 5), Cell::new(-1, 0), Cell::new(0, 1)]);
    assert_eq!(colliders.get(Cell::new(0, 0)), Collider::Empty);
    assert_eq!(colliders.get(Cell::new(1, 1)), Collider::Solid);
    shift_colliders(
        &mut colliders,
        &vec![
            Shift { from: Cell::new(2, 2), to: Cell::new(0, 2) },
            // nothing comes from beyond the map, and nothing goes there
            Shift { from: Cell::new(9, 9), to: Cell::new(1, 1) },
            Shift { from: Cell::new(0, 2), to: Cell::new(9, 9) },
            // what was lifted off before stands there no more
            Shift { from: Cell::new(2, 2), to: Cell::new(2, 0) },
        ],
    );
    assert_eq!(colliders.get(Cell::new(2, 2)), Collider::Empty);
    assert_eq!(colliders.get(Cell::new(0, 2)), Collider::Box(BoxType::Any, 7));
    assert_eq!(colliders.get(Cell::new(1, 1)), Collider::Empty);
    assert_eq!(colliders.get(Cell::new(2, 0)), Collider::Empty);
    assert_eq!(colliders.columns.len(), 3);
}

#[test]
fn player_begins_again_in_its_new_colour() {
    let mut world: World<Component> = World::new();
    let made = create_player(&mut world, Cell::new(3, 3));
    record_step(&mut world, made.player, Vec2i::new(0, 1));
    assert_eq!(respawn_player(&mut world, made.player, 4, Cell::new(5, 1)), Some(Cell::new(3, 3)));
    assert_eq!(color_of_player(&world, made.player), (4, vec![Vec2i::new(0, 1)]));
    assert_eq!(sprite_on(&world, made.player), Sprite::new(0, 4, 100));
    assert_eq!(cell_of(&world, made.player), Some(Cell::new(5, 1)));
    // the marker has a sprite, and nothing else to change
    assert_eq!(respawn_player(&mut world, made.marker, 2, Cell::new(6, 1)), None);
    assert_eq!(sprite_on(&world, made.marker), Sprite::new(0, 2, 127));
    assert_eq!(cell_of(&world, made.marker), None);
    assert_eq!(respawn_player(&mut world, 40, 2, Cell::new(6, 1)), None);
}

#[test]
fn new_loops_begin_with_the_first_colour() {
    let loops = Loops::new(Cell::new(2, 3));
    assert_eq!(loops.current_clone, 0);
    assert_eq!(loops.clones, vec![0, 0, 0, 0, 0]);
    assert_eq!(loops.clone_spawns, vec![Cell::new(2, 3); 5]);
}

#[test]
fn switching_leaves_a_clone_behind_and_starts_the_next_loop() {
    let mut world: World<Component> = World::new();
    let mut colliders = Colliders::new(8, 8);
    let mut loops = Loops::new(Cell::new(0, 0));
    loops.clone_spawns = spawns();
    let made = create_player(&mut world, Cell::new(1, 1));
    let pushed = create_box(&mut world, &mut colliders, Cell::new(6, 6), &BoxType::Any);
    // the player walked to (3, 3), and pushed the box to (6, 5)
    record_step(&mut world, made.player, Vec2i::new(1, 0));
    record_step(&mut world, made.player, Vec2i::new(0, 1));
    attach(&mut world, made.player, Component::Cell(Cell::new(3, 3))).unwrap();
    colliders.set(Cell::new(3, 3), Collider::Solid);
    attach(&mut world, pushed, Component::Cell(Cell::new(6, 5))).unwrap();
    colliders.set(Cell::new(6, 6), Collider::Empty);
    colliders.set(Cell::new(6, 5), Collider::Box(BoxType::Any, pushed));
    assert_eq!(world.entity_count(), 4);

    switch_clone(&mut world, &mut colliders, &mut loops, made.player);

    let clone = 4;
    assert_eq!(world.entity_count(), 7);
    assert_eq!(loops.current_clone, 1);
    assert_eq!(loops.clones, vec![clone, 0, 0, 0, 0]);
    assert_eq!(loops.clone_spawns, spawns());
    assert_eq!(
        run_of(&world, clone),
        (0, vec![Vec2i::new(1, 0), Vec2i::new(0, 1)], 0, vec![5, 6])
    );
    assert_eq!(cell_of(&world, clone), Some(Cell::new(1, 1)));
    assert_eq!(sprite_on(&world, clone), Sprite::new(0, 0, 100));
    assert_eq!(move_of(&world, clone), (Cell::new(1, 1), Cell::new(1, 1), false));
    assert_eq!(color_of_player(&world, made.player), (1, vec![]));
    assert_eq!(sprite_on(&world, made.player), Sprite::new(0, 1, 100));
    assert_eq!(cell_of(&world, made.player), Some(Cell::new(2, 1)));
    assert_eq!(colliders.get(Cell::new(3, 3)), Collider::Empty);
    assert_eq!(cell_of(&world, pushed), Some(Cell::new(6, 6)));
    assert_eq!(colliders.get(Cell::new(6, 5)), Collider::Empty);
    assert_eq!(colliders.get(Cell::new(6, 6)), Collider::Box(BoxType::Any, pushed));

    // the second loop: the clone has played its first step
    record_step(&mut world, made.player, Vec2i::new(0, 1));
    attach(&mut world, made.player, Component::Cell(Cell::new(2, 2))).unwrap();
    colliders.set(Cell::new(2, 2), Collider::Solid);
    attach(&mut world, clone, Component::Cell(Cell::new(2, 1))).unwrap();
    colliders.set(Cell::new(2, 1), Collider::Solid);
    attach(
        &mut world,
        clone,
        Component::Clone(CloneRun {
            color: 0,
            playback_dir: vec![Vec2i::new(1, 0), Vec2i::new(0, 1)],
            current_move: 1,
            paths: vec![5, 6],
        }),
    )
    .unwrap();
    attach(&mut world, clone, Component::Playback(Playback {})).unwrap();

    switch_clone(&mut world, &mut colliders, &mut loops, made.player);

    assert_eq!(world.entity_count(), 9);
    assert_eq!(loops.current_clone, 2);
    assert_eq!(loops.clones, vec![clone, 7, 0, 0, 0]);
    assert_eq!(run_of(&world, clone).2, 0);
    assert!(!holds(&world, clone, PLAYBACK));
    assert_eq!(cell_of(&world, clone), Some(Cell::new(1, 1)));
    assert_eq!(colliders.get(Cell::new(2, 1)), Collider::Empty);
    assert_eq!(run_of(&world, 7), (1, vec![Vec2i::new(0, 1)], 0, vec![8]));
    assert_eq!(cell_of(&world, 7), Some(Cell::new(2, 1)));
    assert_eq!(color_of_player(&world, made.player), (2, vec![]));
    assert_eq!(cell_of(&world, made.player), Some(Cell::new(3, 1)));
    assert_eq!(colliders.get(Cell::new(2, 2)), Collider::Empty);

    // with the fifth clone the oldest goes, and the player has its colour
    switch_clone(&mut world, &mut colliders, &mut loops, made.player);
    switch_clone(&mut world, &mut colliders, &mut loops, made.player);
    assert_eq!(loops.current_clone, 4);
    assert!(holds(&world, clone, CLONE));
    switch_clone(&mut world, &mut colliders, &mut loops, made.player);
    assert_eq!(world.entity_count(), 12);
    assert_eq!(loops.current_clone, 0);
    assert_eq!(loops.clones, vec![clone, 7, 9, 10, 11]);
    assert!(!holds(&world, clone, CLONE));
    assert!(!holds(&world, clone, CELL));
    assert!(holds(&world, 7, CLONE));
    assert_eq!(run_of(&world, 11), (4, vec![], 0, vec![]));
    assert_eq!(color_of_player(&world, made.player), (0, vec![]));
    assert_eq!(sprite_on(&world, made.player).index_y, 0);
    assert_eq!(cell_of(&world, made.player), Some(Cell::new(1, 1)));
}
