use harmony::game::boxes::BoxType;
use harmony::game::clones::{create_clone, Clone as CloneRun};
use harmony::game::collision::{Collider, Colliders};
use harmony::game::common::Cell;
use harmony::game::components::{attach, cell_of, create, Component, CLONE, MOVEABLE, PLAYER, SPRITE};
use harmony::game::math::Vec2i;
use harmony::game::movement::Moveable;
use harmony::game::paths::{
    draw_tiles, hide_all, lay_path, next_path_cell, render_upcoming_trails, update_paths, PathTile,
};
use harmony::game::player::{create as create_player, record_step};
use harmony::game::render::Sprite;
use harmony::game::win::enter_room;
use harmony::model::StoreError;
use harmony::store::World;

fn steps() -> Vec<Vec2i> {
    vec![
        Vec2i::new(1, 0),
        Vec2i::new(1, 0),
        Vec2i::new(0, 1),
        Vec2i::new(0, 1),
        Vec2i::new(-1, 0),
        Vec2i::new(0, -1),
        Vec2i::new(1, 0),
        Vec2i::new(1, 0),
    ]
}

fn walled() -> Colliders {
    let mut colliders = Colliders::new(8, 8);
    colliders.set(Cell::new(3, 1), Collider::Solid);
    colliders
}

fn tile(path: usize, x: i32, y: i32, column: u32, color: u32) -> PathTile {
    PathTile { path, cell: Cell::new(x, y), sprite: Sprite::new(column, color, 2) }
}

fn seen(world: &World<Component>, entity: usize) -> Option<Sprite> {
    match world.get_component_from_entity(entity, SPRITE) {
        Ok(Some(Component::Sprite(sprite))) => Some(*sprite),
        _ => None,
    }
}

#[test]
fn path_stops_at_walls_and_at_the_end_of_the_map() {
    let mut colliders = walled();
    colliders.set(Cell::new(1, 2), Collider::Box(BoxType::Color(4), 3));
    colliders.set(Cell::new(2, 2), Collider::Box(BoxType::Any, 4));
    let from = Cell::new(2, 1);
    assert_eq!(next_path_cell(&colliders, 0, from, Vec2i::new(1, 0)), from);
    assert_eq!(next_path_cell(&colliders, 0, from, Vec2i::new(-1, 0)), Cell::new(1, 1));
    assert_eq!(next_path_cell(&colliders, 0, from, Vec2i::new(0, -1)), Cell::new(2, 0));
    // a box that gives way does not stop the path, a box of another colour does
    assert_eq!(next_path_cell(&colliders, 0, from, Vec2i::new(0, 1)), Cell::new(2, 2));
    assert_eq!(next_path_cell(&colliders, 0, Cell::new(1, 1), Vec2i::new(0, 1)), Cell::new(1, 1));
    assert_eq!(next_path_cell(&colliders, 4, Cell::new(1, 1), Vec2i::new(0, 1)), Cell::new(1, 2));
    assert_eq!(next_path_cell(&colliders, 0, Cell::new(0, 7), Vec2i::new(0, 1)), Cell::new(0, 7));
    assert_eq!(next_path_cell(&colliders, 0, Cell::new(0, 7), Vec2i::new(-1, 0)), Cell::new(0, 7));
    assert_eq!(
        next_path_cell(&colliders, 0, Cell::new(i32::MAX, 0), Vec2i::new(1, 0)),
        Cell::new(i32::MAX, 0)
    );
    assert_eq!(next_path_cell(&colliders, 0, from, Vec2i::zero()), from);
}

#[test]
fn path_is_laid_out_for_the_next_six_steps() {
    let colliders = walled();
    let mut run = CloneRun {
        color: 3,
        playback_dir: steps(),
        current_move: 1,
        paths: vec![10, 11, 12, 13, 14, 15, 16, 17],
    };
    assert_eq!(
        lay_path(&colliders, &run, Cell::new(2, 1)),
        vec![
            tile(11, 2, 1, 6, 3),
            tile(12, 2, 2, 5, 3),
            tile(13, 2, 3, 5, 3),
            tile(14, 1, 3, 7, 3),
            tile(15, 1, 2, 4, 3),
            tile(16, 2, 2, 6, 3),
        ]
    );
    // near its end the run has fewer steps left
    run.current_move = 6;
    assert_eq!(
        lay_path(&colliders, &run, Cell::new(5, 5)),
        vec![tile(16, 6, 5, 6, 3), tile(17, 7, 5, 6, 3)]
    );
    run.current_move = 8;
    assert_eq!(lay_path(&colliders, &run, Cell::new(5, 5)), vec![]);
    run.current_move = 9;
    assert_eq!(lay_path(&colliders, &run, Cell::new(5, 5)), vec![]);
    // no more steps are drawn than there are entities to draw them
    run.current_move = 0;
    run.paths = vec![10, 11];
    assert_eq!(
        lay_path(&colliders, &run, Cell::new(0, 0)),
        vec![tile(10, 1, 0, 6, 3), tile(11, 2, 0, 6, 3)]
    );
    run.paths = vec![];
    assert_eq!(lay_path(&colliders, &run, Cell::new(0, 0)), vec![]);
}

#[test]
fn tiles_are_drawn_and_sprites_are_hidden() {
    let mut world: World<Component> = World::new();
    let first = create(&mut world, vec![]);
    let second = create(&mut world, vec![Component::Sprite(Sprite::new(1, 1, 1))]);
    draw_tiles(&mut world, &vec![tile(first, 4, 5, 6, 0), tile(77, 0, 0, 6, 0), tile(second, 1, 2, 7, 1)]);
    assert_eq!(world.entity_count(), 2);
    assert_eq!(cell_of(&world, first), Some(Cell::new(4, 5)));
    assert_eq!(seen(&world, first), Some(Sprite::new(6, 0, 2)));
    assert_eq!(cell_of(&world, second), Some(Cell::new(1, 2)));
    assert_eq!(seen(&world, second), Some(Sprite::new(7, 1, 2)));
    let bare = create(&mut world, vec![Component::Cell(Cell::new(0, 0))]);
    hide_all(&mut world, &vec![second, bare, 99, second]);
    let mut hidden = Sprite::new(7, 1, 2);
    hidden.render = false;
    assert_eq!(seen(&world, second), Some(hidden));
    assert_eq!(seen(&world, first), Some(Sprite::new(6, 0, 2)));
    assert_eq!(seen(&world, bare), None);
}

#[test]
fn paths_of_all_clones_are_drawn_anew() {
    let mut world: World<Component> = World::new();
    let colliders = walled();
    let clone = create_clone(&mut world, 3, steps(), Cell::new(0, 1));
    assert_eq!(clone, 0);
    // the clone has played two steps and stands before the wall
    attach(
        &mut world,
        clone,
        Component::Clone(CloneRun {
            color: 3,
            playback_dir: steps(),
            current_move: 2,
            paths: vec![1, 2, 3, 4, 5, 6, 7, 8],
        }),
    )
    .unwrap();
    attach(&mut world, clone, Component::Moveable(Moveable::resting(Cell::new(2, 1), 150, false)))
        .unwrap();
    attach(&mut world, 1, Component::Sprite(Sprite::new(6, 3, 2))).unwrap();
    attach(&mut world, 2, Component::Sprite(Sprite::new(6, 3, 2))).unwrap();
    let idle = create_clone(&mut world, 1, vec![], Cell::new(5, 5));
    assert_eq!(update_paths(&mut world, &colliders), Ok(()));
    // the steps that were played are hidden
    assert_eq!(seen(&world, 1).map(|s| s.render), Some(false));
    assert_eq!(seen(&world, 2).map(|s| s.render), Some(false));
    // the next six are drawn where they lead
    assert_eq!(seen(&world, 3), Some(Sprite::new(5, 3, 2)));
    assert_eq!(cell_of(&world, 3), Some(Cell::new(2, 2)));
    assert_eq!(cell_of(&world, 4), Some(Cell::new(2, 3)));
    assert_eq!(seen(&world, 5), Some(Sprite::new(7, 3, 2)));
    assert_eq!(cell_of(&world, 5), Some(Cell::new(1, 3)));
    assert_eq!(cell_of(&world, 6), Some(Cell::new(1, 2)));
    assert_eq!(cell_of(&world, 7), Some(Cell::new(2, 2)));
    assert_eq!(seen(&world, 8), Some(Sprite::new(6, 3, 2)));
    assert_eq!(cell_of(&world, 8), Some(Cell::new(3, 2)));
    assert_eq!(cell_of(&world, 1), None);
    assert_eq!(seen(&world, idle), Some(Sprite::new(0, 1, 100)));
    // the pass is refused while one of its columns is borrowed for writing
    let guard = world.borrow_components_mut(MOVEABLE).unwrap();
    assert_eq!(update_paths(&mut world, &colliders), Err(StoreError::BorrowConflict));
    world.release_components_mut(guard).unwrap();
}

#[test]
fn steps_behind_a_clone_are_hidden() {
    let mut world: World<Component> = World::new();
    let clone = create_clone(&mut world, 3, steps(), Cell::new(0, 1));
    for path in 1..9 {
        attach(&mut world, path, Component::Sprite(Sprite::new(6, 3, 2))).unwrap();
    }
    attach(
        &mut world,
        clone,
        Component::Clone(CloneRun {
            color: 3,
            playback_dir: steps(),
            current_move: 2,
            paths: vec![1, 2, 3, 4, 5, 6, 7, 8],
        }),
    )
    .unwrap();
    assert_eq!(render_upcoming_trails(&mut world), Ok(()));
    let renders: Vec<bool> = (1..9).map(|path| seen(&world, path).unwrap().render).collect();
    assert_eq!(renders, vec![false, false, false, true, true, true, true, true]);
    assert_eq!(seen(&world, clone), Some(Sprite::new(0, 3, 100)));
    let guard = world.borrow_components_mut(CLONE).unwrap();
    assert_eq!(render_upcoming_trails(&mut world), Err(StoreError::BorrowConflict));
    world.release_components_mut(guard).unwrap();
}

#[test]
fn room_is_entered_on_the_tiles_where_the_colours_begin() {
    let mut world: World<Component> = World::new();
    let made = create_player(&mut world, Cell::new(9, 9));
    record_step(&mut world, made.player, Vec2i::new(1, 0));
    attach(
        &mut world,
        made.player,
        Component::Moveable(Moveable {
            start_cell: Cell::new(9, 9),
            end_cell: Cell::new(9, 10),
            duration: 150,
            accumulator: 40,
            moving: true,
            box_moveable: false,
        }),
    )
    .unwrap();
    let clone = create_clone(&mut world, 2, steps(), Cell::new(7, 7));
    let stray = create_clone(&mut world, 8, vec![Vec2i::new(0, 1)], Cell::new(6, 6));
    let begins = vec![Cell::new(20, 1), Cell::new(21, 1), Cell::new(22, 1)];
    enter_room(&mut world, &begins);
    match world.get_component_from_entity(made.player, PLAYER) {
        Ok(Some(Component::Player(player))) => {
            assert_eq!(player.playback_dir, vec![]);
            assert_eq!((player.color, player.marker), (0, made.marker));
        }
        _ => panic!("no player"),
    }
    assert_eq!(cell_of(&world, made.player), Some(Cell::new(20, 1)));
    match world.get_component_from_entity(made.player, MOVEABLE) {
        Ok(Some(Component::Moveable(moveable))) => {
            assert!(!moveable.moving);
            assert_eq!((moveable.end_cell, moveable.accumulator), (Cell::new(9, 10), 40));
        }
        _ => panic!("no move"),
    }
    match world.get_component_from_entity(clone, CLONE) {
        Ok(Some(Component::Clone(run))) => {
            assert_eq!(run.playback_dir, vec![]);
            assert_eq!(run.paths, Vec::<usize>::new());
            assert_eq!(run.color, 2);
        }
        _ => panic!("no clone"),
    }
    assert_eq!(cell_of(&world, clone), Some(Cell::new(22, 1)));
    // a colour without a place to begin stays as it is
    match world.get_component_from_entity(stray, CLONE) {
        Ok(Some(Component::Clone(run))) => assert_eq!(run.playback_dir, vec![Vec2i::new(0, 1)]),
        _ => panic!("no clone"),
    }
    assert_eq!(cell_of(&world, stray), Some(Cell::new(6, 6)));
}
