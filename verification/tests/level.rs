use harmony::game::animation::AnimationFrame;
use harmony::game::boxes::BoxType;
use harmony::game::buttons::ButtonType;
use harmony::game::collision::{Collider, Colliders};
use harmony::game::common::Cell;
use harmony::game::components::{
    cell_of, Component, ANIMATOR, BUTTON, MOVEABLE, PUSH_BOX, SLAVE_BUTTON, SPRITE, WIN_TILE,
};
use harmony::game::map_gen::{
    cells_in_room, check_map, check_piece, check_room, check_rows, check_sheet, check_tile,
    check_wires, create, create_box, create_piece, create_player_spawn, create_sheet,
    create_slaves, create_stone_floor, create_stone_wall, create_win_tile, draw_sprite,
    draw_wires, place_cells, slaves_in_room, wire_column, Slave, Spawn, Tile, WireTile,
};
use harmony::game::movement::Moveable;
use harmony::game::render::Sprite;
use harmony::game::win::WinTile;
use harmony::store::World;

fn drawn(world: &World<Component>, entity: usize) -> Option<Sprite> {
    match world.get_component_from_entity(entity, SPRITE) {
        Ok(Some(Component::Sprite(sprite))) => Some(*sprite),
        _ => None,
    }
}

fn given(world: &World<Component>, entity: usize, kind: u64) -> bool {
    matches!(world.get_component_from_entity(entity, kind), Ok(Some(_)))
}

fn empty_row() -> Vec<Tile> {
    (0..16).map(|_| Tile::Empty).collect()
}

fn empty_room() -> Vec<Vec<Tile>> {
    (0..14).map(|_| empty_row()).collect()
}

fn empty_map() -> Vec<Vec<Vec<Vec<Tile>>>> {
    (0..4).map(|_| (0..3).map(|_| empty_room()).collect()).collect()
}

fn no_wires() -> Vec<Vec<WireTile>> {
    (0..14).map(|_| (0..16).map(|_| WireTile::ET).collect()).collect()
}

#[test]
fn floor_wall_and_sprite_are_one_entity_each() {
    let mut world: World<Component> = World::new();
    let mut colliders = Colliders::new(48, 56);
    let floor = create_stone_floor(&mut world, Cell::new(1, 2));
    let wall = create_stone_wall(&mut world, &mut colliders, Cell::new(3, 4));
    let sprite = draw_sprite(&mut world, Cell::new(5, 6), Sprite::new(7, 8, 9));
    assert_eq!((floor, wall, sprite), (0, 1, 2));
    assert_eq!(world.entity_count(), 3);
    assert_eq!(drawn(&world, floor), Some(Sprite::new(1, 5, 0)));
    assert_eq!(drawn(&world, wall), Some(Sprite::new(0, 5, 0)));
    assert_eq!(drawn(&world, sprite), Some(Sprite::new(7, 8, 9)));
    assert_eq!(cell_of(&world, floor), Some(Cell::new(1, 2)));
    assert_eq!(cell_of(&world, wall), Some(Cell::new(3, 4)));
    assert_eq!(cell_of(&world, sprite), Some(Cell::new(5, 6)));
    assert_eq!(colliders.get(Cell::new(3, 4)), Collider::Solid);
    assert_eq!(colliders.get(Cell::new(5, 6)), Collider::Empty);
}

#[test]
fn box_spawn_and_win_tile_lie_on_a_floor_tile() {
    let mut world: World<Component> = World::new();
    let mut colliders = Colliders::new(48, 56);
    let pushed = create_box(&mut world, &mut colliders, Cell::new(3, 4), &BoxType::Color(2));
    assert_eq!(pushed, 1);
    assert_eq!(drawn(&world, 0), Some(Sprite::new(1, 5, 0)));
    assert_eq!(cell_of(&world, 0), Some(Cell::new(3, 4)));
    assert!(!given(&world, 0, MOVEABLE));
    assert_eq!(drawn(&world, pushed), Some(Sprite::new(2, 11, 50)));
    assert_eq!(cell_of(&world, pushed), Some(Cell::new(3, 4)));
    match world.get_component_from_entity(pushed, MOVEABLE) {
        Ok(Some(Component::Moveable(moveable))) => {
            assert_eq!(*moveable, Moveable::resting(Cell::new(3, 4), 150, true))
        }
        _ => panic!("no move"),
    }
    match world.get_component_from_entity(pushed, PUSH_BOX) {
        Ok(Some(Component::PushBox(start))) => assert_eq!(start.start_cell, Cell::new(3, 4)),
        _ => panic!("no box"),
    }
    assert_eq!(colliders.get(Cell::new(3, 4)), Collider::Box(BoxType::Color(2), pushed));

    let mark = create_player_spawn(&mut world, Cell::new(7, 8), 3);
    assert_eq!(mark, 3);
    assert_eq!(drawn(&world, 2), Some(Sprite::new(1, 5, 0)));
    assert_eq!(cell_of(&world, 2), Some(Cell::new(7, 8)));
    assert_eq!(drawn(&world, mark), Some(Sprite::new(3, 6, 1)));
    assert_eq!(cell_of(&world, mark), Some(Cell::new(7, 8)));

    let tile = create_win_tile(&mut world, Cell::new(9, 9), 4, 2);
    assert_eq!(tile, 5);
    assert_eq!(world.entity_count(), 6);
    assert_eq!(drawn(&world, 4), Some(Sprite::new(1, 5, 0)));
    assert_eq!(cell_of(&world, 4), Some(Cell::new(9, 9)));
    assert_eq!(drawn(&world, tile), Some(Sprite::new(0, 22, 1)));
    assert_eq!(cell_of(&world, tile), Some(Cell::new(9, 9)));
    match world.get_component_from_entity(tile, WIN_TILE) {
        Ok(Some(Component::WinTile(win))) => assert_eq!(*win, WinTile { color: 4, level: 2 }),
        _ => panic!("no win tile"),
    }
    match world.get_component_from_entity(tile, ANIMATOR) {
        Ok(Some(Component::Animator(animator))) => {
            assert!(animator.playing && animator.animation.looping);
            assert_eq!((animator.frame_index, animator.time), (0, 0));
            assert_eq!(
                animator.animation.frames,
                vec![
                    AnimationFrame::new(0, 100),
                    AnimationFrame::new(1, 100),
                    AnimationFrame::new(2, 100),
                ]
            );
        }
        _ => panic!("no animator"),
    }
}

#[test]
fn every_piece_of_wire_has_its_column() {
    let columns: Vec<Option<u32>> = vec![
        WireTile::ET,
        WireTile::VR,
        WireTile::HR,
        WireTile::SU,
        WireTile::SD,
        WireTile::SL,
        WireTile::SR,
        WireTile::XC,
        WireTile::TU,
        WireTile::TR,
        WireTile::TL,
        WireTile::TD,
        WireTile::L1,
        WireTile::L2,
        WireTile::L3,
        WireTile::L4,
    ]
    .into_iter()
    .map(wire_column)
    .collect();
    assert_eq!(
        columns,
        vec![
            None,
            Some(1),
            Some(0),
            Some(4),
            Some(5),
            Some(2),
            Some(3),
            Some(6),
            Some(7),
            Some(10),
            Some(9),
            Some(8),
            Some(14),
            Some(12),
            Some(13),
            Some(11),
        ]
    );
    let mut world: World<Component> = World::new();
    assert_eq!(draw_wires(&mut world, &no_wires(), 2, 3), vec![]);
    assert_eq!(world.entity_count(), 0);
    let mut wires = no_wires();
    wires[2][5] = WireTile::XC;
    assert_eq!(draw_wires(&mut world, &wires, 2, 3), vec![0]);
    assert_eq!(drawn(&world, 0), Some(Sprite::new(6, 12, 1)));
    assert_eq!(cell_of(&world, 0), Some(Cell::new(37, 53)));
}

#[test]
fn cells_and_slaves_of_a_room_are_put_on_the_map() {
    assert_eq!(
        place_cells(&vec![Cell::new(0, 0), Cell::new(15, 13), Cell::new(7, 1)], 1, 2),
        vec![Cell::new(16, 41), Cell::new(31, 28), Cell::new(23, 40)]
    );
    assert_eq!(place_cells(&vec![], 0, 0), vec![]);
    let mut world: World<Component> = World::new();
    create_stone_floor(&mut world, Cell::new(0, 0));
    let slaves = vec![
        Slave { button_type: ButtonType::Color(3), cell: Cell::new(4, 4) },
        Slave { button_type: ButtonType::AnyColor, cell: Cell::new(10, 0) },
    ];
    assert_eq!(create_slaves(&mut world, &slaves, 2, 0), vec![2, 4]);
    assert_eq!(world.entity_count(), 5);
    assert_eq!(drawn(&world, 1), Some(Sprite::new(1, 5, 0)));
    assert_eq!(cell_of(&world, 1), Some(Cell::new(36, 9)));
    assert_eq!(drawn(&world, 2), Some(Sprite::new(3, 7, 2)));
    assert_eq!(cell_of(&world, 2), Some(Cell::new(36, 9)));
    assert!(given(&world, 2, SLAVE_BUTTON));
    assert_eq!(drawn(&world, 4), Some(Sprite::new(5, 7, 2)));
    assert_eq!(cell_of(&world, 4), Some(Cell::new(42, 13)));
}

#[test]
fn plan_is_checked_before_it_is_built() {
    assert!(cells_in_room(&vec![Cell::new(0, 0), Cell::new(15, 13)]));
    assert!(!cells_in_room(&vec![Cell::new(0, 0), Cell::new(16, 13)]));
    assert!(!cells_in_room(&vec![Cell::new(0, 14)]));
    assert!(!cells_in_room(&vec![Cell::new(-1, 0)]));
    assert!(slaves_in_room(&vec![]));
    assert!(!slaves_in_room(&vec![Slave { button_type: ButtonType::AnyColor, cell: Cell::new(3, -2) }]));
    assert!(check_wires(&no_wires()));
    let mut short = no_wires();
    short[13].pop();
    assert!(!check_wires(&short));
    short.pop();
    assert!(!check_wires(&short));

    let button = |cell| Tile::Button(ButtonType::Color(0), vec![cell], vec![], no_wires());
    assert!(check_piece(&button(Cell::new(7, 0))));
    assert!(!check_piece(&button(Cell::new(7, 14))));
    assert!(check_piece(&Tile::StoneWall));
    assert!(!check_piece(&Tile::Button(ButtonType::Color(0), vec![], vec![], vec![])));
    assert!(check_rows(&empty_room()));
    let mut wide = empty_room();
    wide[3].push(Tile::Empty);
    assert!(!check_rows(&wide));
    assert!(!check_room(&wide));
    assert!(!check_sheet(&wide));
    assert!(!check_tile(&Tile::Sheet(wide)));

    let mut sheet = empty_room();
    sheet[13][15] = button(Cell::new(7, 0));
    assert!(check_sheet(&sheet));
    sheet[13][15] = button(Cell::new(70, 0));
    assert!(!check_sheet(&sheet));
    assert!(!check_tile(&Tile::Sheet(sheet)));

    let mut map = empty_map();
    assert!(check_map(&map));
    map[3][2][13][15] = Tile::Sheet(empty_room());
    assert!(check_map(&map));
    map[3][2][13][15] = button(Cell::new(16, 0));
    assert!(!check_map(&map));
    map[3][2][13][15] = Tile::Empty;
    map[1].pop();
    assert!(!check_map(&map));
    map.pop();
    assert!(!check_map(&map));
}

#[test]
fn piece_of_the_plan_becomes_its_entities() {
    let mut world: World<Component> = World::new();
    let mut colliders = Colliders::new(48, 56);
    let mut spawns: Vec<Spawn> = Vec::new();
    let cell = Cell::new(20, 30);
    create_piece(&mut world, &mut colliders, &mut spawns, &Tile::Empty, 1, 2, cell);
    create_piece(&mut world, &mut colliders, &mut spawns, &Tile::Sheet(vec![]), 1, 2, cell);
    assert_eq!(world.entity_count(), 0);
    create_piece(&mut world, &mut colliders, &mut spawns, &Tile::PlayerSpawn(2, 5), 1, 2, cell);
    assert_eq!(spawns, vec![Spawn { level: 5, clone: 2, cell }]);
    assert_eq!(drawn(&world, 1), Some(Sprite::new(2, 6, 1)));
    assert_eq!(cell_of(&world, 0), Some(cell));

    let mut wires = no_wires();
    wires[0][1] = WireTile::HR;
    let plan = Tile::Button(
        ButtonType::Color(0),
        vec![Cell::new(7, 0)],
        vec![Slave { button_type: ButtonType::Color(1), cell: Cell::new(4, 4) }],
        wires,
    );
    create_piece(&mut world, &mut colliders, &mut spawns, &plan, 1, 2, cell);
    // floor and slave, wire, floor and button, door
    assert_eq!(world.entity_count(), 8);
    assert!(given(&world, 3, SLAVE_BUTTON));
    assert_eq!(cell_of(&world, 3), Some(Cell::new(20, 37)));
    assert_eq!(drawn(&world, 4), Some(Sprite::new(0, 12, 1)));
    assert_eq!(cell_of(&world, 4), Some(Cell::new(17, 41)));
    assert_eq!(cell_of(&world, 6), Some(cell));
    match world.get_component_from_entity(6, BUTTON) {
        Ok(Some(Component::Button(button))) => {
            assert_eq!(button.button_type, ButtonType::Color(0));
            assert_eq!(button.slaves, vec![3]);
            assert_eq!(button.wires, vec![4]);
            assert_eq!(button.cells, vec![7]);
        }
        _ => panic!("no button"),
    }
    assert_eq!(cell_of(&world, 7), Some(Cell::new(23, 41)));
    assert_eq!(colliders.get(Cell::new(23, 41)), Collider::Solid);
    assert_eq!(spawns.len(), 1);
}

#[test]
fn map_is_built_room_by_room_and_column_by_column() {
    let mut map = empty_map();
    // the room at (1, 0): a wall in its last row, a spawn in its first
    map[0][1][13][0] = Tile::StoneWall;
    map[0][1][0][2] = Tile::PlayerSpawn(3, 2);
    // the room at (2, 3)
    map[3][2][5][5] = Tile::WinTile(1, 4);
    // the room at (0, 1) is laid out by a sheet
    let mut sheet = empty_room();
    sheet[1][1] = Tile::PushBox(BoxType::Any);
    sheet[0][15] = Tile::Sprite(Sprite::new(9, 9, 9));
    sheet[2][2] = Tile::Sheet(empty_room());
    assert!(check_sheet(&sheet));
    map[1][0][0][0] = Tile::Sheet(sheet);
    assert!(check_map(&map));

    let mut world: World<Component> = World::new();
    let mut colliders = Colliders::new(48, 56);
    let spawns = create(&mut world, &mut colliders, &map);

    assert_eq!(spawns, vec![Spawn { level: 2, clone: 3, cell: Cell::new(18, 13) }]);
    assert_eq!(world.entity_count(), 8);
    // the sheet comes first: its room is in the first column of rooms
    assert_eq!(drawn(&world, 0), Some(Sprite::new(1, 5, 0)));
    assert!(given(&world, 1, PUSH_BOX));
    assert_eq!(cell_of(&world, 1), Some(Cell::new(1, 26)));
    assert_eq!(colliders.get(Cell::new(1, 26)), Collider::Box(BoxType::Any, 1));
    assert_eq!(drawn(&world, 2), Some(Sprite::new(9, 9, 9)));
    assert_eq!(cell_of(&world, 2), Some(Cell::new(15, 27)));
    // in a room the first column comes first, from its top to its bottom
    assert_eq!(drawn(&world, 3), Some(Sprite::new(0, 5, 0)));
    assert_eq!(cell_of(&world, 3), Some(Cell::new(16, 0)));
    assert_eq!(colliders.get(Cell::new(16, 0)), Collider::Solid);
    assert_eq!(drawn(&world, 4), Some(Sprite::new(1, 5, 0)));
    assert_eq!(cell_of(&world, 4), Some(Cell::new(18, 13)));
    assert_eq!(drawn(&world, 5), Some(Sprite::new(3, 6, 1)));
    assert_eq!(drawn(&world, 6), Some(Sprite::new(1, 5, 0)));
    assert!(given(&world, 7, WIN_TILE));
    assert_eq!(cell_of(&world, 7), Some(Cell::new(37, 50)));
    assert!(!given(&world, 6, WIN_TILE));
    // nothing else stands on the map
    let mut taken = 0;
    for x in 0..48 {
        for y in 0..56 {
            if colliders.get(Cell::new(x, y)) != Collider::Empty {
                taken += 1;
            }
        }
    }
    assert_eq!(taken, 2);
}

#[test]
fn sheet_is_built_in_the_room_it_is_laid_over() {
    let mut sheet = empty_room();
    sheet[13][0] = Tile::StoneWall;
    sheet[0][0] = Tile::StoneFloor;
    sheet[3][2] = Tile::PlayerSpawn(0, 1);
    let mut world: World<Component> = World::new();
    let mut colliders = Colliders::new(48, 56);
    let mut spawns = vec![Spawn { level: 0, clone: 4, cell: Cell::new(0, 0) }];
    create_sheet(&mut world, &mut colliders, &mut spawns, &sheet, 2, 1);
    assert_eq!(world.entity_count(), 4);
    assert_eq!(drawn(&world, 0), Some(Sprite::new(1, 5, 0)));
    assert_eq!(drawn(&world, 1), Some(Sprite::new(0, 5, 0)));
    assert_eq!(cell_of(&world, 0), Some(Cell::new(32, 27)));
    assert_eq!(colliders.get(Cell::new(32, 14)), Collider::Solid);
    assert_eq!(
        spawns,
        vec![
            Spawn { level: 0, clone: 4, cell: Cell::new(0, 0) },
            Spawn { level: 1, clone: 0, cell: Cell::new(34, 24) },
        ]
    );
}
