use harmony::game::boxes::BoxType;
use harmony::game::buttons::{
    check_buttons, door_state, set_wire_rows, settle_colliders, settle_door, show_doors,
    ButtonType,
};
use harmony::game::clones::Clone as CloneRun;
use harmony::game::collision::{Collider, Colliders};
use harmony::game::common::Cell;
use harmony::game::components::{
    attach, cell_of, create, Component, BUTTON, SLAVE_BUTTON, SPRITE,
};
use harmony::game::map_gen::{create_button, create_slave_button, draw_wires, WireTile};
use harmony::game::player::create as create_player;
use harmony::game::render::Sprite;
use harmony::store::World;

fn shown(world: &World<Component>, entity: usize) -> Sprite {
    match world.get_component_from_entity(entity, SPRITE) {
        Ok(Some(Component::Sprite(sprite))) => *sprite,
        _ => panic!("no sprite"),
    }
}

fn master_is_pressed(world: &World<Component>, entity: usize) -> bool {
    match world.get_component_from_entity(entity, BUTTON) {
        Ok(Some(Component::Button(button))) => button.pressed,
        _ => panic!("no button"),
    }
}

fn slave_is_pressed(world: &World<Component>, entity: usize) -> bool {
    match world.get_component_from_entity(entity, SLAVE_BUTTON) {
        Ok(Some(Component::SlaveButton(button))) => button.pressed,
        _ => panic!("no slave button"),
    }
}

fn wires_of_a_room() -> Vec<Vec<WireTile>> {
    let mut wires: Vec<Vec<WireTile>> = Vec::new();
    for _ in 0..14 {
        let mut row = Vec::new();
        for _ in 0..16 {
            row.push(WireTile::ET);
        }
        wires.push(row);
    }
    wires[0][0] = WireTile::HR;
    wires[13][15] = WireTile::VR;
    wires
}

struct Room {
    world: World<Component>,
    colliders: Colliders,
    slave: usize,
    wires: Vec<usize>,
    button: usize,
    doors: Vec<usize>,
}

fn room_with_a_door() -> Room {
    let mut world: World<Component> = World::new();
    let mut colliders = Colliders::new(48, 56);
    let slave = create_slave_button(&mut world, Cell::new(4, 4), ButtonType::Color(1));
    let wires = draw_wires(&mut world, &wires_of_a_room(), 0, 0);
    let button = create_button(
        &mut world,
        &mut colliders,
        Cell::new(2, 2),
        ButtonType::AnyColor,
        vec![Cell::new(7, 0), Cell::new(8, 0)],
        vec![slave],
        wires.clone(),
    );
    Room { world, colliders, slave, wires, button, doors: vec![button + 1, button + 2] }
}

#[test]
fn button_is_built_with_its_door_its_slaves_and_its_wires() {
    let room = room_with_a_door();
    assert_eq!(room.slave, 1);
    assert_eq!(shown(&room.world, 0), Sprite::new(1, 5, 0));
    assert_eq!(cell_of(&room.world, 0), Some(Cell::new(4, 4)));
    assert_eq!(shown(&room.world, room.slave), Sprite::new(1, 7, 2));
    assert_eq!(cell_of(&room.world, room.slave), Some(Cell::new(4, 4)));
    assert!(!slave_is_pressed(&room.world, room.slave));
    // the wires are drawn column by column, the rows counted from the top
    assert_eq!(room.wires, vec![2, 3]);
    assert_eq!(shown(&room.world, 2), Sprite::new(0, 12, 1));
    assert_eq!(cell_of(&room.world, 2), Some(Cell::new(0, 13)));
    assert_eq!(shown(&room.world, 3), Sprite::new(1, 12, 1));
    assert_eq!(cell_of(&room.world, 3), Some(Cell::new(15, 0)));
    assert_eq!(room.button, 5);
    assert_eq!(room.world.entity_count(), 8);
    assert_eq!(shown(&room.world, 4), Sprite::new(1, 5, 0));
    assert_eq!(cell_of(&room.world, 4), Some(Cell::new(2, 2)));
    assert_eq!(shown(&room.world, room.button), Sprite::new(5, 7, 2));
    assert_eq!(cell_of(&room.world, room.button), Some(Cell::new(2, 2)));
    match room.world.get_component_from_entity(room.button, BUTTON) {
        Ok(Some(Component::Button(button))) => {
            assert_eq!(button.button_type, ButtonType::AnyColor);
            assert!(!button.pressed);
            assert_eq!(button.cells, room.doors);
            assert_eq!(button.slaves, vec![room.slave]);
            assert_eq!(button.wires, room.wires);
        }
        _ => panic!("no button"),
    }
    assert_eq!(shown(&room.world, room.doors[0]), Sprite::new(2, 5, 2));
    assert_eq!(cell_of(&room.world, room.doors[0]), Some(Cell::new(7, 0)));
    assert_eq!(cell_of(&room.world, room.doors[1]), Some(Cell::new(8, 0)));
    assert_eq!(room.colliders.get(Cell::new(7, 0)), Collider::Solid);
    assert_eq!(room.colliders.get(Cell::new(8, 0)), Collider::Solid);
    assert_eq!(room.colliders.get(Cell::new(2, 2)), Collider::Empty);
    assert_eq!(room.colliders.get(Cell::new(9, 0)), Collider::Empty);
}

#[test]
fn state_of_a_door_counts_the_buttons_that_are_pressed() {
    let mut room = room_with_a_door();
    let door = door_state(&room.world, room.button).unwrap();
    assert!(!door.open);
    assert_eq!((door.total_pressed, door.total_buttons), (0, 2));
    assert_eq!(door.wires, room.wires);
    assert_eq!(door.cells, room.doors);
    assert!(door_state(&room.world, room.slave).is_none());
    assert!(door_state(&room.world, 400).is_none());
    create_player(&mut room.world, Cell::new(2, 2));
    check_buttons(&mut room.world, &mut room.colliders);
    let door = door_state(&room.world, room.button).unwrap();
    assert!(!door.open);
    assert_eq!((door.total_pressed, door.total_buttons), (1, 2));
}

#[test]
fn door_opens_when_the_master_and_its_slaves_are_pressed() {
    let mut room = room_with_a_door();
    // nobody stands on a button
    check_buttons(&mut room.world, &mut room.colliders);
    assert!(!master_is_pressed(&room.world, room.button));
    assert_eq!(shown(&room.world, room.button), Sprite::new(5, 7, 2));
    assert_eq!(shown(&room.world, room.wires[0]).index_y, 12);
    assert_eq!(room.colliders.get(Cell::new(7, 0)), Collider::Solid);

    // the player steps on the master button
    create_player(&mut room.world, Cell::new(2, 2));
    check_buttons(&mut room.world, &mut room.colliders);
    assert!(master_is_pressed(&room.world, room.button));
    assert!(!slave_is_pressed(&room.world, room.slave));
    assert_eq!(shown(&room.world, room.button), Sprite::new(5, 8, 2));
    assert_eq!(shown(&room.world, room.slave), Sprite::new(1, 7, 2));
    assert_eq!(shown(&room.world, room.wires[0]), Sprite::new(0, 14, 1));
    assert_eq!(shown(&room.world, room.wires[1]), Sprite::new(1, 14, 1));
    assert!(shown(&room.world, room.doors[0]).render);
    assert_eq!(room.colliders.get(Cell::new(7, 0)), Collider::Solid);

    // a clone of the slave's colour steps on the slave
    let clone = create(
        &mut room.world,
        vec![
            Component::Clone(CloneRun { color: 1, playback_dir: vec![], current_move: 0, paths: vec![] }),
            Component::Cell(Cell::new(4, 4)),
        ],
    );
    check_buttons(&mut room.world, &mut room.colliders);
    assert!(master_is_pressed(&room.world, room.button));
    assert!(slave_is_pressed(&room.world, room.slave));
    assert_eq!(shown(&room.world, room.slave), Sprite::new(1, 8, 2));
    assert_eq!(shown(&room.world, room.wires[0]).index_y, 16);
    assert!(!shown(&room.world, room.doors[0]).render);
    assert!(!shown(&room.world, room.doors[1]).render);
    assert_eq!(room.colliders.get(Cell::new(7, 0)), Collider::Empty);
    assert_eq!(room.colliders.get(Cell::new(8, 0)), Collider::Empty);

    // the clone walks on
    attach(&mut room.world, clone, Component::Cell(Cell::new(4, 5))).unwrap();
    check_buttons(&mut room.world, &mut room.colliders);
    assert!(!slave_is_pressed(&room.world, room.slave));
    assert_eq!(shown(&room.world, room.slave), Sprite::new(1, 7, 2));
    assert_eq!(shown(&room.world, room.wires[1]).index_y, 14);
    assert!(shown(&room.world, room.doors[0]).render);
    assert_eq!(room.colliders.get(Cell::new(7, 0)), Collider::Solid);
    assert_eq!(room.colliders.get(Cell::new(8, 0)), Collider::Solid);
}

#[test]
fn box_in_an_open_door_stays_where_it_is() {
    let mut room = room_with_a_door();
    room.colliders.set(Cell::new(7, 0), Collider::Box(BoxType::Any, 90));
    settle_colliders(&room.world, &mut room.colliders, &room.doors, true);
    assert_eq!(room.colliders.get(Cell::new(7, 0)), Collider::Box(BoxType::Any, 90));
    assert_eq!(room.colliders.get(Cell::new(8, 0)), Collider::Empty);
    settle_colliders(&room.world, &mut room.colliders, &room.doors, false);
    assert_eq!(room.colliders.get(Cell::new(7, 0)), Collider::Solid);
    assert_eq!(room.colliders.get(Cell::new(8, 0)), Collider::Solid);
    // a door cell off the map, or without a cell, is passed over
    let far = create(&mut room.world, vec![Component::Cell(Cell::new(100, 100))]);
    settle_colliders(&room.world, &mut room.colliders, &vec![far, room.wires[0], 500], true);
    assert_eq!(room.colliders.get(Cell::new(0, 13)), Collider::Empty);
    assert_eq!(room.colliders.get(Cell::new(7, 0)), Collider::Solid);
}

#[test]
fn door_of_a_button_is_settled_by_what_is_recorded() {
    let mut room = room_with_a_door();
    // nothing is pressed: the door is shut
    settle_door(&mut room.world, &mut room.colliders, room.button);
    assert_eq!(shown(&room.world, room.wires[0]).index_y, 12);
    assert!(shown(&room.world, room.doors[1]).render);
    assert_eq!(room.colliders.get(Cell::new(8, 0)), Collider::Solid);
    // what is no button has no door
    settle_door(&mut room.world, &mut room.colliders, room.slave);
    assert_eq!(shown(&room.world, room.slave), Sprite::new(1, 7, 2));
}

#[test]
fn sprites_of_wires_and_doors_are_changed_where_there_are_any() {
    let mut room = room_with_a_door();
    let bare = create(&mut room.world, vec![Component::Cell(Cell::new(1, 1))]);
    set_wire_rows(&mut room.world, &vec![room.wires[1], bare, 700], 15);
    assert_eq!(shown(&room.world, room.wires[1]), Sprite::new(1, 15, 1));
    assert_eq!(shown(&room.world, room.wires[0]), Sprite::new(0, 12, 1));
    show_doors(&mut room.world, &vec![room.doors[0], bare, 700], false);
    assert!(!shown(&room.world, room.doors[0]).render);
    assert!(shown(&room.world, room.doors[1]).render);
    show_doors(&mut room.world, &vec![room.doors[0]], true);
    assert_eq!(shown(&room.world, room.doors[0]), Sprite::new(2, 5, 2));
    assert!(!matches!(room.world.get_component_from_entity(bare, SPRITE), Ok(Some(_))));
}
