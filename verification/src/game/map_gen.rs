//! The layout of the map: rooms of tiles, and what is drawn for a tile.

use vstd::prelude::*;
use crate::game::animation::{Animation, AnimationFrame, Animator};
use crate::game::boxes::{BoxType, PushBox};
use crate::game::buttons::{ButtonType, SlaveButton};
use crate::game::collision::{put, Collider, Colliders};
use crate::game::common::Cell;
use crate::game::components::{
    built_upon, drawn_kinds, give, holds_only, lemma_built_upon_twice, typed, with_entity, Component, BUTTON, CELL,
    SPRITE,
};
use crate::game::buttons::Button;
use crate::game::movement::Moveable;
use crate::game::render::Sprite;
use crate::game::win::WinTile;
use crate::model::{ComponentKind, StoreView};
use crate::store::World;

verus! {

/// Tiles across a room.
pub const ROOM_TILE_WIDTH: u32 = 16;

/// Tiles down a room.
pub const ROOM_TILE_HEIGHT: u32 = 14;

/// Pixels across a room.
pub const ROOM_PIXEL_WIDTH: u32 = 256;

/// Pixels down a room.
pub const ROOM_PIXEL_HEIGHT: u32 = 224;

/// Rooms across the map.
pub const MAP_ROOM_WIDTH: u8 = 3;

/// Rooms down the map.
pub const MAP_ROOM_HEIGHT: u8 = 4;

/// Tiles across the map.
pub const MAP_TILE_WIDTH: usize = 48;

/// Tiles down the map.
pub const MAP_TILE_HEIGHT: usize = 56;

/// The cell of the tile at column `x` and row `y` of the room at
/// (`room_x`, `room_y`): rows of a room are counted from its top, rows of
/// the map from its bottom.
pub open spec fn tile_cell(room_x: int, room_y: int, x: int, y: int) -> Cell {
    Cell {
        value: crate::game::math::Vec2i {
            x: (room_x * 16 + x) as i32,
            y: (room_y * 14 + (13 - y)) as i32,
        },
    }
}

/// The cell of a tile of a room.
pub fn get_tile_cell(room_x: usize, room_y: usize, x: usize, y: usize) -> (cell: Cell)
    requires
        room_x < MAP_ROOM_WIDTH,
        room_y < MAP_ROOM_HEIGHT,
        x < ROOM_TILE_WIDTH,
        y < ROOM_TILE_HEIGHT,
    ensures
        cell == tile_cell(room_x as int, room_y as int, x as int, y as int),
        0 <= cell.value.x < MAP_TILE_WIDTH,
        0 <= cell.value.y < MAP_TILE_HEIGHT,
{
    assert(MAP_ROOM_WIDTH == 3 && MAP_ROOM_HEIGHT == 4 && ROOM_TILE_WIDTH == 16 && ROOM_TILE_HEIGHT
        == 14);
    let rev_y: u32 = (ROOM_TILE_HEIGHT - 1) - y as u32;
    let column: i32 = room_x as i32;
    let row: i32 = room_y as i32;
    assert(0 <= column <= 2 && 0 <= row <= 3);
    Cell::new(column * 16 + x as i32, row * 14 + rev_y as i32)
}

/// The sprite of a box: its colour picks the column of the sheet.
pub fn box_sprite(box_type: &BoxType) -> (sprite: Sprite)
    ensures
        sprite == (Sprite {
            index_x: match *box_type {
                BoxType::Any => 5u32,
                BoxType::Color(col) => col as u32,
            },
            index_y: 11,
            flip_x: false,
            layer: 50,
            render: true,
        }),
{
    match box_type {
        BoxType::Any => Sprite::new(5, 11, 50),
        BoxType::Color(col) => Sprite::new(*col as u32, 11, 50),
    }
}

/// The sprite of a button that is not pressed.
pub fn button_sprite(button_type: ButtonType) -> (sprite: Sprite)
    ensures
        sprite == (Sprite {
            index_x: match button_type {
                ButtonType::AnyColor => 5u32,
                ButtonType::Color(col) => col as u32,
            },
            index_y: 7,
            flip_x: false,
            layer: 2,
            render: true,
        }),
{
    match button_type {
        ButtonType::AnyColor => Sprite::new(5, 7, 2),
        ButtonType::Color(col) => Sprite::new(col as u32, 7, 2),
    }
}

/// How long a step from tile to tile takes, in milliseconds.
pub const STEP_DURATION: u128 = 150;

/// The sprite of a floor tile.
pub open spec fn floor_sprite() -> Sprite {
    Sprite { index_x: 1, index_y: 5, flip_x: false, layer: 0, render: true }
}

/// The sprite of a wall tile.
pub open spec fn wall_sprite() -> Sprite {
    Sprite { index_x: 0, index_y: 5, flip_x: false, layer: 0, render: true }
}

/// The components of a floor tile on `cell`: the cell says where the tile
/// is drawn.
pub open spec fn floor_components(cell: Cell) -> Seq<Component> {
    seq![Component::Cell(cell), Component::Sprite(floor_sprite())]
}

/// The components of a wall tile on `cell`.
pub open spec fn wall_components(cell: Cell) -> Seq<Component> {
    seq![Component::Cell(cell), Component::Sprite(wall_sprite())]
}

/// The components of the mark that shows where the clone `clone` begins,
/// on `cell`.
pub open spec fn spawn_components(cell: Cell, clone: u8) -> Seq<Component> {
    seq![
        Component::Cell(cell),
        Component::Sprite(
            Sprite { index_x: clone as u32, index_y: 6, flip_x: false, layer: 1, render: true },
        ),
    ]
}

/// Lays a stone floor tile on `cell`: an entity with the cell and the floor
/// sprite.
pub fn create_stone_floor(world: &mut World<Component>, cell: Cell) -> (floor: usize)
    requires
        old(world).wf(),
        old(world)@.unborrowed(),
    ensures
        final(world).wf(),
        final(world)@.unborrowed(),
        floor == old(world)@.entity_count,
        final(world)@.entity_count == old(world)@.entity_count + 1,
        final(world)@.deleted == old(world)@.deleted,
        final(world)@ == with_entity(old(world)@, floor_components(cell)),
        typed(old(world)@) ==> typed(final(world)@),
        built_upon(old(world)@, final(world)@),
        forall|kind: ComponentKind, e: int|
            e != floor ==> #[trigger] final(world)@.slot(kind, e) == old(world)@.slot(kind, e),
        holds_only(final(world)@, floor as int, drawn_kinds()),
        final(world)@.slot(CELL, floor as int) == Some(Component::Cell(cell)),
        final(world)@.slot(SPRITE, floor as int) == Some(Component::Sprite(floor_sprite())),
{
    let components = vec![Component::Cell(cell), Component::Sprite(Sprite::new(1, 5, 0))];
    assert(components@ =~= floor_components(cell));
    let ghost listed = components@;
    let floor = crate::game::components::create(world, components);
    proof {
        assert(listed[0].kind() == CELL && listed[1].kind() == SPRITE);
        assert(world@.slot(listed[0].kind(), floor as int) == Some(listed[0]));
        assert(world@.slot(listed[1].kind(), floor as int) == Some(listed[1]));
        assert(crate::game::components::kinds_in(listed) =~= drawn_kinds());
    }
    floor
}

/// Builds a stone wall on `cell`: an entity with the cell and the wall
/// sprite, and a solid tile on the map.
pub fn create_stone_wall(world: &mut World<Component>, colliders: &mut Colliders, cell: Cell) -> (wall:
    usize)
    requires
        old(world).wf(),
        old(world)@.unborrowed(),
        old(colliders).holds(cell),
    ensures
        final(world).wf(),
        final(world)@.unborrowed(),
        wall == old(world)@.entity_count,
        final(world)@.entity_count == old(world)@.entity_count + 1,
        final(world)@ == with_entity(old(world)@, wall_components(cell)),
        typed(old(world)@) ==> typed(final(world)@),
        built_upon(old(world)@, final(world)@),
        forall|c: Cell| old(colliders).holds(c) == final(colliders).holds(c),
        final(colliders).at(cell) == Collider::Solid,
        forall|c: Cell|
            old(colliders).holds(c) && c != cell ==> #[trigger] final(colliders).at(c) == old(
                colliders,
            ).at(c),
        final(colliders).grid() == put(old(colliders).grid(), cell, Collider::Solid),
{
    let components = vec![Component::Cell(cell), Component::Sprite(Sprite::new(0, 5, 0))];
    assert(components@ =~= wall_components(cell));
    let wall = crate::game::components::create(world, components);
    colliders.set(cell, Collider::Solid);
    wall
}

/// Puts a sprite on `cell`: an entity with the cell and the sprite.
pub fn draw_sprite(world: &mut World<Component>, cell: Cell, sprite: Sprite) -> (drawn: usize)
    requires
        old(world).wf(),
        old(world)@.unborrowed(),
    ensures
        final(world).wf(),
        final(world)@.unborrowed(),
        drawn == old(world)@.entity_count,
        final(world)@.entity_count == old(world)@.entity_count + 1,
        final(world)@ == with_entity(
            old(world)@,
            seq![Component::Cell(cell), Component::Sprite(sprite)],
        ),
        typed(old(world)@) ==> typed(final(world)@),
        built_upon(old(world)@, final(world)@),
{
    let components = vec![Component::Cell(cell), Component::Sprite(sprite)];
    assert(components@ =~= seq![Component::Cell(cell), Component::Sprite(sprite)]);
    crate::game::components::create(world, components)
}

/// The components of a slave button of type `button_type` on `cell`.
pub open spec fn slave_button_components(cell: Cell, button_type: ButtonType) -> Seq<Component> {
    seq![
        Component::Cell(cell),
        Component::Sprite(
            Sprite {
                index_x: match button_type {
                    ButtonType::AnyColor => 5u32,
                    ButtonType::Color(col) => col as u32,
                },
                index_y: 7,
                flip_x: false,
                layer: 2,
                render: true,
            },
        ),
        Component::SlaveButton(SlaveButton { button_type, pressed: false }),
    ]
}

/// Builds a slave button on `cell`: a floor tile, and on it the button,
/// which is not pressed. Returns the entity of the button.
pub fn create_slave_button(world: &mut World<Component>, cell: Cell, button_type: ButtonType) -> (button:
    usize)
    requires
        old(world).wf(),
        old(world)@.unborrowed(),
    ensures
        final(world).wf(),
        final(world)@.unborrowed(),
        button == old(world)@.entity_count + 1,
        final(world)@.entity_count == old(world)@.entity_count + 2,
        final(world)@ == with_entity(
            with_entity(old(world)@, floor_components(cell)),
            slave_button_components(cell, button_type),
        ),
        typed(old(world)@) ==> typed(final(world)@),
        built_upon(old(world)@, final(world)@),
{
    create_stone_floor(world, cell);
    let components = vec![
        Component::Cell(cell),
        Component::Sprite(button_sprite(button_type)),
        Component::SlaveButton(SlaveButton { button_type, pressed: false }),
    ];
    assert(components@ =~= slave_button_components(cell, button_type));
    crate::game::components::create(world, components)
}

/// The components of a box of type `box_type` on `cell`.
pub open spec fn box_components(cell: Cell, box_type: BoxType) -> Seq<Component> {
    seq![
        Component::Cell(cell),
        Component::Sprite(
            Sprite {
                index_x: match box_type {
                    BoxType::Any => 5u32,
                    BoxType::Color(col) => col as u32,
                },
                index_y: 11,
                flip_x: false,
                layer: 50,
                render: true,
            },
        ),
        Component::Moveable(
            Moveable {
                start_cell: cell,
                end_cell: cell,
                duration: STEP_DURATION,
                accumulator: 0,
                moving: false,
                box_moveable: true,
            },
        ),
        Component::PushBox(PushBox { start_cell: cell }),
    ]
}

/// Puts a box on `cell`: a floor tile, and on it the box, which rests; the
/// tile on the map holds the box. Returns the entity of the box.
pub fn create_box(
    world: &mut World<Component>,
    colliders: &mut Colliders,
    cell: Cell,
    box_type: &BoxType,
) -> (pushed: usize)
    requires
        old(world).wf(),
        old(world)@.unborrowed(),
        old(colliders).holds(cell),
    ensures
        final(world).wf(),
        final(world)@.unborrowed(),
        pushed == old(world)@.entity_count + 1,
        final(world)@.entity_count == old(world)@.entity_count + 2,
        final(world)@ == with_entity(
            with_entity(old(world)@, floor_components(cell)),
            box_components(cell, *box_type),
        ),
        typed(old(world)@) ==> typed(final(world)@),
        built_upon(old(world)@, final(world)@),
        forall|c: Cell| old(colliders).holds(c) == final(colliders).holds(c),
        final(colliders).at(cell) == Collider::Box(*box_type, pushed),
        forall|c: Cell|
            old(colliders).holds(c) && c != cell ==> #[trigger] final(colliders).at(c) == old(
                colliders,
            ).at(c),
        final(colliders).grid() == put(old(colliders).grid(), cell, Collider::Box(*box_type, pushed)),
{
    create_stone_floor(world, cell);
    let components = vec![
        Component::Cell(cell),
        Component::Sprite(box_sprite(box_type)),
        Component::Moveable(Moveable::resting(cell, STEP_DURATION, true)),
        Component::PushBox(PushBox { start_cell: cell }),
    ];
    assert(components@ =~= box_components(cell, *box_type));
    let pushed = crate::game::components::create(world, components);
    colliders.set(cell, Collider::Box(*box_type, pushed));
    pushed
}

/// Marks where the clone `clone` starts: a floor tile on `cell`, and on it
/// the mark in the clone's colour. Returns the entity of the mark.
pub fn create_player_spawn(world: &mut World<Component>, cell: Cell, clone: u8) -> (mark: usize)
    requires
        old(world).wf(),
        old(world)@.unborrowed(),
    ensures
        final(world).wf(),
        final(world)@.unborrowed(),
        mark == old(world)@.entity_count + 1,
        final(world)@.entity_count == old(world)@.entity_count + 2,
        final(world)@ == with_entity(
            with_entity(old(world)@, floor_components(cell)),
            spawn_components(cell, clone),
        ),
        typed(old(world)@) ==> typed(final(world)@),
        built_upon(old(world)@, final(world)@),
{
    create_stone_floor(world, cell);
    let components = vec![
        Component::Cell(cell),
        Component::Sprite(Sprite::new(clone as u32, 6, 1)),
    ];
    assert(components@ =~= spawn_components(cell, clone));
    crate::game::components::create(world, components)
}

/// The row of the sprite sheet that shows the win tile of colour `color`.
pub open spec fn win_row(color: u8) -> u32 {
    (18 + color) as u32
}

/// The entity `tile` is a win tile of colour `color` and room `level` on
/// `cell`, with a sprite in the row of its colour and an animation of three
/// frames that plays.
pub open spec fn is_win_tile(
    store: StoreView<Component>,
    tile: int,
    cell: Cell,
    color: u8,
    level: usize,
) -> bool {
    &&& holds_only(
        store,
        tile,
        seq![CELL, SPRITE, crate::game::components::ANIMATOR, crate::game::components::WIN_TILE],
    )
    &&& store.slot(crate::game::components::CELL, tile) == Some(Component::Cell(cell))
    &&& store.slot(crate::game::components::SPRITE, tile) == Some(
        Component::Sprite(
            Sprite { index_x: 0, index_y: win_row(color), flip_x: false, layer: 1, render: true },
        ),
    )
    &&& store.slot(crate::game::components::WIN_TILE, tile) == Some(
        Component::WinTile(WinTile { color, level }),
    )
    &&& store.slot(crate::game::components::ANIMATOR, tile) matches Some(
        Component::Animator(animator),
    ) && animator.playing && animator.time == 0 && animator.frame_index == 0
        && animator.animation.looping && animator.animation.frames@ == seq![
        AnimationFrame { sprite: 0, length: 100 },
        AnimationFrame { sprite: 1, length: 100 },
        AnimationFrame { sprite: 2, length: 100 },
    ]
}

/// Lays a win tile of colour `color` for the room `level` on `cell`: a floor
/// tile, and on it the win tile. Returns the entity of the win tile.
pub fn create_win_tile(world: &mut World<Component>, cell: Cell, color: u8, level: usize) -> (tile:
    usize)
    requires
        old(world).wf(),
        old(world)@.unborrowed(),
    ensures
        final(world).wf(),
        final(world)@.unborrowed(),
        tile == old(world)@.entity_count + 1,
        final(world)@.entity_count == old(world)@.entity_count + 2,
        holds_only(final(world)@, tile - 1, drawn_kinds()),
        final(world)@.slot(CELL, tile - 1) == Some(Component::Cell(cell)),
        final(world)@.slot(SPRITE, tile - 1) == Some(Component::Sprite(floor_sprite())),
        is_win_tile(final(world)@, tile as int, cell, color, level),
        typed(old(world)@) ==> typed(final(world)@),
        built_upon(old(world)@, final(world)@),
{
    create_stone_floor(world, cell);
    let animator = Animator {
        animation: Animation {
            frames: vec![
                AnimationFrame::new(0, 100),
                AnimationFrame::new(1, 100),
                AnimationFrame::new(2, 100),
            ],
            looping: true,
        },
        frame_index: 0,
        time: 0,
        playing: true,
    };
    assert(animator.animation.frames@ =~= seq![
        AnimationFrame { sprite: 0, length: 100 },
        AnimationFrame { sprite: 1, length: 100 },
        AnimationFrame { sprite: 2, length: 100 },
    ]);
    let sprite = Sprite::new(0, 18 + color as u32, 1);
    let tile_component = WinTile { color, level };
    let components = vec![
        Component::Cell(cell),
        Component::Sprite(sprite),
        Component::Animator(animator),
        Component::WinTile(tile_component),
    ];
    let ghost listed = components@;
    let ghost floored = world@;
    let tile = crate::game::components::create(world, components);
    proof {
        reveal_with_fuel(crate::game::components::given, 5);
        let e = tile as int;
        let s0 = floored.with_new_entity();
        let s1 = s0.with_component(e, listed[0].kind(), listed[0]);
        let s2 = s1.with_component(e, listed[1].kind(), listed[1]);
        let s3 = s2.with_component(e, listed[2].kind(), listed[2]);
        let s4 = s3.with_component(e, listed[3].kind(), listed[3]);
        assert(listed.drop_last().drop_last().drop_last().drop_last() =~= Seq::<Component>::empty());
        assert(listed.drop_last().last() == listed[2]);
        assert(listed.drop_last().drop_last().last() == listed[1]);
        assert(listed.drop_last().drop_last().drop_last().last() == listed[0]);
        assert(world@ == s4);
    }
    tile
}

/// A piece of the wire that leads from a button to its door.
#[derive(PartialEq, Eq, Structural, Clone, Copy, Debug)]
pub enum WireTile {
    ET,
    VR,
    HR,
    SU,
    SD,
    SL,
    SR,
    XC,
    TU,
    TR,
    TL,
    TD,
    L1,
    L2,
    L3,
    L4,
}

/// The column of the sprite sheet that shows a piece of wire: none for the
/// empty piece.
pub open spec fn wire_column_of(tile: WireTile) -> Option<u32> {
    match tile {
        WireTile::ET => None,
        WireTile::VR => Some(1u32),
        WireTile::HR => Some(0u32),
        WireTile::SU => Some(4u32),
        WireTile::SD => Some(5u32),
        WireTile::SL => Some(2u32),
        WireTile::SR => Some(3u32),
        WireTile::XC => Some(6u32),
        WireTile::TU => Some(7u32),
        WireTile::TR => Some(10u32),
        WireTile::TL => Some(9u32),
        WireTile::TD => Some(8u32),
        WireTile::L1 => Some(14u32),
        WireTile::L2 => Some(12u32),
        WireTile::L3 => Some(13u32),
        WireTile::L4 => Some(11u32),
    }
}

/// The column of the sprite sheet that shows a piece of wire.
pub fn wire_column(tile: WireTile) -> (column: Option<u32>)
    ensures
        column == wire_column_of(tile),
{
    match tile {
        WireTile::ET => None,
        WireTile::VR => Some(1),
        WireTile::HR => Some(0),
        WireTile::SU => Some(4),
        WireTile::SD => Some(5),
        WireTile::SL => Some(2),
        WireTile::SR => Some(3),
        WireTile::XC => Some(6),
        WireTile::TU => Some(7),
        WireTile::TR => Some(10),
        WireTile::TL => Some(9),
        WireTile::TD => Some(8),
        WireTile::L1 => Some(14),
        WireTile::L2 => Some(12),
        WireTile::L3 => Some(13),
        WireTile::L4 => Some(11),
    }
}

/// The wires of a room: a row of pieces for every row of tiles.
pub open spec fn room_of_wires(wires: Seq<Vec<WireTile>>) -> bool {
    &&& wires.len() == ROOM_TILE_HEIGHT
    &&& forall|y: int| 0 <= y < wires.len() ==> (#[trigger] wires[y])@.len() == ROOM_TILE_WIDTH
}

/// The components of the wire entity for the piece at place `place` of
/// the room, the places being counted column by column: none for an empty
/// piece.
pub open spec fn wire_components(
    wires: Seq<Vec<WireTile>>,
    room_x: int,
    room_y: int,
    place: int,
) -> Option<Seq<Component>> {
    let x = place / 14;
    let y = place % 14;
    match wire_column_of(wires[y]@[x]) {
        Some(column) => Some(
            seq![
                Component::Sprite(
                    Sprite { index_x: column, index_y: 12, flip_x: false, layer: 1, render: true },
                ),
                Component::Cell(tile_cell(room_x, room_y, x, y)),
            ],
        ),
        None => None,
    }
}

/// The store after the wire entities for the first `places` places of the
/// room were created.
pub open spec fn wires_drawn(
    store: StoreView<Component>,
    wires: Seq<Vec<WireTile>>,
    room_x: int,
    room_y: int,
    places: int,
) -> StoreView<Component>
    decreases places,
{
    if places <= 0 {
        store
    } else {
        let before = wires_drawn(store, wires, room_x, room_y, places - 1);
        match wire_components(wires, room_x, room_y, places - 1) {
            Some(components) => with_entity(before, components),
            None => before,
        }
    }
}

/// Draws the wires of a room: an entity with a sprite and a cell for every
/// piece of wire that is not empty, column by column. Returns the entities.
pub fn draw_wires(
    world: &mut World<Component>,
    wires: &Vec<Vec<WireTile>>,
    room_x: usize,
    room_y: usize,
) -> (drawn: Vec<usize>)
    requires
        old(world).wf(),
        old(world)@.unborrowed(),
        room_of_wires(wires@),
        room_x < MAP_ROOM_WIDTH,
        room_y < MAP_ROOM_HEIGHT,
    ensures
        final(world).wf(),
        final(world)@.unborrowed(),
        final(world)@ == wires_drawn(old(world)@, wires@, room_x as int, room_y as int, 224),
        final(world)@.entity_count == old(world)@.entity_count + drawn@.len(),
        forall|i: int| 0 <= i < drawn@.len() ==> #[trigger] drawn@[i] == old(world)@.entity_count + i,
        typed(old(world)@) ==> typed(final(world)@),
        built_upon(old(world)@, final(world)@),
{
    assert(ROOM_TILE_WIDTH == 16 && ROOM_TILE_HEIGHT == 14);
    let mut drawn: Vec<usize> = Vec::new();
    let mut x: usize = 0;
    while x < 16
        invariant
            x <= 16,
            room_of_wires(wires@),
            room_x < MAP_ROOM_WIDTH,
            room_y < MAP_ROOM_HEIGHT,
            world.wf(),
            world@.unborrowed(),
            world@ == wires_drawn(old(world)@, wires@, room_x as int, room_y as int, x * 14),
            world@.entity_count == old(world)@.entity_count + drawn@.len(),
            forall|i: int|
                0 <= i < drawn@.len() ==> #[trigger] drawn@[i] == old(world)@.entity_count + i,
            typed(old(world)@) ==> typed(world@),
            built_upon(old(world)@, world@),
        decreases 16 - x,
    {
        let mut y: usize = 0;
        while y < 14
            invariant
                x < 16,
                y <= 14,
                room_of_wires(wires@),
                room_x < MAP_ROOM_WIDTH,
                room_y < MAP_ROOM_HEIGHT,
                world.wf(),
                world@.unborrowed(),
                world@ == wires_drawn(
                    old(world)@,
                    wires@,
                    room_x as int,
                    room_y as int,
                    x * 14 + y,
                ),
                world@.entity_count == old(world)@.entity_count + drawn@.len(),
                forall|i: int|
                    0 <= i < drawn@.len() ==> #[trigger] drawn@[i] == old(world)@.entity_count + i,
                typed(old(world)@) ==> typed(world@),
                built_upon(old(world)@, world@),
            built_upon(old(world)@, world@),
            decreases 14 - y,
        {
            let ghost place = x * 14 + y;
            assert(place / 14 == x as int && place % 14 == y as int) by (nonlinear_arith)
                requires
                    place == x * 14 + y,
                    0 <= y < 14,
                    0 <= x,
            ;
            assert(ROOM_TILE_WIDTH == 16 && ROOM_TILE_HEIGHT == 14);
            match wire_column(wires[y][x]) {
                Some(column) => {
                    let cell = get_tile_cell(room_x, room_y, x, y);
                    let components = vec![
                        Component::Sprite(Sprite::new(column, 12, 1)),
                        Component::Cell(cell),
                    ];
                    assert(components@ =~= wire_components(
                        wires@,
                        room_x as int,
                        room_y as int,
                        place as int,
                    )->0);
                    let wire = crate::game::components::create(world, components);
                    drawn.push(wire);
                },
                None => {},
            }
            y += 1;
        }
        x += 1;
    }
    drawn
}

/// The sprite of a door cell.
pub open spec fn door_sprite() -> Sprite {
    Sprite { index_x: 2, index_y: 5, flip_x: false, layer: 2, render: true }
}

/// `cell` is one of `cells`.
pub open spec fn among(cells: Seq<Cell>, cell: Cell) -> bool {
    exists|i: int| 0 <= i < cells.len() && #[trigger] cells[i] == cell
}

/// The store `after` is the store `before` with a master button of type
/// `button_type` on `cell`: behind the entities of `before` stand a floor
/// tile, the button, and a door cell for each of `cells`. The button knows
/// its door cells, the slaves `slaves` and the wires `wires`, and is not
/// pressed.
pub open spec fn button_made(
    before: StoreView<Component>,
    cell: Cell,
    button_type: ButtonType,
    cells: Seq<Cell>,
    slaves: Seq<usize>,
    wires: Seq<usize>,
    after: StoreView<Component>,
) -> bool {
    let button = before.entity_count as int + 1;
    &&& after.entity_count == before.entity_count + 2 + cells.len()
    &&& holds_only(after, button - 1, drawn_kinds())
    &&& holds_only(after, button, seq![CELL, SPRITE, BUTTON])
    &&& forall|e: int|
        button < e < button + 1 + cells.len() ==> #[trigger] holds_only(after, e, drawn_kinds())
    &&& after.slot(CELL, button - 1) == Some(Component::Cell(cell))
    &&& after.slot(SPRITE, button - 1) == Some(Component::Sprite(floor_sprite()))
    &&& after.slot(CELL, button) == Some(Component::Cell(cell))
    &&& after.slot(SPRITE, button) == Some(
        Component::Sprite(
            Sprite {
                index_x: match button_type {
                    ButtonType::AnyColor => 5u32,
                    ButtonType::Color(col) => col as u32,
                },
                index_y: 7,
                flip_x: false,
                layer: 2,
                render: true,
            },
        ),
    )
    &&& after.slot(BUTTON, button) matches Some(Component::Button(made)) && made.button_type
        == button_type && !made.pressed && made.slaves@ == slaves && made.wires@ == wires
        && made.cells@.len() == cells.len() && forall|i: int|
        0 <= i < cells.len() ==> #[trigger] made.cells@[i] == button + 1 + i
    &&& forall|i: int|
        0 <= i < cells.len() ==> after.slot(CELL, button + 1 + i) == Some(
            Component::Cell(#[trigger] cells[i]),
        ) && after.slot(SPRITE, button + 1 + i) == Some(Component::Sprite(door_sprite()))
}

/// The map `grid` with a wall on each of `cells`.
pub open spec fn walled(grid: Seq<Seq<Collider>>, cells: Seq<Cell>) -> Seq<Seq<Collider>>
    decreases cells.len(),
{
    if cells.len() == 0 {
        grid
    } else {
        put(walled(grid, cells.drop_last()), cells.last(), Collider::Solid)
    }
}

/// Builds a master button on `cell`: a floor tile, the button, and a door
/// cell for each of `cells`, which is solid on the map. The button knows
/// its door cells, its slaves and its wires, and is not pressed. Returns
/// the entity of the button.
pub fn create_button(
    world: &mut World<Component>,
    colliders: &mut Colliders,
    cell: Cell,
    button_type: ButtonType,
    cells: Vec<Cell>,
    slaves: Vec<usize>,
    wires: Vec<usize>,
) -> (button: usize)
    requires
        old(world).wf(),
        old(world)@.unborrowed(),
        forall|i: int| 0 <= i < cells@.len() ==> old(colliders).holds(#[trigger] cells@[i]),
    ensures
        final(world).wf(),
        final(world)@.unborrowed(),
        typed(old(world)@) ==> typed(final(world)@),
        built_upon(old(world)@, final(world)@),
        button == old(world)@.entity_count + 1,
        button_made(old(world)@, cell, button_type, cells@, slaves@, wires@, final(world)@),
        forall|c: Cell| old(colliders).holds(c) == final(colliders).holds(c),
        forall|c: Cell|
            old(colliders).holds(c) ==> #[trigger] final(colliders).at(c) == if among(cells@, c) {
                Collider::Solid
            } else {
                old(colliders).at(c)
            },
        final(colliders).grid() == walled(old(colliders).grid(), cells@),
{
    create_stone_floor(world, cell);
    let ghost floored = world@;
    let plate = vec![Component::Cell(cell), Component::Sprite(button_sprite(button_type))];
    let ghost plate_seq = plate@;
    let button = crate::game::components::create(world, plate);
    proof {
        assert(plate_seq[0].kind() == CELL && plate_seq[1].kind() == SPRITE);
        assert(world@.slot(plate_seq[0].kind(), button as int) == Some(plate_seq[0]));
        assert(world@.slot(plate_seq[1].kind(), button as int) == Some(plate_seq[1]));
        assert(crate::game::components::kinds_in(plate_seq) =~= drawn_kinds());
        assert(holds_only(world@, button - 1, drawn_kinds())) by {
            assert forall|kind: ComponentKind| !drawn_kinds().contains(kind) implies (
            #[trigger] world@.slot(kind, button - 1)) is None by {
                assert(world@.slot(kind, button - 1) == floored.slot(kind, button - 1));
            }
        }
    }
    let ghost plated = world@;
    let mut doors: Vec<usize> = Vec::new();
    let mut i: usize = 0;
    assert(cells@.take(0) =~= Seq::<Cell>::empty());
    while i < cells.len()
        invariant
            i <= cells@.len(),
            world.wf(),
            world@.unborrowed(),
            typed(plated) ==> typed(world@),
            world@.entity_count == plated.entity_count + i,
            world@.deleted == plated.deleted,
            plated.entity_count == button + 1,
            doors@.len() == i,
            forall|j: int| 0 <= j < i ==> #[trigger] doors@[j] == button + 1 + j,
            forall|kind: ComponentKind, e: int|
                e < plated.entity_count ==> #[trigger] world@.slot(kind, e) == plated.slot(kind, e),
            forall|e: int|
                button < e < button + 1 + i ==> #[trigger] holds_only(world@, e, drawn_kinds()),
            forall|j: int|
                0 <= j < i ==> world@.slot(CELL, button + 1 + j) == Some(
                    Component::Cell(#[trigger] cells@[j]),
                ) && world@.slot(SPRITE, button + 1 + j) == Some(Component::Sprite(door_sprite())),
            forall|j: int| 0 <= j < cells@.len() ==> old(colliders).holds(#[trigger] cells@[j]),
            forall|c: Cell| old(colliders).holds(c) == colliders.holds(c),
            colliders.grid() == walled(old(colliders).grid(), cells@.take(i as int)),
            forall|c: Cell|
                old(colliders).holds(c) ==> #[trigger] colliders.at(c) == if among(
                    cells@.take(i as int),
                    c,
                ) {
                    Collider::Solid
                } else {
                    old(colliders).at(c)
                },
        decreases cells@.len() - i,
    {
        let door_cell = cells[i];
        let parts = vec![Component::Sprite(Sprite::new(2, 5, 2)), Component::Cell(door_cell)];
        let ghost parts_seq = parts@;
        let ghost reached = world@;
        let ghost map = *colliders;
        let door = crate::game::components::create(world, parts);
        colliders.set(door_cell, Collider::Solid);
        doors.push(door);
        proof {
            assert(cells@.take(i + 1).drop_last() =~= cells@.take(i as int));
            assert(cells@.take(i + 1).last() == door_cell);
            assert(parts_seq[0].kind() == SPRITE && parts_seq[1].kind() == CELL);
            assert forall|e: int| button < e < button + 1 + (i + 1) implies #[trigger] holds_only(
                world@,
                e,
                drawn_kinds(),
            ) by {
                if e == door {
                    assert forall|kind: ComponentKind| !drawn_kinds().contains(kind) implies (
                    #[trigger] world@.slot(kind, e)) is None by {
                        if crate::game::components::kinds_in(parts_seq).contains(kind) {
                            let k = choose|k: int|
                                0 <= k < parts_seq.len() && crate::game::components::kinds_in(
                                    parts_seq,
                                )[k] == kind;
                            assert(drawn_kinds()[1 - k] == kind);
                        }
                    }
                } else {
                    assert(holds_only(reached, e, drawn_kinds()));
                    assert forall|kind: ComponentKind| !drawn_kinds().contains(kind) implies (
                    #[trigger] world@.slot(kind, e)) is None by {
                        assert(world@.slot(kind, e) == reached.slot(kind, e));
                    }
                }
            }
            assert(world@.slot(parts_seq[0].kind(), door as int) == Some(parts_seq[0]));
            assert(world@.slot(parts_seq[1].kind(), door as int) == Some(parts_seq[1]));
            assert forall|j: int| 0 <= j < i + 1 implies world@.slot(CELL, button + 1 + j) == Some(
                Component::Cell(#[trigger] cells@[j]),
            ) && world@.slot(SPRITE, button + 1 + j) == Some(Component::Sprite(door_sprite())) by {
                if j < i {
                    assert(world@.slot(CELL, button + 1 + j) == reached.slot(CELL, button + 1 + j));
                    assert(world@.slot(SPRITE, button + 1 + j) == reached.slot(
                        SPRITE,
                        button + 1 + j,
                    ));
                }
            }
            assert forall|kind: ComponentKind, e: int| e < plated.entity_count implies #[trigger] world@.slot(
                kind,
                e,
            ) == plated.slot(kind, e) by {
                assert(world@.slot(kind, e) == reached.slot(kind, e));
            }
            assert forall|c: Cell| old(colliders).holds(c) implies #[trigger] colliders.at(c)
                == if among(cells@.take(i + 1), c) {
                Collider::Solid
            } else {
                old(colliders).at(c)
            } by {
                let now = cells@.take(i + 1);
                let earlier = cells@.take(i as int);
                if c == door_cell {
                    assert(now[i as int] == c);
                } else {
                    assert(colliders.at(c) == map.at(c));
                    if among(earlier, c) {
                        let j = choose|j: int| 0 <= j < earlier.len() && #[trigger] earlier[j] == c;
                        assert(now[j] == c);
                    }
                    if among(now, c) {
                        let j = choose|j: int| 0 <= j < now.len() && #[trigger] now[j] == c;
                        assert(j < i);
                        assert(earlier[j] == c);
                    }
                }
            }
        }
        i += 1;
    }
    assert(cells@.take(i as int) =~= cells@);
    let ghost doored = world@;
    let made = Button::new(button_type, doors, slaves, wires);
    proof {
        assert(doored.live(button as int));
        assert(i == cells@.len());
        assert forall|j: int| 0 <= j < cells@.len() implies doored.slot(CELL, button + 1 + j)
            == Some(Component::Cell(#[trigger] cells@[j])) && doored.slot(SPRITE, button + 1 + j)
            == Some(Component::Sprite(door_sprite())) by {}
    }
    give(world, button, Component::Button(made));
    proof {
        assert forall|kind: ComponentKind, e: int| e < old(world)@.entity_count implies #[trigger] world@.slot(
            kind,
            e,
        ) == old(world)@.slot(kind, e) by {
            assert(world@.slot(kind, e) == doored.slot(kind, e));
            assert(doored.slot(kind, e) == plated.slot(kind, e));
            assert(plated.slot(kind, e) == floored.slot(kind, e));
        }
        assert forall|j: int| 0 <= j < cells@.len() implies world@.slot(CELL, button + 1 + j)
            == Some(Component::Cell(#[trigger] cells@[j])) && world@.slot(SPRITE, button + 1 + j)
            == Some(Component::Sprite(door_sprite())) by {
            assert(world@.slot(CELL, button + 1 + j) == doored.slot(CELL, button + 1 + j));
            assert(world@.slot(SPRITE, button + 1 + j) == doored.slot(SPRITE, button + 1 + j));
        }
        assert(world@.slot(CELL, button as int) == doored.slot(CELL, button as int));
        assert(world@.slot(SPRITE, button as int) == doored.slot(SPRITE, button as int));
        assert(world@.slot(SPRITE, button - 1) == doored.slot(SPRITE, button - 1));
        assert(doored.slot(SPRITE, button - 1) == plated.slot(SPRITE, button - 1));
        assert(world@.slot(CELL, button - 1) == doored.slot(CELL, button - 1));
        assert(doored.slot(CELL, button - 1) == plated.slot(CELL, button - 1));
        assert(holds_only(world@, button - 1, drawn_kinds())) by {
            assert forall|kind: ComponentKind| !drawn_kinds().contains(kind) implies (
            #[trigger] world@.slot(kind, button - 1)) is None by {
                assert(world@.slot(kind, button - 1) == doored.slot(kind, button - 1));
                assert(doored.slot(kind, button - 1) == plated.slot(kind, button - 1));
            }
        }
        assert(holds_only(world@, button as int, seq![CELL, SPRITE, BUTTON])) by {
            assert forall|kind: ComponentKind|
                !seq![CELL, SPRITE, BUTTON].contains(kind) implies (#[trigger] world@.slot(
                kind,
                button as int,
            )) is None by {
                assert(seq![CELL, SPRITE, BUTTON][0] == CELL);
                assert(seq![CELL, SPRITE, BUTTON][1] == SPRITE);
                assert(seq![CELL, SPRITE, BUTTON][2] == BUTTON);
                assert(drawn_kinds()[0] == CELL && drawn_kinds()[1] == SPRITE);
                assert(!drawn_kinds().contains(kind));
                assert(world@.slot(kind, button as int) == doored.slot(kind, button as int));
                assert(doored.slot(kind, button as int) == plated.slot(kind, button as int));
            }
        }
        assert forall|e: int| button < e < button + 1 + cells@.len() implies #[trigger] holds_only(
            world@,
            e,
            drawn_kinds(),
        ) by {
            assert(holds_only(doored, e, drawn_kinds()));
            assert forall|kind: ComponentKind| !drawn_kinds().contains(kind) implies (
            #[trigger] world@.slot(kind, e)) is None by {
                assert(world@.slot(kind, e) == doored.slot(kind, e));
            }
        }
    }
    button
}

/// A slave button in the plan of a room: its type, and its tile in the room.
#[derive(PartialEq, Eq, Structural, Clone, Copy, Debug)]
pub struct Slave {
    pub button_type: ButtonType,
    pub cell: Cell,
}

/// What the plan of the map has on a tile.
pub enum Tile {
    StoneWall,
    StoneFloor,
    /// Where the clone of this number begins in the room of this number.
    PlayerSpawn(u8, usize),
    /// A master button: its type, the tiles of its door, its slaves, and the
    /// wires of its room.
    Button(ButtonType, Vec<Cell>, Vec<Slave>, Vec<Vec<WireTile>>),
    PushBox(BoxType),
    Empty,
    /// A win tile of this colour for the room of this number.
    WinTile(u8, usize),
    Sprite(Sprite),
    /// A whole room of tiles, laid over the room of this tile.
    Sheet(Vec<Vec<Tile>>),
}

/// Where a clone begins: the room, the number of the clone, and the cell.
#[derive(PartialEq, Eq, Structural, Clone, Copy, Debug)]
pub struct Spawn {
    pub level: usize,
    pub clone: u8,
    pub cell: Cell,
}

/// `cell` names a tile of a room, by its column and its row in the room.
pub open spec fn in_room(cell: Cell) -> bool {
    0 <= cell.value.x < 16 && 0 <= cell.value.y < 14
}

/// `cell` is a tile of the map.
pub open spec fn on_map(cell: Cell) -> bool {
    0 <= cell.value.x < 48 && 0 <= cell.value.y < 56
}

/// The map `colliders` has every tile of the map.
pub open spec fn covers_map(colliders: Colliders) -> bool {
    forall|c: Cell| on_map(c) ==> #[trigger] colliders.holds(c)
}

/// The cells on the map of the tiles that `cells` name in the room at
/// (`room_x`, `room_y`).
pub open spec fn room_cells(room_x: int, room_y: int, cells: Seq<Cell>) -> Seq<Cell> {
    Seq::new(
        cells.len(),
        |i: int| tile_cell(room_x, room_y, cells[i].value.x as int, cells[i].value.y as int),
    )
}

/// The cells on the map of the tiles that `cells` name in a room.
pub fn place_cells(cells: &Vec<Cell>, room_x: usize, room_y: usize) -> (placed: Vec<Cell>)
    requires
        room_x < MAP_ROOM_WIDTH,
        room_y < MAP_ROOM_HEIGHT,
        forall|i: int| 0 <= i < cells@.len() ==> in_room(#[trigger] cells@[i]),
    ensures
        placed@ == room_cells(room_x as int, room_y as int, cells@),
        forall|i: int| 0 <= i < placed@.len() ==> on_map(#[trigger] placed@[i]),
{
    let mut placed: Vec<Cell> = Vec::new();
    let mut i: usize = 0;
    while i < cells.len()
        invariant
            i <= cells@.len(),
            room_x < MAP_ROOM_WIDTH,
            room_y < MAP_ROOM_HEIGHT,
            forall|j: int| 0 <= j < cells@.len() ==> in_room(#[trigger] cells@[j]),
            placed@ == room_cells(room_x as int, room_y as int, cells@.take(i as int)),
            forall|j: int| 0 <= j < placed@.len() ==> on_map(#[trigger] placed@[j]),
        decreases cells@.len() - i,
    {
        let named = cells[i];
        assert(in_room(named));
        assert(ROOM_TILE_WIDTH == 16 && ROOM_TILE_HEIGHT == 14 && MAP_TILE_WIDTH == 48
            && MAP_TILE_HEIGHT == 56);
        let cell = get_tile_cell(room_x, room_y, named.value.x as usize, named.value.y as usize);
        placed.push(cell);
        i += 1;
        assert(placed@ =~= room_cells(room_x as int, room_y as int, cells@.take(i as int)));
    }
    assert(cells@.take(i as int) =~= cells@);
    placed
}

/// The store after the slave buttons of `slaves` were built in the room at
/// (`room_x`, `room_y`), first to last: a floor tile and the button for
/// each.
pub open spec fn slaves_made(
    store: StoreView<Component>,
    room_x: int,
    room_y: int,
    slaves: Seq<Slave>,
) -> StoreView<Component>
    decreases slaves.len(),
{
    if slaves.len() == 0 {
        store
    } else {
        let cell = tile_cell(
            room_x,
            room_y,
            slaves.last().cell.value.x as int,
            slaves.last().cell.value.y as int,
        );
        with_entity(
            with_entity(
                slaves_made(store, room_x, room_y, slaves.drop_last()),
                floor_components(cell),
            ),
            slave_button_components(cell, slaves.last().button_type),
        )
    }
}

/// The entities of `count` slave buttons built behind `first` entities: a
/// floor tile stands before each.
pub open spec fn slave_entities(first: int, count: nat) -> Seq<usize> {
    Seq::new(count, |i: int| (first + 2 * i + 1) as usize)
}

/// Builds the slave buttons of `slaves` in the room at (`room_x`,
/// `room_y`), and returns their entities.
pub fn create_slaves(
    world: &mut World<Component>,
    slaves: &Vec<Slave>,
    room_x: usize,
    room_y: usize,
) -> (made: Vec<usize>)
    requires
        old(world).wf(),
        old(world)@.unborrowed(),
        room_x < MAP_ROOM_WIDTH,
        room_y < MAP_ROOM_HEIGHT,
        forall|i: int| 0 <= i < slaves@.len() ==> in_room((#[trigger] slaves@[i]).cell),
    ensures
        final(world).wf(),
        final(world)@.unborrowed(),
        typed(old(world)@) ==> typed(final(world)@),
        built_upon(old(world)@, final(world)@),
        final(world)@ == slaves_made(old(world)@, room_x as int, room_y as int, slaves@),
        final(world)@.entity_count == old(world)@.entity_count + 2 * slaves@.len(),
        made@ == slave_entities(old(world)@.entity_count as int, slaves@.len()),
{
    let mut made: Vec<usize> = Vec::new();
    let mut i: usize = 0;
    assert(slaves@.take(0) =~= Seq::<Slave>::empty());
    while i < slaves.len()
        invariant
            i <= slaves@.len(),
            room_x < MAP_ROOM_WIDTH,
            room_y < MAP_ROOM_HEIGHT,
            forall|j: int| 0 <= j < slaves@.len() ==> in_room((#[trigger] slaves@[j]).cell),
            world.wf(),
            world@.unborrowed(),
            typed(old(world)@) ==> typed(world@),
            built_upon(old(world)@, world@),
            world@ == slaves_made(
                old(world)@,
                room_x as int,
                room_y as int,
                slaves@.take(i as int),
            ),
            world@.entity_count == old(world)@.entity_count + 2 * i,
            made@ == slave_entities(old(world)@.entity_count as int, i as nat),
        decreases slaves@.len() - i,
    {
        proof {
            assert(slaves@.take(i + 1).drop_last() =~= slaves@.take(i as int));
            assert(slaves@.take(i + 1).last() == slaves@[i as int]);
        }
        let slave = slaves[i];
        assert(in_room(slave.cell));
        assert(ROOM_TILE_WIDTH == 16 && ROOM_TILE_HEIGHT == 14);
        let cell = get_tile_cell(room_x, room_y, slave.cell.value.x as usize, slave.cell.value.y as usize);
        let ghost reached = world@;
        let button = create_slave_button(world, cell, slave.button_type);
        made.push(button);
        proof {
            lemma_built_upon_twice(old(world)@, reached, world@);
            assert(made@ =~= slave_entities(old(world)@.entity_count as int, (i + 1) as nat));
        }
        i += 1;
    }
    assert(slaves@.take(i as int) =~= slaves@);
    made
}

/// The plan of a room: a row of tiles for every row of the room.
pub open spec fn room_of_tiles(rows: Seq<Vec<Tile>>) -> bool {
    &&& rows.len() == 14
    &&& forall|y: int| 0 <= y < rows.len() ==> (#[trigger] rows[y])@.len() == 16
}

/// What `tile` names lies in its room: the door cells and the slaves of a
/// button, and its wires are those of a room.
pub open spec fn piece_fits(tile: Tile) -> bool {
    match tile {
        Tile::Button(_, cells, slaves, wires) => {
            &&& forall|i: int| 0 <= i < cells@.len() ==> in_room(#[trigger] cells@[i])
            &&& forall|i: int| 0 <= i < slaves@.len() ==> in_room((#[trigger] slaves@[i]).cell)
            &&& room_of_wires(wires@)
        },
        _ => true,
    }
}

/// The sheet `rows` can be built: it is the plan of a room, and what its
/// tiles name lies in the room.
pub open spec fn sheet_fits(rows: Seq<Vec<Tile>>) -> bool {
    &&& room_of_tiles(rows)
    &&& forall|y: int, x: int| 0 <= y < 14 && 0 <= x < 16 ==> piece_fits(#[trigger] rows[y]@[x])
}

/// `tile` can be built: a sheet as a sheet, any other tile where what it
/// names lies in its room.
pub open spec fn tile_fits(tile: Tile) -> bool {
    match tile {
        Tile::Sheet(rows) => sheet_fits(rows@),
        _ => piece_fits(tile),
    }
}

/// The room `rows` can be built: it is the plan of a room, and each of its
/// tiles can be built.
pub open spec fn room_fits(rows: Seq<Vec<Tile>>) -> bool {
    &&& room_of_tiles(rows)
    &&& forall|y: int, x: int| 0 <= y < 14 && 0 <= x < 16 ==> tile_fits(#[trigger] rows[y]@[x])
}

/// The plan of the map can be built: it has a plan for each room, row of
/// rooms by row of rooms, and each room can be built.
pub open spec fn map_fits(map: Seq<Vec<Vec<Vec<Tile>>>>) -> bool {
    &&& map.len() == 4
    &&& forall|room_y: int| 0 <= room_y < 4 ==> (#[trigger] map[room_y])@.len() == 3
    &&& forall|room_y: int, room_x: int|
        0 <= room_y < 4 && 0 <= room_x < 3 ==> room_fits((#[trigger] map[room_y]@[room_x])@)
}

/// Whether every cell of `cells` names a tile of a room.
pub fn cells_in_room(cells: &Vec<Cell>) -> (ok: bool)
    ensures
        ok == (forall|i: int| 0 <= i < cells@.len() ==> in_room(#[trigger] cells@[i])),
{
    let mut i: usize = 0;
    while i < cells.len()
        invariant
            i <= cells@.len(),
            forall|j: int| 0 <= j < i ==> in_room(#[trigger] cells@[j]),
        decreases cells@.len() - i,
    {
        let cell = cells[i];
        if cell.value.x < 0 || cell.value.x >= 16 || cell.value.y < 0 || cell.value.y >= 14 {
            assert(!in_room(cells@[i as int]));
            return false;
        }
        i += 1;
    }
    true
}

/// Whether every slave of `slaves` stands on a tile of a room.
pub fn slaves_in_room(slaves: &Vec<Slave>) -> (ok: bool)
    ensures
        ok == (forall|i: int| 0 <= i < slaves@.len() ==> in_room((#[trigger] slaves@[i]).cell)),
{
    let mut i: usize = 0;
    while i < slaves.len()
        invariant
            i <= slaves@.len(),
            forall|j: int| 0 <= j < i ==> in_room((#[trigger] slaves@[j]).cell),
        decreases slaves@.len() - i,
    {
        let cell = slaves[i].cell;
        if cell.value.x < 0 || cell.value.x >= 16 || cell.value.y < 0 || cell.value.y >= 14 {
            assert(!in_room(slaves@[i as int].cell));
            return false;
        }
        i += 1;
    }
    true
}

/// Whether `wires` are the wires of a room.
pub fn check_wires(wires: &Vec<Vec<WireTile>>) -> (ok: bool)
    ensures
        ok == room_of_wires(wires@),
{
    assert(ROOM_TILE_WIDTH == 16 && ROOM_TILE_HEIGHT == 14);
    if wires.len() != 14 {
        return false;
    }
    let mut y: usize = 0;
    while y < 14
        invariant
            y <= 14,
            wires@.len() == 14,
            forall|j: int| 0 <= j < y ==> (#[trigger] wires@[j])@.len() == 16,
        decreases 14 - y,
    {
        if wires[y].len() != 16 {
            assert(wires@[y as int]@.len() != 16);
            return false;
        }
        y += 1;
    }
    true
}

/// Whether what `tile` names lies in its room.
pub fn check_piece(tile: &Tile) -> (ok: bool)
    ensures
        ok == piece_fits(*tile),
{
    match tile {
        Tile::Button(_, cells, slaves, wires) => cells_in_room(cells) && slaves_in_room(slaves)
            && check_wires(wires),
        _ => true,
    }
}

/// Whether `rows` is the plan of a room.
pub fn check_rows(rows: &Vec<Vec<Tile>>) -> (ok: bool)
    ensures
        ok == room_of_tiles(rows@),
{
    if rows.len() != 14 {
        return false;
    }
    let mut y: usize = 0;
    while y < 14
        invariant
            y <= 14,
            rows@.len() == 14,
            forall|j: int| 0 <= j < y ==> (#[trigger] rows@[j])@.len() == 16,
        decreases 14 - y,
    {
        if rows[y].len() != 16 {
            assert(rows@[y as int]@.len() != 16);
            return false;
        }
        y += 1;
    }
    true
}

/// Whether the sheet `rows` can be built.
pub fn check_sheet(rows: &Vec<Vec<Tile>>) -> (ok: bool)
    ensures
        ok == sheet_fits(rows@),
{
    if !check_rows(rows) {
        return false;
    }
    let mut place: usize = 0;
    while place < 224
        invariant
            place <= 224,
            room_of_tiles(rows@),
            forall|y: int, x: int|
                0 <= y < 14 && 0 <= x < 16 && y * 16 + x < place ==> piece_fits(
                    #[trigger] rows@[y]@[x],
                ),
        decreases 224 - place,
    {
        let y: usize = place / 16;
        let x: usize = place % 16;
        if !check_piece(&rows[y][x]) {
            assert(!piece_fits(rows@[y as int]@[x as int]));
            return false;
        }
        place += 1;
    }
    true
}

/// Whether `tile` can be built.
pub fn check_tile(tile: &Tile) -> (ok: bool)
    ensures
        ok == tile_fits(*tile),
{
    match tile {
        Tile::Sheet(rows) => check_sheet(rows),
        _ => check_piece(tile),
    }
}

/// Whether the room `rows` can be built.
pub fn check_room(rows: &Vec<Vec<Tile>>) -> (ok: bool)
    ensures
        ok == room_fits(rows@),
{
    if !check_rows(rows) {
        return false;
    }
    let mut place: usize = 0;
    while place < 224
        invariant
            place <= 224,
            room_of_tiles(rows@),
            forall|y: int, x: int|
                0 <= y < 14 && 0 <= x < 16 && y * 16 + x < place ==> tile_fits(
                    #[trigger] rows@[y]@[x],
                ),
        decreases 224 - place,
    {
        let y: usize = place / 16;
        let x: usize = place % 16;
        if !check_tile(&rows[y][x]) {
            assert(!tile_fits(rows@[y as int]@[x as int]));
            return false;
        }
        place += 1;
    }
    true
}

/// Whether the plan of the map can be built.
pub fn check_map(map: &Vec<Vec<Vec<Vec<Tile>>>>) -> (ok: bool)
    ensures
        ok == map_fits(map@),
{
    if map.len() != 4 {
        return false;
    }
    let mut room_y: usize = 0;
    while room_y < 4
        invariant
            room_y <= 4,
            map@.len() == 4,
            forall|j: int| 0 <= j < room_y ==> (#[trigger] map@[j])@.len() == 3,
            forall|j: int, i: int|
                0 <= j < room_y && 0 <= i < 3 ==> room_fits((#[trigger] map@[j]@[i])@),
        decreases 4 - room_y,
    {
        if map[room_y].len() != 3 {
            assert(map@[room_y as int]@.len() != 3);
            return false;
        }
        let mut room_x: usize = 0;
        while room_x < 3
            invariant
                room_x <= 3,
                room_y < 4,
                map@.len() == 4,
                map@[room_y as int]@.len() == 3,
                forall|i: int|
                    0 <= i < room_x ==> room_fits((#[trigger] map@[room_y as int]@[i])@),
            decreases 3 - room_x,
        {
            if !check_room(&map[room_y][room_x]) {
                assert(!room_fits(map@[room_y as int]@[room_x as int]@));
                return false;
            }
            room_x += 1;
        }
        room_y += 1;
    }
    true
}

/// What is being built: the store, the map of what stands where, and the
/// places found so far where clones begin.
pub struct Site {
    pub store: StoreView<Component>,
    pub grid: Seq<Seq<Collider>>,
    pub spawns: Seq<Spawn>,
}

/// The wire entities that drawing wires added between the stores `before`
/// and `after`.
pub open spec fn entities_between(
    before: StoreView<Component>,
    after: StoreView<Component>,
) -> Seq<usize> {
    Seq::new(
        (after.entity_count - before.entity_count) as nat,
        |i: int| (before.entity_count + i) as usize,
    )
}

/// Building `tile`, which is no sheet, on `cell` of the room at (`room_x`,
/// `room_y`) can make `after` of `before`.
pub open spec fn piece_placed(
    before: Site,
    tile: Tile,
    room_x: int,
    room_y: int,
    cell: Cell,
    after: Site,
) -> bool {
    match tile {
        Tile::StoneWall => {
            &&& after.store == with_entity(before.store, wall_components(cell))
            &&& after.grid == put(before.grid, cell, Collider::Solid)
            &&& after.spawns == before.spawns
        },
        Tile::StoneFloor => {
            &&& after.store == with_entity(before.store, floor_components(cell))
            &&& after.grid == before.grid
            &&& after.spawns == before.spawns
        },
        Tile::PlayerSpawn(clone, level) => {
            &&& after.store == with_entity(
                with_entity(before.store, floor_components(cell)),
                spawn_components(cell, clone),
            )
            &&& after.grid == before.grid
            &&& after.spawns == before.spawns.push(Spawn { level, clone, cell })
        },
        Tile::Button(button_type, cells, slaves, wires) => {
            let slaved = slaves_made(before.store, room_x, room_y, slaves@);
            let wired = wires_drawn(slaved, wires@, room_x, room_y, 224);
            &&& button_made(
                wired,
                cell,
                button_type,
                room_cells(room_x, room_y, cells@),
                slave_entities(before.store.entity_count as int, slaves@.len()),
                entities_between(slaved, wired),
                after.store,
            )
            &&& built_upon(wired, after.store)
            &&& after.grid == walled(before.grid, room_cells(room_x, room_y, cells@))
            &&& after.spawns == before.spawns
        },
        Tile::PushBox(box_type) => {
            &&& after.store == with_entity(
                with_entity(before.store, floor_components(cell)),
                box_components(cell, box_type),
            )
            &&& after.grid == put(
                before.grid,
                cell,
                Collider::Box(box_type, (before.store.entity_count + 1) as usize),
            )
            &&& after.spawns == before.spawns
        },
        Tile::WinTile(color, level) => {
            &&& built_upon(before.store, after.store)
            &&& after.store.entity_count == before.store.entity_count + 2
            &&& holds_only(after.store, before.store.entity_count as int, drawn_kinds())
            &&& after.store.slot(CELL, before.store.entity_count as int) == Some(
                Component::Cell(cell),
            )
            &&& after.store.slot(SPRITE, before.store.entity_count as int) == Some(
                Component::Sprite(floor_sprite()),
            )
            &&& is_win_tile(after.store, before.store.entity_count as int + 1, cell, color, level)
            &&& after.grid == before.grid
            &&& after.spawns == before.spawns
        },
        Tile::Sprite(sprite) => {
            &&& after.store == with_entity(
                before.store,
                seq![Component::Cell(cell), Component::Sprite(sprite)],
            )
            &&& after.grid == before.grid
            &&& after.spawns == before.spawns
        },
        _ => after == before,
    }
}

/// Builds what the plan has on one tile, `tile`, which is no sheet, on
/// `cell` of the room at (`room_x`, `room_y`). A place where a clone begins
/// is added to `spawns`.
pub fn create_piece(
    world: &mut World<Component>,
    colliders: &mut Colliders,
    spawns: &mut Vec<Spawn>,
    tile: &Tile,
    room_x: usize,
    room_y: usize,
    cell: Cell,
)
    requires
        old(world).wf(),
        old(world)@.unborrowed(),
        covers_map(*old(colliders)),
        piece_fits(*tile),
        room_x < MAP_ROOM_WIDTH,
        room_y < MAP_ROOM_HEIGHT,
        on_map(cell),
    ensures
        final(world).wf(),
        final(world)@.unborrowed(),
        typed(old(world)@) ==> typed(final(world)@),
        built_upon(old(world)@, final(world)@),
        covers_map(*final(colliders)),
        piece_placed(
            (Site { store: old(world)@, grid: old(colliders).grid(), spawns: old(spawns)@ }),
            *tile,
            room_x as int,
            room_y as int,
            cell,
            (Site { store: final(world)@, grid: final(colliders).grid(), spawns: final(spawns)@ }),
        ),
{
    assert(old(colliders).holds(cell));
    match tile {
        Tile::StoneWall => {
            create_stone_wall(world, colliders, cell);
        },
        Tile::StoneFloor => {
            create_stone_floor(world, cell);
        },
        Tile::PlayerSpawn(clone, level) => {
            create_player_spawn(world, cell, *clone);
            spawns.push(Spawn { level: *level, clone: *clone, cell });
        },
        Tile::Button(button_type, cells, slaves, wires) => {
            let door_cells = place_cells(cells, room_x, room_y);
            let slave_buttons = create_slaves(world, slaves, room_x, room_y);
            let ghost slaved = world@;
            let wire_entities = draw_wires(world, wires, room_x, room_y);
            let ghost wired = world@;
            proof {
                lemma_built_upon_twice(old(world)@, slaved, wired);
                assert(wire_entities@ =~= entities_between(slaved, wired));
                assert forall|i: int| 0 <= i < door_cells@.len() implies old(colliders).holds(
                    #[trigger] door_cells@[i],
                ) by {
                    assert(on_map(door_cells@[i]));
                }
            }
            create_button(
                world,
                colliders,
                cell,
                *button_type,
                door_cells,
                slave_buttons,
                wire_entities,
            );
            proof {
                lemma_built_upon_twice(old(world)@, wired, world@);
            }
        },
        Tile::PushBox(box_type) => {
            create_box(world, colliders, cell, box_type);
        },
        Tile::WinTile(color, level) => {
            create_win_tile(world, cell, *color, *level);
        },
        Tile::Sprite(sprite) => {
            draw_sprite(world, cell, *sprite);
        },
        _ => {},
    }
}

/// The tile at place `place` of a sheet, the places being counted column
/// by column.
pub open spec fn sheet_tile(rows: Seq<Vec<Tile>>, place: int) -> Tile {
    rows[place % 14]@[place / 14]
}

/// Building the first `places` tiles of the sheet `rows` in the room at
/// (`room_x`, `room_y`), column by column, can make `after` of `before`.
pub open spec fn sheet_placed(
    before: Site,
    rows: Seq<Vec<Tile>>,
    room_x: int,
    room_y: int,
    places: int,
    after: Site,
) -> bool
    decreases places,
{
    if places <= 0 {
        after == before
    } else {
        exists|mid: Site|
            sheet_placed(before, rows, room_x, room_y, places - 1, mid) && #[trigger] piece_placed(
                mid,
                sheet_tile(rows, places - 1),
                room_x,
                room_y,
                tile_cell(room_x, room_y, (places - 1) / 14, (places - 1) % 14),
                after,
            )
    }
}

/// Builds the tiles of the sheet `rows` in the room at (`room_x`,
/// `room_y`), column by column; a sheet within the sheet is passed over.
pub fn create_sheet(
    world: &mut World<Component>,
    colliders: &mut Colliders,
    spawns: &mut Vec<Spawn>,
    rows: &Vec<Vec<Tile>>,
    room_x: usize,
    room_y: usize,
)
    requires
        old(world).wf(),
        old(world)@.unborrowed(),
        covers_map(*old(colliders)),
        sheet_fits(rows@),
        room_x < MAP_ROOM_WIDTH,
        room_y < MAP_ROOM_HEIGHT,
    ensures
        final(world).wf(),
        final(world)@.unborrowed(),
        typed(old(world)@) ==> typed(final(world)@),
        built_upon(old(world)@, final(world)@),
        covers_map(*final(colliders)),
        sheet_placed(
            (Site { store: old(world)@, grid: old(colliders).grid(), spawns: old(spawns)@ }),
            rows@,
            room_x as int,
            room_y as int,
            224,
            (Site { store: final(world)@, grid: final(colliders).grid(), spawns: final(spawns)@ }),
        ),
{
    let ghost start = Site { store: world@, grid: colliders.grid(), spawns: spawns@ };
    let mut place: usize = 0;
    while place < 224
        invariant
            place <= 224,
            world.wf(),
            world@.unborrowed(),
            covers_map(*colliders),
            sheet_fits(rows@),
            room_x < MAP_ROOM_WIDTH,
            room_y < MAP_ROOM_HEIGHT,
            typed(old(world)@) ==> typed(world@),
            built_upon(old(world)@, world@),
            start == (Site { store: old(world)@, grid: old(colliders).grid(), spawns: old(spawns)@ }),
            sheet_placed(
                start,
                rows@,
                room_x as int,
                room_y as int,
                place as int,
                (Site { store: world@, grid: colliders.grid(), spawns: spawns@ }),
            ),
        decreases 224 - place,
    {
        let x: usize = place / 14;
        let y: usize = place % 14;
        assert(ROOM_TILE_WIDTH == 16 && ROOM_TILE_HEIGHT == 14);
        let cell = get_tile_cell(room_x, room_y, x, y);
        let ghost mid = Site { store: world@, grid: colliders.grid(), spawns: spawns@ };
        assert(piece_fits(rows@[y as int]@[x as int]));
        create_piece(world, colliders, spawns, &rows[y][x], room_x, room_y, cell);
        proof {
            lemma_built_upon_twice(old(world)@, mid.store, world@);
            let after = Site { store: world@, grid: colliders.grid(), spawns: spawns@ };
            assert(piece_placed(
                mid,
                sheet_tile(rows@, place + 1 - 1),
                room_x as int,
                room_y as int,
                tile_cell(
                    room_x as int,
                    room_y as int,
                    (place + 1 - 1) / 14,
                    (place + 1 - 1) % 14,
                ),
                after,
            ));
        }
        place += 1;
    }
}

/// The tile at place `place` of the map: the places are counted room by
/// room, column of rooms by column of rooms, and in a room column by
/// column.
pub open spec fn map_tile(map: Seq<Vec<Vec<Vec<Tile>>>>, place: int) -> Tile {
    map[(place / 224) % 4]@[place / 896]@[place % 14]@[(place / 14) % 16]
}

/// Building `tile` on `cell` of the room at (`room_x`, `room_y`) can make
/// `after` of `before`: a sheet is built tile by tile, any other tile as
/// it is.
pub open spec fn tile_placed(
    before: Site,
    tile: Tile,
    room_x: int,
    room_y: int,
    cell: Cell,
    after: Site,
) -> bool {
    match tile {
        Tile::Sheet(rows) => sheet_placed(before, rows@, room_x, room_y, 224, after),
        _ => piece_placed(before, tile, room_x, room_y, cell, after),
    }
}

/// Building the first `places` tiles of the map `map` can make `after` of
/// `before`.
pub open spec fn map_placed(
    before: Site,
    map: Seq<Vec<Vec<Vec<Tile>>>>,
    places: int,
    after: Site,
) -> bool
    decreases places,
{
    if places <= 0 {
        after == before
    } else {
        exists|mid: Site|
            map_placed(before, map, places - 1, mid) && #[trigger] tile_placed(
                mid,
                map_tile(map, places - 1),
                (places - 1) / 896,
                ((places - 1) / 224) % 4,
                tile_cell(
                    (places - 1) / 896,
                    ((places - 1) / 224) % 4,
                    ((places - 1) / 14) % 16,
                    (places - 1) % 14,
                ),
                after,
            )
    }
}

/// Builds the map from its plan `map`, which has the rooms row of rooms by
/// row of rooms and each room row of tiles by row of tiles: every tile of
/// the plan becomes the entities that show it and what stands on the map.
/// Returns the places where the clones begin.
pub fn create(
    world: &mut World<Component>,
    colliders: &mut Colliders,
    map: &Vec<Vec<Vec<Vec<Tile>>>>,
) -> (spawns: Vec<Spawn>)
    requires
        old(world).wf(),
        old(world)@.unborrowed(),
        covers_map(*old(colliders)),
        map_fits(map@),
    ensures
        final(world).wf(),
        final(world)@.unborrowed(),
        typed(old(world)@) ==> typed(final(world)@),
        built_upon(old(world)@, final(world)@),
        covers_map(*final(colliders)),
        map_placed(
            (Site {
                store: old(world)@,
                grid: old(colliders).grid(),
                spawns: Seq::<Spawn>::empty(),
            }),
            map@,
            2688,
            (Site { store: final(world)@, grid: final(colliders).grid(), spawns: spawns@ }),
        ),
{
    let mut spawns: Vec<Spawn> = Vec::new();
    let ghost start = Site { store: world@, grid: colliders.grid(), spawns: spawns@ };
    assert(start.spawns =~= Seq::<Spawn>::empty());
    let mut place: usize = 0;
    while place < 2688
        invariant
            place <= 2688,
            world.wf(),
            world@.unborrowed(),
            covers_map(*colliders),
            map_fits(map@),
            typed(old(world)@) ==> typed(world@),
            built_upon(old(world)@, world@),
            start == (Site {
                store: old(world)@,
                grid: old(colliders).grid(),
                spawns: Seq::<Spawn>::empty(),
            }),
            map_placed(
                start,
                map@,
                place as int,
                (Site { store: world@, grid: colliders.grid(), spawns: spawns@ }),
            ),
        decreases 2688 - place,
    {
        let room_x: usize = place / 896;
        let room_y: usize = (place / 224) % 4;
        let x: usize = (place / 14) % 16;
        let y: usize = place % 14;
        assert(ROOM_TILE_WIDTH == 16 && ROOM_TILE_HEIGHT == 14 && MAP_ROOM_WIDTH == 3
            && MAP_ROOM_HEIGHT == 4);
        let cell = get_tile_cell(room_x, room_y, x, y);
        let ghost mid = Site { store: world@, grid: colliders.grid(), spawns: spawns@ };
        proof {
            assert(map@[room_y as int]@.len() == 3);
            assert(room_fits(map@[room_y as int]@[room_x as int]@));
            assert(tile_fits(map@[room_y as int]@[room_x as int]@[y as int]@[x as int]));
        }
        let tile = &map[room_y][room_x][y][x];
        match tile {
            Tile::Sheet(rows) => {
                create_sheet(world, colliders, &mut spawns, rows, room_x, room_y);
            },
            _ => {
                create_piece(world, colliders, &mut spawns, tile, room_x, room_y, cell);
            },
        }
        proof {
            lemma_built_upon_twice(old(world)@, mid.store, world@);
            let after = Site { store: world@, grid: colliders.grid(), spawns: spawns@ };
            assert(*tile == map_tile(map@, place + 1 - 1));
            assert(tile_placed(
                mid,
                map_tile(map@, place + 1 - 1),
                (place + 1 - 1) / 896,
                ((place + 1 - 1) / 224) % 4,
                tile_cell(
                    (place + 1 - 1) / 896,
                    ((place + 1 - 1) / 224) % 4,
                    ((place + 1 - 1) / 14) % 16,
                    (place + 1 - 1) % 14,
                ),
                after,
            ));
        }
        place += 1;
    }
    spawns
}

} // verus!
