//! Buttons, and the doors they open.

use vstd::prelude::*;
use crate::game::boxes::BoxType;
use crate::game::collision::{Collider, Colliders};
use crate::game::common::Cell;
use crate::game::components::{
    cell_at, cell_of, Component, BUTTON, CELL, CLONE, PLAYER, SLAVE_BUTTON, SPRITE,
};
use crate::laws::Call;
use crate::game::queries::{marked, marks};
use crate::model::{kinds_of, Access, AccessMode, StoreError, StoreView};
use crate::store::World;
use crate::system::swept;
use crate::game::render::Sprite;
use crate::game::win::Marked;
use crate::system::System;

verus! {

/// Who can press a button.
#[derive(PartialEq, Eq, Structural, Clone, Copy, Debug)]
pub enum ButtonType {
    AnyColor,
    Color(u8),
}

/// A button that opens its door cells once it and all its slaves are pressed.
pub struct Button {
    /// The entities of the door cells.
    pub cells: Vec<usize>,
    pub button_type: ButtonType,
    pub pressed: bool,
    /// The entities of the slave buttons.
    pub slaves: Vec<usize>,
    /// The entities of the wire tiles.
    pub wires: Vec<usize>,
}

/// A button that has to be pressed together with its master.
#[derive(PartialEq, Eq, Structural, Clone, Copy, Debug)]
pub struct SlaveButton {
    pub button_type: ButtonType,
    pub pressed: bool,
}

/// The row of the sprite sheet that shows a button that is pressed.
pub const PRESSED_ROW: u32 = 8;

/// The row of the sprite sheet that shows a button that is not pressed.
pub const RELEASED_ROW: u32 = 7;

/// The row of the sprite sheet with the wire that carries no current.
pub const WIRE_ROW: u32 = 12;

impl Button {
    /// A button that is not pressed.
    pub fn new(
        button_type: ButtonType,
        cells: Vec<usize>,
        slaves: Vec<usize>,
        wires: Vec<usize>,
    ) -> (button: Self)
        ensures
            button.cells == cells,
            button.button_type == button_type,
            !button.pressed,
            button.slaves == slaves,
            button.wires == wires,
    {
        Self { cells, button_type, pressed: false, slaves, wires }
    }
}

/// `who` is of a colour that `want` accepts.
pub open spec fn accepts(want: ButtonType, color: u8) -> bool {
    match want {
        ButtonType::AnyColor => true,
        ButtonType::Color(c) => c == color,
    }
}

/// One of `occupants` that the button accepts stands on `cell`.
pub open spec fn stood_on(want: ButtonType, cell: Cell, occupants: Seq<Marked>) -> bool {
    exists|i: int|
        0 <= i < occupants.len() && accepts(want, (#[trigger] occupants[i]).color)
            && occupants[i].cell == cell
}

/// A box that the button accepts stands on the tile that holds `collider`:
/// any box for a button of any colour, a box of its own colour for a
/// coloured button.
pub open spec fn weighed_down(want: ButtonType, collider: Collider) -> bool {
    match collider {
        Collider::Box(box_type, _) => match want {
            ButtonType::AnyColor => true,
            ButtonType::Color(c) => box_type == BoxType::Color(c),
        },
        _ => false,
    }
}

/// A master button on `cell` is pressed: the player, a clone or a box that
/// it accepts is on it.
pub open spec fn master_pressed(
    want: ButtonType,
    cell: Cell,
    occupants: Seq<Marked>,
    collider: Collider,
) -> bool {
    stood_on(want, cell, occupants) || weighed_down(want, collider)
}

/// The last of the first `upto` of `occupants` that has `color`.
pub open spec fn last_of_color(occupants: Seq<Marked>, color: u8, upto: int) -> Option<Marked>
    decreases upto,
{
    if upto <= 0 || upto > occupants.len() {
        None
    } else if occupants[upto - 1].color == color {
        Some(occupants[upto - 1])
    } else {
        last_of_color(occupants, color, upto - 1)
    }
}

/// A slave button on `cell` is pressed. One of any colour is pressed as a
/// master is. A coloured one looks at the last occupant of its colour only:
/// it is pressed where that one stands on it, or a box of its colour does.
pub open spec fn slave_pressed(
    want: ButtonType,
    cell: Cell,
    occupants: Seq<Marked>,
    collider: Collider,
) -> bool {
    match want {
        ButtonType::AnyColor => master_pressed(want, cell, occupants, collider),
        ButtonType::Color(c) => (last_of_color(occupants, c, occupants.len() as int) matches Some(
            who,
        ) && who.cell == cell) || weighed_down(want, collider),
    }
}

/// Whether a box that the button accepts stands on the tile.
pub fn is_weighed_down(want: ButtonType, collider: Collider) -> (yes: bool)
    ensures
        yes == weighed_down(want, collider),
{
    match collider {
        Collider::Box(box_type, _) => match want {
            ButtonType::AnyColor => true,
            ButtonType::Color(c) => match box_type {
                BoxType::Color(box_color) => box_color == c,
                BoxType::Any => false,
            },
        },
        _ => false,
    }
}

/// Whether a master button on `cell` is pressed. `occupants` are the player
/// and the clones, `collider` is what stands on the button's tile.
pub fn is_master_pressed(
    want: ButtonType,
    cell: Cell,
    occupants: &Vec<Marked>,
    collider: Collider,
) -> (pressed: bool)
    ensures
        pressed == master_pressed(want, cell, occupants@, collider),
{
    let mut i: usize = 0;
    while i < occupants.len()
        invariant
            i <= occupants@.len(),
            forall|j: int|
                0 <= j < i ==> !(accepts(want, (#[trigger] occupants@[j]).color)
                    && occupants@[j].cell == cell),
        decreases occupants@.len() - i,
    {
        let fits = match want {
            ButtonType::AnyColor => true,
            ButtonType::Color(c) => c == occupants[i].color,
        };
        if fits && occupants[i].cell == cell {
            return true;
        }
        i += 1;
    }
    is_weighed_down(want, collider)
}

/// Whether a slave button on `cell` is pressed. `occupants` are the player
/// and the clones, in the order in which they are looked at; `collider` is
/// what stands on the button's tile.
pub fn is_slave_pressed(
    want: ButtonType,
    cell: Cell,
    occupants: &Vec<Marked>,
    collider: Collider,
) -> (pressed: bool)
    ensures
        pressed == slave_pressed(want, cell, occupants@, collider),
{
    match want {
        ButtonType::AnyColor => is_master_pressed(want, cell, occupants, collider),
        ButtonType::Color(c) => {
            let mut pressed = false;
            let mut i: usize = 0;
            while i < occupants.len()
                invariant
                    i <= occupants@.len(),
                    pressed == (last_of_color(occupants@, c, i as int) matches Some(who)
                        && who.cell == cell),
                decreases occupants@.len() - i,
            {
                if occupants[i].color == c {
                    pressed = occupants[i].cell == cell;
                }
                i += 1;
            }
            pressed || is_weighed_down(want, collider)
        },
    }
}

/// Takes note of whether a button is pressed now: `was` is the button's own
/// record, `sprite` its sprite, which shows the new state where it changed.
pub fn record_press(pressed: bool, was: &mut bool, sprite: &mut Sprite) -> (changed: bool)
    ensures
        changed == (pressed != *old(was)),
        *final(was) == pressed,
        *final(sprite) == if pressed == *old(was) {
            *old(sprite)
        } else {
            Sprite { index_y: if pressed { PRESSED_ROW } else { RELEASED_ROW }, ..*old(sprite) }
        },
{
    if pressed && !*was {
        sprite.index_y = PRESSED_ROW;
        *was = true;
        true
    } else if !pressed && *was {
        sprite.index_y = RELEASED_ROW;
        *was = false;
        true
    } else {
        false
    }
}

/// The row of the sprite sheet for the wires of a door of which
/// `total_pressed` of `total_buttons` buttons are pressed: four steps from no
/// current to full current.
pub fn wire_row(total_pressed: usize, total_buttons: usize) -> (row: u32)
    requires
        0 < total_buttons,
        total_pressed <= total_buttons,
    ensures
        row == WIRE_ROW + (4 * total_pressed) / (total_buttons as int),
        WIRE_ROW <= row <= WIRE_ROW + 4,
{
    let pressed = total_pressed as u128;
    let buttons = total_buttons as u128;
    assert((4 * pressed) / (buttons as int) <= 4) by (nonlinear_arith)
        requires
            0 < buttons,
            pressed <= buttons,
    ;
    let steps = (4 * pressed) / buttons;
    WIRE_ROW + steps as u32
}

/// What stands on a door cell once the door is open or shut: a shut door is
/// solid, an open door gives way, but leaves alone what is not the door
/// itself.
pub fn door_collider(open: bool, current: Collider) -> (collider: Collider)
    ensures
        collider == if !open {
            Collider::Solid
        } else if current == Collider::Solid {
            Collider::Empty
        } else {
            current
        },
{
    if !open {
        Collider::Solid
    } else {
        match current {
            Collider::Solid => Collider::Empty,
            other => other,
        }
    }
}

/// The sprite of a button after it was found `pressed`, where its record
/// said `was`.
pub open spec fn shown(pressed: bool, was: bool, sprite: Sprite) -> Sprite {
    if pressed == was {
        sprite
    } else {
        Sprite { index_y: if pressed { PRESSED_ROW } else { RELEASED_ROW }, ..sprite }
    }
}

/// The pass over the master buttons: it visits the entities that have a
/// cell, a button and a sprite, in this order, finds out whether each button
/// is pressed, and keeps the list of the buttons it saw.
pub struct PressButtons<'a> {
    /// The player and the clones.
    pub occupants: &'a Vec<Marked>,
    pub colliders: &'a Colliders,
    /// The buttons visited so far.
    pub masters: Vec<usize>,
}

/// The row holds a cell on the map, a button and a sprite.
pub open spec fn button_row(colliders: &Colliders, row: Seq<Component>) -> bool {
    &&& row.len() == 3
    &&& row[0] is Cell
    &&& row[1] is Button
    &&& row[2] is Sprite
    &&& colliders.holds(row[0]->Cell_0)
}

impl<'a> System<Component> for PressButtons<'a> {
    open spec fn visits(
        before: Self,
        entity: int,
        row: Seq<Component>,
        after: Self,
        rewritten: Seq<Component>,
    ) -> bool {
        &&& after.occupants == before.occupants
        &&& after.colliders == before.colliders
        &&& rewritten.len() == row.len()
        &&& if button_row(before.colliders, row) {
            let cell = row[0]->Cell_0;
            let button = row[1]->Button_0;
            let pressed = master_pressed(
                button.button_type,
                cell,
                before.occupants@,
                before.colliders.at(cell),
            );
            &&& after.masters@ == before.masters@.push(entity as usize)
            &&& rewritten[0] == row[0]
            &&& rewritten[1] is Button
            &&& rewritten[1]->Button_0.pressed == pressed
            &&& rewritten[1]->Button_0.button_type == button.button_type
            &&& rewritten[1]->Button_0.cells == button.cells
            &&& rewritten[1]->Button_0.slaves == button.slaves
            &&& rewritten[1]->Button_0.wires == button.wires
            &&& rewritten[2] == Component::Sprite(shown(pressed, button.pressed, row[2]->Sprite_0))
        } else {
            rewritten == row && after.masters@ == before.masters@
        }
    }

    fn visit(&mut self, entity: usize, row: &mut Vec<Component>) {
        if row.len() != 3 {
            return;
        }
        let third = row.pop();
        let second = row.pop();
        let first = row.pop();
        match (first, second, third) {
            (
                Some(Component::Cell(cell)),
                Some(Component::Button(mut button)),
                Some(Component::Sprite(mut sprite)),
            ) => {
                assert(old(row)@[0] == Component::Cell(cell));
                assert(old(row)@[1] == Component::Button(button));
                assert(old(row)@[2] == Component::Sprite(sprite));
                if self.colliders.contains(cell) {
                    let pressed = is_master_pressed(
                        button.button_type,
                        cell,
                        self.occupants,
                        self.colliders.get(cell),
                    );
                    record_press(pressed, &mut button.pressed, &mut sprite);
                    self.masters.push(entity);
                    row.push(Component::Cell(cell));
                    row.push(Component::Button(button));
                    row.push(Component::Sprite(sprite));
                } else {
                    row.push(Component::Cell(cell));
                    row.push(Component::Button(button));
                    row.push(Component::Sprite(sprite));
                    assert(row@ =~= old(row)@);
                }
            },
            (Some(first), Some(second), Some(third)) => {
                row.push(first);
                row.push(second);
                row.push(third);
                assert(row@ =~= old(row)@);
            },
            _ => {},
        }
    }
}

/// The pass over the slave buttons: it visits the entities that have a cell,
/// a slave button and a sprite, in this order, and finds out whether each
/// button is pressed.
pub struct PressSlaves<'a> {
    /// The player and the clones, in the order in which they are looked at.
    pub occupants: &'a Vec<Marked>,
    pub colliders: &'a Colliders,
}

/// The row holds a cell on the map, a slave button and a sprite.
pub open spec fn slave_row(colliders: &Colliders, row: Seq<Component>) -> bool {
    &&& row.len() == 3
    &&& row[0] is Cell
    &&& row[1] is SlaveButton
    &&& row[2] is Sprite
    &&& colliders.holds(row[0]->Cell_0)
}

impl<'a> System<Component> for PressSlaves<'a> {
    open spec fn visits(
        before: Self,
        entity: int,
        row: Seq<Component>,
        after: Self,
        rewritten: Seq<Component>,
    ) -> bool {
        &&& after == before
        &&& rewritten.len() == row.len()
        &&& if slave_row(before.colliders, row) {
            let cell = row[0]->Cell_0;
            let button = row[1]->SlaveButton_0;
            let pressed = slave_pressed(
                button.button_type,
                cell,
                before.occupants@,
                before.colliders.at(cell),
            );
            &&& rewritten[0] == row[0]
            &&& rewritten[1] == Component::SlaveButton(
                SlaveButton { button_type: button.button_type, pressed },
            )
            &&& rewritten[2] == Component::Sprite(shown(pressed, button.pressed, row[2]->Sprite_0))
        } else {
            rewritten == row
        }
    }

    fn visit(&mut self, entity: usize, row: &mut Vec<Component>) {
        if row.len() != 3 {
            return;
        }
        let third = row.pop();
        let second = row.pop();
        let first = row.pop();
        match (first, second, third) {
            (
                Some(Component::Cell(cell)),
                Some(Component::SlaveButton(mut button)),
                Some(Component::Sprite(mut sprite)),
            ) => {
                assert(old(row)@[0] == Component::Cell(cell));
                assert(old(row)@[1] == Component::SlaveButton(button));
                assert(old(row)@[2] == Component::Sprite(sprite));
                if self.colliders.contains(cell) {
                    let pressed = is_slave_pressed(
                        button.button_type,
                        cell,
                        self.occupants,
                        self.colliders.get(cell),
                    );
                    record_press(pressed, &mut button.pressed, &mut sprite);
                    row.push(Component::Cell(cell));
                    row.push(Component::SlaveButton(button));
                    row.push(Component::Sprite(sprite));
                } else {
                    row.push(Component::Cell(cell));
                    row.push(Component::SlaveButton(button));
                    row.push(Component::Sprite(sprite));
                    assert(row@ =~= old(row)@);
                }
            },
            (Some(first), Some(second), Some(third)) => {
                row.push(first);
                row.push(second);
                row.push(third);
                assert(row@ =~= old(row)@);
            },
            _ => {},
        }
    }
}

/// Who can press a button: the players, then the clones, each in ascending
/// order of the entities.
pub open spec fn occupants_of(store: StoreView<Component>) -> Seq<Marked> {
    marks(store, PLAYER, None) + marks(store, CLONE, None)
}

/// The cells and colours of the players and the clones. The store is left
/// as it was.
pub fn occupants(world: &mut World<Component>) -> (found: Vec<Marked>)
    requires
        old(world).wf(),
        old(world)@.unborrowed(),
    ensures
        final(world).wf(),
        final(world)@ == old(world)@,
        found@ == occupants_of(old(world)@),
{
    let mut found = marked(world, PLAYER, None);
    let mut clones = marked(world, CLONE, None);
    found.append(&mut clones);
    found
}

/// The columns of the pass over the buttons of kind `button`: the cell is
/// read, the button and its sprite are changed.
pub open spec fn button_columns(button: crate::model::ComponentKind) -> Seq<Access> {
    seq![
        Access { kind: CELL, mode: AccessMode::Read },
        Access { kind: button, mode: AccessMode::Write },
        Access { kind: SPRITE, mode: AccessMode::Write },
    ]
}

/// The request of the pass over the buttons of kind `button`.
pub fn button_request(button: crate::model::ComponentKind) -> (request: Vec<Access>)
    ensures
        request@ == button_columns(button),
{
    vec![
        Access { kind: CELL, mode: AccessMode::Read },
        Access { kind: button, mode: AccessMode::Write },
        Access { kind: SPRITE, mode: AccessMode::Write },
    ]
}

/// The pass over the master buttons, started with `occupants` and
/// `colliders` and no button seen yet, can turn the store `start` into
/// `end` and see the buttons `seen`.
pub open spec fn buttons_pressed<'a>(
    start: StoreView<Component>,
    occupants: &'a Vec<Marked>,
    colliders: &'a Colliders,
    end: StoreView<Component>,
    seen: Seq<usize>,
) -> bool {
    exists|before: PressButtons<'a>, after: PressButtons<'a>|
        before.occupants == occupants && before.colliders == colliders && before.masters@.len()
            == 0 && after.masters@ == seen && #[trigger] swept(
            start,
            before,
            kinds_of(button_columns(BUTTON)),
            end,
            after,
        )
}

/// Finds out for every master button whether it is pressed, and returns the
/// buttons in ascending order of their entities. The pass is refused, and
/// nothing changes, where one of its borrows is refused.
pub fn press_buttons(
    world: &mut World<Component>,
    colliders: &Colliders,
    occupants: &Vec<Marked>,
) -> (masters: Result<Vec<usize>, StoreError>)
    requires
        old(world).wf(),
    ensures
        final(world).wf(),
        final(world)@.same_shape(old(world)@),
        match masters {
            Ok(seen) => old(world)@.pass_outcome(button_columns(BUTTON)) is Ok && buttons_pressed(
                old(world)@,
                occupants,
                colliders,
                final(world)@,
                seen@,
            ),
            Err(e) => old(world)@.pass_outcome(button_columns(BUTTON)) == Err::<(), StoreError>(e)
                && final(world)@ == old(world)@,
        },
{
    let request = button_request(BUTTON);
    let mut system = PressButtons { occupants, colliders, masters: Vec::new() };
    let ghost before = system;
    match world.iterate_entities_with_id(&request, &mut system) {
        Ok(_) => {
            proof {
                assert(swept(old(world)@, before, kinds_of(request@), world@, system));
            }
            Ok(system.masters)
        },
        Err(e) => Err(e),
    }
}

/// Finds out for every slave button whether it is pressed. The pass is
/// refused, and nothing changes, where one of its borrows is refused.
pub fn press_slaves(
    world: &mut World<Component>,
    colliders: &Colliders,
    occupants: &Vec<Marked>,
) -> (pressed: Result<(), StoreError>)
    requires
        old(world).wf(),
    ensures
        final(world).wf(),
        final(world)@.same_shape(old(world)@),
        match pressed {
            Ok(_) => old(world)@.pass_outcome(button_columns(SLAVE_BUTTON)) is Ok && swept(
                old(world)@,
                PressSlaves { occupants, colliders },
                kinds_of(button_columns(SLAVE_BUTTON)),
                final(world)@,
                PressSlaves { occupants, colliders },
            ),
            Err(e) => old(world)@.pass_outcome(button_columns(SLAVE_BUTTON)) == Err::<
                (),
                StoreError,
            >(e) && final(world)@ == old(world)@,
        },
{
    let request = button_request(SLAVE_BUTTON);
    let mut system = PressSlaves { occupants, colliders };
    let pressed = world.iterate_entities_with_id(&request, &mut system);
    proof {
        if pressed is Ok {
            lemma_press_slaves_keeps_itself(
                old(world)@,
                PressSlaves { occupants, colliders },
                kinds_of(request@),
                old(world)@.entity_count as int,
                world@,
                system,
            );
        }
    }
    pressed
}

/// The pass over the slave buttons changes the store, not itself.
proof fn lemma_press_slaves_keeps_itself<'a>(
    start: StoreView<Component>,
    before: PressSlaves<'a>,
    kinds: Seq<crate::model::ComponentKind>,
    bound: int,
    end: StoreView<Component>,
    after: PressSlaves<'a>,
)
    requires
        crate::system::swept_below(start, before, kinds, bound, end, after),
    ensures
        after == before,
    decreases bound,
{
    if bound > 0 {
        let (mid, during) = choose|mid: StoreView<Component>, during: PressSlaves<'a>|
            crate::system::swept_below(start, before, kinds, bound - 1, mid, during)
                && #[trigger] crate::system::stepped(mid, during, kinds, bound - 1, end, after);
        lemma_press_slaves_keeps_itself(start, before, kinds, bound - 1, mid, during);
    }
}

/// How many of `slaves` are slave buttons that are pressed.
pub open spec fn slaves_pressed(store: StoreView<Component>, slaves: Seq<usize>) -> nat
    decreases slaves.len(),
{
    if slaves.len() == 0 {
        0
    } else {
        slaves_pressed(store, slaves.drop_last()) + if slave_is_pressed(
            store,
            slaves.last() as int,
        ) {
            1nat
        } else {
            0nat
        }
    }
}

/// `entity` is a slave button that is pressed.
pub open spec fn slave_is_pressed(store: StoreView<Component>, entity: int) -> bool {
    store.slot(SLAVE_BUTTON, entity) matches Some(Component::SlaveButton(button)) && button.pressed
}

/// The state of a door: how many of its buttons are pressed, and what
/// belongs to it.
pub struct Door {
    /// The master button and all its slaves are pressed.
    pub open: bool,
    /// How many of the master button and its slaves are pressed.
    pub total_pressed: usize,
    /// The master button and its slaves.
    pub total_buttons: usize,
    /// The entities of the wire tiles.
    pub wires: Vec<usize>,
    /// The entities of the door cells.
    pub cells: Vec<usize>,
}

/// `door` is the state of the door of the master button `button`.
pub open spec fn door_of(store: StoreView<Component>, button: Button, door: Door) -> bool {
    let pressed = slaves_pressed(store, button.slaves@) + if button.pressed {
        1nat
    } else {
        0nat
    };
    &&& door.total_pressed == pressed
    &&& door.total_buttons == button.slaves@.len() + 1
    &&& door.open == (pressed == button.slaves@.len() + 1)
    &&& door.wires@ == button.wires@
    &&& door.cells@ == button.cells@
}

/// A copy of a list of entities.
pub fn copied(entities: &Vec<usize>) -> (copy: Vec<usize>)
    ensures
        copy@ == entities@,
{
    let mut copy: Vec<usize> = Vec::new();
    let mut i: usize = 0;
    while i < entities.len()
        invariant
            i <= entities@.len(),
            copy@ == entities@.take(i as int),
        decreases entities@.len() - i,
    {
        copy.push(entities[i]);
        i += 1;
        assert(copy@ =~= entities@.take(i as int));
    }
    assert(entities@.take(i as int) =~= entities@);
    copy
}

/// The state of the door of the master button `master`: `None` where
/// `master` is no button, or has more slaves than can be counted.
pub fn door_state(world: &World<Component>, master: usize) -> (door: Option<Door>)
    requires
        world.wf(),
        world@.unborrowed(),
    ensures
        match door {
            Some(state) => world@.slot(BUTTON, master as int) matches Some(Component::Button(button))
                && door_of(world@, button, state) && state.total_pressed <= state.total_buttons,
            None => !(world@.slot(BUTTON, master as int) matches Some(Component::Button(button))
                && button.slaves@.len() < usize::MAX),
        },
{
    let button = match world.get_component_from_entity(master, BUTTON) {
        Ok(Some(Component::Button(button))) => button,
        _ => {
            return None;
        },
    };
    if button.slaves.len() == usize::MAX {
        return None;
    }
    let mut total_pressed: usize = if button.pressed {
        1
    } else {
        0
    };
    let mut i: usize = 0;
    assert(button.slaves@.take(0) =~= Seq::<usize>::empty());
    while i < button.slaves.len()
        invariant
            i <= button.slaves@.len(),
            button.slaves@.len() < usize::MAX,
            world.wf(),
            world@.unborrowed(),
            total_pressed == slaves_pressed(world@, button.slaves@.take(i as int)) + if button.pressed {
                1nat
            } else {
                0nat
            },
            total_pressed <= i + 1,
        decreases button.slaves@.len() - i,
    {
        proof {
            assert(button.slaves@.take(i + 1).drop_last() =~= button.slaves@.take(i as int));
            assert(button.slaves@.take(i + 1).last() == button.slaves@[i as int]);
        }
        let pressed = match world.get_component_from_entity(button.slaves[i], SLAVE_BUTTON) {
            Ok(Some(Component::SlaveButton(slave))) => slave.pressed,
            _ => false,
        };
        if pressed {
            total_pressed += 1;
        }
        i += 1;
    }
    assert(button.slaves@.take(i as int) =~= button.slaves@);
    let total_buttons = button.slaves.len() + 1;
    Some(
        Door {
            open: total_pressed == total_buttons,
            total_pressed,
            total_buttons,
            wires: copied(&button.wires),
            cells: copied(&button.cells),
        },
    )
}

/// The change that puts a sprite into the row `row` of the sprite sheet.
pub open spec fn into_row(row: u32) -> spec_fn(Sprite) -> Sprite {
    |sprite: Sprite| Sprite { index_y: row, ..sprite }
}

/// The change that shows a sprite, or hides it.
pub open spec fn rendered(render: bool) -> spec_fn(Sprite) -> Sprite {
    |sprite: Sprite| Sprite { render, ..sprite }
}

/// The store after the sprite of `entity` was changed by `change`; the same
/// store where it has no sprite, or the store refuses the write.
pub open spec fn sprite_changed(
    store: StoreView<Component>,
    entity: int,
    change: spec_fn(Sprite) -> Sprite,
) -> StoreView<Component> {
    match store.slot(SPRITE, entity) {
        Some(Component::Sprite(sprite)) => store.after(
            Call::Rewrite { entity, kind: SPRITE, value: Component::Sprite(change(sprite)) },
        ),
        _ => store,
    }
}

/// The store after the sprites of `entities` were changed by `change`,
/// first to last.
pub open spec fn sprites_changed(
    store: StoreView<Component>,
    entities: Seq<usize>,
    change: spec_fn(Sprite) -> Sprite,
) -> StoreView<Component>
    decreases entities.len(),
{
    if entities.len() == 0 {
        store
    } else {
        sprite_changed(
            sprites_changed(store, entities.drop_last(), change),
            entities.last() as int,
            change,
        )
    }
}

/// Puts the sprites of the wires `wires` into the row `row` of the sprite
/// sheet.
pub fn set_wire_rows(world: &mut World<Component>, wires: &Vec<usize>, row: u32)
    requires
        old(world).wf(),
    ensures
        final(world).wf(),
        final(world)@ == sprites_changed(old(world)@, wires@, into_row(row)),
{
    let mut i: usize = 0;
    assert(wires@.take(0) =~= Seq::<usize>::empty());
    while i < wires.len()
        invariant
            i <= wires@.len(),
            world.wf(),
            world@ == sprites_changed(old(world)@, wires@.take(i as int), into_row(row)),
        decreases wires@.len() - i,
    {
        proof {
            assert(wires@.take(i + 1).drop_last() =~= wires@.take(i as int));
            assert(wires@.take(i + 1).last() == wires@[i as int]);
        }
        let wire = wires[i];
        let ghost reached = world@;
        match world.get_component_from_entity_mut(wire, SPRITE) {
            Ok(Some(Component::Sprite(sprite))) => {
                sprite.index_y = row;
            },
            _ => {},
        }
        proof {
            if reached.write_outcome(wire as int, SPRITE) is Ok && reached.present(
                SPRITE,
                wire as int,
            ) {
                let held = reached.columns[SPRITE].slots;
                assert(held.update(wire as int, held[wire as int]) =~= held);
            }
            assert(world@ =~= sprite_changed(reached, wire as int, into_row(row)));
        }
        i += 1;
    }
    assert(wires@.take(i as int) =~= wires@);
}

/// Shows the sprites of the door cells `cells`, or hides them.
pub fn show_doors(world: &mut World<Component>, cells: &Vec<usize>, render: bool)
    requires
        old(world).wf(),
    ensures
        final(world).wf(),
        final(world)@ == sprites_changed(old(world)@, cells@, rendered(render)),
{
    let mut i: usize = 0;
    assert(cells@.take(0) =~= Seq::<usize>::empty());
    while i < cells.len()
        invariant
            i <= cells@.len(),
            world.wf(),
            world@ == sprites_changed(old(world)@, cells@.take(i as int), rendered(render)),
        decreases cells@.len() - i,
    {
        proof {
            assert(cells@.take(i + 1).drop_last() =~= cells@.take(i as int));
            assert(cells@.take(i + 1).last() == cells@[i as int]);
        }
        let door = cells[i];
        let ghost reached = world@;
        match world.get_component_from_entity_mut(door, SPRITE) {
            Ok(Some(Component::Sprite(sprite))) => {
                sprite.render = render;
            },
            _ => {},
        }
        proof {
            if reached.write_outcome(door as int, SPRITE) is Ok && reached.present(
                SPRITE,
                door as int,
            ) {
                let held = reached.columns[SPRITE].slots;
                assert(held.update(door as int, held[door as int]) =~= held);
            }
            assert(world@ =~= sprite_changed(reached, door as int, rendered(render)));
        }
        i += 1;
    }
    assert(cells@.take(i as int) =~= cells@);
}

/// What stands on a door cell once the door is open or shut.
pub open spec fn settled(open: bool, current: Collider) -> Collider {
    if !open {
        Collider::Solid
    } else if current == Collider::Solid {
        Collider::Empty
    } else {
        current
    }
}

/// One of the first `upto` of the door cells `cells` stands on `cell`.
pub open spec fn door_on(store: StoreView<Component>, cells: Seq<usize>, upto: int, cell: Cell) -> bool {
    exists|j: int| 0 <= j < upto && j < cells.len() && cell_at(store, #[trigger] cells[j] as int) == Some(cell)
}

/// Opens or shuts the door on the map: every tile of the map that one of
/// the door cells `cells` stands on is settled, and no other tile changes.
pub fn settle_colliders(
    world: &World<Component>,
    colliders: &mut Colliders,
    cells: &Vec<usize>,
    open: bool,
)
    requires
        world.wf(),
        world@.unborrowed(),
    ensures
        forall|c: Cell| old(colliders).holds(c) == final(colliders).holds(c),
        forall|c: Cell|
            old(colliders).holds(c) ==> #[trigger] final(colliders).at(c) == if door_on(
                world@,
                cells@,
                cells@.len() as int,
                c,
            ) {
                settled(open, old(colliders).at(c))
            } else {
                old(colliders).at(c)
            },
{
    let mut i: usize = 0;
    while i < cells.len()
        invariant
            i <= cells@.len(),
            world.wf(),
            world@.unborrowed(),
            forall|c: Cell| old(colliders).holds(c) == colliders.holds(c),
            forall|c: Cell|
                old(colliders).holds(c) ==> #[trigger] colliders.at(c) == if door_on(
                    world@,
                    cells@,
                    i as int,
                    c,
                ) {
                    settled(open, old(colliders).at(c))
                } else {
                    old(colliders).at(c)
                },
        decreases cells@.len() - i,
    {
        let ghost before = *colliders;
        let found = cell_of(world, cells[i]);
        assert(found == cell_at(world@, cells@[i as int] as int));
        match found {
            Some(cell) => {
                if colliders.contains(cell) {
                    let current = colliders.get(cell);
                    colliders.set(cell, door_collider(open, current));
                }
            },
            None => {},
        }
        proof {
            assert forall|c: Cell| old(colliders).holds(c) implies #[trigger] colliders.at(c)
                == if door_on(world@, cells@, i + 1, c) {
                settled(open, old(colliders).at(c))
            } else {
                old(colliders).at(c)
            } by {
                if found == Some(c) {
                    assert(door_on(world@, cells@, i + 1, c)) by {
                        assert(cell_at(world@, cells@[i as int] as int) == Some(c));
                    }
                } else {
                    assert(colliders.at(c) == before.at(c));
                    if door_on(world@, cells@, i + 1, c) {
                        let j = choose|j: int|
                            0 <= j < i + 1 && j < cells@.len() && cell_at(
                                world@,
                                #[trigger] cells@[j] as int,
                            ) == Some(c);
                        assert(j < i);
                        assert(door_on(world@, cells@, i as int, c));
                    }
                    if door_on(world@, cells@, i as int, c) {
                        let j = choose|j: int|
                            0 <= j < i && j < cells@.len() && cell_at(
                                world@,
                                #[trigger] cells@[j] as int,
                            ) == Some(c);
                        assert(door_on(world@, cells@, i + 1, c));
                    }
                }
            }
        }
        i += 1;
    }
}

/// Changing sprites changes what the sprite column holds and nothing
/// else.
pub proof fn lemma_sprites_changed_shape(
    store: StoreView<Component>,
    entities: Seq<usize>,
    change: spec_fn(Sprite) -> Sprite,
)
    requires
        store.wf(),
    ensures
        sprites_changed(store, entities, change).wf(),
        sprites_changed(store, entities, change).same_shape(store),
        forall|kind: crate::model::ComponentKind, entity: int|
            kind != SPRITE ==> #[trigger] sprites_changed(store, entities, change).slot(
                kind,
                entity,
            ) == store.slot(kind, entity),
    decreases entities.len(),
{
    if entities.len() > 0 {
        let before = sprites_changed(store, entities.drop_last(), change);
        lemma_sprites_changed_shape(store, entities.drop_last(), change);
        let after = sprite_changed(before, entities.last() as int, change);
        let entity = entities.last() as int;
        match before.slot(SPRITE, entity) {
            Some(Component::Sprite(sprite)) => {
                crate::laws::law_call_keeps_store_well_formed(
                    before,
                    Call::Rewrite {
                        entity,
                        kind: SPRITE,
                        value: Component::Sprite(change(sprite)),
                    },
                );
                assert(after.columns.dom() =~= before.columns.dom());
            },
            _ => {},
        }
        assert(after.columns.dom() =~= store.columns.dom());
        assert forall|kind: crate::model::ComponentKind, e: int| kind != SPRITE implies #[trigger] after.slot(
            kind,
            e,
        ) == store.slot(kind, e) by {
            assert(after.slot(kind, e) == before.slot(kind, e));
        }
    }
}

/// The row of the sprite sheet for the wires of a door of which `pressed`
/// of `buttons` buttons are pressed.
pub open spec fn wire_row_of(pressed: nat, buttons: nat) -> u32 {
    (WIRE_ROW + (4 * (pressed as int)) / (buttons as int)) as u32
}

/// What settling the door of the master button `master` makes of the store
/// `start` and the map `map`: its wires show how many of its buttons are
/// pressed, its door cells are hidden where the door is open and shown
/// where it is shut, and the tiles they stand on give way or block.
pub open spec fn door_settled(
    start: StoreView<Component>,
    map: Colliders,
    master: int,
    end: StoreView<Component>,
    changed: Colliders,
) -> bool {
    if start.slot(BUTTON, master) matches Some(Component::Button(button)) && button.slaves@.len()
        < usize::MAX {
        let button = start.slot(BUTTON, master)->0->Button_0;
        let pressed = slaves_pressed(start, button.slaves@) + if button.pressed {
            1nat
        } else {
            0nat
        };
        let buttons = button.slaves@.len() + 1;
        let open = pressed == buttons;
        &&& end == sprites_changed(
            sprites_changed(start, button.wires@, into_row(wire_row_of(pressed, buttons))),
            button.cells@,
            rendered(!open),
        )
        &&& forall|c: Cell| map.holds(c) == changed.holds(c)
        &&& forall|c: Cell|
            map.holds(c) ==> #[trigger] changed.at(c) == if door_on(
                start,
                button.cells@,
                button.cells@.len() as int,
                c,
            ) {
                settled(open, map.at(c))
            } else {
                map.at(c)
            }
    } else {
        end == start && changed == map
    }
}

/// Settles the door of the master button `master`: see `door_settled`.
pub fn settle_door(world: &mut World<Component>, colliders: &mut Colliders, master: usize)
    requires
        old(world).wf(),
        old(world)@.unborrowed(),
    ensures
        final(world).wf(),
        final(world)@.unborrowed(),
        final(world)@.same_shape(old(world)@),
        door_settled(
            old(world)@,
            *old(colliders),
            master as int,
            final(world)@,
            *final(colliders),
        ),
{
    let door = match door_state(world, master) {
        Some(door) => door,
        None => {
            proof {
                assert(world@.columns.dom() =~= old(world)@.columns.dom());
            }
            return;
        },
    };
    settle_colliders(world, colliders, &door.cells, door.open);
    let row = wire_row(door.total_pressed, door.total_buttons);
    set_wire_rows(world, &door.wires, row);
    proof {
        lemma_sprites_changed_shape(old(world)@, door.wires@, into_row(row));
    }
    let ghost wired = world@;
    show_doors(world, &door.cells, !door.open);
    proof {
        lemma_sprites_changed_shape(wired, door.cells@, rendered(!door.open));
        assert(world@.columns.dom() =~= old(world)@.columns.dom());
        crate::game::player::lemma_same_guards_unborrowed(old(world)@, world@);
    }
}

/// Settling the doors of the master buttons `masters`, first to last, can
/// turn the store `start` into `end` and the map `map` into `changed`.
pub open spec fn doors_settled(
    start: StoreView<Component>,
    map: Colliders,
    masters: Seq<usize>,
    end: StoreView<Component>,
    changed: Colliders,
) -> bool
    decreases masters.len(),
{
    if masters.len() == 0 {
        end == start && changed == map
    } else {
        exists|mid: StoreView<Component>, mid_map: Colliders|
            doors_settled(start, map, masters.drop_last(), mid, mid_map) && #[trigger] door_settled(
                mid,
                mid_map,
                masters.last() as int,
                end,
                changed,
            )
    }
}

/// Checking the buttons can turn the store `start` into `end` and the map
/// `map` into `changed`: every master button and every slave button finds
/// out whether the player, a clone or a box presses it, and then the door of
/// every master button is settled.
pub open spec fn buttons_checked(
    start: StoreView<Component>,
    map: Colliders,
    end: StoreView<Component>,
    changed: Colliders,
) -> bool {
    exists|who: Vec<Marked>, pressed: StoreView<Component>, masters: Seq<usize>, slaved: StoreView<Component>|
        who@ == occupants_of(start) && #[trigger] buttons_pressed(
            start,
            &who,
            &map,
            pressed,
            masters,
        ) && #[trigger] swept(
            pressed,
            PressSlaves { occupants: &who, colliders: &map },
            kinds_of(button_columns(SLAVE_BUTTON)),
            slaved,
            PressSlaves { occupants: &who, colliders: &map },
        ) && doors_settled(slaved, map, masters, end, changed)
}

/// Checks the buttons: see `buttons_checked`.
pub fn check_buttons(world: &mut World<Component>, colliders: &mut Colliders)
    requires
        old(world).wf(),
        old(world)@.unborrowed(),
    ensures
        final(world).wf(),
        final(world)@.unborrowed(),
        final(world)@.same_shape(old(world)@),
        buttons_checked(old(world)@, *old(colliders), final(world)@, *final(colliders)),
{
    let who = occupants(world);
    proof {
        assert(kinds_of(button_columns(BUTTON)) =~= seq![CELL, BUTTON, SPRITE]);
        assert(kinds_of(button_columns(SLAVE_BUTTON)) =~= seq![CELL, SLAVE_BUTTON, SPRITE]);
        crate::laws::law_pass_over_unborrowed_store_is_granted(world@, button_columns(BUTTON));
    }
    let masters = match press_buttons(world, colliders, &who) {
        Ok(masters) => masters,
        Err(_) => Vec::new(),
    };
    let ghost pressed = world@;
    proof {
        crate::game::player::lemma_same_guards_unborrowed(old(world)@, pressed);
        crate::laws::law_pass_over_unborrowed_store_is_granted(
            pressed,
            button_columns(SLAVE_BUTTON),
        );
    }
    let _ = press_slaves(world, colliders, &who);
    let ghost slaved = world@;
    let ghost map = *colliders;
    proof {
        crate::game::player::lemma_same_guards_unborrowed(pressed, slaved);
        assert(masters@.take(0) =~= Seq::<usize>::empty());
    }
    let mut i: usize = 0;
    while i < masters.len()
        invariant
            i <= masters@.len(),
            world.wf(),
            world@.unborrowed(),
            world@.same_shape(slaved),
            doors_settled(slaved, map, masters@.take(i as int), world@, *colliders),
        decreases masters@.len() - i,
    {
        let ghost mid = world@;
        let ghost mid_map = *colliders;
        settle_door(world, colliders, masters[i]);
        proof {
            assert(masters@.take(i + 1).drop_last() =~= masters@.take(i as int));
            assert(masters@.take(i + 1).last() == masters@[i as int]);
            assert(door_settled(mid, mid_map, masters@[i as int] as int, world@, *colliders));
            assert(world@.columns.dom() =~= slaved.columns.dom());
        }
        i += 1;
    }
    proof {
        assert(masters@.take(i as int) =~= masters@);
        assert(world@.columns.dom() =~= old(world)@.columns.dom());
        assert(buttons_pressed(old(world)@, &who, &map, pressed, masters@));
    }
}

} // verus!
