//! The player, and the steps that the player and the clones take.

use vstd::prelude::*;
use crate::game::collision::{check_collision, hit_on, Colliders, Hit, NO_COLOR};
use crate::game::common::Cell;
use crate::game::components::{
    cell_at, clones_marked, mark_clones_for_playback, Component, CELL, CLONE, MOVEABLE, PLAYER,
    SPRITE,
};
use crate::game::math::Vec2i;
use crate::game::movement::Moveable;
use crate::game::render::Sprite;
use crate::game::clones::{boxes_pushed, push_boxes, Push};
use crate::laws::{law_pass_over_unborrowed_store_is_granted, lemma_acquire_free, Call};
use crate::model::{kinds_of, Access, AccessMode, StoreError, StoreView};
use crate::store::World;
use crate::system::{swept, System};

verus! {

pub struct Player {
    pub moved: bool,
    /// The steps taken in this loop, which the next clone will play back.
    pub playback_dir: Vec<Vec2i>,
    pub color: u8,
    /// The entity of the marker drawn over the player.
    pub marker: usize,
}

impl Player {
    /// A player of colour 0 that has not moved.
    pub fn new(marker: usize) -> (player: Self)
        ensures
            !player.moved,
            player.playback_dir@ == Seq::<Vec2i>::empty(),
            player.color == 0,
            player.marker == marker,
    {
        Self { moved: false, playback_dir: Vec::new(), color: 0, marker }
    }
}

/// What comes of a step.
#[derive(PartialEq, Eq, Structural, Clone, Copy, Debug)]
pub enum Step {
    /// The way is free: on to `goal`.
    Walk { goal: Cell },
    /// A wall, or a box of another colour: the step is taken on the spot.
    Bump,
    /// A box that gives way: on to `goal`, and the box `pushed` from there
    /// on to `box_goal`.
    Push { goal: Cell, pushed: usize, box_goal: Cell },
    /// A box that cannot give way.
    Blocked,
}

/// The cell one `step` away from `cell`.
pub open spec fn neighbour(cell: Cell, step: Vec2i) -> Cell {
    Cell { value: cell.value.plus(step) }
}

/// A step from `cell` by `direction` stays on the map as far as it looks: the
/// tile stepped on is a tile of the map, and so is the tile behind it where
/// a box that can be pushed stands on it.
pub open spec fn step_in_reach(colliders: &Colliders, color: u8, cell: Cell, direction: Vec2i) -> bool {
    &&& cell.value.can_add(direction)
    &&& colliders.holds(neighbour(cell, direction))
    &&& hit_on(colliders.at(neighbour(cell, direction)), color) is Box ==> {
        &&& neighbour(cell, direction).value.can_add(direction)
        &&& colliders.holds(neighbour(neighbour(cell, direction), direction))
    }
}

/// What comes of a step from `cell` by `direction`, taken by someone of
/// colour `color`: a box is pushed where the tile behind it is free for a
/// box that has no colour.
pub open spec fn step_outcome(colliders: &Colliders, color: u8, cell: Cell, direction: Vec2i) -> Step {
    let goal = neighbour(cell, direction);
    match hit_on(colliders.at(goal), color) {
        Hit::Nothing => Step::Walk { goal },
        Hit::Solid => Step::Bump,
        Hit::Box(pushed) => {
            let box_goal = neighbour(goal, direction);
            if hit_on(colliders.at(box_goal), NO_COLOR) == Hit::Nothing {
                Step::Push { goal, pushed, box_goal }
            } else {
                Step::Blocked
            }
        },
    }
}

/// Plans the step from `cell` by `direction` of someone of colour `color`.
pub fn plan_step(colliders: &Colliders, color: u8, cell: Cell, direction: Vec2i) -> (step: Step)
    requires
        step_in_reach(colliders, color, cell, direction),
    ensures
        step == step_outcome(colliders, color, cell, direction),
{
    let goal = Cell { value: cell.value.sum(direction) };
    match check_collision(colliders, color, goal) {
        Hit::Nothing => Step::Walk { goal },
        Hit::Solid => Step::Bump,
        Hit::Box(pushed) => {
            let box_goal = Cell { value: goal.value.sum(direction) };
            match check_collision(colliders, NO_COLOR, box_goal) {
                Hit::Nothing => Step::Push { goal, pushed, box_goal },
                _ => Step::Blocked,
            }
        },
    }
}

/// Plans the step from `cell` by `direction` where the map allows to look,
/// and returns `None` where the step would look beyond the map.
pub fn try_plan_step(colliders: &Colliders, color: u8, cell: Cell, direction: Vec2i) -> (step:
    Option<Step>)
    ensures
        step == if step_in_reach(colliders, color, cell, direction) {
            Some(step_outcome(colliders, color, cell, direction))
        } else {
            None
        },
{
    let goal = match cell.value.checked_add(direction) {
        Some(value) => Cell { value },
        None => {
            return None;
        },
    };
    if !colliders.contains(goal) {
        return None;
    }
    match check_collision(colliders, color, goal) {
        Hit::Box(_) => {
            match goal.value.checked_add(direction) {
                Some(value) => {
                    if !colliders.contains(Cell { value }) {
                        return None;
                    }
                },
                None => {
                    return None;
                },
            }
        },
        _ => {},
    }
    Some(plan_step(colliders, color, cell, direction))
}

/// The column of the sprite sheet that shows someone looking in `dir`.
pub open spec fn facing(dir: Vec2i) -> u32 {
    if dir == (Vec2i { x: 0, y: -1i32 }) {
        0
    } else if dir == (Vec2i { x: 0, y: 1 }) {
        1
    } else if dir == (Vec2i { x: 1, y: 0 }) {
        2
    } else if dir == (Vec2i { x: -1i32, y: 0 }) {
        3
    } else {
        0
    }
}

/// Turns the sprite to look in `dir`.
pub fn update_sprite_dir(dir: Vec2i, sprite: &mut Sprite)
    ensures
        *final(sprite) == (Sprite { index_x: facing(dir), ..*old(sprite) }),
{
    sprite.index_x = if dir.x == 0 && dir.y == -1 {
        0
    } else if dir.x == 0 && dir.y == 1 {
        1
    } else if dir.x == 1 && dir.y == 0 {
        2
    } else if dir.x == -1 && dir.y == 0 {
        3
    } else {
        0
    };
}

/// A box that gives way: its entity, and the tile it is pushed to.
#[derive(PartialEq, Eq, Structural, Clone, Copy, Debug)]
pub struct Shove {
    pub pushed: usize,
    pub to: Cell,
}

/// The step that the player takes: where it ends, and the box it pushes.
#[derive(PartialEq, Eq, Structural, Clone, Copy, Debug)]
pub struct Planned {
    pub goal: Cell,
    pub shove: Option<Shove>,
}

/// What comes of the step of a player of colour `color` from `cell` by
/// `direction`: a player whose step would look beyond the map does not take
/// it.
pub open spec fn player_step(colliders: &Colliders, color: u8, cell: Cell, direction: Vec2i) -> Step {
    if step_in_reach(colliders, color, cell, direction) {
        step_outcome(colliders, color, cell, direction)
    } else {
        Step::Blocked
    }
}

/// The plan that goes with a step from `cell`: none for a step that is not
/// taken.
pub open spec fn plan_of(step: Step, cell: Cell) -> Option<Planned> {
    match step {
        Step::Walk { goal } => Some(Planned { goal, shove: None }),
        Step::Bump => Some(Planned { goal: cell, shove: None }),
        Step::Push { goal, pushed, box_goal } => Some(
            Planned { goal, shove: Some(Shove { pushed, to: box_goal }) },
        ),
        Step::Blocked => None,
    }
}

/// The row is that of a player who can take a step: a move that is over, a
/// player, a cell and a sprite.
pub open spec fn player_row(row: Seq<Component>) -> bool {
    &&& row.len() == 4
    &&& row[0] is Moveable
    &&& row[1] is Player
    &&& row[2] is Cell
    &&& row[3] is Sprite
    &&& !row[0]->Moveable_0.moving
}

/// The pass that lets the player take the step that the keys ask for: it
/// visits the entities that have a move, a player, a cell and a sprite, in
/// this order.
pub struct StepPlayers<'a> {
    pub colliders: &'a Colliders,
    /// The step that the keys ask for.
    pub direction: Vec2i,
    /// The step that the last player took who took one.
    pub planned: Option<Planned>,
}

impl<'a> StepPlayers<'a> {
    /// The columns that the pass asks for.
    pub open spec fn columns() -> Seq<Access> {
        seq![
            Access { kind: MOVEABLE, mode: AccessMode::Read },
            Access { kind: PLAYER, mode: AccessMode::Write },
            Access { kind: CELL, mode: AccessMode::Write },
            Access { kind: SPRITE, mode: AccessMode::Write },
        ]
    }

    /// The columns that the pass asks for.
    pub fn request() -> (request: Vec<Access>)
        ensures
            request@ == Self::columns(),
    {
        vec![
            Access { kind: MOVEABLE, mode: AccessMode::Read },
            Access { kind: PLAYER, mode: AccessMode::Write },
            Access { kind: CELL, mode: AccessMode::Write },
            Access { kind: SPRITE, mode: AccessMode::Write },
        ]
    }
}

impl<'a> System<Component> for StepPlayers<'a> {
    open spec fn visits(
        before: Self,
        entity: int,
        row: Seq<Component>,
        after: Self,
        rewritten: Seq<Component>,
    ) -> bool {
        &&& after.colliders == before.colliders
        &&& after.direction == before.direction
        &&& rewritten.len() == row.len()
        &&& if player_row(row) && before.direction != (Vec2i { x: 0, y: 0 }) && plan_of(
            player_step(
                before.colliders,
                row[1]->Player_0.color,
                row[2]->Cell_0,
                before.direction,
            ),
            row[2]->Cell_0,
        ) is Some {
            let player = row[1]->Player_0;
            let cell = row[2]->Cell_0;
            let step = player_step(before.colliders, player.color, cell, before.direction);
            &&& rewritten[0] == row[0]
            &&& rewritten[1] is Player
            &&& rewritten[1]->Player_0.moved
            &&& rewritten[1]->Player_0.playback_dir@ == player.playback_dir@.push(before.direction)
            &&& rewritten[1]->Player_0.color == player.color
            &&& rewritten[1]->Player_0.marker == player.marker
            &&& rewritten[2] == row[2]
            &&& rewritten[3] == Component::Sprite(
                Sprite { index_x: facing(before.direction), ..row[3]->Sprite_0 },
            )
            &&& after.planned == plan_of(step, cell)
        } else {
            rewritten == row && after.planned == before.planned
        }
    }

    fn visit(&mut self, entity: usize, row: &mut Vec<Component>) {
        if row.len() != 4 {
            return;
        }
        let fourth = row.pop();
        let third = row.pop();
        let second = row.pop();
        let first = row.pop();
        match (first, second, third, fourth) {
            (
                Some(Component::Moveable(moveable)),
                Some(Component::Player(mut player)),
                Some(Component::Cell(cell)),
                Some(Component::Sprite(mut sprite)),
            ) => {
                assert(old(row)@[0] == Component::Moveable(moveable));
                assert(old(row)@[1] == Component::Player(player));
                assert(old(row)@[2] == Component::Cell(cell));
                assert(old(row)@[3] == Component::Sprite(sprite));
                let step = if moveable.moving || (self.direction.x == 0 && self.direction.y == 0) {
                    Step::Blocked
                } else {
                    match try_plan_step(self.colliders, player.color, cell, self.direction) {
                        Some(step) => step,
                        None => Step::Blocked,
                    }
                };
                let planned = match step {
                    Step::Walk { goal } => Some(Planned { goal, shove: None }),
                    Step::Bump => Some(Planned { goal: cell, shove: None }),
                    Step::Push { goal, pushed, box_goal } => Some(
                        Planned { goal, shove: Some(Shove { pushed, to: box_goal }) },
                    ),
                    Step::Blocked => None,
                };
                match planned {
                    Some(_) => {
                        player.playback_dir.push(self.direction);
                        player.moved = true;
                        update_sprite_dir(self.direction, &mut sprite);
                        self.planned = planned;
                        row.push(Component::Moveable(moveable));
                        row.push(Component::Player(player));
                        row.push(Component::Cell(cell));
                        row.push(Component::Sprite(sprite));
                    },
                    None => {
                        row.push(Component::Moveable(moveable));
                        row.push(Component::Player(player));
                        row.push(Component::Cell(cell));
                        row.push(Component::Sprite(sprite));
                        assert(row@ =~= old(row)@);
                    },
                }
            },
            (Some(first), Some(second), Some(third), Some(fourth)) => {
                row.push(first);
                row.push(second);
                row.push(third);
                row.push(fourth);
                assert(row@ =~= old(row)@);
            },
            _ => {},
        }
    }
}

/// The pass over the players, started on the map `colliders` with the step
/// `direction` and no step taken yet, can turn the store `start` into `end`
/// and have the step `planned` taken.
pub open spec fn players_stepped<'a>(
    start: StoreView<Component>,
    colliders: &'a Colliders,
    direction: Vec2i,
    end: StoreView<Component>,
    planned: Option<Planned>,
) -> bool {
    exists|before: StepPlayers<'a>, after: StepPlayers<'a>|
        before.colliders == colliders && before.direction == direction && before.planned is None
            && after.planned == planned && #[trigger] swept(
            start,
            before,
            kinds_of(StepPlayers::columns()),
            end,
            after,
        )
}

/// Lets the players take the step `direction`, and returns the step that
/// was taken. The pass is refused, and nothing changes, where one of its
/// borrows is refused.
pub fn step_players(world: &mut World<Component>, colliders: &Colliders, direction: Vec2i) -> (taken:
    Result<Option<Planned>, StoreError>)
    requires
        old(world).wf(),
    ensures
        final(world).wf(),
        final(world)@.same_shape(old(world)@),
        match taken {
            Ok(planned) => old(world)@.pass_outcome(StepPlayers::columns()) is Ok
                && players_stepped(old(world)@, colliders, direction, final(world)@, planned),
            Err(e) => old(world)@.pass_outcome(StepPlayers::columns()) == Err::<(), StoreError>(e)
                && final(world)@ == old(world)@,
        },
{
    let request = StepPlayers::request();
    let mut system = StepPlayers { colliders, direction, planned: None };
    let ghost before = system;
    match world.iterate_entities_with_id(&request, &mut system) {
        Ok(_) => {
            proof {
                assert(swept(old(world)@, before, kinds_of(request@), world@, system));
            }
            Ok(system.planned)
        },
        Err(e) => Err(e),
    }
}

/// The store after `entity` was set moving from the cell it stands on to
/// `goal`; the same store where it has no cell or no move, or the store
/// refuses the write.
pub open spec fn move_started(store: StoreView<Component>, entity: int, goal: Cell) -> StoreView<
    Component,
> {
    match (cell_at(store, entity), store.slot(MOVEABLE, entity)) {
        (Some(cell), Some(Component::Moveable(moveable))) => store.after(
            Call::Rewrite {
                entity,
                kind: MOVEABLE,
                value: Component::Moveable(
                    Moveable { start_cell: cell, end_cell: goal, moving: true, ..moveable },
                ),
            },
        ),
        _ => store,
    }
}

/// Sets `entity` moving from the cell it stands on to `goal`.
pub fn start_move(world: &mut World<Component>, entity: usize, goal: Cell)
    requires
        old(world).wf(),
    ensures
        final(world).wf(),
        final(world)@ == if old(world)@.read_outcome(entity as int, CELL) is Ok {
            move_started(old(world)@, entity as int, goal)
        } else {
            old(world)@
        },
{
    let cell = match world.get_component_from_entity(entity, CELL) {
        Ok(Some(Component::Cell(cell))) => *cell,
        _ => {
            return;
        },
    };
    match world.get_component_from_entity_mut(entity, MOVEABLE) {
        Ok(Some(Component::Moveable(moveable))) => {
            moveable.start_cell = cell;
            moveable.end_cell = goal;
            moveable.moving = true;
        },
        _ => {},
    }
    proof {
        let start = old(world)@;
        if start.write_outcome(entity as int, MOVEABLE) is Ok && start.present(
            MOVEABLE,
            entity as int,
        ) {
            let held = start.columns[MOVEABLE].slots;
            assert(held.update(entity as int, held[entity as int]) =~= held);
        }
        assert(world@ =~= move_started(start, entity as int, goal));
    }
}

/// What follows a step `planned` of the player `player`: the player is set
/// moving to where the step ends, every clone is marked for playback, and
/// the box that gives way is set moving too.
pub open spec fn step_followed(
    store: StoreView<Component>,
    player: int,
    planned: Option<Planned>,
) -> StoreView<Component> {
    match planned {
        None => store,
        Some(plan) => {
            let moved = if store.in_range(player) {
                move_started(store, player, plan.goal)
            } else {
                store
            };
            let marked = clones_marked(moved);
            match plan.shove {
                Some(shove) => boxes_pushed(
                    marked,
                    seq![Push { pushed: shove.pushed, from: plan.goal, to: shove.to }],
                ),
                None => marked,
            }
        },
    }
}

/// What the step `direction` of the player `player` on the map `colliders`
/// can make of the store `start`.
pub open spec fn movement_set<'a>(
    start: StoreView<Component>,
    colliders: &'a Colliders,
    player: int,
    direction: Vec2i,
    end: StoreView<Component>,
) -> bool {
    exists|stepped: StoreView<Component>, planned: Option<Planned>| #[trigger]
        players_stepped(start, colliders, direction, stepped, planned) && end == step_followed(
            stepped,
            player,
            planned,
        )
}

/// Nothing is borrowed in a store that differs from an unborrowed store in
/// what its slots hold only.
pub proof fn lemma_same_guards_unborrowed<C>(before: StoreView<C>, after: StoreView<C>)
    requires
        before.unborrowed(),
        after.columns.dom() == before.columns.dom(),
        forall|k: crate::model::ComponentKind| #[trigger]
            before.columns.contains_key(k) ==> after.columns[k].guard == before.columns[k].guard,
    ensures
        after.unborrowed(),
{
    assert forall|k: crate::model::ComponentKind| #[trigger] after.registered(k) implies after.columns[k].guard is Free by {
        assert(before.registered(k));
        assert(before.columns.contains_key(k));
    }
}

/// Lets the player `player` take the step that the keys ask for: the step
/// is planned against the map, recorded for the clones to come, and begun;
/// the clones are marked to play their own next step, and a box that gives
/// way is set moving.
pub fn set_movement(
    world: &mut World<Component>,
    colliders: &Colliders,
    player: usize,
    direction: Vec2i,
)
    requires
        old(world).wf(),
        old(world)@.unborrowed(),
    ensures
        final(world).wf(),
        movement_set(old(world)@, colliders, player as int, direction, final(world)@),
{
    proof {
        let kinds = kinds_of(StepPlayers::columns());
        assert(kinds =~= seq![MOVEABLE, PLAYER, CELL, SPRITE]);
        law_pass_over_unborrowed_store_is_granted(old(world)@, StepPlayers::columns());
    }
    let planned = match step_players(world, colliders, direction) {
        Ok(planned) => planned,
        Err(_) => None,
    };
    let ghost stepped = world@;
    proof {
        lemma_same_guards_unborrowed(old(world)@, stepped);
    }
    match planned {
        None => {},
        Some(plan) => {
            start_move(world, player, plan.goal);
            let ghost moved = world@;
            proof {
                assert(moved.columns.dom() =~= stepped.columns.dom());
                lemma_same_guards_unborrowed(stepped, moved);
                let request = seq![Access { kind: CLONE, mode: AccessMode::Read }];
                assert(kinds_of(request) =~= seq![CLONE]);
                lemma_acquire_free(moved, request);
            }
            let _ = mark_clones_for_playback(world);
            match plan.shove {
                Some(shove) => {
                    let pushes = vec![Push { pushed: shove.pushed, from: plan.goal, to: shove.to }];
                    assert(pushes@ =~= seq![
                        Push { pushed: shove.pushed, from: plan.goal, to: shove.to },
                    ]);
                    push_boxes(world, &pushes);
                },
                None => {},
            }
        },
    }
    proof {
        assert(players_stepped(old(world)@, colliders, direction, stepped, planned));
    }
}

/// The store `end` is the store `start` with the step `direction` added to
/// the record of the player `player`; the same store where the entity is no
/// player, or the store refuses the write.
pub open spec fn step_recorded(
    start: StoreView<Component>,
    player: int,
    direction: Vec2i,
    end: StoreView<Component>,
) -> bool {
    match start.slot(PLAYER, player) {
        Some(Component::Player(before)) => if start.write_outcome(player, PLAYER) is Ok {
            &&& end.slot(PLAYER, player) is Some
            &&& end.slot(PLAYER, player)->0 is Player
            &&& end.slot(PLAYER, player)->0->Player_0.playback_dir@ == before.playback_dir@.push(
                direction,
            )
            &&& end.slot(PLAYER, player)->0->Player_0.moved == before.moved
            &&& end.slot(PLAYER, player)->0->Player_0.color == before.color
            &&& end.slot(PLAYER, player)->0->Player_0.marker == before.marker
            &&& end == start.with_component(player, PLAYER, end.slot(PLAYER, player)->0)
        } else {
            end == start
        },
        _ => end == start,
    }
}

/// Adds the step `direction` to the record of the player `player`.
pub fn record_step(world: &mut World<Component>, player: usize, direction: Vec2i)
    requires
        old(world).wf(),
    ensures
        final(world).wf(),
        step_recorded(old(world)@, player as int, direction, final(world)@),
{
    match world.get_component_from_entity_mut(player, PLAYER) {
        Ok(Some(Component::Player(record))) => {
            record.playback_dir.push(direction);
        },
        _ => {},
    }
    proof {
        let start = old(world)@;
        if start.write_outcome(player as int, PLAYER) is Ok && start.present(PLAYER, player as int) {
            let held = start.columns[PLAYER].slots;
            assert(held.update(player as int, held[player as int]) =~= held);
            if !(start.slot(PLAYER, player as int)->0 is Player) {
                assert(world@ =~= start);
            }
        }
    }
}

/// What a skipped turn of the player `player` can make of the store
/// `start`: a step on the spot is added to the player's record, and every
/// clone is marked for playback.
pub open spec fn skipped(start: StoreView<Component>, player: int, end: StoreView<Component>) -> bool {
    exists|recorded: StoreView<Component>| #[trigger]
        step_recorded(start, player, Vec2i { x: 0, y: 0 }, recorded) && end == clones_marked(
            recorded,
        )
}

/// Lets the player `player` skip a turn: the clones play their next step
/// while the player stays where it is.
pub fn skip(world: &mut World<Component>, player: usize)
    requires
        old(world).wf(),
        old(world)@.unborrowed(),
    ensures
        final(world).wf(),
        skipped(old(world)@, player as int, final(world)@),
{
    record_step(world, player, Vec2i::zero());
    let ghost recorded = world@;
    proof {
        assert(recorded.columns.dom() =~= old(world)@.columns.dom());
        lemma_same_guards_unborrowed(old(world)@, recorded);
        let request = seq![Access { kind: CLONE, mode: AccessMode::Read }];
        assert(kinds_of(request) =~= seq![CLONE]);
        lemma_acquire_free(recorded, request);
    }
    let _ = mark_clones_for_playback(world);
    proof {
        assert(step_recorded(old(world)@, player as int, Vec2i { x: 0, y: 0 }, recorded));
    }
}

/// The entities that make up the player.
#[derive(PartialEq, Eq, Structural, Clone, Copy, Debug)]
pub struct PlayerEntities {
    pub player: usize,
    /// The marker drawn over the player.
    pub marker: usize,
}

/// Creates the player on `spawn_cell`, and the marker that is drawn over
/// it: the player has a cell, a sprite, a record without steps, and a move
/// that rests; the marker has a sprite.
pub fn create(world: &mut World<Component>, spawn_cell: Cell) -> (made: PlayerEntities)
    requires
        old(world).wf(),
        old(world)@.unborrowed(),
    ensures
        final(world).wf(),
        final(world)@.unborrowed(),
        crate::game::components::typed(old(world)@) ==> crate::game::components::typed(
            final(world)@,
        ),
        made.player == old(world)@.entity_count,
        made.marker == old(world)@.entity_count + 1,
        final(world)@.entity_count == old(world)@.entity_count + 2,
        forall|kind: crate::model::ComponentKind, e: int|
            e < old(world)@.entity_count ==> #[trigger] final(world)@.slot(kind, e) == old(
                world,
            )@.slot(kind, e),
        crate::game::components::holds_only(
            final(world)@,
            made.player as int,
            seq![CELL, SPRITE, PLAYER, MOVEABLE],
        ),
        crate::game::components::holds_only(final(world)@, made.marker as int, seq![SPRITE]),
        final(world)@.slot(CELL, made.player as int) == Some(Component::Cell(spawn_cell)),
        final(world)@.slot(SPRITE, made.player as int) == Some(
            Component::Sprite(
                Sprite { index_x: 0, index_y: 0, flip_x: false, layer: 100, render: true },
            ),
        ),
        final(world)@.slot(PLAYER, made.player as int) matches Some(Component::Player(player))
            && !player.moved && player.playback_dir@.len() == 0 && player.color == 0
            && player.marker == made.marker,
        final(world)@.slot(MOVEABLE, made.player as int) == Some(
            Component::Moveable(
                Moveable {
                    start_cell: Cell { value: Vec2i { x: 0, y: 0 } },
                    end_cell: Cell { value: Vec2i { x: 0, y: 0 } },
                    duration: 150,
                    accumulator: 0,
                    moving: false,
                    box_moveable: false,
                },
            ),
        ),
        final(world)@.slot(SPRITE, made.marker as int) == Some(
            Component::Sprite(
                Sprite { index_x: 0, index_y: 17, flip_x: false, layer: 127, render: true },
            ),
        ),
{
    let body = vec![Component::Cell(spawn_cell), Component::Sprite(Sprite::new(0, 0, 100))];
    let ghost body_seq = body@;
    let player = crate::game::components::create(world, body);
    let ghost bodied = world@;
    proof {
        assert(body_seq[0].kind() == CELL && body_seq[1].kind() == SPRITE);
        assert(bodied.slot(body_seq[0].kind(), player as int) == Some(body_seq[0]));
        assert(bodied.slot(body_seq[1].kind(), player as int) == Some(body_seq[1]));
    }
    let mark = vec![Component::Sprite(Sprite::new(0, 17, 127))];
    let ghost mark_seq = mark@;
    let marker = crate::game::components::create(world, mark);
    let ghost marked = world@;
    proof {
        assert(mark_seq[0].kind() == SPRITE);
        assert(marked.slot(mark_seq[0].kind(), marker as int) == Some(mark_seq[0]));
        assert(marked.live(player as int));
    }
    crate::game::components::give(world, player, Component::Player(Player::new(marker)));
    let ghost named = world@;
    crate::game::components::give(
        world,
        player,
        Component::Moveable(Moveable::resting(Cell::new(0, 0), 150, false)),
    );
    proof {
        assert forall|kind: crate::model::ComponentKind, e: int|
            e < old(world)@.entity_count implies #[trigger] world@.slot(kind, e) == old(
            world,
        )@.slot(kind, e) by {
            assert(world@.slot(kind, e) == named.slot(kind, e));
            assert(named.slot(kind, e) == marked.slot(kind, e));
            assert(marked.slot(kind, e) == bodied.slot(kind, e));
        }
        assert(marked.slot(CELL, player as int) == bodied.slot(CELL, player as int));
        assert(named.slot(CELL, player as int) == marked.slot(CELL, player as int));
        assert(world@.slot(CELL, player as int) == named.slot(CELL, player as int));
        assert(marked.slot(SPRITE, player as int) == bodied.slot(SPRITE, player as int));
        assert(named.slot(SPRITE, player as int) == marked.slot(SPRITE, player as int));
        assert(world@.slot(SPRITE, player as int) == named.slot(SPRITE, player as int));
        assert(world@.slot(SPRITE, marker as int) == marked.slot(SPRITE, marker as int));
        assert(world@.slot(PLAYER, player as int) == named.slot(PLAYER, player as int));
        assert forall|kind: crate::model::ComponentKind|
            !seq![CELL, SPRITE, PLAYER, MOVEABLE].contains(kind) implies (#[trigger] world@.slot(
            kind,
            player as int,
        )) is None by {
            let all = seq![CELL, SPRITE, PLAYER, MOVEABLE];
            assert(all[0] == CELL && all[1] == SPRITE && all[2] == PLAYER && all[3] == MOVEABLE);
            if crate::game::components::kinds_in(body_seq).contains(kind) {
                let k = choose|k: int|
                    0 <= k < body_seq.len() && crate::game::components::kinds_in(body_seq)[k]
                        == kind;
                assert(all[k] == kind);
            }
            assert(bodied.slot(kind, player as int) is None);
            assert(marked.slot(kind, player as int) == bodied.slot(kind, player as int));
            assert(named.slot(kind, player as int) == marked.slot(kind, player as int));
            assert(world@.slot(kind, player as int) == named.slot(kind, player as int));
        }
        assert forall|kind: crate::model::ComponentKind| !seq![SPRITE].contains(kind) implies (
        #[trigger] world@.slot(kind, marker as int)) is None by {
            assert(seq![SPRITE][0] == SPRITE);
            if crate::game::components::kinds_in(mark_seq).contains(kind) {
                let k = choose|k: int|
                    0 <= k < mark_seq.len() && crate::game::components::kinds_in(mark_seq)[k]
                        == kind;
                assert(k == 0);
            }
            assert(marked.slot(kind, marker as int) is None);
            assert(named.slot(kind, marker as int) == marked.slot(kind, marker as int));
            assert(world@.slot(kind, marker as int) == named.slot(kind, marker as int));
        }
    }
    PlayerEntities { player, marker }
}

} // verus!
