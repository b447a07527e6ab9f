//! Clones: earlier runs of the player that are played back.

use vstd::prelude::*;
use crate::game::collision::{
    emptied, empty_tiles, put, shift_colliders, shifted, Collider, Colliders, Shift,
};
use crate::game::common::Cell;
use crate::game::components::{
    detach_all, detach_calls, Component, CELL, CLONE, MOVEABLE, PLAYBACK, PUSH_BOX, SPRITE,
};
use crate::laws::Call;
use crate::game::math::Vec2i;
use crate::game::movement::Moveable;
use crate::game::player::{facing, step_in_reach, step_outcome, try_plan_step, update_sprite_dir, Step};
use crate::game::render::Sprite;
use crate::model::{kinds_of, Access, AccessMode, StoreError, StoreView};
use crate::store::World;
use crate::system::{swept, System};

verus! {

/// A recorded run: the steps the player took while it had this colour.
pub struct Clone {
    pub color: u8,
    /// The recorded steps, in the order they are played back.
    pub playback_dir: Vec<Vec2i>,
    /// How many of the steps were played back in this loop.
    pub current_move: usize,
    /// The entities that draw the steps to come.
    pub paths: Vec<usize>,
}

/// Marks a clone that has its next step to play.
#[derive(PartialEq, Eq, Structural, Clone, Copy, Debug)]
pub struct Playback {}

/// How many clones there can be at a time.
pub const MAX_CLONES: usize = 5;

/// How many steps ahead the path of a clone is drawn.
pub const PATH_LENGTH: usize = 6;

/// The column of the sprite sheet that shows a step of a path in `dir`.
pub open spec fn path_column(dir: Vec2i) -> u32 {
    if dir == (Vec2i { x: 0, y: 1 }) {
        5
    } else if dir == (Vec2i { x: 0, y: -1i32 }) {
        4
    } else if dir == (Vec2i { x: 1, y: 0 }) {
        6
    } else {
        7
    }
}

/// The column of the sprite sheet for a step of a path in `dir`.
pub fn path_sprite_column(dir: Vec2i) -> (column: u32)
    ensures
        column == path_column(dir),
{
    if dir.x == 0 && dir.y == 1 {
        5
    } else if dir.x == 0 && dir.y == -1 {
        4
    } else if dir.x == 1 && dir.y == 0 {
        6
    } else {
        7
    }
}

/// Where the drawn path of a clone ends: `PATH_LENGTH` steps after the step
/// that is played next, or with the last recorded step.
pub fn path_end(current_move: usize, recorded: usize) -> (end: usize)
    ensures
        end == if current_move + PATH_LENGTH > recorded {
            recorded as int
        } else {
            current_move + PATH_LENGTH
        },
{
    match current_move.checked_add(PATH_LENGTH) {
        Some(end) => if end > recorded {
            recorded
        } else {
            end
        },
        None => recorded,
    }
}

/// The colour that the player takes after a clone was left behind: the next
/// free clone slot, starting again with the first after the last.
pub fn next_clone_slot(current_clone: usize) -> (next: usize)
    requires
        current_clone < MAX_CLONES,
    ensures
        next == (current_clone + 1) % (MAX_CLONES as int),
{
    if current_clone + 1 == MAX_CLONES {
        0
    } else {
        current_clone + 1
    }
}

/// A box that was pushed: the entity of the box, the tile it is pushed
/// from, and the tile it is pushed to.
#[derive(PartialEq, Eq, Structural, Clone, Copy, Debug)]
pub struct Push {
    pub pushed: usize,
    pub from: Cell,
    pub to: Cell,
}

/// What comes of the step of a clone of colour `color` from `cell` by
/// `direction`: a clone whose step would look beyond the map stays where it
/// is, as one that runs into a wall does.
pub open spec fn clone_step(colliders: &Colliders, color: u8, cell: Cell, direction: Vec2i) -> Step {
    if step_in_reach(colliders, color, cell, direction) {
        step_outcome(colliders, color, cell, direction)
    } else {
        Step::Bump
    }
}

/// Where a step from `cell` ends.
pub open spec fn step_end(step: Step, cell: Cell) -> Cell {
    match step {
        Step::Walk { goal } => goal,
        Step::Push { goal, .. } => goal,
        _ => cell,
    }
}

/// The row is that of a clone that has a step to play: a playback mark, a
/// cell, a clone with steps left, a sprite and a move.
pub open spec fn playback_row(row: Seq<Component>) -> bool {
    &&& row.len() == 5
    &&& row[0] is Playback
    &&& row[1] is Cell
    &&& row[2] is Clone
    &&& row[3] is Sprite
    &&& row[4] is Moveable
    &&& row[2]->Clone_0.current_move < row[2]->Clone_0.playback_dir@.len()
}

/// The pass that plays the next step of every clone that has one to play:
/// it visits the entities that have a playback mark, a cell, a clone, a
/// sprite and a move, in this order.
pub struct PlaySteps<'a> {
    pub colliders: &'a Colliders,
    /// The clones that played a step.
    pub played: Vec<usize>,
    /// The boxes that the clones pushed.
    pub pushes: Vec<Push>,
}

impl<'a> PlaySteps<'a> {
    /// The columns that the pass asks for.
    pub open spec fn columns() -> Seq<Access> {
        seq![
            Access { kind: PLAYBACK, mode: AccessMode::Read },
            Access { kind: CELL, mode: AccessMode::Read },
            Access { kind: CLONE, mode: AccessMode::Write },
            Access { kind: SPRITE, mode: AccessMode::Write },
            Access { kind: MOVEABLE, mode: AccessMode::Write },
        ]
    }

    /// The columns that the pass asks for.
    pub fn request() -> (request: Vec<Access>)
        ensures
            request@ == Self::columns(),
    {
        vec![
            Access { kind: PLAYBACK, mode: AccessMode::Read },
            Access { kind: CELL, mode: AccessMode::Read },
            Access { kind: CLONE, mode: AccessMode::Write },
            Access { kind: SPRITE, mode: AccessMode::Write },
            Access { kind: MOVEABLE, mode: AccessMode::Write },
        ]
    }
}

impl<'a> System<Component> for PlaySteps<'a> {
    open spec fn visits(
        before: Self,
        entity: int,
        row: Seq<Component>,
        after: Self,
        rewritten: Seq<Component>,
    ) -> bool {
        &&& after.colliders == before.colliders
        &&& rewritten.len() == row.len()
        &&& if playback_row(row) {
            let cell = row[1]->Cell_0;
            let clone = row[2]->Clone_0;
            let direction = clone.playback_dir@[clone.current_move as int];
            let step = clone_step(before.colliders, clone.color, cell, direction);
            &&& rewritten[0] == row[0]
            &&& rewritten[1] == row[1]
            &&& rewritten[2] is Clone
            &&& rewritten[2]->Clone_0.color == clone.color
            &&& rewritten[2]->Clone_0.playback_dir == clone.playback_dir
            &&& rewritten[2]->Clone_0.paths == clone.paths
            &&& rewritten[2]->Clone_0.current_move == clone.current_move + 1
            &&& rewritten[3] == Component::Sprite(
                Sprite { index_x: facing(direction), ..row[3]->Sprite_0 },
            )
            &&& rewritten[4] == Component::Moveable(
                Moveable {
                    start_cell: cell,
                    end_cell: step_end(step, cell),
                    moving: true,
                    ..row[4]->Moveable_0
                },
            )
            &&& after.played@ == before.played@.push(entity as usize)
            &&& after.pushes@ == match step {
                Step::Push { goal, pushed, box_goal } => before.pushes@.push(
                    Push { pushed, from: goal, to: box_goal },
                ),
                _ => before.pushes@,
            }
        } else {
            rewritten == row && after.played@ == before.played@ && after.pushes@ == before.pushes@
        }
    }

    fn visit(&mut self, entity: usize, row: &mut Vec<Component>) {
        if row.len() != 5 {
            return;
        }
        let fifth = row.pop();
        let fourth = row.pop();
        let third = row.pop();
        let second = row.pop();
        let first = row.pop();
        match (first, second, third, fourth, fifth) {
            (
                Some(Component::Playback(mark)),
                Some(Component::Cell(cell)),
                Some(Component::Clone(mut clone)),
                Some(Component::Sprite(mut sprite)),
                Some(Component::Moveable(mut moveable)),
            ) => {
                assert(old(row)@[0] == Component::Playback(mark));
                assert(old(row)@[1] == Component::Cell(cell));
                assert(old(row)@[2] == Component::Clone(clone));
                assert(old(row)@[3] == Component::Sprite(sprite));
                assert(old(row)@[4] == Component::Moveable(moveable));
                if clone.current_move < clone.playback_dir.len() {
                    let direction = clone.playback_dir[clone.current_move];
                    let step = match try_plan_step(self.colliders, clone.color, cell, direction) {
                        Some(step) => step,
                        None => Step::Bump,
                    };
                    moveable.start_cell = cell;
                    moveable.end_cell = match step {
                        Step::Walk { goal } => goal,
                        Step::Push { goal, pushed, box_goal } => {
                            self.pushes.push(Push { pushed, from: goal, to: box_goal });
                            goal
                        },
                        _ => cell,
                    };
                    moveable.moving = true;
                    update_sprite_dir(direction, &mut sprite);
                    self.played.push(entity);
                    clone.current_move += 1;
                    row.push(Component::Playback(mark));
                    row.push(Component::Cell(cell));
                    row.push(Component::Clone(clone));
                    row.push(Component::Sprite(sprite));
                    row.push(Component::Moveable(moveable));
                } else {
                    row.push(Component::Playback(mark));
                    row.push(Component::Cell(cell));
                    row.push(Component::Clone(clone));
                    row.push(Component::Sprite(sprite));
                    row.push(Component::Moveable(moveable));
                    assert(row@ =~= old(row)@);
                }
            },
            (Some(first), Some(second), Some(third), Some(fourth), Some(fifth)) => {
                row.push(first);
                row.push(second);
                row.push(third);
                row.push(fourth);
                row.push(fifth);
                assert(row@ =~= old(row)@);
            },
            _ => {},
        }
    }
}

/// The pass over the clones, started on the map `colliders` with nothing
/// played yet, can turn the store `start` into `end`, have the clones
/// `played` play a step, and the boxes of `pushes` pushed.
pub open spec fn steps_played<'a>(
    start: StoreView<Component>,
    colliders: &'a Colliders,
    end: StoreView<Component>,
    played: Seq<usize>,
    pushes: Seq<Push>,
) -> bool {
    exists|before: PlaySteps<'a>, after: PlaySteps<'a>|
        before.colliders == colliders && before.played@.len() == 0 && before.pushes@.len() == 0
            && after.played@ == played && after.pushes@ == pushes && #[trigger] swept(
            start,
            before,
            kinds_of(PlaySteps::columns()),
            end,
            after,
        )
}

/// Plays the next step of every clone that has one to play, and returns the
/// clones that played and the boxes they pushed. The pass is refused, and
/// nothing changes, where one of its borrows is refused.
pub fn play_steps(world: &mut World<Component>, colliders: &Colliders) -> (played: Result<
    (Vec<usize>, Vec<Push>),
    StoreError,
>)
    requires
        old(world).wf(),
    ensures
        final(world).wf(),
        match played {
            Ok((clones, pushes)) => old(world)@.pass_outcome(PlaySteps::columns()) is Ok
                && steps_played(old(world)@, colliders, final(world)@, clones@, pushes@),
            Err(e) => old(world)@.pass_outcome(PlaySteps::columns()) == Err::<(), StoreError>(e)
                && final(world)@ == old(world)@,
        },
{
    let request = PlaySteps::request();
    let mut system = PlaySteps { colliders, played: Vec::new(), pushes: Vec::new() };
    let ghost before = system;
    match world.iterate_entities_with_id(&request, &mut system) {
        Ok(_) => {
            proof {
                assert(swept(old(world)@, before, kinds_of(request@), world@, system));
            }
            Ok((system.played, system.pushes))
        },
        Err(e) => Err(e),
    }
}

/// The store after the box of `push` was set moving from the tile it is
/// pushed from to the tile it is pushed to; the same store where the box has
/// no move, or the store refuses the write.
pub open spec fn box_pushed(store: StoreView<Component>, push: Push) -> StoreView<Component> {
    match store.slot(MOVEABLE, push.pushed as int) {
        Some(Component::Moveable(moveable)) => store.after(
            Call::Rewrite {
                entity: push.pushed as int,
                kind: MOVEABLE,
                value: Component::Moveable(
                    Moveable { start_cell: push.from, end_cell: push.to, moving: true, ..moveable },
                ),
            },
        ),
        _ => store,
    }
}

/// The store after the boxes of `pushes` were set moving, first to last.
pub open spec fn boxes_pushed(store: StoreView<Component>, pushes: Seq<Push>) -> StoreView<
    Component,
>
    decreases pushes.len(),
{
    if pushes.len() == 0 {
        store
    } else {
        box_pushed(boxes_pushed(store, pushes.drop_last()), pushes.last())
    }
}

/// Sets the boxes of `pushes` moving, each from the tile it is pushed from
/// to the tile it is pushed to.
pub fn push_boxes(world: &mut World<Component>, pushes: &Vec<Push>)
    requires
        old(world).wf(),
    ensures
        final(world).wf(),
        final(world)@ == boxes_pushed(old(world)@, pushes@),
{
    let mut i: usize = 0;
    assert(pushes@.take(0) =~= Seq::<Push>::empty());
    while i < pushes.len()
        invariant
            i <= pushes@.len(),
            world.wf(),
            world@ == boxes_pushed(old(world)@, pushes@.take(i as int)),
        decreases pushes@.len() - i,
    {
        proof {
            assert(pushes@.take(i + 1).drop_last() =~= pushes@.take(i as int));
            assert(pushes@.take(i + 1).last() == pushes@[i as int]);
        }
        let push = pushes[i];
        let ghost reached = world@;
        match world.get_component_from_entity_mut(push.pushed, MOVEABLE) {
            Ok(Some(Component::Moveable(moveable))) => {
                moveable.start_cell = push.from;
                moveable.end_cell = push.to;
                moveable.moving = true;
            },
            _ => {},
        }
        proof {
            if reached.write_outcome(push.pushed as int, MOVEABLE) is Ok && reached.present(
                MOVEABLE,
                push.pushed as int,
            ) {
                let held = reached.columns[MOVEABLE].slots;
                assert(held.update(push.pushed as int, held[push.pushed as int]) =~= held);
            }
            assert(world@ =~= box_pushed(reached, push));
        }
        i += 1;
    }
    assert(pushes@.take(i as int) =~= pushes@);
}

/// What playing the clones' next steps on the map `colliders` can make of
/// the store `start`: the clones that have a step to play play it, they lose
/// their playback mark, and the boxes they pushed are set moving.
pub open spec fn played_back<'a>(
    start: StoreView<Component>,
    colliders: &'a Colliders,
    end: StoreView<Component>,
) -> bool {
    exists|stepped: StoreView<Component>, played: Seq<usize>, pushes: Seq<Push>| #[trigger]
        steps_played(start, colliders, stepped, played, pushes) && end == boxes_pushed(
            stepped.after_all(detach_calls(PLAYBACK, played)),
            pushes,
        )
}

/// Plays the next step of every clone that has a playback mark and a step
/// left. The pass is refused, and nothing changes, where one of its borrows
/// is refused.
pub fn playback(world: &mut World<Component>, colliders: &Colliders) -> (played: Result<
    (),
    StoreError,
>)
    requires
        old(world).wf(),
    ensures
        final(world).wf(),
        match played {
            Ok(_) => old(world)@.pass_outcome(PlaySteps::columns()) is Ok && played_back(
                old(world)@,
                colliders,
                final(world)@,
            ),
            Err(e) => old(world)@.pass_outcome(PlaySteps::columns()) == Err::<(), StoreError>(e)
                && final(world)@ == old(world)@,
        },
{
    match play_steps(world, colliders) {
        Ok((clones, pushes)) => {
            let ghost stepped = world@;
            detach_all(world, PLAYBACK, &clones);
            push_boxes(world, &pushes);
            proof {
                assert(steps_played(old(world)@, colliders, stepped, clones@, pushes@));
            }
            Ok(())
        },
        Err(e) => Err(e),
    }
}

/// The store `end` is the store `start` with the record of the player
/// `player` emptied, and `record` is what the record held; the same store
/// and no steps where the entity is no player, or the store refuses the
/// write.
pub open spec fn record_taken(
    start: StoreView<Component>,
    player: int,
    end: StoreView<Component>,
    record: Seq<Vec2i>,
) -> bool {
    match start.slot(crate::game::components::PLAYER, player) {
        Some(Component::Player(before)) => if start.write_outcome(
            player,
            crate::game::components::PLAYER,
        ) is Ok {
            &&& record == before.playback_dir@
            &&& end.slot(crate::game::components::PLAYER, player) is Some
            &&& end.slot(crate::game::components::PLAYER, player)->0 is Player
            &&& end.slot(crate::game::components::PLAYER, player)->0->Player_0.playback_dir@.len()
                == 0
            &&& end.slot(crate::game::components::PLAYER, player)->0->Player_0.moved
                == before.moved
            &&& end.slot(crate::game::components::PLAYER, player)->0->Player_0.color
                == before.color
            &&& end.slot(crate::game::components::PLAYER, player)->0->Player_0.marker
                == before.marker
            &&& end == start.with_component(
                player,
                crate::game::components::PLAYER,
                end.slot(crate::game::components::PLAYER, player)->0,
            )
        } else {
            end == start && record.len() == 0
        },
        _ => end == start && record.len() == 0,
    }
}

/// Takes the recorded steps of the player `player`, and leaves the player
/// with an empty record.
pub fn take_record(world: &mut World<Component>, player: usize) -> (record: Vec<Vec2i>)
    requires
        old(world).wf(),
    ensures
        final(world).wf(),
        record_taken(old(world)@, player as int, final(world)@, record@),
        final(world)@.same_shape(old(world)@),
{
    let mut record: Vec<Vec2i> = Vec::new();
    match world.get_component_from_entity_mut(player, crate::game::components::PLAYER) {
        Ok(Some(Component::Player(recorded))) => {
            std::mem::swap(&mut record, &mut recorded.playback_dir);
        },
        _ => {},
    }
    proof {
        let start = old(world)@;
        let kind = crate::game::components::PLAYER;
        if start.write_outcome(player as int, kind) is Ok && start.present(kind, player as int) {
            let held = start.columns[kind].slots;
            assert(held.update(player as int, held[player as int]) =~= held);
            if !(start.slot(kind, player as int)->0 is Player) {
                assert(world@ =~= start);
            }
        }
        assert(world@.columns.dom() =~= start.columns.dom());
    }
    record
}

/// The calls that delete each of `entities`, in their order.
pub open spec fn delete_calls(entities: Seq<usize>) -> Seq<Call<Component>> {
    Seq::new(entities.len(), |i: int| Call::Delete { entity: entities[i] as int })
}

/// The entities that go when the clone `clone` is retired: the entities of
/// its path, and the clone itself last. A clone that is none has no path.
pub open spec fn retired(store: StoreView<Component>, clone: int) -> Seq<usize> {
    match store.slot(CLONE, clone) {
        Some(Component::Clone(run)) => run.paths@.push(clone as usize),
        _ => seq![clone as usize],
    }
}

/// Retires the clone `clone`: deletes the entities that draw its path, and
/// then the clone.
pub fn retire_clone(world: &mut World<Component>, clone: usize)
    requires
        old(world).wf(),
        old(world)@.unborrowed(),
    ensures
        final(world).wf(),
        final(world)@ == old(world)@.after_all(delete_calls(retired(old(world)@, clone as int))),
        final(world)@.unborrowed(),
        final(world)@.entity_count == old(world)@.entity_count,
{
    let mut going: Vec<usize> = match world.get_component_from_entity(clone, CLONE) {
        Ok(Some(Component::Clone(run))) => crate::game::buttons::copied(&run.paths),
        _ => Vec::new(),
    };
    going.push(clone);
    assert(going@ =~= retired(old(world)@, clone as int));
    let ghost calls = delete_calls(going@);
    let mut i: usize = 0;
    assert(calls.take(0) =~= Seq::<Call<Component>>::empty());
    while i < going.len()
        invariant
            i <= going@.len(),
            world.wf(),
            calls == delete_calls(going@),
            world@ == old(world)@.after_all(calls.take(i as int)),
            world@.unborrowed(),
            world@.entity_count == old(world)@.entity_count,
        decreases going@.len() - i,
    {
        proof {
            assert(calls.take(i + 1).drop_last() =~= calls.take(i as int));
            assert(calls.take(i + 1).last() == calls[i as int]);
        }
        let ghost reached = world@;
        let _ = world.delete_entity(going[i]);
        proof {
            assert forall|k: crate::model::ComponentKind| #[trigger] world@.registered(k) implies world@.columns[k].guard is Free by {
                assert(reached.registered(k));
            }
        }
        i += 1;
    }
    assert(calls.take(i as int) =~= calls);
}

/// The pass that sends every clone back to where its run began.
pub struct RewindClones<'a> {
    /// Where the clone of each colour begins its run.
    pub spawns: &'a Vec<Cell>,
    /// The clones sent back so far.
    pub rewound: Vec<usize>,
    /// The tiles they stood on.
    pub left: Vec<Cell>,
}

/// The row holds a clone with a place to begin among `spawns`, its cell and
/// its move.
pub open spec fn rewind_row(spawns: Seq<Cell>, row: Seq<Component>) -> bool {
    &&& row.len() == 3
    &&& row[0] is Clone
    &&& row[1] is Cell
    &&& row[2] is Moveable
    &&& row[0]->Clone_0.color < spawns.len()
}

impl<'a> RewindClones<'a> {
    /// The columns that the pass asks for: the clone, its cell and its move,
    /// all to be changed.
    pub open spec fn columns() -> Seq<Access> {
        seq![
            Access { kind: CLONE, mode: AccessMode::Write },
            Access { kind: CELL, mode: AccessMode::Write },
            Access { kind: MOVEABLE, mode: AccessMode::Write },
        ]
    }

    /// The columns that the pass asks for.
    pub fn request() -> (request: Vec<Access>)
        ensures
            request@ == Self::columns(),
    {
        vec![
            Access { kind: CLONE, mode: AccessMode::Write },
            Access { kind: CELL, mode: AccessMode::Write },
            Access { kind: MOVEABLE, mode: AccessMode::Write },
        ]
    }
}

impl<'a> System<Component> for RewindClones<'a> {
    open spec fn visits(
        before: Self,
        entity: int,
        row: Seq<Component>,
        after: Self,
        rewritten: Seq<Component>,
    ) -> bool {
        &&& after.spawns == before.spawns
        &&& rewritten.len() == row.len()
        &&& if rewind_row(before.spawns@, row) {
            let clone = row[0]->Clone_0;
            let spawn = before.spawns@[clone.color as int];
            &&& rewritten[0] is Clone
            &&& rewritten[0]->Clone_0.color == clone.color
            &&& rewritten[0]->Clone_0.playback_dir == clone.playback_dir
            &&& rewritten[0]->Clone_0.paths == clone.paths
            &&& rewritten[0]->Clone_0.current_move == 0
            &&& rewritten[1] == Component::Cell(spawn)
            &&& rewritten[2] == Component::Moveable(
                Moveable { start_cell: spawn, end_cell: spawn, ..row[2]->Moveable_0 },
            )
            &&& after.rewound@ == before.rewound@.push(entity as usize)
            &&& after.left@ == before.left@.push(row[1]->Cell_0)
        } else {
            rewritten == row && after.rewound@ == before.rewound@ && after.left@ == before.left@
        }
    }

    fn visit(&mut self, entity: usize, row: &mut Vec<Component>) {
        if row.len() != 3 {
            return;
        }
        let third = row.pop();
        let second = row.pop();
        let first = row.pop();
        match (first, second, third) {
            (
                Some(Component::Clone(mut clone)),
                Some(Component::Cell(cell)),
                Some(Component::Moveable(mut moveable)),
            ) => {
                assert(old(row)@[0] == Component::Clone(clone));
                assert(old(row)@[1] == Component::Cell(cell));
                assert(old(row)@[2] == Component::Moveable(moveable));
                let color: usize = clone.color as usize;
                if color < self.spawns.len() {
                    let spawn = self.spawns[color];
                    clone.current_move = 0;
                    moveable.start_cell = spawn;
                    moveable.end_cell = spawn;
                    self.rewound.push(entity);
                    self.left.push(cell);
                    row.push(Component::Clone(clone));
                    row.push(Component::Cell(spawn));
                    row.push(Component::Moveable(moveable));
                } else {
                    row.push(Component::Clone(clone));
                    row.push(Component::Cell(cell));
                    row.push(Component::Moveable(moveable));
                    assert(row@ =~= old(row)@);
                }
            },
            (Some(first), Some(second), Some(third)) => {
                row.push(first);
                row.push(second);
                row.push(third);
                assert(row@ =~= old(row)@);
            },
            _ => {},
        }
    }
}

/// The pass over the clones, started with none sent back yet, can turn the
/// store `start` into `end`, send the clones `rewound` back to where
/// `spawns` has them begin, and have them leave the tiles `left`.
pub open spec fn clones_rewound<'a>(
    start: StoreView<Component>,
    spawns: &'a Vec<Cell>,
    end: StoreView<Component>,
    rewound: Seq<usize>,
    left: Seq<Cell>,
) -> bool {
    exists|before: RewindClones<'a>, after: RewindClones<'a>|
        before.spawns == spawns && before.rewound@.len() == 0 && before.left@.len() == 0
            && after.rewound@ == rewound && after.left@ == left && #[trigger] swept(
            start,
            before,
            kinds_of(RewindClones::columns()),
            end,
            after,
        )
}

/// Sends every clone back to where its run began, with its first step to
/// play next, and returns the clones and the tiles they left. The pass is
/// refused, and nothing changes, where one of its borrows is refused.
pub fn rewind_clones(world: &mut World<Component>, spawns: &Vec<Cell>) -> (rewound: Result<
    (Vec<usize>, Vec<Cell>),
    StoreError,
>)
    requires
        old(world).wf(),
    ensures
        final(world).wf(),
        final(world)@.same_shape(old(world)@),
        match rewound {
            Ok((clones, left)) => old(world)@.pass_outcome(RewindClones::columns()) is Ok
                && clones_rewound(old(world)@, spawns, final(world)@, clones@, left@),
            Err(e) => old(world)@.pass_outcome(RewindClones::columns()) == Err::<(), StoreError>(e)
                && final(world)@ == old(world)@,
        },
{
    let request = RewindClones::request();
    let mut system = RewindClones { spawns, rewound: Vec::new(), left: Vec::new() };
    let ghost before = system;
    match world.iterate_entities_with_id(&request, &mut system) {
        Ok(_) => {
            proof {
                assert(swept(old(world)@, before, kinds_of(request@), world@, system));
            }
            Ok((system.rewound, system.left))
        },
        Err(e) => Err(e),
    }
}

/// The pass that puts every box back on the tile it started on.
pub struct ResetBoxes {
    /// Where each box visited so far stood, and where it started.
    pub shifts: Vec<Shift>,
}

impl ResetBoxes {
    /// The columns that the pass asks for: the box to be read, and its cell
    /// to be changed.
    pub open spec fn columns() -> Seq<Access> {
        seq![
            Access { kind: PUSH_BOX, mode: AccessMode::Read },
            Access { kind: CELL, mode: AccessMode::Write },
        ]
    }

    /// The columns that the pass asks for.
    pub fn request() -> (request: Vec<Access>)
        ensures
            request@ == Self::columns(),
    {
        vec![
            Access { kind: PUSH_BOX, mode: AccessMode::Read },
            Access { kind: CELL, mode: AccessMode::Write },
        ]
    }
}

impl System<Component> for ResetBoxes {
    open spec fn visits(
        before: Self,
        entity: int,
        row: Seq<Component>,
        after: Self,
        rewritten: Seq<Component>,
    ) -> bool {
        &&& rewritten.len() == row.len()
        &&& if row.len() == 2 && row[0] is PushBox && row[1] is Cell {
            let start = row[0]->PushBox_0.start_cell;
            &&& rewritten == row.update(1, Component::Cell(start))
            &&& after.shifts@ == before.shifts@.push(Shift { from: row[1]->Cell_0, to: start })
        } else {
            rewritten == row && after.shifts@ == before.shifts@
        }
    }

    fn visit(&mut self, entity: usize, row: &mut Vec<Component>) {
        if row.len() != 2 {
            return;
        }
        let second = row.pop();
        let first = row.pop();
        match (first, second) {
            (Some(Component::PushBox(pushed)), Some(Component::Cell(cell))) => {
                assert(old(row)@[0] == Component::PushBox(pushed));
                assert(old(row)@[1] == Component::Cell(cell));
                self.shifts.push(Shift { from: cell, to: pushed.start_cell });
                row.push(Component::PushBox(pushed));
                row.push(Component::Cell(pushed.start_cell));
                assert(row@ =~= old(row)@.update(1, Component::Cell(pushed.start_cell)));
            },
            (Some(first), Some(second)) => {
                row.push(first);
                row.push(second);
                assert(row@ =~= old(row)@);
            },
            _ => {},
        }
    }
}

/// The pass over the boxes, started with none put back yet, can turn the
/// store `start` into `end`, with the boxes going as `shifts` says.
pub open spec fn boxes_reset(
    start: StoreView<Component>,
    end: StoreView<Component>,
    shifts: Seq<Shift>,
) -> bool {
    exists|before: ResetBoxes, after: ResetBoxes|
        before.shifts@.len() == 0 && after.shifts@ == shifts && #[trigger] swept(
            start,
            before,
            kinds_of(ResetBoxes::columns()),
            end,
            after,
        )
}

/// Puts every box back on the tile it started on, and returns where each
/// stood and where it went. The pass is refused, and nothing changes, where
/// one of its borrows is refused.
pub fn reset_boxes(world: &mut World<Component>) -> (reset: Result<Vec<Shift>, StoreError>)
    requires
        old(world).wf(),
    ensures
        final(world).wf(),
        final(world)@.same_shape(old(world)@),
        match reset {
            Ok(shifts) => old(world)@.pass_outcome(ResetBoxes::columns()) is Ok && boxes_reset(
                old(world)@,
                final(world)@,
                shifts@,
            ),
            Err(e) => old(world)@.pass_outcome(ResetBoxes::columns()) == Err::<(), StoreError>(e)
                && final(world)@ == old(world)@,
        },
{
    let request = ResetBoxes::request();
    let mut system = ResetBoxes { shifts: Vec::new() };
    let ghost before = system;
    match world.iterate_entities_with_id(&request, &mut system) {
        Ok(_) => {
            proof {
                assert(swept(old(world)@, before, kinds_of(request@), world@, system));
            }
            Ok(system.shifts)
        },
        Err(e) => Err(e),
    }
}

/// The store `after` is the store `before` with a new clone of colour
/// `color` that plays back `record` from `start_cell`, and behind it one new
/// entity without components for each step of the record.
pub open spec fn clone_created(
    before: StoreView<Component>,
    color: u8,
    record: Seq<Vec2i>,
    start_cell: Cell,
    after: StoreView<Component>,
) -> bool {
    let clone = before.entity_count as int;
    &&& after.entity_count == before.entity_count + 1 + record.len()
    &&& after.deleted == before.deleted
    &&& forall|kind: crate::model::ComponentKind, e: int|
        e < clone ==> #[trigger] after.slot(kind, e) == before.slot(kind, e)
    &&& forall|kind: crate::model::ComponentKind, e: int|
        e > clone ==> (#[trigger] after.slot(kind, e)) is None
    &&& forall|kind: crate::model::ComponentKind|
        kind != CLONE && kind != SPRITE && kind != CELL && kind != MOVEABLE ==> (
        #[trigger] after.slot(kind, clone)) is None
    &&& after.slot(CLONE, clone) matches Some(Component::Clone(run)) && run.color == color
        && run.playback_dir@ == record && run.current_move == 0 && run.paths@ == Seq::new(
        record.len(),
        |i: int| (clone + 1 + i) as usize,
    )
    &&& after.slot(SPRITE, clone) == Some(
        Component::Sprite(
            Sprite { index_x: 0, index_y: color as u32, flip_x: false, layer: 100, render: true },
        ),
    )
    &&& after.slot(CELL, clone) == Some(Component::Cell(start_cell))
    &&& after.slot(MOVEABLE, clone) == Some(
        Component::Moveable(
            Moveable {
                start_cell,
                end_cell: start_cell,
                duration: 150,
                accumulator: 0,
                moving: false,
                box_moveable: false,
            },
        ),
    )
}

/// Creates the clone that plays back `record` in colour `color`, beginning
/// on `start_cell`, and one entity for each step of the record, on which the
/// path of the clone is drawn later. The clone has its run, a sprite, a cell
/// and a move that rests; the entities of the path have nothing yet.
pub fn create_clone(
    world: &mut World<Component>,
    color: u8,
    record: Vec<Vec2i>,
    start_cell: Cell,
) -> (clone: usize)
    requires
        old(world).wf(),
        old(world)@.unborrowed(),
    ensures
        final(world).wf(),
        final(world)@.unborrowed(),
        crate::game::components::typed(old(world)@) ==> crate::game::components::typed(
            final(world)@,
        ),
        clone == old(world)@.entity_count,
        clone_created(old(world)@, color, record@, start_cell, final(world)@),
{
    let clone = crate::game::components::spawn(world);
    let mut paths: Vec<usize> = Vec::new();
    let mut i: usize = 0;
    while i < record.len()
        invariant
            i <= record@.len(),
            world.wf(),
            world@.unborrowed(),
            crate::game::components::typed(old(world)@) ==> crate::game::components::typed(world@),
            clone == old(world)@.entity_count,
            world@.entity_count == clone + 1 + i,
            world@.deleted == old(world)@.deleted,
            world@.live(clone as int),
            forall|kind: crate::model::ComponentKind, e: int|
                e < clone ==> #[trigger] world@.slot(kind, e) == old(world)@.slot(kind, e),
            forall|kind: crate::model::ComponentKind, e: int|
                e >= clone ==> (#[trigger] world@.slot(kind, e)) is None,
            paths@ == Seq::new(i as nat, |j: int| (clone + 1 + j) as usize),
        decreases record@.len() - i,
    {
        let ghost reached = world@;
        let path = crate::game::components::spawn(world);
        paths.push(path);
        proof {
            assert forall|kind: crate::model::ComponentKind, e: int| e < clone implies #[trigger] world@.slot(
                kind,
                e,
            ) == old(world)@.slot(kind, e) by {
                assert(world@.slot(kind, e) == reached.slot(kind, e));
            }
            assert forall|kind: crate::model::ComponentKind, e: int| e >= clone implies (
            #[trigger] world@.slot(kind, e)) is None by {
                if e < reached.entity_count {
                    assert(world@.slot(kind, e) == reached.slot(kind, e));
                }
            }
            assert(paths@ =~= Seq::new((i + 1) as nat, |j: int| (clone + 1 + j) as usize));
        }
        i += 1;
    }
    let ghost bare = world@;
    let ghost steps = record@;
    let run = crate::game::clones::Clone { color, playback_dir: record, current_move: 0, paths };
    crate::game::components::give(world, clone, Component::Clone(run));
    let ghost named = world@;
    crate::game::components::give(
        world,
        clone,
        Component::Sprite(Sprite::new(0, color as u32, 100)),
    );
    let ghost drawn = world@;
    crate::game::components::give(world, clone, Component::Cell(start_cell));
    let ghost placed = world@;
    crate::game::components::give(
        world,
        clone,
        Component::Moveable(Moveable::resting(start_cell, 150, false)),
    );
    proof {
        assert forall|kind: crate::model::ComponentKind, e: int| e != clone implies #[trigger] world@.slot(
            kind,
            e,
        ) == bare.slot(kind, e) by {
            assert(named.slot(kind, e) == bare.slot(kind, e));
            assert(drawn.slot(kind, e) == named.slot(kind, e));
            assert(placed.slot(kind, e) == drawn.slot(kind, e));
            assert(world@.slot(kind, e) == placed.slot(kind, e));
        }
        assert forall|kind: crate::model::ComponentKind|
            kind != CLONE && kind != SPRITE && kind != CELL && kind != MOVEABLE implies (
        #[trigger] world@.slot(kind, clone as int)) is None by {
            assert(named.slot(kind, clone as int) == bare.slot(kind, clone as int));
            assert(drawn.slot(kind, clone as int) == named.slot(kind, clone as int));
            assert(placed.slot(kind, clone as int) == drawn.slot(kind, clone as int));
            assert(world@.slot(kind, clone as int) == placed.slot(kind, clone as int));
        }
        assert(drawn.slot(CLONE, clone as int) == named.slot(CLONE, clone as int));
        assert(placed.slot(CLONE, clone as int) == drawn.slot(CLONE, clone as int));
        assert(world@.slot(CLONE, clone as int) == placed.slot(CLONE, clone as int));
        assert(placed.slot(SPRITE, clone as int) == drawn.slot(SPRITE, clone as int));
        assert(world@.slot(SPRITE, clone as int) == placed.slot(SPRITE, clone as int));
        assert(world@.slot(CELL, clone as int) == placed.slot(CELL, clone as int));
    }
    clone
}

/// The store after the player `player` took the colour `color` and went to
/// `spawn`: its record, its sprite and its cell are rewritten, each where the
/// player has one.
pub open spec fn respawned(
    store: StoreView<Component>,
    player: int,
    color: u8,
    spawn: Cell,
) -> StoreView<Component> {
    let recolored = match store.slot(crate::game::components::PLAYER, player) {
        Some(Component::Player(record)) => store.after(
            Call::Rewrite {
                entity: player,
                kind: crate::game::components::PLAYER,
                value: Component::Player(crate::game::player::Player { color, ..record }),
            },
        ),
        _ => store,
    };
    let redrawn = match recolored.slot(SPRITE, player) {
        Some(Component::Sprite(sprite)) => recolored.after(
            Call::Rewrite {
                entity: player,
                kind: SPRITE,
                value: Component::Sprite(Sprite { index_y: color as u32, ..sprite }),
            },
        ),
        _ => recolored,
    };
    match redrawn.slot(CELL, player) {
        Some(Component::Cell(_)) => redrawn.after(
            Call::Rewrite { entity: player, kind: CELL, value: Component::Cell(spawn) },
        ),
        _ => redrawn,
    }
}

/// The cell that `entity` leaves when it is put elsewhere: the cell it has,
/// where the store lets it be rewritten.
pub open spec fn cell_left(store: StoreView<Component>, entity: int) -> Option<Cell> {
    match store.slot(CELL, entity) {
        Some(Component::Cell(cell)) => if store.write_outcome(entity, CELL) is Ok {
            Some(cell)
        } else {
            None
        },
        _ => None,
    }
}

/// Gives the player `player` the colour `color` and puts it on `spawn`.
/// Returns the cell it stood on, if it had one that the store let be
/// rewritten.
pub fn respawn_player(world: &mut World<Component>, player: usize, color: u8, spawn: Cell) -> (left:
    Option<Cell>)
    requires
        old(world).wf(),
    ensures
        final(world).wf(),
        final(world)@ == respawned(old(world)@, player as int, color, spawn),
        final(world)@.same_shape(old(world)@),
        left == cell_left(old(world)@, player as int),
{
    let ghost start = world@;
    match world.get_component_from_entity_mut(player, crate::game::components::PLAYER) {
        Ok(Some(Component::Player(record))) => {
            record.color = color;
        },
        _ => {},
    }
    let ghost recolored = world@;
    proof {
        let kind = crate::game::components::PLAYER;
        if start.write_outcome(player as int, kind) is Ok && start.present(kind, player as int) {
            let held = start.columns[kind].slots;
            assert(held.update(player as int, held[player as int]) =~= held);
        }
        assert(recolored.columns.dom() =~= start.columns.dom());
        assert(recolored.same_shape(start));
    }
    match world.get_component_from_entity_mut(player, SPRITE) {
        Ok(Some(Component::Sprite(sprite))) => {
            sprite.index_y = color as u32;
        },
        _ => {},
    }
    let ghost redrawn = world@;
    proof {
        if recolored.write_outcome(player as int, SPRITE) is Ok && recolored.present(
            SPRITE,
            player as int,
        ) {
            let held = recolored.columns[SPRITE].slots;
            assert(held.update(player as int, held[player as int]) =~= held);
        }
        assert(redrawn.columns.dom() =~= recolored.columns.dom());
        assert(redrawn.same_shape(recolored));
    }
    let mut left: Option<Cell> = None;
    match world.get_component_from_entity_mut(player, CELL) {
        Ok(Some(Component::Cell(cell))) => {
            left = Some(*cell);
            *cell = spawn;
        },
        _ => {},
    }
    proof {
        if redrawn.write_outcome(player as int, CELL) is Ok && redrawn.present(CELL, player as int) {
            let held = redrawn.columns[CELL].slots;
            assert(held.update(player as int, held[player as int]) =~= held);
        }
        assert(world@.columns.dom() =~= redrawn.columns.dom());
        assert(world@.same_shape(redrawn));
        assert(redrawn.slot(CELL, player as int) == start.slot(CELL, player as int));
    }
    left
}

/// The runs of a room: the colour that the player has, the clone of each
/// colour, and where each colour begins.
pub struct Loops {
    /// The colour of the player, which the next clone takes over.
    pub current_clone: usize,
    /// The clone of each colour; what stands there counts only once the
    /// colour had a clone.
    pub clones: Vec<usize>,
    /// The tile on which each colour begins its run.
    pub clone_spawns: Vec<Cell>,
}

impl Loops {
    /// There is a clone slot and a place to begin for each colour, and the
    /// player has one of the colours.
    pub open spec fn wf(&self) -> bool {
        &&& self.current_clone < MAX_CLONES
        &&& self.clones@.len() == MAX_CLONES
        &&& self.clone_spawns@.len() == MAX_CLONES
    }

    /// The runs of a room in which every colour begins on `spawn`, with the
    /// player in the first colour.
    pub fn new(spawn: Cell) -> (loops: Self)
        ensures
            loops.wf(),
            loops.current_clone == 0,
            loops.clones@ == Seq::new(MAX_CLONES as nat, |i: int| 0usize),
            loops.clone_spawns@ == Seq::new(MAX_CLONES as nat, |i: int| spawn),
    {
        let loops = Loops {
            current_clone: 0,
            clones: vec![0, 0, 0, 0, 0],
            clone_spawns: vec![spawn, spawn, spawn, spawn, spawn],
        };
        assert(loops.clones@ =~= Seq::new(MAX_CLONES as nat, |i: int| 0usize));
        assert(loops.clone_spawns@ =~= Seq::new(MAX_CLONES as nat, |i: int| spawn));
        loops
    }
}

/// What the end of a loop can make of the store `start`: the record of the
/// player `player` is taken as `record`, every clone goes back to where
/// `spawns` has it begin and leaves one of the tiles `left`, and the
/// `clones` clones lose their playback mark.
pub open spec fn loop_rewound<'a>(
    start: StoreView<Component>,
    player: int,
    spawns: &'a Vec<Cell>,
    end: StoreView<Component>,
    record: Seq<Vec2i>,
    clones: nat,
    left: Seq<Cell>,
) -> bool {
    exists|bare: StoreView<Component>, sent: StoreView<Component>, rewound: Seq<usize>|
        record_taken(start, player, bare, record) && #[trigger] clones_rewound(
            bare,
            spawns,
            sent,
            rewound,
            left,
        ) && end == sent.after_all(detach_calls(PLAYBACK, rewound)) && clones == rewound.len()
}

/// Ends the loop: takes the record of the player `player`, and sends every
/// clone back to where its run began, without its playback mark. Returns the
/// record, the number of clones, and the tiles that the clones left.
pub fn rewind_loop(world: &mut World<Component>, player: usize, spawns: &Vec<Cell>) -> (ended: (
    Vec<Vec2i>,
    usize,
    Vec<Cell>,
))
    requires
        old(world).wf(),
        old(world)@.unborrowed(),
    ensures
        final(world).wf(),
        final(world)@.same_shape(old(world)@),
        final(world)@.unborrowed(),
        loop_rewound(
            old(world)@,
            player as int,
            spawns,
            final(world)@,
            ended.0@,
            ended.1 as nat,
            ended.2@,
        ),
{
    let record = take_record(world, player);
    let ghost bare = world@;
    proof {
        crate::game::player::lemma_same_guards_unborrowed(old(world)@, bare);
        crate::laws::law_pass_over_unborrowed_store_is_granted(bare, RewindClones::columns());
    }
    let (rewound, left) = match rewind_clones(world, spawns) {
        Ok(sent) => sent,
        Err(_) => (Vec::new(), Vec::new()),
    };
    let ghost sent = world@;
    detach_all(world, PLAYBACK, &rewound);
    proof {
        assert(clones_rewound(bare, spawns, sent, rewound@, left@));
        crate::game::player::lemma_same_guards_unborrowed(bare, sent);
        crate::game::player::lemma_same_guards_unborrowed(sent, world@);
    }
    (record, rewound.len(), left)
}

/// The store `made` after the oldest clone `oldest` was retired, where there
/// are more than four clones now that `clones` stood with the new one.
pub open spec fn oldest_retired(made: StoreView<Component>, clones: nat, oldest: int) -> StoreView<
    Component,
> {
    if clones >= 4 {
        made.after_all(delete_calls(retired(made, oldest)))
    } else {
        made
    }
}

/// The map `grid` with the tile `left` emptied, if there is one.
pub open spec fn vacated(grid: Seq<Seq<Collider>>, left: Option<Cell>) -> Seq<Seq<Collider>> {
    match left {
        Some(cell) => put(grid, cell, Collider::Empty),
        None => grid,
    }
}

/// What leaving a clone behind can make of the store `start` and the map
/// `grid`, where the player `player` has the colour `color` and takes the
/// colour `next`, whose last clone, if there are too many, is `oldest`: the
/// loop ends, the record of the player becomes a new clone of its colour,
/// the oldest clone goes where there would be more than four, the player
/// begins again in its new colour, and every box goes back to where it
/// started. On the map the tiles of the clones and of the player are
/// emptied, and the boxes are carried to where they started.
pub open spec fn clone_switched<'a>(
    start: StoreView<Component>,
    grid: Seq<Seq<Collider>>,
    player: int,
    color: u8,
    next: u8,
    oldest: int,
    spawns: &'a Vec<Cell>,
    end: StoreView<Component>,
    grid_after: Seq<Seq<Collider>>,
) -> bool {
    exists|
        rewound: StoreView<Component>,
        record: Seq<Vec2i>,
        clones: nat,
        left: Seq<Cell>,
        made: StoreView<Component>,
        shifts: Seq<Shift>,
    |
        #![trigger
            loop_rewound(start, player, spawns, rewound, record, clones, left),
            clone_created(rewound, color, record, spawns@[color as int], made),
            boxes_reset(
                respawned(oldest_retired(made, clones, oldest), player, next, spawns@[next as int]),
                end,
                shifts,
            )]
        loop_rewound(start, player, spawns, rewound, record, clones, left) && clone_created(
            rewound,
            color,
            record,
            spawns@[color as int],
            made,
        ) && boxes_reset(
            respawned(oldest_retired(made, clones, oldest), player, next, spawns@[next as int]),
            end,
            shifts,
        ) && grid_after == shifted(
            vacated(emptied(grid, left), cell_left(oldest_retired(made, clones, oldest), player)),
            shifts,
        )
}

/// Leaves a clone behind and begins the next loop: the steps that the
/// player `player` recorded become a clone of its colour, the clones and the
/// boxes go back to where they started, the oldest clone is retired where
/// there would be more than four, and the player begins again in the next
/// colour.
pub fn switch_clone(
    world: &mut World<Component>,
    colliders: &mut Colliders,
    loops: &mut Loops,
    player: usize,
)
    requires
        old(world).wf(),
        old(world)@.unborrowed(),
        old(loops).wf(),
    ensures
        final(world).wf(),
        final(world)@.unborrowed(),
        final(loops).wf(),
        final(loops).current_clone == (old(loops).current_clone + 1) % (MAX_CLONES as int),
        final(loops).clones@ == old(loops).clones@.update(
            old(loops).current_clone as int,
            old(world)@.entity_count as usize,
        ),
        final(loops).clone_spawns == old(loops).clone_spawns,
        clone_switched(
            old(world)@,
            old(colliders).grid(),
            player as int,
            old(loops).current_clone as u8,
            final(loops).current_clone as u8,
            final(loops).clones@[final(loops).current_clone as int] as int,
            &old(loops).clone_spawns,
            final(world)@,
            final(colliders).grid(),
        ),
{
    let current = loops.current_clone;
    let color: u8 = current as u8;
    let (record, clones, left) = rewind_loop(world, player, &loops.clone_spawns);
    let ghost rewound = world@;
    let ghost steps = record@;
    empty_tiles(colliders, &left);
    let clone = create_clone(world, color, record, loops.clone_spawns[current]);
    let ghost made = world@;
    loops.clones[current] = clone;
    let next = next_clone_slot(current);
    loops.current_clone = next;
    let oldest = loops.clones[next];
    if clones >= 4 {
        retire_clone(world, oldest);
    }
    let ghost kept = world@;
    let gone = respawn_player(world, player, next as u8, loops.clone_spawns[next]);
    match gone {
        Some(cell) => {
            if colliders.contains(cell) {
                colliders.set(cell, Collider::Empty);
            }
        },
        None => {},
    }
    let ghost ready = world@;
    proof {
        crate::game::player::lemma_same_guards_unborrowed(kept, ready);
        crate::laws::law_pass_over_unborrowed_store_is_granted(ready, ResetBoxes::columns());
    }
    let shifts = match reset_boxes(world) {
        Ok(shifts) => shifts,
        Err(_) => Vec::new(),
    };
    shift_colliders(colliders, &shifts);
    proof {
        crate::game::player::lemma_same_guards_unborrowed(ready, world@);
        let spawns = &old(loops).clone_spawns;
        assert(loop_rewound(
            old(world)@,
            player as int,
            spawns,
            rewound,
            steps,
            clones as nat,
            left@,
        ));
        assert(clone_created(rewound, color, steps, spawns@[color as int], made));
        assert(kept == oldest_retired(made, clones as nat, oldest as int));
        assert(boxes_reset(
            respawned(
                oldest_retired(made, clones as nat, oldest as int),
                player as int,
                next as u8,
                spawns@[next as u8 as int],
            ),
            world@,
            shifts@,
        ));
    }
}

} // verus!
