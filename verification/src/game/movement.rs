//! Moving an entity from one tile to the next, over several frames.

use vstd::prelude::*;
use crate::game::collision::{Collider, Colliders};
use crate::game::common::Cell;
use crate::game::components::{Component, CELL, MOVEABLE};
use crate::model::{kinds_of, Access, AccessMode, StoreError, StoreView};
use crate::store::World;
use crate::system::{swept, System};

verus! {

/// The move that an entity is making, or made last.
#[derive(PartialEq, Eq, Structural, Clone, Copy, Debug)]
pub struct Moveable {
    pub start_cell: Cell,
    pub end_cell: Cell,
    /// How long a move takes, in milliseconds.
    pub duration: u128,
    /// How long the move has been going on, in milliseconds.
    pub accumulator: u128,
    pub moving: bool,
    /// A box carries its own collider with it; anything else is solid.
    pub box_moveable: bool,
}

/// How far a move has come: `elapsed` of `duration` milliseconds.
#[derive(PartialEq, Eq, Structural, Clone, Copy, Debug)]
pub enum Progress {
    /// Not moving.
    Resting,
    /// On the way from the start cell to the end cell.
    Underway { elapsed: u128, duration: u128 },
    /// Arrived on the end cell in this frame.
    Arrived,
}

/// One frame of `delta_time` milliseconds turns the move `before` of an
/// entity on `cell` into `after`, the entity's cell into `reached`, and the
/// map `map` into `changed`, and has the entity drawn at `progress`.
pub open spec fn advanced(
    before: Moveable,
    cell: Cell,
    map: Colliders,
    delta_time: u128,
    after: Moveable,
    reached: Cell,
    changed: Colliders,
    progress: Progress,
) -> bool {
    &&& after.start_cell == before.start_cell
    &&& after.end_cell == before.end_cell
    &&& after.duration == before.duration
    &&& after.box_moveable == before.box_moveable
    &&& forall|c: Cell| map.holds(c) == changed.holds(c)
    &&& !before.moving ==> progress == Progress::Resting && after == before && reached == cell
        && forall|c: Cell| map.holds(c) ==> #[trigger] changed.at(c) == map.at(c)
    &&& before.moving ==> {
        &&& reached == before.end_cell
        &&& changed.at(before.end_cell) == before.brought_along(map.at(cell))
        &&& cell != before.end_cell ==> changed.at(cell) == before.left_behind()
        &&& forall|c: Cell|
            map.holds(c) && c != cell && c != before.end_cell ==> #[trigger] changed.at(c)
                == map.at(c)
    }
    &&& before.moving && before.accumulator >= before.duration ==> progress == Progress::Arrived
        && !after.moving && after.accumulator == 0
    &&& before.moving && before.accumulator < before.duration ==> progress == (Progress::Underway {
        elapsed: before.accumulator,
        duration: before.duration,
    }) && after.moving && after.accumulator == before.clock_after(delta_time)
}

impl Moveable {
    /// A resting entity on `cell`, whose moves take `duration` milliseconds.
    pub fn resting(cell: Cell, duration: u128, box_moveable: bool) -> (moveable: Self)
        ensures
            moveable == (Moveable {
                start_cell: cell,
                end_cell: cell,
                duration,
                accumulator: 0,
                moving: false,
                box_moveable,
            }),
    {
        Moveable {
            start_cell: cell,
            end_cell: cell,
            duration,
            accumulator: 0,
            moving: false,
            box_moveable,
        }
    }

    /// What the entity leaves behind on the tile it moves away from.
    pub open spec fn left_behind(&self) -> Collider {
        if self.box_moveable {
            Collider::Solid
        } else {
            Collider::Empty
        }
    }

    /// What the entity puts on the tile it moves onto, where `carried` stood
    /// on the tile it came from.
    pub open spec fn brought_along(&self, carried: Collider) -> Collider {
        if self.box_moveable {
            carried
        } else {
            Collider::Solid
        }
    }

    /// The clock of the move after `delta_time` more milliseconds, held at
    /// the largest time the clock can show.
    pub open spec fn clock_after(&self, delta_time: u128) -> u128 {
        if self.accumulator + delta_time > u128::MAX {
            u128::MAX
        } else {
            (self.accumulator + delta_time) as u128
        }
    }

    /// Moves the entity on by one frame of `delta_time` milliseconds.
    ///
    /// A resting entity stays as it is. A moving one takes its collider from
    /// the tile `cell` to its end cell at once, and stands on the end cell
    /// from then on; the move ends in the frame in which its clock has
    /// reached its duration. The result says where between the two tiles the
    /// entity is to be drawn.
    pub fn advance(&mut self, cell: &mut Cell, colliders: &mut Colliders, delta_time: u128) -> (progress:
        Progress)
        requires
            old(colliders).holds(*old(cell)),
            old(colliders).holds(old(self).end_cell),
        ensures
            advanced(
                *old(self),
                *old(cell),
                *old(colliders),
                delta_time,
                *final(self),
                *final(cell),
                *final(colliders),
                progress,
            ),
    {
        if !self.moving {
            return Progress::Resting;
        }
        let carried = colliders.get(*cell);
        colliders.set(
            *cell,
            if self.box_moveable {
                Collider::Solid
            } else {
                Collider::Empty
            },
        );
        *cell = self.end_cell;
        colliders.set(
            *cell,
            if self.box_moveable {
                carried
            } else {
                Collider::Solid
            },
        );
        if self.accumulator >= self.duration {
            self.accumulator = 0;
            self.moving = false;
            Progress::Arrived
        } else {
            let elapsed = self.accumulator;
            self.accumulator = self.accumulator.saturating_add(delta_time);
            Progress::Underway { elapsed, duration: self.duration }
        }
    }
}

/// The pass that moves the entities: it visits the entities that have a
/// move and a cell, in this order, moves each on by one frame, and notes
/// for each where it is to be drawn.
pub struct MoveEntities {
    pub colliders: Colliders,
    /// The milliseconds since the last frame.
    pub delta_time: u128,
    /// The entities visited so far, each with the progress of its move.
    pub drawn: Vec<(usize, Progress)>,
}

/// The row holds a move and a cell, both on the map.
pub open spec fn move_row(colliders: Colliders, row: Seq<Component>) -> bool {
    &&& row.len() == 2
    &&& row[0] is Moveable
    &&& row[1] is Cell
    &&& colliders.holds(row[1]->Cell_0)
    &&& colliders.holds(row[0]->Moveable_0.end_cell)
}

impl MoveEntities {
    /// The columns that the pass asks for: the move and the cell, both to be
    /// changed.
    pub open spec fn columns() -> Seq<Access> {
        seq![
            Access { kind: MOVEABLE, mode: AccessMode::Write },
            Access { kind: CELL, mode: AccessMode::Write },
        ]
    }

    /// The columns that the pass asks for.
    pub fn request() -> (request: Vec<Access>)
        ensures
            request@ == Self::columns(),
    {
        vec![
            Access { kind: MOVEABLE, mode: AccessMode::Write },
            Access { kind: CELL, mode: AccessMode::Write },
        ]
    }
}

impl System<Component> for MoveEntities {
    open spec fn visits(
        before: Self,
        entity: int,
        row: Seq<Component>,
        after: Self,
        rewritten: Seq<Component>,
    ) -> bool {
        &&& after.delta_time == before.delta_time
        &&& rewritten.len() == row.len()
        &&& if move_row(before.colliders, row) {
            &&& rewritten[0] is Moveable
            &&& rewritten[1] is Cell
            &&& after.drawn@.len() == before.drawn@.len() + 1
            &&& after.drawn@.drop_last() == before.drawn@
            &&& after.drawn@.last().0 == entity
            &&& advanced(
                row[0]->Moveable_0,
                row[1]->Cell_0,
                before.colliders,
                before.delta_time,
                rewritten[0]->Moveable_0,
                rewritten[1]->Cell_0,
                after.colliders,
                after.drawn@.last().1,
            )
        } else {
            rewritten == row && after.colliders == before.colliders && after.drawn == before.drawn
        }
    }

    fn visit(&mut self, entity: usize, row: &mut Vec<Component>) {
        if row.len() != 2 {
            return;
        }
        let second = row.pop();
        let first = row.pop();
        match (first, second) {
            (Some(Component::Moveable(mut moveable)), Some(Component::Cell(mut cell))) => {
                assert(old(row)@[0] == Component::Moveable(moveable));
                assert(old(row)@[1] == Component::Cell(cell));
                if self.colliders.contains(cell) && self.colliders.contains(moveable.end_cell) {
                    let progress = moveable.advance(&mut cell, &mut self.colliders, self.delta_time);
                    self.drawn.push((entity, progress));
                    row.push(Component::Moveable(moveable));
                    row.push(Component::Cell(cell));
                    assert(self.drawn@.drop_last() =~= old(self).drawn@);
                } else {
                    row.push(Component::Moveable(moveable));
                    row.push(Component::Cell(cell));
                    assert(row@ =~= old(row)@);
                }
            },
            (Some(first), Some(second)) => {
                row.push(first);
                row.push(second);
                assert(row@ =~= old(row)@);
            },
            _ => {},
        }
    }
}

/// The pass over the moving entities, started on the map `map` with
/// nothing drawn yet, can turn the store `start` into `end` and the map into
/// `changed`, and have the entities drawn as `drawn` says.
pub open spec fn entities_moved(
    start: StoreView<Component>,
    map: Colliders,
    delta_time: u128,
    end: StoreView<Component>,
    changed: Colliders,
    drawn: Seq<(usize, Progress)>,
) -> bool {
    exists|before: MoveEntities, after: MoveEntities|
        before.colliders == map && before.delta_time == delta_time && before.drawn@.len() == 0
            && after.colliders == changed && after.drawn@ == drawn && #[trigger] swept(
            start,
            before,
            kinds_of(MoveEntities::columns()),
            end,
            after,
        )
}

/// Moves all entities on by one frame of `delta_time` milliseconds, and
/// returns for each entity that has a move where it is to be drawn. The pass
/// is refused, and nothing changes, where one of its borrows is refused.
pub fn move_entities(world: &mut World<Component>, colliders: &mut Colliders, delta_time: u128) -> (drawn:
    Result<Vec<(usize, Progress)>, StoreError>)
    requires
        old(world).wf(),
    ensures
        final(world).wf(),
        match drawn {
            Ok(progress) => old(world)@.pass_outcome(MoveEntities::columns()) is Ok
                && entities_moved(
                old(world)@,
                *old(colliders),
                delta_time,
                final(world)@,
                *final(colliders),
                progress@,
            ),
            Err(e) => old(world)@.pass_outcome(MoveEntities::columns()) == Err::<(), StoreError>(e)
                && final(world)@ == old(world)@ && *final(colliders) == *old(colliders),
        },
{
    let request = MoveEntities::request();
    let mut map = Colliders { columns: Vec::new() };
    std::mem::swap(&mut map, colliders);
    let mut system = MoveEntities { colliders: map, delta_time, drawn: Vec::new() };
    let ghost before = system;
    let moved = world.iterate_entities_with_id(&request, &mut system);
    let MoveEntities { colliders: mut map, delta_time: _, drawn } = system;
    std::mem::swap(&mut map, colliders);
    match moved {
        Ok(_) => {
            proof {
                assert(swept(old(world)@, before, kinds_of(request@), world@, system));
            }
            Ok(drawn)
        },
        Err(e) => Err(e),
    }
}

} // verus!
