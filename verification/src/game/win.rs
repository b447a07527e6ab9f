//! Winning a room.

use vstd::prelude::*;
use crate::game::common::Cell;
use crate::game::components::{Component, CELL, CLONE, MOVEABLE, PLAYER, WIN_TILE};
use crate::game::math::Vec2i;
use crate::game::movement::Moveable;
use crate::game::queries::{marked, marks};
use crate::model::{kinds_of, Access, AccessMode, ComponentKind, StoreView};
use crate::store::World;
use crate::system::{swept, System};

verus! {

/// A tile that the player or clone of its colour has to stand on.
#[derive(PartialEq, Eq, Structural, Clone, Copy, Debug)]
pub struct WinTile {
    pub color: u8,
    pub level: usize,
}

/// Something of a colour on a tile: a win tile, the player, or a clone.
#[derive(PartialEq, Eq, Structural, Clone, Copy, Debug)]
pub struct Marked {
    pub cell: Cell,
    pub color: u8,
}

/// The first of `clones` from place `from` on that has `color`.
pub open spec fn first_of_color(clones: Seq<Marked>, color: u8, from: int) -> Option<Marked>
    decreases clones.len() - from,
{
    if from < 0 || from >= clones.len() {
        None
    } else if clones[from].color == color {
        Some(clones[from])
    } else {
        first_of_color(clones, color, from + 1)
    }
}

/// The win tile `tile` is covered: the first clone of its colour stands on
/// it, or, where no clone has its colour, the player has it and stands on it.
pub open spec fn covered(tile: Marked, player: Marked, clones: Seq<Marked>) -> bool {
    match first_of_color(clones, tile.color, 0) {
        Some(clone) => clone.cell == tile.cell,
        None => player.color == tile.color && player.cell == tile.cell,
    }
}

/// The room is won: every one of its win tiles is covered.
pub open spec fn won(tiles: Seq<Marked>, player: Marked, clones: Seq<Marked>) -> bool {
    forall|i: int| 0 <= i < tiles.len() ==> covered(#[trigger] tiles[i], player, clones)
}

/// Whether the win tile `tile` is covered.
pub fn is_covered(tile: Marked, player: Marked, clones: &Vec<Marked>) -> (yes: bool)
    ensures
        yes == covered(tile, player, clones@),
{
    let mut i: usize = 0;
    while i < clones.len()
        invariant
            i <= clones@.len(),
            first_of_color(clones@, tile.color, 0) == first_of_color(clones@, tile.color, i as int),
        decreases clones@.len() - i,
    {
        if clones[i].color == tile.color {
            return clones[i].cell == tile.cell;
        }
        i += 1;
    }
    player.color == tile.color && player.cell == tile.cell
}

/// Whether the room with the win tiles `tiles` is won.
pub fn check_win(tiles: &Vec<Marked>, player: Marked, clones: &Vec<Marked>) -> (win: bool)
    ensures
        win == won(tiles@, player, clones@),
{
    let mut win = true;
    let mut i: usize = 0;
    while i < tiles.len()
        invariant
            i <= tiles@.len(),
            win == forall|j: int| 0 <= j < i ==> covered(#[trigger] tiles@[j], player, clones@),
        decreases tiles@.len() - i,
    {
        if !is_covered(tiles[i], player, clones) {
            win = false;
        }
        i += 1;
    }
    win
}

/// The room that is played after this frame: the next one where the room is
/// won or the player skips it, the same one otherwise. The last room is
/// never left.
pub fn next_room(current_room: usize, win: bool, skip_level: bool) -> (room: usize)
    ensures
        room == if (win || skip_level) && current_room < usize::MAX {
            current_room + 1
        } else {
            current_room as int
        },
{
    if (win || skip_level) && current_room < usize::MAX {
        current_room + 1
    } else {
        current_room
    }
}

/// The mark of the player: that of the last entity that is a player, and a
/// mark of colour 0 on the first cell where there is no player.
pub open spec fn player_mark(players: Seq<Marked>) -> Marked {
    if players.len() > 0 {
        players.last()
    } else {
        Marked { cell: Cell { value: Vec2i { x: 0, y: 0 } }, color: 0 }
    }
}

/// The room `room` is won in the store `store`.
pub open spec fn room_won(store: StoreView<Component>, room: usize) -> bool {
    won(
        marks(store, WIN_TILE, Some(room)),
        player_mark(marks(store, PLAYER, None)),
        marks(store, CLONE, None),
    )
}

/// Whether the room `room` is won: every win tile of the room is covered by
/// the player or the clone of its colour. The store is left as it was.
pub fn update(world: &mut World<Component>, room: usize) -> (win: bool)
    requires
        old(world).wf(),
        old(world)@.unborrowed(),
    ensures
        final(world).wf(),
        final(world)@ == old(world)@,
        win == room_won(old(world)@, room),
{
    let tiles = marked(world, WIN_TILE, Some(room));
    let players = marked(world, PLAYER, None);
    let clones = marked(world, CLONE, None);
    let player = if players.len() > 0 {
        players[players.len() - 1]
    } else {
        Marked { cell: Cell::new(0, 0), color: 0 }
    };
    check_win(&tiles, player, &clones)
}

/// The pass that puts what walks on the tiles where a room begins: the
/// player, or the clones.
pub struct EnterRoom<'a> {
    /// Where each colour begins in the room.
    pub spawns: &'a Vec<Cell>,
}

/// The colour of the player or the clone that `component` is.
pub open spec fn walker_color(component: Component) -> Option<u8> {
    match component {
        Component::Player(player) => Some(player.color),
        Component::Clone(run) => Some(run.color),
        _ => None,
    }
}

/// The row holds a player or a clone with a place to begin among `spawns`,
/// its cell and its move.
pub open spec fn walker_row(spawns: Seq<Cell>, row: Seq<Component>) -> bool {
    &&& row.len() == 3
    &&& walker_color(row[0]) matches Some(color) && color < spawns.len()
    &&& row[1] is Cell
    &&& row[2] is Moveable
}

/// The player or clone `after` is `before` as a room begins: without
/// recorded steps, and a clone without the entities of its path.
pub open spec fn forgetful(before: Component, after: Component) -> bool {
    match before {
        Component::Player(player) => after matches Component::Player(fresh) && fresh.color
            == player.color && fresh.moved == player.moved && fresh.marker == player.marker
            && fresh.playback_dir@.len() == 0,
        Component::Clone(run) => after matches Component::Clone(fresh) && fresh.color == run.color
            && fresh.current_move == run.current_move && fresh.playback_dir@.len() == 0
            && fresh.paths@.len() == 0,
        _ => after == before,
    }
}

impl<'a> EnterRoom<'a> {
    /// The columns that the pass asks for: what walks, of kind `walker`, its
    /// cell and its move, all to be changed.
    pub open spec fn columns(walker: ComponentKind) -> Seq<Access> {
        seq![
            Access { kind: walker, mode: AccessMode::Write },
            Access { kind: CELL, mode: AccessMode::Write },
            Access { kind: MOVEABLE, mode: AccessMode::Write },
        ]
    }

    /// The columns that the pass asks for.
    pub fn request(walker: ComponentKind) -> (request: Vec<Access>)
        ensures
            request@ == Self::columns(walker),
    {
        vec![
            Access { kind: walker, mode: AccessMode::Write },
            Access { kind: CELL, mode: AccessMode::Write },
            Access { kind: MOVEABLE, mode: AccessMode::Write },
        ]
    }
}

impl<'a> System<Component> for EnterRoom<'a> {
    open spec fn visits(
        before: Self,
        entity: int,
        row: Seq<Component>,
        after: Self,
        rewritten: Seq<Component>,
    ) -> bool {
        &&& after == before
        &&& rewritten.len() == row.len()
        &&& if walker_row(before.spawns@, row) {
            let spawn = before.spawns@[walker_color(row[0])->0 as int];
            &&& forgetful(row[0], rewritten[0])
            &&& rewritten[1] == Component::Cell(spawn)
            &&& rewritten[2] == Component::Moveable(
                Moveable { moving: false, ..row[2]->Moveable_0 },
            )
        } else {
            rewritten == row
        }
    }

    fn visit(&mut self, entity: usize, row: &mut Vec<Component>) {
        if row.len() != 3 {
            return;
        }
        let third = row.pop();
        let second = row.pop();
        let first = row.pop();
        match (first, second, third) {
            (
                Some(Component::Player(mut player)),
                Some(Component::Cell(cell)),
                Some(Component::Moveable(mut moveable)),
            ) => {
                assert(old(row)@[0] == Component::Player(player));
                assert(old(row)@[1] == Component::Cell(cell));
                assert(old(row)@[2] == Component::Moveable(moveable));
                let color: usize = player.color as usize;
                if color < self.spawns.len() {
                    player.playback_dir = Vec::new();
                    moveable.moving = false;
                    row.push(Component::Player(player));
                    row.push(Component::Cell(self.spawns[color]));
                    row.push(Component::Moveable(moveable));
                } else {
                    row.push(Component::Player(player));
                    row.push(Component::Cell(cell));
                    row.push(Component::Moveable(moveable));
                    assert(row@ =~= old(row)@);
                }
            },
            (
                Some(Component::Clone(mut run)),
                Some(Component::Cell(cell)),
                Some(Component::Moveable(mut moveable)),
            ) => {
                assert(old(row)@[0] == Component::Clone(run));
                assert(old(row)@[1] == Component::Cell(cell));
                assert(old(row)@[2] == Component::Moveable(moveable));
                let color: usize = run.color as usize;
                if color < self.spawns.len() {
                    run.paths = Vec::new();
                    run.playback_dir = Vec::new();
                    moveable.moving = false;
                    row.push(Component::Clone(run));
                    row.push(Component::Cell(self.spawns[color]));
                    row.push(Component::Moveable(moveable));
                } else {
                    row.push(Component::Clone(run));
                    row.push(Component::Cell(cell));
                    row.push(Component::Moveable(moveable));
                    assert(row@ =~= old(row)@);
                }
            },
            (Some(first), Some(second), Some(third)) => {
                row.push(first);
                row.push(second);
                row.push(third);
                assert(row@ =~= old(row)@);
            },
            _ => {},
        }
    }
}

/// What entering a room can make of the store `start`: first the players,
/// then the clones forget their steps, stand still, and stand on the tile
/// where `spawns` has their colour begin.
pub open spec fn room_entered<'a>(
    start: StoreView<Component>,
    spawns: &'a Vec<Cell>,
    end: StoreView<Component>,
) -> bool {
    exists|mid: StoreView<Component>|
        #![trigger swept(start, (EnterRoom { spawns }), kinds_of(EnterRoom::columns(PLAYER)), mid, (EnterRoom { spawns }))]
        swept(
            start,
            (EnterRoom { spawns }),
            kinds_of(EnterRoom::columns(PLAYER)),
            mid,
            (EnterRoom { spawns }),
        ) && swept(
            mid,
            (EnterRoom { spawns }),
            kinds_of(EnterRoom::columns(CLONE)),
            end,
            (EnterRoom { spawns }),
        )
}

/// Enters a room: the player and the clones forget their steps, stand
/// still, and are put on the tiles where `spawns` has their colours begin.
pub fn enter_room(world: &mut World<Component>, spawns: &Vec<Cell>)
    requires
        old(world).wf(),
        old(world)@.unborrowed(),
    ensures
        final(world).wf(),
        final(world)@.unborrowed(),
        final(world)@.same_shape(old(world)@),
        room_entered(old(world)@, spawns, final(world)@),
{
    let mut system = EnterRoom { spawns };
    let players = EnterRoom::request(PLAYER);
    proof {
        crate::laws::law_pass_over_unborrowed_store_is_granted(
            old(world)@,
            EnterRoom::columns(PLAYER),
        );
        assert(kinds_of(EnterRoom::columns(PLAYER)) =~= seq![PLAYER, CELL, MOVEABLE]);
        assert(kinds_of(EnterRoom::columns(CLONE)) =~= seq![CLONE, CELL, MOVEABLE]);
    }
    let _ = world.iterate_entities_with_id(&players, &mut system);
    let ghost mid = world@;
    proof {
        crate::game::player::lemma_same_guards_unborrowed(old(world)@, mid);
        crate::laws::law_pass_over_unborrowed_store_is_granted(mid, EnterRoom::columns(CLONE));
        lemma_enter_room_keeps_itself(
            old(world)@,
            (EnterRoom { spawns }),
            kinds_of(players@),
            old(world)@.entity_count as int,
            mid,
            system,
        );
    }
    let clones = EnterRoom::request(CLONE);
    let _ = world.iterate_entities_with_id(&clones, &mut system);
    proof {
        crate::game::player::lemma_same_guards_unborrowed(mid, world@);
        lemma_enter_room_keeps_itself(
            mid,
            (EnterRoom { spawns }),
            kinds_of(clones@),
            mid.entity_count as int,
            world@,
            system,
        );
        assert(swept(
            old(world)@,
            (EnterRoom { spawns }),
            kinds_of(EnterRoom::columns(PLAYER)),
            mid,
            (EnterRoom { spawns }),
        ));
    }
}

/// The pass changes the store, not itself.
proof fn lemma_enter_room_keeps_itself<'a>(
    start: StoreView<Component>,
    before: EnterRoom<'a>,
    kinds: Seq<ComponentKind>,
    bound: int,
    end: StoreView<Component>,
    after: EnterRoom<'a>,
)
    requires
        crate::system::swept_below(start, before, kinds, bound, end, after),
    ensures
        after == before,
    decreases bound,
{
    if bound > 0 {
        let (mid, during) = choose|mid: StoreView<Component>, during: EnterRoom<'a>|
            crate::system::swept_below(start, before, kinds, bound - 1, mid, during)
                && #[trigger] crate::system::stepped(mid, during, kinds, bound - 1, end, after);
        lemma_enter_room_keeps_itself(start, before, kinds, bound - 1, mid, during);
    }
}

} // verus!
