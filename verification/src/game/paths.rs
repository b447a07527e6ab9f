//! The path that is drawn ahead of each clone: the next steps of its run.

use vstd::prelude::*;
use crate::game::clones::{path_column, path_end, path_sprite_column, PATH_LENGTH};
use crate::game::collision::{check_collision, hit_on, Colliders, Hit};
use crate::game::common::Cell;
use crate::game::components::{Component, CELL, CLONE, MOVEABLE, SPRITE};
use crate::game::math::Vec2i;
use crate::game::player::neighbour;
use crate::game::render::Sprite;
use crate::laws::Call;
use crate::model::{kinds_of, Access, AccessMode, StoreError, StoreView};
use crate::store::World;
use crate::system::{swept, System};

verus! {

/// The layer on which paths are drawn.
pub const PATH_LAYER: i8 = 2;

/// One tile of a path: the entity that draws it, where, and with what.
#[derive(PartialEq, Eq, Structural, Clone, Copy, Debug)]
pub struct PathTile {
    pub path: usize,
    pub cell: Cell,
    pub sprite: Sprite,
}

/// Where the path of a clone of colour `color` goes from `from` with the
/// step `direction`: on to the next tile, or nowhere where that tile is a
/// wall to the clone or is none of the map.
pub open spec fn path_step(colliders: &Colliders, color: u8, from: Cell, direction: Vec2i) -> Cell {
    if from.value.can_add(direction) && colliders.holds(neighbour(from, direction)) && hit_on(
        colliders.at(neighbour(from, direction)),
        color,
    ) != Hit::Solid {
        neighbour(from, direction)
    } else {
        from
    }
}

/// Where the path of a clone goes from `from` with the step `direction`.
pub fn next_path_cell(colliders: &Colliders, color: u8, from: Cell, direction: Vec2i) -> (cell: Cell)
    ensures
        cell == path_step(colliders, color, from, direction),
{
    match from.value.checked_add(direction) {
        Some(value) => {
            let goal = Cell { value };
            if colliders.contains(goal) {
                match check_collision(colliders, color, goal) {
                    Hit::Solid => from,
                    _ => goal,
                }
            } else {
                from
            }
        },
        None => from,
    }
}

/// Where the path that begins on `from` stands after `count` of `steps`,
/// the first of them being the step `first`.
pub open spec fn path_cell(
    colliders: &Colliders,
    color: u8,
    from: Cell,
    steps: Seq<Vec2i>,
    first: int,
    count: nat,
) -> Cell
    decreases count,
{
    if count == 0 {
        from
    } else {
        path_step(
            colliders,
            color,
            path_cell(colliders, color, from, steps, first, (count - 1) as nat),
            steps[first + count - 1],
        )
    }
}

/// How many steps of a run are drawn: those from the step that is played
/// next up to `PATH_LENGTH` steps on, as far as there are steps recorded and
/// entities to draw them.
pub open spec fn path_length(current_move: int, recorded: int, entities: int) -> nat {
    let wanted = if current_move + PATH_LENGTH > recorded {
        recorded
    } else {
        current_move + PATH_LENGTH
    };
    let end = if wanted > entities {
        entities
    } else {
        wanted
    };
    if end > current_move {
        (end - current_move) as nat
    } else {
        0
    }
}

/// The tile that draws the step `index` of a run.
pub open spec fn path_tile(
    colliders: &Colliders,
    run: crate::game::clones::Clone,
    from: Cell,
    index: int,
) -> PathTile {
    PathTile {
        path: run.paths@[index],
        cell: path_cell(
            colliders,
            run.color,
            from,
            run.playback_dir@,
            run.current_move as int,
            (index - run.current_move + 1) as nat,
        ),
        sprite: Sprite {
            index_x: path_column(run.playback_dir@[index]),
            index_y: run.color as u32,
            flip_x: false,
            layer: PATH_LAYER,
            render: true,
        },
    }
}

/// The path of the clone `run` that stands, or is about to stand, on `from`:
/// one tile for each of its next steps, each drawn where the step ends.
pub open spec fn path_of(colliders: &Colliders, run: crate::game::clones::Clone, from: Cell) -> Seq<
    PathTile,
> {
    Seq::new(
        path_length(run.current_move as int, run.playback_dir@.len() as int, run.paths@.len() as int),
        |k: int| path_tile(colliders, run, from, run.current_move + k),
    )
}

/// Lays out the path of the clone `run` from `from` on.
pub fn lay_path(colliders: &Colliders, run: &crate::game::clones::Clone, from: Cell) -> (tiles: Vec<
    PathTile,
>)
    ensures
        tiles@ == path_of(colliders, *run, from),
{
    let wanted = path_end(run.current_move, run.playback_dir.len());
    let end = if wanted > run.paths.len() {
        run.paths.len()
    } else {
        wanted
    };
    let mut tiles: Vec<PathTile> = Vec::new();
    if end <= run.current_move {
        assert(tiles@ =~= path_of(colliders, *run, from));
        return tiles;
    }
    let first = run.current_move;
    let mut cell = from;
    let mut i: usize = first;
    while i < end
        invariant
            first == run.current_move,
            first <= i <= end,
            end <= run.playback_dir@.len(),
            end <= run.paths@.len(),
            end - first == path_length(
                run.current_move as int,
                run.playback_dir@.len() as int,
                run.paths@.len() as int,
            ),
            cell == path_cell(
                colliders,
                run.color,
                from,
                run.playback_dir@,
                first as int,
                (i - first) as nat,
            ),
            tiles@ == Seq::new(
                (i - first) as nat,
                |k: int| path_tile(colliders, *run, from, first + k),
            ),
        decreases end - i,
    {
        let direction = run.playback_dir[i];
        cell = next_path_cell(colliders, run.color, cell, direction);
        tiles.push(
            PathTile {
                path: run.paths[i],
                cell,
                sprite: Sprite::new(path_sprite_column(direction), run.color as u32, PATH_LAYER),
            },
        );
        i += 1;
        assert(tiles@ =~= Seq::new(
            (i - first) as nat,
            |k: int| path_tile(colliders, *run, from, first + k),
        ));
    }
    tiles
}

/// The pass that lays out the path of every clone.
pub struct LayPaths<'a> {
    /// The map on which the paths are laid out.
    pub colliders: &'a Colliders,
    /// The tiles laid out so far.
    pub tiles: Vec<PathTile>,
    /// The entities of the steps that were played: they are drawn no more.
    pub passed: Vec<usize>,
}

/// The row holds a move and a clone that has entities to draw its path.
pub open spec fn path_row(row: Seq<Component>) -> bool {
    &&& row.len() == 2
    &&& row[0] is Moveable
    &&& row[1] is Clone
    &&& row[1]->Clone_0.paths@.len() > 0
}

/// The entities of the steps of `run` that were played.
pub open spec fn passed_of(run: crate::game::clones::Clone) -> Seq<usize> {
    if run.current_move < run.paths@.len() {
        run.paths@.take(run.current_move as int)
    } else {
        run.paths@
    }
}

impl<'a> LayPaths<'a> {
    /// The columns that the pass asks for: the move and the clone, both to
    /// be read.
    pub open spec fn columns() -> Seq<Access> {
        seq![
            Access { kind: MOVEABLE, mode: AccessMode::Read },
            Access { kind: CLONE, mode: AccessMode::Read },
        ]
    }

    /// The columns that the pass asks for.
    pub fn request() -> (request: Vec<Access>)
        ensures
            request@ == Self::columns(),
    {
        vec![
            Access { kind: MOVEABLE, mode: AccessMode::Read },
            Access { kind: CLONE, mode: AccessMode::Read },
        ]
    }
}

impl<'a> System<Component> for LayPaths<'a> {
    open spec fn visits(
        before: Self,
        entity: int,
        row: Seq<Component>,
        after: Self,
        rewritten: Seq<Component>,
    ) -> bool {
        &&& after.colliders == before.colliders
        &&& rewritten == row
        &&& if path_row(row) {
            &&& after.tiles@ == before.tiles@ + path_of(
                before.colliders,
                row[1]->Clone_0,
                row[0]->Moveable_0.end_cell,
            )
            &&& after.passed@ == before.passed@ + passed_of(row[1]->Clone_0)
        } else {
            after.tiles@ == before.tiles@ && after.passed@ == before.passed@
        }
    }

    fn visit(&mut self, entity: usize, row: &mut Vec<Component>) {
        if row.len() != 2 {
            return;
        }
        match (&row[0], &row[1]) {
            (Component::Moveable(moveable), Component::Clone(run)) => {
                if run.paths.len() > 0 {
                    let mut tiles = lay_path(self.colliders, run, moveable.end_cell);
                    self.tiles.append(&mut tiles);
                    let played = if run.current_move < run.paths.len() {
                        run.current_move
                    } else {
                        run.paths.len()
                    };
                    let mut i: usize = 0;
                    while i < played
                        invariant
                            i <= played <= run.paths@.len(),
                            self.colliders == old(self).colliders,
                            self.tiles@ == old(self).tiles@ + path_of(
                                old(self).colliders,
                                *run,
                                moveable.end_cell,
                            ),
                            self.passed@ == old(self).passed@ + run.paths@.take(i as int),
                        decreases played - i,
                    {
                        self.passed.push(run.paths[i]);
                        i += 1;
                        assert(self.passed@ =~= old(self).passed@ + run.paths@.take(i as int));
                    }
                    assert(run.paths@.take(run.paths@.len() as int) =~= run.paths@);
                }
            },
            _ => {},
        }
    }
}

/// The pass over the clones, started on the map `colliders` with nothing
/// laid out yet, leaves the store `store` as it is and lays out `tiles`,
/// with the entities `passed` to be drawn no more.
pub open spec fn paths_laid<'a>(
    store: StoreView<Component>,
    colliders: &'a Colliders,
    tiles: Seq<PathTile>,
    passed: Seq<usize>,
) -> bool {
    exists|before: LayPaths<'a>, after: LayPaths<'a>|
        before.colliders == colliders && before.tiles@.len() == 0 && before.passed@.len() == 0
            && after.tiles@ == tiles && after.passed@ == passed && #[trigger] swept(
            store,
            before,
            kinds_of(LayPaths::columns()),
            store,
            after,
        )
}

/// The store after the sprite of `entity` was hidden; the same store where
/// the entity has no sprite, or the store refuses the write.
pub open spec fn hidden(store: StoreView<Component>, entity: int) -> StoreView<Component> {
    match store.slot(SPRITE, entity) {
        Some(Component::Sprite(sprite)) => store.after(
            Call::Rewrite {
                entity,
                kind: SPRITE,
                value: Component::Sprite(Sprite { render: false, ..sprite }),
            },
        ),
        _ => store,
    }
}

/// The store after the sprites of `entities` were hidden, first to last.
pub open spec fn all_hidden(store: StoreView<Component>, entities: Seq<usize>) -> StoreView<
    Component,
>
    decreases entities.len(),
{
    if entities.len() == 0 {
        store
    } else {
        hidden(all_hidden(store, entities.drop_last()), entities.last() as int)
    }
}

/// Hides the sprite of each of `entities` that has one.
pub fn hide_all(world: &mut World<Component>, entities: &Vec<usize>)
    requires
        old(world).wf(),
    ensures
        final(world).wf(),
        final(world)@ == all_hidden(old(world)@, entities@),
        final(world)@.same_shape(old(world)@),
{
    let mut i: usize = 0;
    assert(entities@.take(0) =~= Seq::<usize>::empty());
    while i < entities.len()
        invariant
            i <= entities@.len(),
            world.wf(),
            world@ == all_hidden(old(world)@, entities@.take(i as int)),
            world@.same_shape(old(world)@),
        decreases entities@.len() - i,
    {
        proof {
            assert(entities@.take(i + 1).drop_last() =~= entities@.take(i as int));
            assert(entities@.take(i + 1).last() == entities@[i as int]);
        }
        let entity = entities[i];
        let ghost reached = world@;
        match world.get_component_from_entity_mut(entity, SPRITE) {
            Ok(Some(Component::Sprite(sprite))) => {
                sprite.render = false;
            },
            _ => {},
        }
        proof {
            if reached.write_outcome(entity as int, SPRITE) is Ok && reached.present(
                SPRITE,
                entity as int,
            ) {
                let held = reached.columns[SPRITE].slots;
                assert(held.update(entity as int, held[entity as int]) =~= held);
            }
            assert(world@ =~= hidden(reached, entity as int));
            assert(world@.columns.dom() =~= reached.columns.dom());
        }
        i += 1;
    }
    assert(entities@.take(i as int) =~= entities@);
}

/// The calls that give the entity of each of `tiles` its cell and its
/// sprite, in their order.
pub open spec fn tile_calls(tiles: Seq<PathTile>) -> Seq<Call<Component>> {
    Seq::new(
        2 * tiles.len(),
        |i: int|
            if i % 2 == 0 {
                Call::Attach {
                    entity: tiles[i / 2].path as int,
                    kind: CELL,
                    value: Component::Cell(tiles[i / 2].cell),
                }
            } else {
                Call::Attach {
                    entity: tiles[i / 2].path as int,
                    kind: SPRITE,
                    value: Component::Sprite(tiles[i / 2].sprite),
                }
            },
    )
}

/// Gives the entity of each of `tiles` its cell and its sprite; an entity
/// for which the store refuses is passed over.
pub fn draw_tiles(world: &mut World<Component>, tiles: &Vec<PathTile>)
    requires
        old(world).wf(),
    ensures
        final(world).wf(),
        final(world)@ == old(world)@.after_all(tile_calls(tiles@)),
{
    let ghost calls = tile_calls(tiles@);
    let mut i: usize = 0;
    assert(calls.take(0) =~= Seq::<Call<Component>>::empty());
    while i < tiles.len()
        invariant
            i <= tiles@.len(),
            world.wf(),
            calls == tile_calls(tiles@),
            world@ == old(world)@.after_all(calls.take(2 * i)),
        decreases tiles@.len() - i,
    {
        proof {
            assert(calls.take(2 * i + 1).drop_last() =~= calls.take(2 * i));
            assert(calls.take(2 * i + 2).drop_last() =~= calls.take(2 * i + 1));
            assert(calls.take(2 * i + 1).last() == calls[2 * i]);
            assert(calls.take(2 * i + 2).last() == calls[2 * i + 1]);
        }
        let tile = tiles[i];
        let ghost reached = world@;
        proof {
            assert((2 * i) % 2 == 0 && (2 * i) / 2 == i) by (nonlinear_arith);
            assert((2 * i + 1) % 2 == 1 && (2 * i + 1) / 2 == i) by (nonlinear_arith);
            assert(calls[2 * i] == Call::Attach {
                entity: tile.path as int,
                kind: CELL,
                value: Component::Cell(tile.cell),
            });
            assert(calls[2 * i + 1] == Call::Attach {
                entity: tile.path as int,
                kind: SPRITE,
                value: Component::Sprite(tile.sprite),
            });
        }
        let _ = world.add_component_to_entity(tile.path, CELL, Component::Cell(tile.cell));
        assert(world@ == reached.after(calls[2 * i]));
        let ghost placed = world@;
        let _ = world.add_component_to_entity(tile.path, SPRITE, Component::Sprite(tile.sprite));
        assert(world@ == placed.after(calls[2 * i + 1]));
        proof {
            let start = old(world)@;
            assert(calls.len() == 2 * tiles@.len());
            assert(start.after_all(calls.take(2 * i + 1)) == start.after_all(
                calls.take(2 * i + 1).drop_last(),
            ).after(calls.take(2 * i + 1).last()));
            assert(start.after_all(calls.take(2 * i + 2)) == start.after_all(
                calls.take(2 * i + 2).drop_last(),
            ).after(calls.take(2 * i + 2).last()));
        }
        i += 1;
    }
    assert(calls.take(2 * i) =~= calls);
}

/// What drawing the paths on the map `colliders` can make of the store
/// `start`: the steps that were played are hidden, and the steps to come are
/// drawn where they will lead.
pub open spec fn paths_updated<'a>(
    start: StoreView<Component>,
    colliders: &'a Colliders,
    end: StoreView<Component>,
) -> bool {
    exists|tiles: Seq<PathTile>, passed: Seq<usize>| #[trigger]
        paths_laid(start, colliders, tiles, passed) && end == all_hidden(start, passed).after_all(
            tile_calls(tiles),
        )
}

/// Draws the path of every clone anew: hides the steps that were played,
/// and puts the next steps where they will lead. The pass is refused, and
/// nothing changes, where one of its borrows is refused.
pub fn update_paths(world: &mut World<Component>, colliders: &Colliders) -> (updated: Result<
    (),
    StoreError,
>)
    requires
        old(world).wf(),
    ensures
        final(world).wf(),
        match updated {
            Ok(_) => old(world)@.pass_outcome(LayPaths::columns()) is Ok && paths_updated(
                old(world)@,
                colliders,
                final(world)@,
            ),
            Err(e) => old(world)@.pass_outcome(LayPaths::columns()) == Err::<(), StoreError>(e)
                && final(world)@ == old(world)@,
        },
{
    let request = LayPaths::request();
    let mut system = LayPaths { colliders, tiles: Vec::new(), passed: Vec::new() };
    let ghost before = system;
    match world.iterate_entities_with_id(&request, &mut system) {
        Ok(_) => {
            proof {
                assert(swept(old(world)@, before, kinds_of(request@), world@, system));
                lemma_paths_keep_store(old(world)@, before, world@.entity_count as int, world@, system);
                assert(paths_laid(old(world)@, colliders, system.tiles@, system.passed@));
            }
            hide_all(world, &system.passed);
            draw_tiles(world, &system.tiles);
            Ok(())
        },
        Err(e) => Err(e),
    }
}

/// The pass reads the store and leaves it as it is.
proof fn lemma_paths_keep_store<'a>(
    start: StoreView<Component>,
    before: LayPaths<'a>,
    bound: int,
    end: StoreView<Component>,
    after: LayPaths<'a>,
)
    requires
        crate::system::swept_below(
            start,
            before,
            kinds_of(LayPaths::columns()),
            bound,
            end,
            after,
        ),
        start.wf(),
    ensures
        end == start,
        after.colliders == before.colliders,
    decreases bound,
{
    let kinds = kinds_of(LayPaths::columns());
    if bound > 0 {
        let (mid, during) = choose|mid: StoreView<Component>, during: LayPaths<'a>|
            crate::system::swept_below(start, before, kinds, bound - 1, mid, during)
                && #[trigger] crate::system::stepped(mid, during, kinds, bound - 1, end, after);
        lemma_paths_keep_store(start, before, bound - 1, mid, during);
        if mid.has_all(kinds, bound - 1) {
            crate::laws::law_row_put_back_changes_nothing(mid, kinds, bound - 1);
        }
    }
}

/// The pass that gathers the steps that every clone has behind it.
pub struct GatherTrails {
    /// The entities of the steps gathered so far.
    pub behind: Vec<usize>,
}

/// The entities of the steps that `run` has behind it, the step that is
/// played next among them.
pub open spec fn trail_behind(run: crate::game::clones::Clone) -> Seq<usize> {
    if run.current_move < run.paths@.len() {
        run.paths@.take(run.current_move + 1)
    } else {
        run.paths@
    }
}

impl GatherTrails {
    /// The columns that the pass asks for: the clone, to be read.
    pub open spec fn columns() -> Seq<Access> {
        seq![Access { kind: CLONE, mode: AccessMode::Read }]
    }

    /// The columns that the pass asks for.
    pub fn request() -> (request: Vec<Access>)
        ensures
            request@ == Self::columns(),
    {
        vec![Access { kind: CLONE, mode: AccessMode::Read }]
    }
}

impl System<Component> for GatherTrails {
    open spec fn visits(
        before: Self,
        entity: int,
        row: Seq<Component>,
        after: Self,
        rewritten: Seq<Component>,
    ) -> bool {
        &&& rewritten == row
        &&& if row.len() == 1 && row[0] is Clone {
            after.behind@ == before.behind@ + trail_behind(row[0]->Clone_0)
        } else {
            after.behind@ == before.behind@
        }
    }

    fn visit(&mut self, entity: usize, row: &mut Vec<Component>) {
        if row.len() != 1 {
            return;
        }
        match &row[0] {
            Component::Clone(run) => {
                let played = if run.current_move < run.paths.len() {
                    run.current_move + 1
                } else {
                    run.paths.len()
                };
                let mut i: usize = 0;
                while i < played
                    invariant
                        i <= played <= run.paths@.len(),
                        self.behind@ == old(self).behind@ + run.paths@.take(i as int),
                    decreases played - i,
                {
                    self.behind.push(run.paths[i]);
                    i += 1;
                    assert(self.behind@ =~= old(self).behind@ + run.paths@.take(i as int));
                }
                assert(run.paths@.take(run.paths@.len() as int) =~= run.paths@);
            },
            _ => {},
        }
    }
}

/// The pass over the clones, started with nothing gathered, leaves the
/// store `store` as it is and gathers `behind`.
pub open spec fn trails_gathered(store: StoreView<Component>, behind: Seq<usize>) -> bool {
    exists|before: GatherTrails, after: GatherTrails|
        before.behind@.len() == 0 && after.behind@ == behind && #[trigger] swept(
            store,
            before,
            kinds_of(GatherTrails::columns()),
            store,
            after,
        )
}

/// What hiding the steps behind the clones can make of the store `start`.
pub open spec fn trails_hidden(start: StoreView<Component>, end: StoreView<Component>) -> bool {
    exists|behind: Seq<usize>| #[trigger]
        trails_gathered(start, behind) && end == all_hidden(start, behind)
}

/// Hides the steps that every clone has behind it, the step that is played
/// next among them. The pass is refused, and nothing changes, where its
/// borrow is refused.
pub fn render_upcoming_trails(world: &mut World<Component>) -> (rendered: Result<(), StoreError>)
    requires
        old(world).wf(),
    ensures
        final(world).wf(),
        final(world)@.same_shape(old(world)@),
        match rendered {
            Ok(_) => old(world)@.pass_outcome(GatherTrails::columns()) is Ok && trails_hidden(
                old(world)@,
                final(world)@,
            ),
            Err(e) => old(world)@.pass_outcome(GatherTrails::columns()) == Err::<(), StoreError>(e)
                && final(world)@ == old(world)@,
        },
{
    let request = GatherTrails::request();
    let mut system = GatherTrails { behind: Vec::new() };
    let ghost before = system;
    match world.iterate_entities_with_id(&request, &mut system) {
        Ok(_) => {
            proof {
                assert(swept(old(world)@, before, kinds_of(request@), world@, system));
                lemma_trails_keep_store(old(world)@, before, world@.entity_count as int, world@, system);
                assert(trails_gathered(old(world)@, system.behind@));
            }
            hide_all(world, &system.behind);
            Ok(())
        },
        Err(e) => Err(e),
    }
}

/// The pass reads the store and leaves it as it is.
proof fn lemma_trails_keep_store(
    start: StoreView<Component>,
    before: GatherTrails,
    bound: int,
    end: StoreView<Component>,
    after: GatherTrails,
)
    requires
        crate::system::swept_below(
            start,
            before,
            kinds_of(GatherTrails::columns()),
            bound,
            end,
            after,
        ),
        start.wf(),
    ensures
        end == start,
    decreases bound,
{
    let kinds = kinds_of(GatherTrails::columns());
    if bound > 0 {
        let (mid, during) = choose|mid: StoreView<Component>, during: GatherTrails|
            crate::system::swept_below(start, before, kinds, bound - 1, mid, during)
                && #[trigger] crate::system::stepped(mid, during, kinds, bound - 1, end, after);
        lemma_trails_keep_store(start, before, bound - 1, mid, during);
        if mid.has_all(kinds, bound - 1) {
            crate::laws::law_row_put_back_changes_nothing(mid, kinds, bound - 1);
        }
    }
}

} // verus!
