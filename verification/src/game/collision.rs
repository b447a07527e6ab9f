//! What a tile holds, and what happens to who steps on it.

use vstd::prelude::*;
use crate::game::boxes::BoxType;
use crate::game::common::Cell;

verus! {

/// What stands on a tile.
#[derive(PartialEq, Eq, Structural, Clone, Copy, Debug)]
pub enum Collider {
    Solid,
    /// A box of this type, which is this entity.
    Box(BoxType, usize),
    Empty,
}

/// What a step onto a tile runs into.
#[derive(PartialEq, Eq, Structural, Clone, Copy, Debug)]
pub enum Hit {
    Nothing,
    /// A box that the one who steps can push: this entity.
    Box(usize),
    Solid,
}

/// The colour that no player or clone has: who steps with it pushes only the
/// boxes that anyone can push.
pub const NO_COLOR: u8 = 6;

/// What someone of colour `color` runs into on a tile that holds `collider`:
/// a box of another colour is as good as a wall.
pub open spec fn hit_on(collider: Collider, color: u8) -> Hit {
    match collider {
        Collider::Solid => Hit::Solid,
        Collider::Box(BoxType::Any, entity) => Hit::Box(entity),
        Collider::Box(BoxType::Color(c), entity) => if c == color {
            Hit::Box(entity)
        } else {
            Hit::Solid
        },
        Collider::Empty => Hit::Nothing,
    }
}

/// What stands on each tile of the map, column by column.
pub struct Colliders {
    pub columns: Vec<Vec<Collider>>,
}

impl Colliders {
    /// `cell` is a tile of the map.
    pub open spec fn holds(&self, cell: Cell) -> bool {
        &&& 0 <= cell.value.x < self.columns@.len()
        &&& 0 <= cell.value.y < self.columns@[cell.value.x as int]@.len()
    }

    /// What stands on `cell`.
    pub open spec fn at(&self, cell: Cell) -> Collider {
        self.columns@[cell.value.x as int]@[cell.value.y as int]
    }

    /// The map as plain values: the tiles of each column.
    pub open spec fn grid(&self) -> Seq<Seq<Collider>> {
        Seq::new(self.columns@.len(), |x: int| self.columns@[x]@)
    }

    /// A map of `width` columns of `height` tiles, all empty.
    pub fn new(width: usize, height: usize) -> (colliders: Self)
        ensures
            colliders.columns@.len() == width,
            forall|x: int|
                0 <= x < width ==> (#[trigger] colliders.columns@[x])@ == Seq::new(
                    height as nat,
                    |y: int| Collider::Empty,
                ),
    {
        let mut columns: Vec<Vec<Collider>> = Vec::new();
        let mut x: usize = 0;
        while x < width
            invariant
                x <= width,
                columns@.len() == x,
                forall|i: int|
                    0 <= i < x ==> (#[trigger] columns@[i])@ == Seq::new(
                        height as nat,
                        |y: int| Collider::Empty,
                    ),
            decreases width - x,
        {
            let mut column: Vec<Collider> = Vec::new();
            let mut y: usize = 0;
            while y < height
                invariant
                    y <= height,
                    column@ == Seq::new(y as nat, |j: int| Collider::Empty),
                decreases height - y,
            {
                column.push(Collider::Empty);
                y += 1;
                assert(column@ =~= Seq::new(y as nat, |j: int| Collider::Empty));
            }
            columns.push(column);
            x += 1;
        }
        Colliders { columns }
    }

    /// Whether `cell` is a tile of the map.
    pub fn contains(&self, cell: Cell) -> (inside: bool)
        ensures
            inside == self.holds(cell),
    {
        if cell.value.x < 0 || cell.value.y < 0 {
            return false;
        }
        let x = cell.value.x as usize;
        let y = cell.value.y as usize;
        x < self.columns.len() && y < self.columns[x].len()
    }

    /// What stands on `cell`.
    pub fn get(&self, cell: Cell) -> (collider: Collider)
        requires
            self.holds(cell),
        ensures
            collider == self.at(cell),
    {
        self.columns[cell.value.x as usize][cell.value.y as usize]
    }

    /// Puts `collider` on `cell`; no other tile changes.
    pub fn set(&mut self, cell: Cell, collider: Collider)
        requires
            old(self).holds(cell),
        ensures
            final(self).columns@.len() == old(self).columns@.len(),
            forall|c: Cell| old(self).holds(c) == final(self).holds(c),
            final(self).at(cell) == collider,
            forall|c: Cell|
                old(self).holds(c) && c != cell ==> #[trigger] final(self).at(c) == old(self).at(c),
            final(self).grid() == put(old(self).grid(), cell, collider),
    {
        let x = cell.value.x as usize;
        let y = cell.value.y as usize;
        self.columns[x][y] = collider;
        assert forall|c: Cell| old(self).holds(c) == self.holds(c) by {
            if 0 <= c.value.x < self.columns@.len() {
                if c.value.x as int != x as int {
                    assert(self.columns@[c.value.x as int] == old(self).columns@[c.value.x as int]);
                }
            }
        }
        assert forall|c: Cell| old(self).holds(c) && c != cell implies #[trigger] self.at(c)
            == old(self).at(c) by {
            if c.value.x as int != x as int {
                assert(self.columns@[c.value.x as int] == old(self).columns@[c.value.x as int]);
            }
        }
        assert(self.grid() =~= put(old(self).grid(), cell, collider));
    }
}

/// `cell` is a tile of the map `grid`.
pub open spec fn on_grid(grid: Seq<Seq<Collider>>, cell: Cell) -> bool {
    0 <= cell.value.x < grid.len() && 0 <= cell.value.y < grid[cell.value.x as int].len()
}

/// The map `grid` with `collider` on `cell`; the same map where it has no
/// such tile.
pub open spec fn put(grid: Seq<Seq<Collider>>, cell: Cell, collider: Collider) -> Seq<
    Seq<Collider>,
> {
    if on_grid(grid, cell) {
        grid.update(
            cell.value.x as int,
            grid[cell.value.x as int].update(cell.value.y as int, collider),
        )
    } else {
        grid
    }
}

/// The map `grid` after each of `cells` was emptied.
pub open spec fn emptied(grid: Seq<Seq<Collider>>, cells: Seq<Cell>) -> Seq<Seq<Collider>>
    decreases cells.len(),
{
    if cells.len() == 0 {
        grid
    } else {
        put(emptied(grid, cells.drop_last()), cells.last(), Collider::Empty)
    }
}

/// Empties each of `cells` that is a tile of the map.
pub fn empty_tiles(colliders: &mut Colliders, cells: &Vec<Cell>)
    ensures
        final(colliders).grid() == emptied(old(colliders).grid(), cells@),
{
    let mut i: usize = 0;
    assert(cells@.take(0) =~= Seq::<Cell>::empty());
    while i < cells.len()
        invariant
            i <= cells@.len(),
            colliders.grid() == emptied(old(colliders).grid(), cells@.take(i as int)),
        decreases cells@.len() - i,
    {
        proof {
            assert(cells@.take(i + 1).drop_last() =~= cells@.take(i as int));
            assert(cells@.take(i + 1).last() == cells@[i as int]);
        }
        if colliders.contains(cells[i]) {
            colliders.set(cells[i], Collider::Empty);
        }
        i += 1;
    }
    assert(cells@.take(i as int) =~= cells@);
}

/// A box that goes from one tile to another.
#[derive(PartialEq, Eq, Structural, Clone, Copy, Debug)]
pub struct Shift {
    pub from: Cell,
    pub to: Cell,
}

/// What stands on `cell` of the map `grid`; nothing where it has no such
/// tile.
pub open spec fn on(grid: Seq<Seq<Collider>>, cell: Cell) -> Collider {
    if on_grid(grid, cell) {
        grid[cell.value.x as int][cell.value.y as int]
    } else {
        Collider::Empty
    }
}

/// The map `grid` after what stood on the tiles that `shifts` leave was
/// lifted off, first to last.
pub open spec fn lifted(grid: Seq<Seq<Collider>>, shifts: Seq<Shift>) -> Seq<Seq<Collider>>
    decreases shifts.len(),
{
    if shifts.len() == 0 {
        grid
    } else {
        put(lifted(grid, shifts.drop_last()), shifts.last().from, Collider::Empty)
    }
}

/// What was lifted off the map `grid` for each of `shifts`: what stood on the
/// tile it leaves once the shifts before it were lifted.
pub open spec fn carried(grid: Seq<Seq<Collider>>, shifts: Seq<Shift>) -> Seq<Collider> {
    Seq::new(shifts.len(), |i: int| on(lifted(grid, shifts.take(i)), shifts[i].from))
}

/// The map `grid` after `loads` were set down on the tiles that `shifts` go
/// to, first to last.
pub open spec fn set_down(grid: Seq<Seq<Collider>>, shifts: Seq<Shift>, loads: Seq<Collider>) -> Seq<
    Seq<Collider>,
>
    recommends
        loads.len() == shifts.len(),
    decreases shifts.len(),
{
    if shifts.len() == 0 {
        grid
    } else {
        put(
            set_down(grid, shifts.drop_last(), loads.drop_last()),
            shifts.last().to,
            loads.last(),
        )
    }
}

/// The map `grid` after the boxes of `shifts` went where they go: all of
/// them are lifted off before the first is set down.
pub open spec fn shifted(grid: Seq<Seq<Collider>>, shifts: Seq<Shift>) -> Seq<Seq<Collider>> {
    set_down(lifted(grid, shifts), shifts, carried(grid, shifts))
}

/// Moves what stands on the tiles that `shifts` leave to the tiles they go
/// to. All are lifted off before the first is set down; a tile outside the
/// map gives nothing and takes nothing.
pub fn shift_colliders(colliders: &mut Colliders, shifts: &Vec<Shift>)
    ensures
        final(colliders).grid() == shifted(old(colliders).grid(), shifts@),
{
    let ghost start = colliders.grid();
    let mut loads: Vec<Collider> = Vec::new();
    let mut i: usize = 0;
    assert(shifts@.take(0) =~= Seq::<Shift>::empty());
    while i < shifts.len()
        invariant
            i <= shifts@.len(),
            start == old(colliders).grid(),
            colliders.grid() == lifted(start, shifts@.take(i as int)),
            loads@ == carried(start, shifts@.take(i as int)),
        decreases shifts@.len() - i,
    {
        proof {
            assert(shifts@.take(i + 1).drop_last() =~= shifts@.take(i as int));
            assert(shifts@.take(i + 1).last() == shifts@[i as int]);
        }
        let from = shifts[i].from;
        if colliders.contains(from) {
            loads.push(colliders.get(from));
            colliders.set(from, Collider::Empty);
        } else {
            loads.push(Collider::Empty);
        }
        proof {
            let sooner = shifts@.take(i as int);
            let later = shifts@.take(i + 1);
            assert forall|j: int| 0 <= j < later.len() implies later.take(j) == shifts@.take(j) by {
                assert(later.take(j) =~= shifts@.take(j));
            }
            assert forall|j: int| 0 <= j < sooner.len() implies sooner.take(j) == shifts@.take(j) by {
                assert(sooner.take(j) =~= shifts@.take(j));
            }
            assert(loads@ =~= carried(start, later));
        }
        i += 1;
    }
    assert(shifts@.take(i as int) =~= shifts@);
    let ghost bare = colliders.grid();
    let mut k: usize = 0;
    assert(loads@.take(0) =~= Seq::<Collider>::empty());
    while k < shifts.len()
        invariant
            k <= shifts@.len(),
            loads@.len() == shifts@.len(),
            colliders.grid() == set_down(bare, shifts@.take(k as int), loads@.take(k as int)),
        decreases shifts@.len() - k,
    {
        proof {
            assert(shifts@.take(k + 1).drop_last() =~= shifts@.take(k as int));
            assert(loads@.take(k + 1).drop_last() =~= loads@.take(k as int));
        }
        let to = shifts[k].to;
        if colliders.contains(to) {
            colliders.set(to, loads[k]);
        }
        k += 1;
    }
    assert(shifts@.take(k as int) =~= shifts@);
    assert(loads@.take(k as int) =~= loads@);
}

/// What someone of colour `player_color` runs into when stepping onto `cell`.
pub fn check_collision(colliders: &Colliders, player_color: u8, cell: Cell) -> (hit: Hit)
    requires
        colliders.holds(cell),
    ensures
        hit == hit_on(colliders.at(cell), player_color),
{
    match colliders.get(cell) {
        Collider::Solid => Hit::Solid,
        Collider::Box(box_type, id) => {
            match box_type {
                BoxType::Any => Hit::Box(id),
                BoxType::Color(col) => {
                    if col == player_color {
                        Hit::Box(id)
                    } else {
                        Hit::Solid
                    }
                },
            }
        },
        Collider::Empty => Hit::Nothing,
    }
}

} // verus!
