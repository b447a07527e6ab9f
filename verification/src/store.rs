//! The component store: entities, columns, and direct access to single slots.

use vstd::prelude::*;
use crate::model::{BorrowState, ColumnView, ComponentKind, StoreError, StoreView};

pub mod borrow;
pub mod query;

verus! {

/// One registered column as it is held in memory.
struct Column<C> {
    kind: ComponentKind,
    slots: Vec<Option<C>>,
    guard: BorrowState,
}

impl<C> Column<C> {
    spec fn model(self) -> ColumnView<C> {
        ColumnView { slots: self.slots@, guard: self.guard }
    }
}

/// Some column of `columns` is registered under `kind`.
spec fn has_kind<C>(columns: Seq<Column<C>>, kind: ComponentKind) -> bool {
    exists|i: int| 0 <= i < columns.len() && (#[trigger] columns[i]).kind == kind
}

/// Where the column of `kind` stands in `columns`.
spec fn index_of<C>(columns: Seq<Column<C>>, kind: ComponentKind) -> int {
    choose|i: int| 0 <= i < columns.len() && (#[trigger] columns[i]).kind == kind
}

/// No two columns share a kind.
spec fn distinct_kinds<C>(columns: Seq<Column<C>>) -> bool {
    forall|i: int, j: int|
        0 <= i < j < columns.len() ==> (#[trigger] columns[i]).kind != (#[trigger] columns[j]).kind
}

/// The columns as a map from kind to column.
spec fn columns_model<C>(columns: Seq<Column<C>>) -> Map<
    ComponentKind,
    ColumnView<C>,
> {
    Map::new(
        |k: ComponentKind| has_kind(columns, k),
        |k: ComponentKind| columns[index_of(columns, k)].model(),
    )
}

/// The entities marked as deleted in `alive`.
spec fn deleted_model(alive: Seq<bool>) -> Set<int> {
    Set::new(|e: int| 0 <= e < alive.len() && !alive[e])
}

/// In a list of columns with distinct kinds, the column at `i` is the one the
/// map holds under its kind.
proof fn lemma_column_at<C>(columns: Seq<Column<C>>, i: int)
    requires
        distinct_kinds(columns),
        0 <= i < columns.len(),
    ensures
        has_kind(columns, columns[i].kind),
        index_of(columns, columns[i].kind) == i,
        columns_model(columns).contains_key(columns[i].kind),
        columns_model(columns)[columns[i].kind] == columns[i].model(),
{
    let k = columns[i].kind;
    let j = index_of(columns, k);
    assert(0 <= j < columns.len() && columns[j].kind == k);
    if j < i {
        assert(columns[j].kind != columns[i].kind);
    } else if i < j {
        assert(columns[i].kind != columns[j].kind);
    }
}

/// Columns that keep their kinds, place by place, are found at the same places.
proof fn lemma_same_kinds<C>(before: Seq<Column<C>>, after: Seq<Column<C>>)
    requires
        distinct_kinds(before),
        before.len() == after.len(),
        forall|i: int| 0 <= i < before.len() ==> (#[trigger] after[i]).kind == before[i].kind,
    ensures
        distinct_kinds(after),
        forall|k: ComponentKind| has_kind(after, k) == has_kind(before, k),
        forall|k: ComponentKind| #[trigger]
            has_kind(before, k) ==> index_of(after, k) == index_of(before, k),
{
    assert forall|i: int, j: int| 0 <= i < j < after.len() implies (#[trigger] after[i]).kind != (
    #[trigger] after[j]).kind by {
        assert(before[i].kind != before[j].kind);
    }
    assert forall|k: ComponentKind| has_kind(after, k) == has_kind(before, k) by {
        if has_kind(after, k) {
            let i = index_of(after, k);
            assert(before[i].kind == k);
        }
        if has_kind(before, k) {
            let i = index_of(before, k);
            assert(after[i].kind == k);
        }
    }
    assert forall|k: ComponentKind| #[trigger] has_kind(before, k) implies index_of(after, k)
        == index_of(before, k) by {
        let i = index_of(before, k);
        assert(after[i].kind == k);
        lemma_column_at(after, i);
    }
}

/// Replacing one column by a column of the same kind replaces its entry in
/// the map.
proof fn lemma_replace_column<C>(before: Seq<Column<C>>, i: int, column: Column<C>)
    requires
        distinct_kinds(before),
        0 <= i < before.len(),
        column.kind == before[i].kind,
    ensures
        distinct_kinds(before.update(i, column)),
        columns_model(before.update(i, column)) == columns_model(before).insert(
            column.kind,
            column.model(),
        ),
{
    let after = before.update(i, column);
    lemma_same_kinds(before, after);
    lemma_column_at(before, i);
    lemma_column_at(after, i);
    assert forall|k: ComponentKind| #[trigger] has_kind(before, k) && k != column.kind implies
        columns_model(after)[k] == columns_model(before)[k] by {
        let j = index_of(before, k);
        assert(before[j].kind == k);
        assert(after[j] == before[j]);
    }
    assert(columns_model(after) =~= columns_model(before).insert(column.kind, column.model()));
}

/// Appending a column of a kind that is not registered yet adds its entry to
/// the map.
proof fn lemma_push_column<C>(before: Seq<Column<C>>, column: Column<C>)
    requires
        distinct_kinds(before),
        !has_kind(before, column.kind),
    ensures
        distinct_kinds(before.push(column)),
        columns_model(before.push(column)) == columns_model(before).insert(
            column.kind,
            column.model(),
        ),
{
    let after = before.push(column);
    assert forall|i: int, j: int| 0 <= i < j < after.len() implies (#[trigger] after[i]).kind != (
    #[trigger] after[j]).kind by {
        if j == before.len() {
            assert(before[i].kind != column.kind);
        } else {
            assert(before[i].kind != before[j].kind);
        }
    }
    let last = before.len() as int;
    assert(after[last].kind == column.kind);
    lemma_column_at(after, last);
    assert forall|k: ComponentKind| has_kind(after, k) == (has_kind(before, k) || k
        == column.kind) by {
        if has_kind(after, k) && k != column.kind {
            let i = index_of(after, k);
            assert(before[i].kind == k);
        }
        if has_kind(before, k) {
            let i = index_of(before, k);
            assert(after[i].kind == k);
        }
    }
    assert forall|k: ComponentKind| #[trigger] has_kind(before, k) implies columns_model(after)[k]
        == columns_model(before)[k] by {
        let j = index_of(before, k);
        assert(after[j].kind == k);
        lemma_column_at(after, j);
    }
    assert(columns_model(after) =~= columns_model(before).insert(column.kind, column.model()));
}

/// A type-erased, column-oriented component store.
///
/// `C` is the type of a component value; a column is registered per
/// component kind on the first attach, and every column has one optional
/// slot per entity.
pub struct World<C> {
    alive: Vec<bool>,
    columns: Vec<Column<C>>,
}

impl<C> View for World<C> {
    type V = StoreView<C>;

    closed spec fn view(&self) -> StoreView<C> {
        StoreView {
            entity_count: self.alive@.len(),
            deleted: deleted_model(self.alive@),
            columns: columns_model(self.columns@),
        }
    }
}

impl<C> World<C> {
    /// The invariant of the representation: no kind is registered twice,
    /// every column has a slot per entity, a deleted entity holds nothing.
    pub closed spec fn repr_ok(self) -> bool {
        &&& distinct_kinds(self.columns@)
        &&& forall|i: int|
            0 <= i < self.columns@.len() ==> (#[trigger] self.columns@[i]).slots@.len()
                == self.alive@.len()
        &&& forall|i: int, e: int|
            0 <= i < self.columns@.len() && 0 <= e < self.alive@.len() && !self.alive@[e]
                ==> (#[trigger] self.columns@[i].slots@[e]) is None
        &&& forall|i: int|
            0 <= i < self.columns@.len() ==> !((#[trigger] self.columns@[i]).guard matches BorrowState::Shared(
                n,
            ) && n == 0)
    }

    /// The kinds of the columns, in the order in which they were registered.
    spec fn kinds(self) -> Seq<ComponentKind> {
        Seq::new(self.columns@.len(), |i: int| self.columns@[i].kind)
    }

    /// The store is well formed: every operation asks for this and keeps it.
    pub open spec fn wf(self) -> bool {
        self.repr_ok() && self@.wf()
    }

    /// The invariant of the representation gives the invariant of the model.
    proof fn lemma_repr_gives_wf(self)
        requires
            self.repr_ok(),
        ensures
            self@.wf(),
    {
        let cols = self.columns@;
        assert forall|k: ComponentKind| #[trigger] self@.columns.contains_key(k) implies {
            &&& self@.columns[k].slots.len() == self@.entity_count
            &&& !(self@.columns[k].guard matches BorrowState::Shared(n) && n == 0)
        } by {
            let i = index_of(cols, k);
            assert(cols[i].kind == k);
        }
        assert forall|k: ComponentKind, e: int|
            self@.columns.contains_key(k) && self@.deleted.contains(e) implies (
        #[trigger] self@.columns[k].slots[e]) is None by {
            let i = index_of(cols, k);
            assert(cols[i].kind == k);
            assert(cols[i].slots@[e] is None);
        }
    }

    /// `after` is this store with the occupied slot of `entity` in the column
    /// at place `i` holding another value, and nothing else changed.
    spec fn slot_rewritten(self, after: World<C>, i: int, entity: int) -> bool {
        &&& after.alive == self.alive
        &&& after.columns@ == self.columns@.update(i, after.columns@[i])
        &&& after.columns@[i].kind == self.columns@[i].kind
        &&& after.columns@[i].guard == self.columns@[i].guard
        &&& after.columns@[i].slots@ == self.columns@[i].slots@.update(
            entity,
            after.columns@[i].slots@[entity],
        )
        &&& after.columns@[i].slots@[entity] is Some
        &&& self.columns@[i].slots@[entity] is Some
    }

    proof fn lemma_slot_rewritten(self, after: World<C>, i: int, entity: int)
        requires
            self.wf(),
            0 <= i < self.columns@.len(),
            0 <= entity < self.alive@.len(),
            self.slot_rewritten(after, i, entity),
        ensures
            after.wf(),
            after@ == self@.with_component(
                entity,
                self.columns@[i].kind,
                after.columns@[i].slots@[entity]->0,
            ),
    {
        let kind = self.columns@[i].kind;
        lemma_column_at(self.columns@, i);
        lemma_replace_column(self.columns@, i, after.columns@[i]);
        assert(after@.columns =~= self@.with_component(
            entity,
            kind,
            after.columns@[i].slots@[entity]->0,
        ).columns);
        assert(after.repr_ok()) by {
            assert forall|j: int, e: int|
                0 <= j < after.columns@.len() && 0 <= e < after.alive@.len() && !after.alive@[e]
                implies (#[trigger] after.columns@[j].slots@[e]) is None by {
                assert(self.columns@[j].slots@[e] is None);
            }
        }
        after.lemma_repr_gives_wf();
    }

    /// A store with no entity and no column.
    pub fn new() -> (world: Self)
        ensures
            world.wf(),
            world@ == StoreView::<C>::empty(),
    {
        let world = World { alive: Vec::new(), columns: Vec::new() };
        assert(world@.columns =~= Map::empty());
        assert(world@.deleted =~= Set::empty());
        world
    }

    /// The number of entities created so far; entity indices run below it.
    pub fn entity_count(&self) -> (count: usize)
        ensures
            count == self@.entity_count,
    {
        self.alive.len()
    }

    /// Where the column of `kind` stands, if it is registered.
    fn find(&self, kind: ComponentKind) -> (found: Option<usize>)
        requires
            self.wf(),
        ensures
            match found {
                Some(i) => i < self.columns@.len() && self.columns@[i as int].kind == kind
                    && self@.registered(kind) && self@.columns[kind]
                    == self.columns@[i as int].model(),
                None => !self@.registered(kind),
            },
    {
        let mut i: usize = 0;
        while i < self.columns.len()
            invariant
                i <= self.columns@.len(),
                forall|j: int| 0 <= j < i ==> (#[trigger] self.columns@[j]).kind != kind,
                distinct_kinds(self.columns@),
            decreases self.columns@.len() - i,
        {
            if self.columns[i].kind == kind {
                proof {
                    lemma_column_at(self.columns@, i as int);
                }
                return Some(i);
            }
            i += 1;
        }
        None
    }

    /// Whether no column has a borrow outstanding: only then can entities
    /// be created.
    pub fn is_unborrowed(&self) -> (free: bool)
        requires
            self.wf(),
        ensures
            free == self@.unborrowed(),
    {
        self.all_free()
    }

    /// Whether no column has a borrow outstanding.
    fn all_free(&self) -> (free: bool)
        requires
            self.wf(),
        ensures
            free == self@.unborrowed(),
    {
        let mut i: usize = 0;
        while i < self.columns.len()
            invariant
                i <= self.columns@.len(),
                distinct_kinds(self.columns@),
                forall|j: int| 0 <= j < i ==> (#[trigger] self.columns@[j]).guard is Free,
            decreases self.columns@.len() - i,
        {
            match self.columns[i].guard {
                BorrowState::Free => {},
                _ => {
                    proof {
                        lemma_column_at(self.columns@, i as int);
                        assert(self@.registered(self.columns@[i as int].kind));
                    }
                    return false;
                },
            }
            i += 1;
        }
        proof {
            assert forall|k: ComponentKind| #[trigger] self@.registered(k) implies self@.columns[k].guard is Free by {
                let j = index_of(self.columns@, k);
                assert(self.columns@[j].kind == k);
            }
        }
        true
    }

    /// Creates an entity: every registered column grows by one empty slot,
    /// and the new entity's index is returned. Since this writes to every
    /// column, it is refused with `BorrowConflict` while any column is
    /// borrowed, and the store is then left as it was.
    pub fn new_entity(&mut self) -> (created: Result<usize, StoreError>)
        requires
            old(self).wf(),
        ensures
            final(self).wf(),
            match created {
                Ok(entity) => old(self)@.unborrowed() && entity == old(self)@.entity_count
                    && final(self)@ == old(self)@.with_new_entity(),
                Err(e) => !old(self)@.unborrowed() && e == StoreError::BorrowConflict && final(self)@ == old(self)@,
            },
    {
        if !self.all_free() {
            return Err(StoreError::BorrowConflict);
        }
        let entity = self.alive.len();
        let ghost before = self.columns@;
        let mut i: usize = 0;
        while i < self.columns.len()
            invariant
                i <= self.columns@.len(),
                self.columns@.len() == before.len(),
                self.alive == old(self).alive,
                forall|j: int|
                    0 <= j < before.len() ==> (#[trigger] self.columns@[j]).kind == before[j].kind
                        && self.columns@[j].guard == before[j].guard,
                forall|j: int|
                    0 <= j < i ==> (#[trigger] self.columns@[j]).slots@ == before[j].slots@.push(
                        None,
                    ),
                forall|j: int| i <= j < before.len() ==> (#[trigger] self.columns@[j]) == before[j],
            decreases self.columns@.len() - i,
        {
            self.columns[i].slots.push(None);
            i += 1;
        }
        self.alive.push(true);
        proof {
            lemma_same_kinds(before, self.columns@);
            let grown = old(self)@.with_new_entity();
            assert(self@.deleted =~= grown.deleted);
            assert forall|k: ComponentKind| #[trigger] has_kind(before, k) implies columns_model(
                self.columns@,
            )[k] == grown.columns[k] by {
                let j = index_of(before, k);
                assert(before[j].kind == k);
            }
            assert(self@.columns =~= grown.columns);
            assert(self.repr_ok());
            self.lemma_repr_gives_wf();
        }
        Ok(entity)
    }

    /// What the column at place `i` holds for `entity`.
    fn slot_at(&self, i: usize, entity: usize) -> (found: Option<&C>)
        requires
            self.wf(),
            i < self.columns@.len(),
            entity < self.alive@.len(),
        ensures
            match found {
                Some(value) => self@.slot(self.columns@[i as int].kind, entity as int) == Some(
                    *value,
                ),
                None => self@.slot(self.columns@[i as int].kind, entity as int) is None,
            },
    {
        proof {
            lemma_column_at(self.columns@, i as int);
        }
        self.columns[i].slots[entity].as_ref()
    }

    /// What the column at place `i` holds for `entity`, to be changed in
    /// place.
    fn slot_mut_at(&mut self, i: usize, entity: usize) -> (found: Option<&mut C>)
        requires
            old(self).wf(),
            i < old(self).columns@.len(),
            entity < old(self).alive@.len(),
        ensures
            final(self).wf(),
            match found {
                Some(value) => old(self)@.slot(old(self).columns@[i as int].kind, entity as int)
                    == Some(*value) && final(self)@ == old(self)@.with_component(
                    entity as int,
                    old(self).columns@[i as int].kind,
                    *final(value),
                ),
                None => old(self)@.slot(old(self).columns@[i as int].kind, entity as int) is None
                    && final(self)@ == old(self)@,
            },
    {
        proof {
            lemma_column_at(self.columns@, i as int);
        }
        if self.columns[i].slots[entity].is_none() {
            return None;
        }
        proof {
            let before = *self;
            assert forall|after: World<C>|
                #![trigger after.wf()]
                #![trigger after@]
                before.slot_rewritten(after, i as int, entity as int) implies after.wf() && after@
                == before@.with_component(
                entity as int,
                before.columns@[i as int].kind,
                after.columns@[i as int].slots@[entity as int]->0,
            ) by {
                before.lemma_slot_rewritten(after, i as int, entity as int);
            }
        }
        self.columns[i].slots[entity].as_mut()
    }

    /// Overwrites what the column at place `i` holds for `entity`.
    fn set_slot_at(&mut self, i: usize, entity: usize, value: Option<C>)
        requires
            old(self).wf(),
            i < old(self).columns@.len(),
            entity < old(self).alive@.len(),
            value is Some ==> old(self).alive@[entity as int],
        ensures
            final(self).wf(),
            final(self).kinds() == old(self).kinds(),
            final(self)@ == old(self)@.with_slot(
                entity as int,
                old(self).columns@[i as int].kind,
                value,
            ),
    {
        let ghost before = self.columns@;
        self.columns[i].slots[entity] = value;
        proof {
            lemma_column_at(before, i as int);
            lemma_replace_column(before, i as int, self.columns@[i as int]);
            assert(self@.columns =~= old(self)@.with_slot(
                entity as int,
                before[i as int].kind,
                value,
            ).columns);
            assert(self.repr_ok());
            self.lemma_repr_gives_wf();
            assert(self.kinds() =~= old(self).kinds());
        }
    }

    /// Takes what the column at place `i` holds for `entity` out of the
    /// store.
    fn take_slot_at(&mut self, i: usize, entity: usize) -> (taken: Option<C>)
        requires
            old(self).wf(),
            i < old(self).columns@.len(),
            entity < old(self).alive@.len(),
        ensures
            final(self).wf(),
            final(self).kinds() == old(self).kinds(),
            taken == old(self)@.slot(old(self).columns@[i as int].kind, entity as int),
            final(self)@ == old(self)@.with_slot(
                entity as int,
                old(self).columns@[i as int].kind,
                None,
            ),
    {
        let ghost before = self.columns@;
        let taken = self.columns[i].slots[entity].take();
        proof {
            lemma_column_at(before, i as int);
            lemma_replace_column(before, i as int, self.columns@[i as int]);
            assert(self@.columns =~= old(self)@.with_slot(
                entity as int,
                before[i as int].kind,
                None,
            ).columns);
            assert(self.repr_ok());
            self.lemma_repr_gives_wf();
            assert(self.kinds() =~= old(self).kinds());
        }
        taken
    }

    /// Whether `entity`, which was created, has not been deleted.
    fn is_alive(&self, entity: usize) -> (alive: bool)
        requires
            self.wf(),
            entity < self.alive@.len(),
        ensures
            alive == !self@.deleted.contains(entity as int),
    {
        self.alive[entity]
    }

    /// Whether the column at place `i` has no borrow outstanding.
    fn is_free_at(&self, i: usize) -> (free: bool)
        requires
            self.wf(),
            i < self.columns@.len(),
        ensures
            free == self@.guard(self.columns@[i as int].kind).writable(),
    {
        proof {
            lemma_column_at(self.columns@, i as int);
        }
        match self.columns[i].guard {
            BorrowState::Free => true,
            _ => false,
        }
    }

    /// Replaces the guard of the column at place `i`.
    fn set_guard(&mut self, i: usize, guard: BorrowState)
        requires
            old(self).wf(),
            i < old(self).columns@.len(),
            !(guard matches BorrowState::Shared(n) && n == 0),
        ensures
            final(self).wf(),
            final(self)@ == old(self)@.with_guard(old(self).columns@[i as int].kind, guard),
    {
        let ghost before = self.columns@;
        self.columns[i].guard = guard;
        proof {
            lemma_column_at(before, i as int);
            lemma_replace_column(before, i as int, self.columns@[i as int]);
            assert(self@.columns =~= old(self)@.with_guard(before[i as int].kind, guard).columns);
            assert(self.repr_ok());
            self.lemma_repr_gives_wf();
        }
    }

    /// Direct access to what `entity` holds of `kind`, to be changed in
    /// place: `None` where the entity has no such component.
    pub fn get_component_from_entity_mut(&mut self, entity: usize, kind: ComponentKind) -> (found:
        Result<Option<&mut C>, StoreError>)
        requires
            old(self).wf(),
        ensures
            final(self).wf(),
            match found {
                Ok(Some(value)) => old(self)@.write_outcome(entity as int, kind) is Ok
                    && old(self)@.slot(kind, entity as int) == Some(*value) && final(self)@
                    == old(self)@.with_component(entity as int, kind, *final(value)),
                Ok(None) => old(self)@.write_outcome(entity as int, kind) is Ok && old(self)@.slot(kind, entity as int) is None && final(self)@ == old(self)@,
                Err(e) => old(self)@.write_outcome(entity as int, kind) == Err::<(), StoreError>(e)
                    && final(self)@ == old(self)@,
            },
    {
        if entity >= self.alive.len() {
            return Err(StoreError::OutOfRange);
        }
        match self.find(kind) {
            None => Ok(None),
            Some(i) => {
                if !self.is_free_at(i) {
                    return Err(StoreError::BorrowConflict);
                }
                Ok(self.slot_mut_at(i, entity))
            },
        }
    }

    /// Attaches `value` to `entity` as its component of `kind`, replacing
    /// what it had of that kind. The column is registered first where this is
    /// the first component of its kind, which is refused while any column is
    /// borrowed. On an error the store is left as it was.
    pub fn add_component_to_entity(&mut self, entity: usize, kind: ComponentKind, value: C) -> (attached:
        Result<(), StoreError>)
        requires
            old(self).wf(),
        ensures
            final(self).wf(),
            attached == old(self)@.attach_outcome(entity as int, kind),
            attached is Ok ==> final(self)@ == old(self)@.with_component(
                entity as int,
                kind,
                value,
            ),
            attached is Err ==> final(self)@ == old(self)@,
    {
        if entity >= self.alive.len() {
            return Err(StoreError::OutOfRange);
        }
        if !self.alive[entity] {
            return Err(StoreError::Deleted);
        }
        let ghost before = self.columns@;
        match self.find(kind) {
            Some(i) => {
                if !self.is_free_at(i) {
                    return Err(StoreError::BorrowConflict);
                }
                self.set_slot_at(i, entity, Some(value));
            },
            None => {
                if !self.all_free() {
                    return Err(StoreError::BorrowConflict);
                }
                let mut slots: Vec<Option<C>> = Vec::new();
                let mut n: usize = 0;
                while n < self.alive.len()
                    invariant
                        n <= self.alive@.len(),
                        slots@ == Seq::new(n as nat, |e: int| None::<C>),
                    decreases self.alive@.len() - n,
                {
                    slots.push(None);
                    n += 1;
                    assert(slots@ =~= Seq::new(n as nat, |e: int| None::<C>));
                }
                slots[entity] = Some(value);
                let column = Column { kind, slots, guard: BorrowState::Free };
                proof {
                    lemma_push_column(before, column);
                }
                self.columns.push(column);
                proof {
                    assert(self@.columns =~= old(self)@.with_component(
                        entity as int,
                        kind,
                        value,
                    ).columns);
                    assert(self.repr_ok());
                    self.lemma_repr_gives_wf();
                }
            },
        }
        Ok(())
    }

    /// Clears what `entity` holds of `kind`. Where no column is registered
    /// for `kind`, or the slot is empty already, nothing changes.
    pub fn remove_component_from_entity(&mut self, entity: usize, kind: ComponentKind) -> (removed:
        Result<(), StoreError>)
        requires
            old(self).wf(),
        ensures
            final(self).wf(),
            removed == old(self)@.write_outcome(entity as int, kind),
            removed is Ok ==> final(self)@ == old(self)@.without_component(entity as int, kind),
            removed is Err ==> final(self)@ == old(self)@,
    {
        if entity >= self.alive.len() {
            return Err(StoreError::OutOfRange);
        }
        match self.find(kind) {
            Some(i) => {
                if !self.is_free_at(i) {
                    return Err(StoreError::BorrowConflict);
                }
                self.set_slot_at(i, entity, None);
            },
            None => {},
        }
        Ok(())
    }

    /// Direct access to what `entity` holds of `kind`, without a pass over
    /// the store: `None` where the entity has no such component.
    pub fn get_component_from_entity(&self, entity: usize, kind: ComponentKind) -> (found: Result<
        Option<&C>,
        StoreError,
    >)
        requires
            self.wf(),
        ensures
            match found {
                Ok(Some(value)) => self@.read_outcome(entity as int, kind) is Ok && self@.slot(
                    kind,
                    entity as int,
                ) == Some(*value),
                Ok(None) => self@.read_outcome(entity as int, kind) is Ok && self@.slot(
                    kind,
                    entity as int,
                ) is None,
                Err(e) => self@.read_outcome(entity as int, kind) == Err::<(), StoreError>(e),
            },
    {
        if entity >= self.alive.len() {
            return Err(StoreError::OutOfRange);
        }
        match self.find(kind) {
            None => Ok(None),
            Some(i) => {
                match self.columns[i].guard {
                    BorrowState::Exclusive => Err(StoreError::BorrowConflict),
                    _ => Ok(self.slot_at(i, entity)),
                }
            },
        }
    }

    /// Deletes `entity`: its slot is cleared in every column, and nothing can
    /// be attached to it afterwards. Its index is not handed out again.
    /// Since this writes to every column, it is refused with
    /// `BorrowConflict` while any column is borrowed.
    pub fn delete_entity(&mut self, entity: usize) -> (deleted: Result<(), StoreError>)
        requires
            old(self).wf(),
        ensures
            final(self).wf(),
            deleted == old(self)@.delete_outcome(entity as int),
            deleted is Ok ==> final(self)@ == old(self)@.without_entity(entity as int),
            deleted is Err ==> final(self)@ == old(self)@,
    {
        if entity >= self.alive.len() {
            return Err(StoreError::OutOfRange);
        }
        if !self.all_free() {
            return Err(StoreError::BorrowConflict);
        }
        let ghost before = self.columns@;
        let mut i: usize = 0;
        while i < self.columns.len()
            invariant
                i <= self.columns@.len(),
                self.columns@.len() == before.len(),
                self.alive == old(self).alive,
                entity < self.alive@.len(),
                forall|j: int|
                    0 <= j < before.len() ==> (#[trigger] before[j]).slots@.len()
                        == self.alive@.len(),
                forall|j: int|
                    0 <= j < before.len() ==> (#[trigger] self.columns@[j]).kind == before[j].kind
                        && self.columns@[j].guard == before[j].guard,
                forall|j: int|
                    0 <= j < i ==> (#[trigger] self.columns@[j]).slots@ == before[j].slots@.update(
                        entity as int,
                        None,
                    ),
                forall|j: int| i <= j < before.len() ==> (#[trigger] self.columns@[j]) == before[j],
            decreases self.columns@.len() - i,
        {
            self.columns[i].slots[entity] = None;
            i += 1;
        }
        self.alive[entity] = false;
        proof {
            lemma_same_kinds(before, self.columns@);
            let cleared = old(self)@.without_entity(entity as int);
            assert(self@.deleted =~= cleared.deleted);
            assert forall|k: ComponentKind| #[trigger] has_kind(before, k) implies columns_model(
                self.columns@,
            )[k] == cleared.columns[k] by {
                let j = index_of(before, k);
                assert(before[j].kind == k);
            }
            assert(self@.columns =~= cleared.columns);
            assert(self.repr_ok()) by {
                assert forall|j: int, e: int|
                    0 <= j < self.columns@.len() && 0 <= e < self.alive@.len() && !self.alive@[e]
                    implies (#[trigger] self.columns@[j].slots@[e]) is None by {
                    if e != entity {
                        assert(before[j].slots@[e] is None);
                    }
                }
            }
            self.lemma_repr_gives_wf();
        }
        Ok(())
    }
}

} // verus!
