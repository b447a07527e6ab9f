//! The mathematical model of the component store.
//!
//! A store is a table: one column per registered component kind, one row per
//! entity. Everything the executable store promises is stated over the
//! [`StoreView`] defined here and the transitions on it.

use vstd::prelude::*;

verus! {

/// Key of a component type: the identifier under which its column is registered.
pub type ComponentKind = u64;

/// The most shared borrows one column can have outstanding at a time.
pub const MAX_READERS: u16 = 65535;

/// What went wrong in a store operation.
#[derive(Clone, Copy, PartialEq, Eq, Structural, Debug)]
pub enum StoreError {
    /// The entity index is not below the current entity count.
    OutOfRange,
    /// The entity was deleted; nothing can be attached to it any more.
    Deleted,
    /// The access overlaps a borrow that is still outstanding.
    BorrowConflict,
    /// The column already has `MAX_READERS` shared borrows outstanding.
    TooManyReaders,
    /// No column is registered for the component kind.
    NotRegistered,
    /// The guard handed back does not match an outstanding borrow.
    NotBorrowed,
    /// The request of a pass names a component kind twice.
    DuplicateKind,
}

/// The reader/writer guard of one column.
#[derive(Clone, Copy, PartialEq, Eq, Structural, Debug)]
pub enum BorrowState {
    /// No borrow is outstanding.
    Free,
    /// This many shared borrows are outstanding (at least one).
    Shared(u16),
    /// One exclusive borrow is outstanding.
    Exclusive,
}

impl BorrowState {
    /// A read that is not made through a guard is allowed.
    pub open spec fn readable(self) -> bool {
        !(self is Exclusive)
    }

    /// A write that is not made through a guard is allowed.
    pub open spec fn writable(self) -> bool {
        self is Free
    }

    /// The state after one more shared borrow.
    pub open spec fn shared_once_more(self) -> BorrowState {
        match self {
            BorrowState::Free => BorrowState::Shared(1),
            BorrowState::Shared(n) => BorrowState::Shared((n + 1) as u16),
            BorrowState::Exclusive => BorrowState::Exclusive,
        }
    }

    /// The state after one shared borrow ended.
    pub open spec fn shared_once_less(self) -> BorrowState {
        match self {
            BorrowState::Shared(n) => if n <= 1 {
                BorrowState::Free
            } else {
                BorrowState::Shared((n - 1) as u16)
            },
            other => other,
        }
    }
}

/// How a pass over the store wants to reach a column.
#[derive(Clone, Copy, PartialEq, Eq, Structural, Debug)]
pub enum AccessMode {
    /// Read-only: a shared borrow.
    Read,
    /// Read-write: the exclusive borrow.
    Write,
}

/// One requested column of a pass over the store.
#[derive(Clone, Copy, PartialEq, Eq, Structural, Debug)]
pub struct Access {
    pub kind: ComponentKind,
    pub mode: AccessMode,
}

/// The component kinds that `request` names, in its order.
pub open spec fn kinds_of(request: Seq<Access>) -> Seq<ComponentKind> {
    Seq::new(request.len(), |i: int| request[i].kind)
}

/// Entity indices as mathematical integers.
pub open spec fn as_ints(entities: Seq<usize>) -> Seq<int> {
    Seq::new(entities.len(), |i: int| entities[i] as int)
}

/// One column: a slot per entity, and the column's guard.
#[verifier::ext_equal]
pub struct ColumnView<C> {
    pub slots: Seq<Option<C>>,
    pub guard: BorrowState,
}

/// The whole store as a mathematical value.
#[verifier::ext_equal]
pub struct StoreView<C> {
    /// How many entities were ever created.
    pub entity_count: nat,
    /// The entities that were deleted.
    pub deleted: Set<int>,
    /// The registered columns, by component kind.
    pub columns: Map<ComponentKind, ColumnView<C>>,
}

impl<C> ColumnView<C> {
    /// A column of `len` empty slots that nobody has borrowed.
    pub open spec fn vacant(len: nat) -> Self {
        ColumnView { slots: Seq::new(len, |e: int| None::<C>), guard: BorrowState::Free }
    }
}

impl<C> StoreView<C> {
    /// The store with no entity and no column.
    pub open spec fn empty() -> Self {
        StoreView { entity_count: 0, deleted: Set::empty(), columns: Map::empty() }
    }

    /// The invariant of every store: each registered column has exactly one
    /// slot per entity, a deleted entity holds nothing, and a shared guard
    /// counts at least one reader.
    pub open spec fn wf(self) -> bool {
        &&& forall|k: ComponentKind| #[trigger]
            self.columns.contains_key(k) ==> self.columns[k].slots.len() == self.entity_count
        &&& forall|e: int| #[trigger] self.deleted.contains(e) ==> 0 <= e < self.entity_count
        &&& forall|k: ComponentKind, e: int|
            self.columns.contains_key(k) && self.deleted.contains(e)
                ==> (#[trigger] self.columns[k].slots[e]) is None
        &&& forall|k: ComponentKind| #[trigger]
            self.columns.contains_key(k) ==> !(self.columns[k].guard matches BorrowState::Shared(n)
                && n == 0)
    }

    /// A column exists for `kind`.
    pub open spec fn registered(self, kind: ComponentKind) -> bool {
        self.columns.contains_key(kind)
    }

    /// `entity` was created.
    pub open spec fn in_range(self, entity: int) -> bool {
        0 <= entity < self.entity_count
    }

    /// The guard of the column of `kind`; a column that does not exist is free.
    pub open spec fn guard(self, kind: ComponentKind) -> BorrowState {
        if self.registered(kind) {
            self.columns[kind].guard
        } else {
            BorrowState::Free
        }
    }

    /// What `entity` holds of `kind`: nothing where the column or the entity
    /// does not exist.
    pub open spec fn slot(self, kind: ComponentKind, entity: int) -> Option<C> {
        if self.registered(kind) && self.in_range(entity) {
            self.columns[kind].slots[entity]
        } else {
            None
        }
    }

    /// `entity` has a component of `kind`.
    pub open spec fn present(self, kind: ComponentKind, entity: int) -> bool {
        self.slot(kind, entity) is Some
    }

    /// No column has a borrow outstanding.
    pub open spec fn unborrowed(self) -> bool {
        forall|k: ComponentKind| #[trigger] self.registered(k) ==> self.columns[k].guard is Free
    }

    /// `entity` was created and not deleted since.
    pub open spec fn live(self, entity: int) -> bool {
        self.in_range(entity) && !self.deleted.contains(entity)
    }

    /// Whether a component of `kind` may be attached to `entity` now, and the
    /// error if not. A column that exists must not be borrowed; a column
    /// that has to be created first is created only while no column at all
    /// is borrowed.
    pub open spec fn attach_outcome(self, entity: int, kind: ComponentKind) -> Result<
        (),
        StoreError,
    > {
        if !self.in_range(entity) {
            Err(StoreError::OutOfRange)
        } else if self.deleted.contains(entity) {
            Err(StoreError::Deleted)
        } else if !self.guard(kind).writable() {
            Err(StoreError::BorrowConflict)
        } else if !self.registered(kind) && !self.unborrowed() {
            Err(StoreError::BorrowConflict)
        } else {
            Ok(())
        }
    }

    /// Whether the slot of `entity` in the column of `kind` may be written
    /// now without a guard, and the error if not.
    pub open spec fn write_outcome(self, entity: int, kind: ComponentKind) -> Result<
        (),
        StoreError,
    > {
        if !self.in_range(entity) {
            Err(StoreError::OutOfRange)
        } else if !self.guard(kind).writable() {
            Err(StoreError::BorrowConflict)
        } else {
            Ok(())
        }
    }

    /// Whether the slot of `entity` in the column of `kind` may be read now
    /// without a guard, and the error if not.
    pub open spec fn read_outcome(self, entity: int, kind: ComponentKind) -> Result<
        (),
        StoreError,
    > {
        if !self.in_range(entity) {
            Err(StoreError::OutOfRange)
        } else if !self.guard(kind).readable() {
            Err(StoreError::BorrowConflict)
        } else {
            Ok(())
        }
    }

    /// Whether `entity` may be deleted now, and the error if not.
    pub open spec fn delete_outcome(self, entity: int) -> Result<(), StoreError> {
        if !self.in_range(entity) {
            Err(StoreError::OutOfRange)
        } else if !self.unborrowed() {
            Err(StoreError::BorrowConflict)
        } else {
            Ok(())
        }
    }

    /// The store after one more entity was created: every column grew by
    /// one empty slot.
    pub open spec fn with_new_entity(self) -> Self {
        StoreView {
            entity_count: self.entity_count + 1,
            deleted: self.deleted,
            columns: Map::new(
                |k: ComponentKind| self.columns.contains_key(k),
                |k: ComponentKind|
                    ColumnView {
                        slots: self.columns[k].slots.push(None),
                        guard: self.columns[k].guard,
                    },
            ),
        }
    }

    /// The column of `kind`, or the vacant column that registering it now
    /// would create.
    pub open spec fn column_or_vacant(self, kind: ComponentKind) -> ColumnView<C> {
        if self.registered(kind) {
            self.columns[kind]
        } else {
            ColumnView::vacant(self.entity_count)
        }
    }

    /// The store after `value` was written into the slot of `entity` in the
    /// column of `kind`, the column being created first where it is missing.
    pub open spec fn with_component(self, entity: int, kind: ComponentKind, value: C) -> Self {
        let column = self.column_or_vacant(kind);
        StoreView {
            entity_count: self.entity_count,
            deleted: self.deleted,
            columns: self.columns.insert(
                kind,
                ColumnView { slots: column.slots.update(entity, Some(value)), guard: column.guard },
            ),
        }
    }

    /// The store after the slot of `entity` in the column of `kind` was
    /// cleared; the same store where there is no such column.
    pub open spec fn without_component(self, entity: int, kind: ComponentKind) -> Self {
        if self.registered(kind) {
            StoreView {
                entity_count: self.entity_count,
                deleted: self.deleted,
                columns: self.columns.insert(
                    kind,
                    ColumnView {
                        slots: self.columns[kind].slots.update(entity, None),
                        guard: self.columns[kind].guard,
                    },
                ),
            }
        } else {
            self
        }
    }

    /// The store after `entity` was deleted: its slot is cleared in every
    /// column and the entity is marked.
    pub open spec fn without_entity(self, entity: int) -> Self {
        StoreView {
            entity_count: self.entity_count,
            deleted: self.deleted.insert(entity),
            columns: Map::new(
                |k: ComponentKind| self.columns.contains_key(k),
                |k: ComponentKind|
                    ColumnView {
                        slots: self.columns[k].slots.update(entity, None),
                        guard: self.columns[k].guard,
                    },
            ),
        }
    }

    /// The store with the guard of the registered column of `kind` replaced.
    pub open spec fn with_guard(self, kind: ComponentKind, guard: BorrowState) -> Self {
        if self.registered(kind) {
            StoreView {
                entity_count: self.entity_count,
                deleted: self.deleted,
                columns: self.columns.insert(
                    kind,
                    ColumnView { slots: self.columns[kind].slots, guard },
                ),
            }
        } else {
            self
        }
    }

    /// Whether a shared borrow of the column of `kind` can be granted now,
    /// and the error if not.
    pub open spec fn borrow_outcome(self, kind: ComponentKind) -> Result<(), StoreError> {
        if !self.registered(kind) {
            Err(StoreError::NotRegistered)
        } else {
            match self.columns[kind].guard {
                BorrowState::Exclusive => Err(StoreError::BorrowConflict),
                BorrowState::Shared(n) => if n >= MAX_READERS {
                    Err(StoreError::TooManyReaders)
                } else {
                    Ok(())
                },
                BorrowState::Free => Ok(()),
            }
        }
    }

    /// Whether the exclusive borrow of the column of `kind` can be granted
    /// now, and the error if not.
    pub open spec fn borrow_mut_outcome(self, kind: ComponentKind) -> Result<(), StoreError> {
        if !self.registered(kind) {
            Err(StoreError::NotRegistered)
        } else if !(self.columns[kind].guard is Free) {
            Err(StoreError::BorrowConflict)
        } else {
            Ok(())
        }
    }

    /// The column of `kind` has a shared borrow outstanding.
    pub open spec fn shared(self, kind: ComponentKind) -> bool {
        self.registered(kind) && self.columns[kind].guard is Shared
    }

    /// The column of `kind` has its exclusive borrow outstanding.
    pub open spec fn exclusive(self, kind: ComponentKind) -> bool {
        self.registered(kind) && self.columns[kind].guard is Exclusive
    }

    /// The store after one more shared borrow of the column of `kind`.
    pub open spec fn with_shared_borrow(self, kind: ComponentKind) -> Self {
        self.with_guard(kind, self.guard(kind).shared_once_more())
    }

    /// The store after one shared borrow of the column of `kind` ended.
    pub open spec fn without_shared_borrow(self, kind: ComponentKind) -> Self {
        self.with_guard(kind, self.guard(kind).shared_once_less())
    }

    /// The store after the exclusive borrow of the column of `kind` was
    /// granted.
    pub open spec fn with_exclusive_borrow(self, kind: ComponentKind) -> Self {
        self.with_guard(kind, BorrowState::Exclusive)
    }

    /// The store after the exclusive borrow of the column of `kind` ended.
    pub open spec fn without_exclusive_borrow(self, kind: ComponentKind) -> Self {
        self.with_guard(kind, BorrowState::Free)
    }

    /// The store after the slot of `entity` in the registered column of
    /// `kind` was overwritten with `value`.
    pub open spec fn with_slot(self, entity: int, kind: ComponentKind, value: Option<C>) -> Self {
        match value {
            Some(v) => self.with_component(entity, kind, v),
            None => self.without_component(entity, kind),
        }
    }

    /// Whether the slot of `entity` can be reached through a shared guard of
    /// the column of `kind`, and the error if not.
    pub open spec fn shared_access_outcome(self, entity: int, kind: ComponentKind) -> Result<
        (),
        StoreError,
    > {
        if !self.in_range(entity) {
            Err(StoreError::OutOfRange)
        } else if !self.shared(kind) {
            Err(StoreError::NotBorrowed)
        } else {
            Ok(())
        }
    }

    /// Whether the slot of `entity` can be reached through the exclusive
    /// guard of the column of `kind`, and the error if not.
    pub open spec fn exclusive_access_outcome(self, entity: int, kind: ComponentKind) -> Result<
        (),
        StoreError,
    > {
        if !self.in_range(entity) {
            Err(StoreError::OutOfRange)
        } else if !self.exclusive(kind) {
            Err(StoreError::NotBorrowed)
        } else {
            Ok(())
        }
    }

    /// Whether `value` can be written into the slot of `entity` through the
    /// exclusive guard of the column of `kind`, and the error if not: a
    /// deleted entity takes no component.
    pub open spec fn exclusive_write_outcome(
        self,
        entity: int,
        kind: ComponentKind,
        value: Option<C>,
    ) -> Result<(), StoreError> {
        if !self.in_range(entity) {
            Err(StoreError::OutOfRange)
        } else if !self.exclusive(kind) {
            Err(StoreError::NotBorrowed)
        } else if value is Some && self.deleted.contains(entity) {
            Err(StoreError::Deleted)
        } else {
            Ok(())
        }
    }

    /// `entity` has a component of every kind in `kinds`.
    pub open spec fn has_all(self, kinds: Seq<ComponentKind>, entity: int) -> bool {
        forall|i: int| 0 <= i < kinds.len() ==> self.present(#[trigger] kinds[i], entity)
    }

    /// The entities below `bound` that have a component of every kind in
    /// `kinds`, in ascending order.
    pub open spec fn matching_below(self, kinds: Seq<ComponentKind>, bound: int) -> Seq<int>
        decreases bound,
    {
        if bound <= 0 {
            Seq::empty()
        } else if self.has_all(kinds, bound - 1) {
            self.matching_below(kinds, bound - 1).push(bound - 1)
        } else {
            self.matching_below(kinds, bound - 1)
        }
    }

    /// What a join over `kinds` visits: the entities that have a component of
    /// every kind, in ascending order.
    pub open spec fn matching(self, kinds: Seq<ComponentKind>) -> Seq<int> {
        self.matching_below(kinds, self.entity_count as int)
    }

    /// The store after the borrow that `access` asks for was granted, or the
    /// error that refuses it. A kind without a column needs no borrow: its
    /// column is empty whoever looks.
    pub open spec fn acquire_one(self, access: Access) -> Result<Self, StoreError> {
        if !self.registered(access.kind) {
            Ok(self)
        } else {
            match access.mode {
                AccessMode::Read => match self.borrow_outcome(access.kind) {
                    Ok(_) => Ok(self.with_shared_borrow(access.kind)),
                    Err(e) => Err(e),
                },
                AccessMode::Write => match self.borrow_mut_outcome(access.kind) {
                    Ok(_) => Ok(self.with_exclusive_borrow(access.kind)),
                    Err(e) => Err(e),
                },
            }
        }
    }

    /// The store after the borrow that `access` asked for was given back.
    pub open spec fn release_one(self, access: Access) -> Self {
        match access.mode {
            AccessMode::Read => self.without_shared_borrow(access.kind),
            AccessMode::Write => if self.exclusive(access.kind) {
                self.without_exclusive_borrow(access.kind)
            } else {
                self
            },
        }
    }

    /// The store after every borrow of `request` was granted, first to last,
    /// or the error of the first one that is refused.
    pub open spec fn acquire(self, request: Seq<Access>) -> Result<Self, StoreError>
        decreases request.len(),
    {
        if request.len() == 0 {
            Ok(self)
        } else {
            match self.acquire(request.drop_last()) {
                Ok(held) => held.acquire_one(request.last()),
                Err(e) => Err(e),
            }
        }
    }

    /// The store after every borrow of `request` was given back, last to
    /// first.
    pub open spec fn release(self, request: Seq<Access>) -> Self
        decreases request.len(),
    {
        if request.len() == 0 {
            self
        } else {
            self.release_one(request.last()).release(request.drop_last())
        }
    }

    /// The two stores hold the same entities and the same components; only
    /// the guards of their columns may differ.
    pub open spec fn same_data(self, other: Self) -> bool {
        &&& self.entity_count == other.entity_count
        &&& self.deleted == other.deleted
        &&& self.columns.dom() == other.columns.dom()
        &&& forall|k: ComponentKind| #[trigger]
            self.columns.contains_key(k) ==> self.columns[k].slots == other.columns[k].slots
    }

    /// The components that `entity` holds in the columns of `kinds`, in the
    /// order of `kinds`.
    pub open spec fn row(self, kinds: Seq<ComponentKind>, entity: int) -> Seq<C> {
        Seq::new(kinds.len(), |i: int| self.slot(kinds[i], entity)->0)
    }

    /// The store after the components that `entity` holds in the columns of
    /// `kinds` were replaced by those of `row`, place by place.
    pub open spec fn with_row(self, kinds: Seq<ComponentKind>, entity: int, row: Seq<C>) -> Self {
        StoreView {
            entity_count: self.entity_count,
            deleted: self.deleted,
            columns: Map::new(
                |k: ComponentKind| self.columns.contains_key(k),
                |k: ComponentKind|
                    if kinds.contains(k) {
                        ColumnView {
                            slots: self.columns[k].slots.update(
                                entity,
                                Some(row[kinds.index_of(k)]),
                            ),
                            guard: self.columns[k].guard,
                        }
                    } else {
                        self.columns[k]
                    },
            ),
        }
    }

    /// Whether a pass over the columns of `request` that hands out rows can
    /// start now, and the error if not: a row holds each column once, and
    /// every borrow of the request has to be granted.
    pub open spec fn pass_outcome(self, request: Seq<Access>) -> Result<(), StoreError> {
        if !kinds_of(request).no_duplicates() {
            Err(StoreError::DuplicateKind)
        } else {
            match self.acquire(request) {
                Ok(_) => Ok(()),
                Err(e) => Err(e),
            }
        }
    }

    /// The two stores have the same entities, the same deleted entities, the
    /// same columns and the same borrows outstanding; only what the slots
    /// hold may differ.
    pub open spec fn same_shape(self, other: Self) -> bool {
        &&& self.entity_count == other.entity_count
        &&& self.deleted == other.deleted
        &&& self.columns.dom() == other.columns.dom()
        &&& forall|k: ComponentKind| #[trigger]
            self.columns.contains_key(k) ==> self.columns[k].guard == other.columns[k].guard
    }
}

} // verus!
