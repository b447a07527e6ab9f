//! Scoped, runtime-checked borrows of whole columns.
//!
//! A borrow is granted as a guard, and ends when the guard is handed back.
//! While a column is borrowed, its slots are reached through the guard only:
//! any number of shared guards, or exactly one exclusive guard.

use vstd::prelude::*;
use crate::model::{BorrowState, ComponentKind, StoreError, MAX_READERS};
use crate::store::World;

verus! {

/// One outstanding shared borrow of a column.
pub struct ColumnRef {
    kind: ComponentKind,
}

/// The outstanding exclusive borrow of a column.
pub struct ColumnMut {
    kind: ComponentKind,
}

impl ColumnRef {
    /// The kind of the borrowed column.
    pub closed spec fn spec_kind(&self) -> ComponentKind {
        self.kind
    }

    /// The kind of the borrowed column.
    #[verifier::when_used_as_spec(spec_kind)]
    pub fn kind(&self) -> (kind: ComponentKind)
        ensures
            kind == self.kind(),
    {
        self.kind
    }
}

impl ColumnMut {
    /// The kind of the borrowed column.
    pub closed spec fn spec_kind(&self) -> ComponentKind {
        self.kind
    }

    /// The kind of the borrowed column.
    #[verifier::when_used_as_spec(spec_kind)]
    pub fn kind(&self) -> (kind: ComponentKind)
        ensures
            kind == self.kind(),
    {
        self.kind
    }
}

impl<C> World<C> {
    /// Grants a shared borrow of the whole column of `kind`. It is refused
    /// while the exclusive borrow of that column is outstanding, or as many
    /// shared borrows as can be counted. A kind for which no column is
    /// registered has nothing to borrow: the request is refused with
    /// `NotRegistered`.
    pub fn borrow_components(&mut self, kind: ComponentKind) -> (granted: Result<
        ColumnRef,
        StoreError,
    >)
        requires
            old(self).wf(),
        ensures
            final(self).wf(),
            match granted {
                Ok(guard) => old(self)@.borrow_outcome(kind) is Ok && guard.kind() == kind
                    && final(self)@ == old(self)@.with_shared_borrow(kind),
                Err(e) => old(self)@.borrow_outcome(kind) == Err::<(), StoreError>(e)
                    && final(self)@ == old(self)@,
            },
    {
        match self.find(kind) {
            None => Err(StoreError::NotRegistered),
            Some(i) => {
                match self.columns[i].guard {
                    BorrowState::Exclusive => Err(StoreError::BorrowConflict),
                    BorrowState::Shared(n) => {
                        if n >= MAX_READERS {
                            Err(StoreError::TooManyReaders)
                        } else {
                            self.set_guard(i, BorrowState::Shared(n + 1));
                            Ok(ColumnRef { kind })
                        }
                    },
                    BorrowState::Free => {
                        self.set_guard(i, BorrowState::Shared(1));
                        Ok(ColumnRef { kind })
                    },
                }
            },
        }
    }

    /// Grants the exclusive borrow of the whole column of `kind`. It is
    /// refused while any borrow of that column is outstanding. A kind for
    /// which no column is registered has nothing to borrow: the request is
    /// refused with `NotRegistered`, and no column is created.
    pub fn borrow_components_mut(&mut self, kind: ComponentKind) -> (granted: Result<
        ColumnMut,
        StoreError,
    >)
        requires
            old(self).wf(),
        ensures
            final(self).wf(),
            match granted {
                Ok(guard) => old(self)@.borrow_mut_outcome(kind) is Ok && guard.kind() == kind
                    && final(self)@ == old(self)@.with_exclusive_borrow(kind),
                Err(e) => old(self)@.borrow_mut_outcome(kind) == Err::<(), StoreError>(e)
                    && final(self)@ == old(self)@,
            },
    {
        match self.find(kind) {
            None => Err(StoreError::NotRegistered),
            Some(i) => {
                match self.columns[i].guard {
                    BorrowState::Free => {
                        self.set_guard(i, BorrowState::Exclusive);
                        Ok(ColumnMut { kind })
                    },
                    _ => Err(StoreError::BorrowConflict),
                }
            },
        }
    }

    /// Ends the shared borrow that `guard` stands for. A guard that matches
    /// no outstanding shared borrow of this store is refused with
    /// `NotBorrowed`.
    pub fn release_components(&mut self, guard: ColumnRef) -> (released: Result<(), StoreError>)
        requires
            old(self).wf(),
        ensures
            final(self).wf(),
            old(self)@.shared(guard.kind()) ==> released is Ok && final(self)@
                == old(self)@.without_shared_borrow(guard.kind()),
            !old(self)@.shared(guard.kind()) ==> released == Err::<(), StoreError>(
                StoreError::NotBorrowed,
            ) && final(self)@ == old(self)@,
    {
        match self.find(guard.kind) {
            None => Err(StoreError::NotBorrowed),
            Some(i) => {
                match self.columns[i].guard {
                    BorrowState::Shared(n) => {
                        if n <= 1 {
                            self.set_guard(i, BorrowState::Free);
                        } else {
                            self.set_guard(i, BorrowState::Shared(n - 1));
                        }
                        Ok(())
                    },
                    _ => Err(StoreError::NotBorrowed),
                }
            },
        }
    }

    /// Ends the exclusive borrow that `guard` stands for. A guard that
    /// matches no outstanding exclusive borrow of this store is refused with
    /// `NotBorrowed`.
    pub fn release_components_mut(&mut self, guard: ColumnMut) -> (released: Result<
        (),
        StoreError,
    >)
        requires
            old(self).wf(),
        ensures
            final(self).wf(),
            old(self)@.exclusive(guard.kind()) ==> released is Ok && final(self)@
                == old(self)@.without_exclusive_borrow(guard.kind()),
            !old(self)@.exclusive(guard.kind()) ==> released == Err::<(), StoreError>(
                StoreError::NotBorrowed,
            ) && final(self)@ == old(self)@,
    {
        match self.find(guard.kind) {
            None => Err(StoreError::NotBorrowed),
            Some(i) => {
                match self.columns[i].guard {
                    BorrowState::Exclusive => {
                        self.set_guard(i, BorrowState::Free);
                        Ok(())
                    },
                    _ => Err(StoreError::NotBorrowed),
                }
            },
        }
    }

    /// Reads what `entity` holds in the column that `guard` borrows.
    pub fn get_borrowed(&self, guard: &ColumnRef, entity: usize) -> (found: Result<
        Option<&C>,
        StoreError,
    >)
        requires
            self.wf(),
        ensures
            match found {
                Ok(Some(value)) => self@.shared_access_outcome(entity as int, guard.kind()) is Ok
                    && self@.slot(guard.kind(), entity as int) == Some(*value),
                Ok(None) => self@.shared_access_outcome(entity as int, guard.kind()) is Ok
                    && self@.slot(guard.kind(), entity as int) is None,
                Err(e) => self@.shared_access_outcome(entity as int, guard.kind()) == Err::<
                    (),
                    StoreError,
                >(e),
            },
    {
        if entity >= self.alive.len() {
            return Err(StoreError::OutOfRange);
        }
        match self.find(guard.kind) {
            None => Err(StoreError::NotBorrowed),
            Some(i) => {
                match self.columns[i].guard {
                    BorrowState::Shared(_) => Ok(self.slot_at(i, entity)),
                    _ => Err(StoreError::NotBorrowed),
                }
            },
        }
    }

    /// What `entity` holds in the column that `guard` borrows, to be changed
    /// in place.
    pub fn get_borrowed_mut(&mut self, guard: &ColumnMut, entity: usize) -> (found: Result<
        Option<&mut C>,
        StoreError,
    >)
        requires
            old(self).wf(),
        ensures
            final(self).wf(),
            match found {
                Ok(Some(value)) => old(self)@.exclusive_access_outcome(
                    entity as int,
                    guard.kind(),
                ) is Ok && old(self)@.slot(guard.kind(), entity as int) == Some(*value) && final(self)@ == old(self)@.with_component(entity as int, guard.kind(), *final(value)),
                Ok(None) => old(self)@.exclusive_access_outcome(entity as int, guard.kind()) is Ok
                    && old(self)@.slot(guard.kind(), entity as int) is None && final(self)@
                    == old(self)@,
                Err(e) => old(self)@.exclusive_access_outcome(entity as int, guard.kind()) == Err::<
                    (),
                    StoreError,
                >(e) && final(self)@ == old(self)@,
            },
    {
        if entity >= self.alive.len() {
            return Err(StoreError::OutOfRange);
        }
        match self.find(guard.kind) {
            None => Err(StoreError::NotBorrowed),
            Some(i) => {
                match self.columns[i].guard {
                    BorrowState::Exclusive => Ok(self.slot_mut_at(i, entity)),
                    _ => Err(StoreError::NotBorrowed),
                }
            },
        }
    }

    /// Overwrites what `entity` holds in the column that `guard` borrows:
    /// with a component, or with nothing.
    pub fn put_borrowed(&mut self, guard: &ColumnMut, entity: usize, value: Option<C>) -> (written:
        Result<(), StoreError>)
        requires
            old(self).wf(),
        ensures
            final(self).wf(),
            written == old(self)@.exclusive_write_outcome(entity as int, guard.kind(), value),
            written is Ok ==> final(self)@ == old(self)@.with_slot(
                entity as int,
                guard.kind(),
                value,
            ),
            written is Err ==> final(self)@ == old(self)@,
    {
        if entity >= self.alive.len() {
            return Err(StoreError::OutOfRange);
        }
        match self.find(guard.kind) {
            None => Err(StoreError::NotBorrowed),
            Some(i) => {
                match self.columns[i].guard {
                    BorrowState::Exclusive => {
                        if value.is_some() && !self.is_alive(entity) {
                            return Err(StoreError::Deleted);
                        }
                        self.set_slot_at(i, entity, value);
                        Ok(())
                    },
                    _ => Err(StoreError::NotBorrowed),
                }
            },
        }
    }
}

} // verus!
