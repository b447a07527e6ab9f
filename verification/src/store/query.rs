//! The join: one pass over several columns in lockstep, visiting the
//! entities that have a component in every one of them.

use vstd::prelude::*;
use crate::laws::{lemma_acquire, lemma_same_data_same_matching};
use crate::model::{
    as_ints, kinds_of, Access, AccessMode, BorrowState, ColumnView, ComponentKind, StoreError,
    StoreView, MAX_READERS,
};
use crate::store::World;
use crate::system::{stepped, swept, swept_below, System};

verus! {

impl<C> World<C> {
    /// Takes the borrow that `access` asks for.
    fn acquire_one(&mut self, access: Access) -> (granted: Result<(), StoreError>)
        requires
            old(self).wf(),
        ensures
            final(self).wf(),
            match granted {
                Ok(_) => old(self)@.acquire_one(access) == Ok::<StoreView<C>, StoreError>(final(self)@),
                Err(e) => old(self)@.acquire_one(access) == Err::<StoreView<C>, StoreError>(e) && final(self)@
                    == old(self)@,
            },
    {
        match self.find(access.kind) {
            None => Ok(()),
            Some(i) => {
                match (access.mode, self.columns[i].guard) {
                    (AccessMode::Read, BorrowState::Free) => {
                        self.set_guard(i, BorrowState::Shared(1));
                        Ok(())
                    },
                    (AccessMode::Read, BorrowState::Shared(n)) => {
                        if n >= MAX_READERS {
                            Err(StoreError::TooManyReaders)
                        } else {
                            self.set_guard(i, BorrowState::Shared(n + 1));
                            Ok(())
                        }
                    },
                    (AccessMode::Write, BorrowState::Free) => {
                        self.set_guard(i, BorrowState::Exclusive);
                        Ok(())
                    },
                    _ => Err(StoreError::BorrowConflict),
                }
            },
        }
    }

    /// Gives back the borrow that `access` asked for.
    fn release_one(&mut self, access: Access)
        requires
            old(self).wf(),
        ensures
            final(self).wf(),
            final(self)@ == old(self)@.release_one(access),
    {
        match self.find(access.kind) {
            None => {},
            Some(i) => {
                match (access.mode, self.columns[i].guard) {
                    (AccessMode::Read, BorrowState::Shared(n)) => {
                        if n <= 1 {
                            self.set_guard(i, BorrowState::Free);
                        } else {
                            self.set_guard(i, BorrowState::Shared(n - 1));
                        }
                    },
                    (AccessMode::Write, BorrowState::Exclusive) => {
                        self.set_guard(i, BorrowState::Free);
                    },
                    _ => {
                        assert(self@.release_one(access) =~= self@);
                    },
                }
            },
        }
    }

    /// Gives back the borrows of the first `count` accesses of `request`,
    /// last to first.
    fn release(&mut self, request: &Vec<Access>, count: usize)
        requires
            old(self).wf(),
            count <= request@.len(),
        ensures
            final(self).wf(),
            final(self)@ == old(self)@.release(request@.take(count as int)),
    {
        let mut i: usize = count;
        while i > 0
            invariant
                i <= count <= request@.len(),
                self.wf(),
                self@.release(request@.take(i as int)) == old(self)@.release(
                    request@.take(count as int),
                ),
            decreases i,
        {
            proof {
                assert(request@.take(i as int).drop_last() =~= request@.take(i - 1));
                assert(request@.take(i as int).last() == request@[i - 1]);
            }
            i -= 1;
            self.release_one(request[i]);
        }
        assert(request@.take(0) =~= Seq::empty());
    }

    /// Takes the borrows of `request`, first to last. Where one is refused,
    /// those taken before it are given back and the store is as it was.
    fn acquire(&mut self, request: &Vec<Access>) -> (granted: Result<(), StoreError>)
        requires
            old(self).wf(),
        ensures
            final(self).wf(),
            match granted {
                Ok(_) => old(self)@.acquire(request@) == Ok::<StoreView<C>, StoreError>(final(self)@),
                Err(e) => old(self)@.acquire(request@) == Err::<StoreView<C>, StoreError>(e) && final(self)@
                    == old(self)@,
            },
    {
        let mut i: usize = 0;
        assert(request@.take(0) =~= Seq::empty());
        while i < request.len()
            invariant
                i <= request@.len(),
                self.wf(),
                old(self).wf(),
                old(self)@.acquire(request@.take(i as int)) == Ok::<StoreView<C>, StoreError>(self@),
            decreases request@.len() - i,
        {
            proof {
                assert(request@.take(i + 1).drop_last() =~= request@.take(i as int));
                assert(request@.take(i + 1).last() == request@[i as int]);
            }
            match self.acquire_one(request[i]) {
                Ok(_) => {},
                Err(e) => {
                    proof {
                        lemma_acquire(old(self)@, request@.take(i as int));
                        lemma_acquire_fails_later(old(self)@, request@, i as int);
                    }
                    self.release(request, i);
                    return Err(e);
                },
            }
            i += 1;
        }
        assert(request@.take(i as int) =~= request@);
        Ok(())
    }

    /// Whether `entity` has a component in every column that `request` names.
    fn row_present(&self, request: &Vec<Access>, entity: usize) -> (present: bool)
        requires
            self.wf(),
            entity < self@.entity_count,
        ensures
            present == self@.has_all(kinds_of(request@), entity as int),
    {
        let mut i: usize = 0;
        while i < request.len()
            invariant
                i <= request@.len(),
                self.wf(),
                entity < self@.entity_count,
                forall|j: int|
                    0 <= j < i ==> self@.present(#[trigger] kinds_of(request@)[j], entity as int),
            decreases request@.len() - i,
        {
            let here = match self.find(request[i].kind) {
                None => false,
                Some(at) => self.slot_at(at, entity).is_some(),
            };
            if !here {
                assert(!self@.present(kinds_of(request@)[i as int], entity as int));
                return false;
            }
            i += 1;
        }
        true
    }

    /// The columns at `places` are those that `kinds` names, place by place.
    spec fn placed(self, kinds: Seq<ComponentKind>, places: Seq<usize>) -> bool {
        &&& places.len() == kinds.len()
        &&& forall|i: int|
            0 <= i < places.len() ==> (#[trigger] places[i]) < self.kinds().len()
                && self.kinds()[places[i] as int] == kinds[i]
    }

    /// A column that has a place is registered.
    proof fn lemma_placed_registered(self, kinds: Seq<ComponentKind>, places: Seq<usize>, i: int)
        requires
            self.wf(),
            self.placed(kinds, places),
            0 <= i < kinds.len(),
        ensures
            self@.registered(kinds[i]),
    {
        assert(self.kinds()[places[i] as int] == kinds[i]);
        super::lemma_column_at(self.columns@, places[i] as int);
    }

    /// Where the columns that `request` names stand: `None` where one of
    /// them is not registered.
    fn places(&self, request: &Vec<Access>) -> (found: Option<Vec<usize>>)
        requires
            self.wf(),
        ensures
            match found {
                Some(places) => self.placed(kinds_of(request@), places@) && forall|i: int|
                    0 <= i < request@.len() ==> self@.registered(#[trigger] kinds_of(request@)[i]),
                None => exists|i: int|
                    0 <= i < request@.len() && !self@.registered(#[trigger] kinds_of(request@)[i]),
            },
    {
        let mut places: Vec<usize> = Vec::new();
        let mut i: usize = 0;
        while i < request.len()
            invariant
                i <= request@.len(),
                self.wf(),
                places@.len() == i,
                forall|j: int|
                    0 <= j < i ==> (#[trigger] places@[j]) < self.kinds().len()
                        && self.kinds()[places@[j] as int] == kinds_of(request@)[j],
                forall|j: int| 0 <= j < i ==> self@.registered(#[trigger] kinds_of(request@)[j]),
            decreases request@.len() - i,
        {
            match self.find(request[i].kind) {
                None => {
                    assert(!self@.registered(kinds_of(request@)[i as int]));
                    return None;
                },
                Some(at) => {
                    places.push(at);
                },
            }
            i += 1;
        }
        Some(places)
    }

    /// Whether `entity` has a component in every column at `places`.
    fn row_present_at(&self, request: &Vec<Access>, places: &Vec<usize>, entity: usize) -> (present:
        bool)
        requires
            self.wf(),
            self.placed(kinds_of(request@), places@),
            entity < self@.entity_count,
        ensures
            present == self@.has_all(kinds_of(request@), entity as int),
    {
        let ghost kinds = kinds_of(request@);
        let mut i: usize = 0;
        while i < places.len()
            invariant
                i <= places@.len(),
                self.wf(),
                kinds == kinds_of(request@),
                self.placed(kinds, places@),
                entity < self@.entity_count,
                forall|j: int| 0 <= j < i ==> self@.present(#[trigger] kinds[j], entity as int),
            decreases places@.len() - i,
        {
            assert(self.kinds()[places@[i as int] as int] == kinds[i as int]);
            if self.slot_at(places[i], entity).is_none() {
                assert(!self@.present(kinds[i as int], entity as int));
                return false;
            }
            i += 1;
        }
        true
    }

    /// Moves the row of `entity` out of the store into `row`.
    fn take_row(
        &mut self,
        request: &Vec<Access>,
        places: &Vec<usize>,
        entity: usize,
        row: &mut Vec<C>,
    )
        requires
            old(self).wf(),
            old(self).placed(kinds_of(request@), places@),
            kinds_of(request@).no_duplicates(),
            entity < old(self)@.entity_count,
            old(self)@.has_all(kinds_of(request@), entity as int),
            old(row)@.len() == 0,
        ensures
            final(self).wf(),
            final(self).kinds() == old(self).kinds(),
            final(row)@ == old(self)@.row(kinds_of(request@), entity as int),
            final(self)@ == with_row_from(
                old(self)@,
                kinds_of(request@),
                entity as int,
                final(row)@,
                request@.len() as int,
            ),
    {
        let ghost kinds = kinds_of(request@);
        let ghost start = self@;
        let ghost whole = start.row(kinds, entity as int);
        proof {
            lemma_row_untouched(start, kinds, entity as int);
        }
        let mut i: usize = 0;
        while i < places.len()
            invariant
                i <= places@.len(),
                self.wf(),
                kinds == kinds_of(request@),
                kinds.no_duplicates(),
                self.placed(kinds, places@),
                self.kinds() == old(self).kinds(),
                entity < self@.entity_count,
                start.wf(),
                start.entity_count == self@.entity_count,
                start.has_all(kinds, entity as int),
                whole == start.row(kinds, entity as int),
                row@ == whole.take(i as int),
                self@ == with_row_from(start, kinds, entity as int, whole, i as int),
            decreases places@.len() - i,
        {
            proof {
                lemma_index_of(kinds, i as int);
                assert(start.present(kinds[i as int], entity as int));
                assert(self.kinds()[places@[i as int] as int] == kinds[i as int]);
                lemma_row_taken(start, kinds, entity as int, whole, i as int);
                lemma_row_from_slot(start, kinds, entity as int, whole, i as int, i as int);
            }
            match self.take_slot_at(places[i], entity) {
                Some(component) => {
                    row.push(component);
                },
                None => {},
            }
            i += 1;
            assert(row@ =~= whole.take(i as int));
        }
        assert(whole.take(i as int) =~= whole);
    }

    /// Moves `row` back into the store as the row of `entity`, and leaves
    /// `row` empty.
    fn put_row(
        &mut self,
        request: &Vec<Access>,
        places: &Vec<usize>,
        entity: usize,
        row: &mut Vec<C>,
    )
        requires
            old(self).wf(),
            old(self).placed(kinds_of(request@), places@),
            kinds_of(request@).no_duplicates(),
            entity < old(self)@.entity_count,
            request@.len() > 0 ==> !old(self)@.deleted.contains(entity as int),
            old(row)@.len() == request@.len(),
            forall|i: int|
                0 <= i < request@.len() ==> !old(self)@.present(
                    #[trigger] kinds_of(request@)[i],
                    entity as int,
                ),
        ensures
            final(self).wf(),
            final(self).kinds() == old(self).kinds(),
            final(row)@.len() == 0,
            final(self)@ == with_row_from(
                old(self)@,
                kinds_of(request@),
                entity as int,
                old(row)@,
                0,
            ),
    {
        let ghost kinds = kinds_of(request@);
        let ghost start = self@;
        let ghost whole = row@;
        proof {
            let out = with_row_from(start, kinds, entity as int, whole, kinds.len() as int);
            assert forall|k: ComponentKind| #[trigger] start.columns.contains_key(k) implies out.columns[k]
                == start.columns[k] by {
                if kinds.contains(k) {
                    let p = kinds.index_of(k);
                    assert(kinds[p] == k);
                    assert(!start.present(kinds[p], entity as int));
                    assert(start.columns[k].slots.update(entity as int, None)
                        =~= start.columns[k].slots);
                }
            }
            assert(out.columns =~= start.columns);
            assert forall|j: int| 0 <= j < kinds.len() implies start.registered(
                #[trigger] kinds[j],
            ) by {
                self.lemma_placed_registered(kinds, places@, j);
            }
        }
        let mut i: usize = places.len();
        while i > 0
            invariant
                i <= places@.len(),
                self.wf(),
                kinds == kinds_of(request@),
                kinds.no_duplicates(),
                self.placed(kinds, places@),
                self.kinds() == old(self).kinds(),
                entity < self@.entity_count,
                request@.len() > 0 ==> !self@.deleted.contains(entity as int),
                start.wf(),
                start.entity_count == self@.entity_count,
                forall|j: int| 0 <= j < kinds.len() ==> start.registered(#[trigger] kinds[j]),
                whole.len() == kinds.len(),
                row@ == whole.take(i as int),
                self@ == with_row_from(start, kinds, entity as int, whole, i as int),
            decreases i,
        {
            proof {
                assert(self.kinds()[places@[i - 1] as int] == kinds[i - 1]);
                lemma_row_put_back(start, kinds, entity as int, whole, i as int);
            }
            i -= 1;
            let component = row.pop();
            assert(component == Some(whole[i as int]));
            self.set_slot_at(places[i], entity, component);
            assert(row@ =~= whole.take(i as int));
        }
    }

    /// Whether `request` names no component kind twice.
    fn names_each_kind_once(request: &Vec<Access>) -> (once: bool)
        ensures
            once == kinds_of(request@).no_duplicates(),
    {
        let ghost kinds = kinds_of(request@);
        let mut i: usize = 0;
        while i < request.len()
            invariant
                i <= request@.len(),
                kinds == kinds_of(request@),
                forall|a: int, b: int| 0 <= a < i && 0 <= b < a ==> kinds[a] != kinds[b],
            decreases request@.len() - i,
        {
            let mut j: usize = 0;
            while j < i
                invariant
                    j <= i < request@.len(),
                    kinds == kinds_of(request@),
                    forall|b: int| 0 <= b < j ==> kinds[i as int] != kinds[b],
                decreases i - j,
            {
                if request[i].kind == request[j].kind {
                    assert(kinds[i as int] == kinds[j as int]);
                    return false;
                }
                j += 1;
            }
            i += 1;
        }
        assert forall|a: int, b: int| 0 <= a < kinds.len() && 0 <= b < kinds.len() && a != b implies kinds[a]
            != kinds[b] by {
            if b < a {
                assert(kinds[a] != kinds[b]);
            } else {
                assert(kinds[b] != kinds[a]);
            }
        }
        true
    }

    /// One pass over the columns that `request` names, running `system` on
    /// every entity that has a component in every one of them, in ascending
    /// order of the entities.
    ///
    /// For each such entity the components are moved out of the store into a
    /// row, in the order of the request; the system visits the row, with the
    /// entity's index; and what the visit leaves in the row is moved back.
    /// The pass takes one borrow per requested column before the first
    /// visit and gives them all back after the last. It is refused, and
    /// nothing changes, where the request names a kind twice or one of the
    /// borrows is refused. A kind for which no column is registered stands
    /// for an empty column: the pass then visits no entity.
    pub fn iterate_entities_with_id<S: System<C>>(
        &mut self,
        request: &Vec<Access>,
        system: &mut S,
    ) -> (passed: Result<(), StoreError>)
        requires
            old(self).wf(),
        ensures
            final(self).wf(),
            final(self)@.same_shape(old(self)@),
            match passed {
                Ok(_) => old(self)@.pass_outcome(request@) is Ok && swept(
                    old(self)@,
                    *old(system),
                    kinds_of(request@),
                    final(self)@,
                    *final(system),
                ),
                Err(e) => old(self)@.pass_outcome(request@) == Err::<(), StoreError>(e) && final(self)@ == old(self)@ && *final(system) == *old(system),
            },
    {
        if !Self::names_each_kind_once(request) {
            return Err(StoreError::DuplicateKind);
        }
        match self.acquire(request) {
            Err(e) => {
                return Err(e);
            },
            Ok(_) => {},
        }
        let ghost kinds = kinds_of(request@);
        let ghost start = old(self)@;
        let ghost mut shadow = start;
        let count = self.entity_count();
        proof {
            lemma_acquire(start, request@);
        }
        match self.places(request) {
            None => {
                proof {
                    let missing = choose|i: int|
                        0 <= i < request@.len() && !self@.registered(#[trigger] kinds[i]);
                    assert forall|e: int| 0 <= e < count implies !start.has_all(kinds, e) by {
                        assert(!start.present(kinds[missing], e));
                    }
                    lemma_idle_pass(start, *system, kinds, count as int);
                }
            },
            Some(places) => {
                let mut row: Vec<C> = Vec::new();
                let mut entity: usize = 0;
                while entity < count
                    invariant
                        entity <= count,
                        count == start.entity_count,
                        self.wf(),
                        kinds == kinds_of(request@),
                        kinds.no_duplicates(),
                        self.placed(kinds, places@),
                        row@.len() == 0,
                        shadow.wf(),
                        shadow.entity_count == count,
                        shadow.acquire(request@) == Ok::<StoreView<C>, StoreError>(self@),
                        swept_below(start, *old(system), kinds, entity as int, shadow, *system),
                    decreases count - entity,
                {
                    proof {
                        lemma_acquire(shadow, request@);
                        lemma_same_data_same_row(self@, shadow, kinds, entity as int);
                    }
                    let ghost during = *system;
                    if self.row_present_at(request, &places, entity) {
                        let ghost held = self@;
                        proof {
                            if kinds.len() > 0 {
                                assert(held.present(kinds[0], entity as int));
                            }
                        }
                        self.take_row(request, &places, entity, &mut row);
                        let ghost taken = row@;
                        proof {
                            let out = self@;
                            assert forall|i: int| 0 <= i < kinds.len() implies !out.present(
                                #[trigger] kinds[i],
                                entity as int,
                            ) by {
                                lemma_index_of(kinds, i);
                                assert(held.present(kinds[i], entity as int));
                            }
                        }
                        system.visit(entity, &mut row);
                        let ghost rewritten = row@;
                        self.put_row(request, &places, entity, &mut row);
                        proof {
                            lemma_row_out(held, kinds, entity as int, taken, rewritten);
                            assert(self@ == held.with_row(kinds, entity as int, rewritten));
                            let next = shadow.with_row(kinds, entity as int, rewritten);
                            lemma_row_then_acquire(
                                shadow,
                                request@,
                                kinds,
                                entity as int,
                                rewritten,
                            );
                            lemma_row_keeps_wf(shadow, kinds, entity as int, rewritten);
                            assert(stepped(shadow, during, kinds, entity as int, next, *system));
                            lemma_pass_goes_on(
                                start,
                                *old(system),
                                kinds,
                                entity as int,
                                shadow,
                                during,
                                next,
                                *system,
                            );
                            shadow = next;
                        }
                    } else {
                        proof {
                            lemma_pass_goes_on(
                                start,
                                *old(system),
                                kinds,
                                entity as int,
                                shadow,
                                during,
                                shadow,
                                *system,
                            );
                        }
                    }
                    entity += 1;
                }
            },
        }
        proof {
            lemma_acquire(shadow, request@);
            assert(request@.take(request@.len() as int) =~= request@);
        }
        self.release(request, request.len());
        proof {
            crate::laws::law_pass_keeps_shape(
                start,
                *old(system),
                kinds,
                count as int,
                shadow,
                *system,
            );
        }
        Ok(())
    }

    /// One pass over the columns that `request` names: the entities that
    /// have a component in every one of them, in ascending order.
    ///
    /// The pass takes one borrow per requested column, in the order of the
    /// request, and gives them all back before it returns; where one of them
    /// is refused, so is the pass. A kind for which no column is registered
    /// stands for an empty column: the pass then finds no entity.
    pub fn join(&mut self, request: &Vec<Access>) -> (found: Result<Vec<usize>, StoreError>)
        requires
            old(self).wf(),
        ensures
            final(self).wf(),
            final(self)@ == old(self)@,
            match found {
                Ok(entities) => old(self)@.acquire(request@) is Ok && as_ints(entities@) == old(self)@.matching(kinds_of(request@)),
                Err(e) => old(self)@.acquire(request@) matches Err(refused) && refused == e,
            },
    {
        match self.acquire(request) {
            Err(e) => {
                return Err(e);
            },
            Ok(_) => {},
        }
        proof {
            lemma_acquire(old(self)@, request@);
            lemma_same_data_same_matching(
                self@,
                old(self)@,
                kinds_of(request@),
                self@.entity_count as int,
            );
        }
        let ghost kinds = kinds_of(request@);
        let count = self.entity_count();
        let mut entities: Vec<usize> = Vec::new();
        let mut entity: usize = 0;
        while entity < count
            invariant
                entity <= count,
                count == self@.entity_count,
                self.wf(),
                kinds == kinds_of(request@),
                as_ints(entities@) == self@.matching_below(kinds, entity as int),
            decreases count - entity,
        {
            if self.row_present(request, entity) {
                entities.push(entity);
            }
            entity += 1;
            assert(as_ints(entities@) =~= self@.matching_below(kinds, entity as int));
        }
        self.release(request, request.len());
        assert(request@.take(request@.len() as int) =~= request@);
        Ok(entities)
    }
}

/// The store with the row of `entity` partly out of it: the columns that
/// `kinds` names from place `from` on hold the value of `row`, those it names
/// before hold nothing.
spec fn with_row_from<C>(
    store: StoreView<C>,
    kinds: Seq<ComponentKind>,
    entity: int,
    row: Seq<C>,
    from: int,
) -> StoreView<C> {
    StoreView {
        entity_count: store.entity_count,
        deleted: store.deleted,
        columns: Map::new(
            |k: ComponentKind| store.columns.contains_key(k),
            |k: ComponentKind|
                if kinds.contains(k) {
                    ColumnView {
                        slots: store.columns[k].slots.update(
                            entity,
                            if kinds.index_of(k) >= from {
                                Some(row[kinds.index_of(k)])
                            } else {
                                None
                            },
                        ),
                        guard: store.columns[k].guard,
                    }
                } else {
                    store.columns[k]
                },
        ),
    }
}

/// In a list without duplicates, every element is found at its own place.
proof fn lemma_index_of<A>(items: Seq<A>, i: int)
    requires
        items.no_duplicates(),
        0 <= i < items.len(),
    ensures
        items.contains(items[i]),
        items.index_of(items[i]) == i,
{
    let j = items.index_of(items[i]);
    assert(0 <= j < items.len() && items[j] == items[i]);
}

/// With nothing taken yet, the store is the store.
proof fn lemma_row_untouched<C>(store: StoreView<C>, kinds: Seq<ComponentKind>, entity: int)
    requires
        store.wf(),
        store.in_range(entity),
        store.has_all(kinds, entity),
    ensures
        with_row_from(store, kinds, entity, store.row(kinds, entity), 0) == store,
{
    let row = store.row(kinds, entity);
    let same = with_row_from(store, kinds, entity, row, 0);
    assert forall|k: ComponentKind| #[trigger] store.columns.contains_key(k) implies same.columns[k]
        == store.columns[k] by {
        if kinds.contains(k) {
            let p = kinds.index_of(k);
            assert(kinds[p] == k);
            assert(store.present(kinds[p], entity));
            assert(store.columns[k].slots.update(entity, Some(row[p])) =~= store.columns[k].slots);
        }
    }
    assert(same.columns =~= store.columns);
}

/// What the store with a row partly out of it holds at `entity` in the
/// column named at place `p`.
proof fn lemma_row_from_slot<C>(
    store: StoreView<C>,
    kinds: Seq<ComponentKind>,
    entity: int,
    row: Seq<C>,
    from: int,
    p: int,
)
    requires
        store.wf(),
        store.in_range(entity),
        kinds.no_duplicates(),
        0 <= p < kinds.len(),
        store.registered(kinds[p]),
    ensures
        with_row_from(store, kinds, entity, row, from).slot(kinds[p], entity) == if p >= from {
            Some(row[p])
        } else {
            None
        },
{
    lemma_index_of(kinds, p);
}

/// Taking the component at place `i` out moves the boundary up by one.
proof fn lemma_row_taken<C>(
    store: StoreView<C>,
    kinds: Seq<ComponentKind>,
    entity: int,
    row: Seq<C>,
    i: int,
)
    requires
        store.wf(),
        store.in_range(entity),
        kinds.no_duplicates(),
        0 <= i < kinds.len(),
        store.registered(kinds[i]),
    ensures
        with_row_from(store, kinds, entity, row, i + 1) == with_row_from(
            store,
            kinds,
            entity,
            row,
            i,
        ).with_slot(entity, kinds[i], None),
{
    let lower = with_row_from(store, kinds, entity, row, i);
    let upper = with_row_from(store, kinds, entity, row, i + 1);
    lemma_index_of(kinds, i);
    assert forall|k: ComponentKind| #[trigger] store.columns.contains_key(k) implies upper.columns[k]
        == lower.with_slot(entity, kinds[i], None).columns[k] by {
        if k == kinds[i] {
            assert(upper.columns[k].slots =~= lower.columns[k].slots.update(entity, None));
        } else if kinds.contains(k) {
            let p = kinds.index_of(k);
            assert(kinds[p] == k);
        }
    }
    assert(upper.columns =~= lower.with_slot(entity, kinds[i], None).columns);
}

/// Putting the component at place `i - 1` back moves the boundary down by
/// one.
proof fn lemma_row_put_back<C>(
    store: StoreView<C>,
    kinds: Seq<ComponentKind>,
    entity: int,
    row: Seq<C>,
    i: int,
)
    requires
        store.wf(),
        store.in_range(entity),
        kinds.no_duplicates(),
        0 < i <= kinds.len(),
        row.len() == kinds.len(),
        store.registered(kinds[i - 1]),
    ensures
        with_row_from(store, kinds, entity, row, i - 1) == with_row_from(
            store,
            kinds,
            entity,
            row,
            i,
        ).with_slot(entity, kinds[i - 1], Some(row[i - 1])),
{
    let upper = with_row_from(store, kinds, entity, row, i);
    let lower = with_row_from(store, kinds, entity, row, i - 1);
    lemma_index_of(kinds, i - 1);
    let k0 = kinds[i - 1];
    let put = upper.with_slot(entity, k0, Some(row[i - 1]));
    assert forall|k: ComponentKind| #[trigger] store.columns.contains_key(k) implies lower.columns[k]
        == put.columns[k] by {
        if k == k0 {
            assert(lower.columns[k].slots =~= upper.columns[k].slots.update(
                entity,
                Some(row[i - 1]),
            ));
        } else if kinds.contains(k) {
            let p = kinds.index_of(k);
            assert(kinds[p] == k);
        }
    }
    assert(lower.columns =~= put.columns);
}

/// With the whole row out, it does not matter which row it was; and putting
/// a whole row into that store gives the store with the row replaced.
proof fn lemma_row_out<C>(
    store: StoreView<C>,
    kinds: Seq<ComponentKind>,
    entity: int,
    taken: Seq<C>,
    rewritten: Seq<C>,
)
    requires
        store.wf(),
        store.in_range(entity),
    ensures
        with_row_from(store, kinds, entity, taken, kinds.len() as int) == with_row_from(
            store,
            kinds,
            entity,
            rewritten,
            kinds.len() as int,
        ),
        with_row_from(
            with_row_from(store, kinds, entity, taken, kinds.len() as int),
            kinds,
            entity,
            rewritten,
            0,
        ) == store.with_row(kinds, entity, rewritten),
{
    let n = kinds.len() as int;
    let out = with_row_from(store, kinds, entity, taken, n);
    let other = with_row_from(store, kinds, entity, rewritten, n);
    assert forall|k: ComponentKind| #[trigger] store.columns.contains_key(k) implies out.columns[k]
        == other.columns[k] by {
        if kinds.contains(k) {
            let p = kinds.index_of(k);
            assert(kinds[p] == k);
        }
    }
    assert(out.columns =~= other.columns);
    let back = with_row_from(out, kinds, entity, rewritten, 0);
    let replaced = store.with_row(kinds, entity, rewritten);
    assert forall|k: ComponentKind| #[trigger] store.columns.contains_key(k) implies back.columns[k]
        == replaced.columns[k] by {
        if kinds.contains(k) {
            let p = kinds.index_of(k);
            assert(kinds[p] == k);
            assert(back.columns[k].slots =~= replaced.columns[k].slots);
        }
    }
    assert(back.columns =~= replaced.columns);
}

/// Replacing a row changes no guard, so it neither helps nor hinders a
/// borrow; and the store stays well formed.
proof fn lemma_row_then_acquire_one<C>(
    store: StoreView<C>,
    access: Access,
    kinds: Seq<ComponentKind>,
    entity: int,
    row: Seq<C>,
)
    requires
        store.acquire_one(access) is Ok,
    ensures
        store.with_row(kinds, entity, row).acquire_one(access) == Ok::<StoreView<C>, StoreError>(
            store.acquire_one(access)->Ok_0.with_row(kinds, entity, row),
        ),
{
    let replaced = store.with_row(kinds, entity, row);
    let held = store.acquire_one(access)->Ok_0;
    assert(replaced.registered(access.kind) == store.registered(access.kind));
    if store.registered(access.kind) {
        assert(replaced.acquire_one(access)->Ok_0.columns =~= held.with_row(
            kinds,
            entity,
            row,
        ).columns);
    }
}

/// Replacing a row commutes with taking the borrows of a request.
proof fn lemma_row_then_acquire<C>(
    store: StoreView<C>,
    request: Seq<Access>,
    kinds: Seq<ComponentKind>,
    entity: int,
    row: Seq<C>,
)
    requires
        store.acquire(request) is Ok,
    ensures
        store.with_row(kinds, entity, row).acquire(request) == Ok::<StoreView<C>, StoreError>(
            store.acquire(request)->Ok_0.with_row(kinds, entity, row),
        ),
    decreases request.len(),
{
    if request.len() > 0 {
        lemma_row_then_acquire(store, request.drop_last(), kinds, entity, row);
        lemma_row_then_acquire_one(
            store.acquire(request.drop_last())->Ok_0,
            request.last(),
            kinds,
            entity,
            row,
        );
    }
}

/// Replacing the row of a live entity by a row of the same length keeps the
/// store well formed.
proof fn lemma_row_keeps_wf<C>(
    store: StoreView<C>,
    kinds: Seq<ComponentKind>,
    entity: int,
    row: Seq<C>,
)
    requires
        store.wf(),
        store.in_range(entity),
        kinds.len() > 0 ==> !store.deleted.contains(entity),
    ensures
        store.with_row(kinds, entity, row).wf(),
{
    let replaced = store.with_row(kinds, entity, row);
    assert forall|k: ComponentKind, e: int|
        replaced.columns.contains_key(k) && replaced.deleted.contains(e) implies (
    #[trigger] replaced.columns[k].slots[e]) is None by {
        assert(store.columns[k].slots[e] is None);
        if kinds.contains(k) {
            let p = kinds.index_of(k);
            assert(0 <= p < kinds.len());
        }
    }
}

/// Stores with the same data give an entity the same row.
proof fn lemma_same_data_same_row<C>(
    a: StoreView<C>,
    b: StoreView<C>,
    kinds: Seq<ComponentKind>,
    entity: int,
)
    requires
        a.same_data(b),
    ensures
        a.has_all(kinds, entity) == b.has_all(kinds, entity),
        a.row(kinds, entity) == b.row(kinds, entity),
{
    assert forall|k: ComponentKind| #[trigger] a.slot(k, entity) == b.slot(k, entity) by {
        assert(a.columns.contains_key(k) == b.columns.contains_key(k));
    }
    assert(a.row(kinds, entity) =~= b.row(kinds, entity));
    assert(a.has_all(kinds, entity) == b.has_all(kinds, entity)) by {
        assert forall|k: ComponentKind| #[trigger] a.present(k, entity) == b.present(k, entity) by {
            assert(a.slot(k, entity) == b.slot(k, entity));
        }
    }
}

/// A pass that came as far as `entity` and then made its step there came as
/// far as the next entity.
proof fn lemma_pass_goes_on<C, S: System<C>>(
    start: StoreView<C>,
    before: S,
    kinds: Seq<ComponentKind>,
    entity: int,
    mid: StoreView<C>,
    during: S,
    end: StoreView<C>,
    after: S,
)
    requires
        0 <= entity,
        swept_below(start, before, kinds, entity, mid, during),
        stepped(mid, during, kinds, entity, end, after),
    ensures
        swept_below(start, before, kinds, entity + 1, end, after),
{
    assert(stepped(mid, during, kinds, entity + 1 - 1, end, after));
}

/// A pass over entities none of which has all requested components changes
/// nothing.
proof fn lemma_idle_pass<C, S: System<C>>(
    store: StoreView<C>,
    system: S,
    kinds: Seq<ComponentKind>,
    bound: int,
)
    requires
        forall|e: int| 0 <= e < bound ==> !store.has_all(kinds, e),
    ensures
        swept_below(store, system, kinds, bound, store, system),
    decreases bound,
{
    if bound > 0 {
        lemma_idle_pass(store, system, kinds, bound - 1);
        lemma_pass_goes_on(store, system, kinds, bound - 1, store, system, store, system);
    }
}

/// Where the borrows of a prefix of a request are refused, so are those of
/// the whole request, with the same error.
proof fn lemma_acquire_fails_later<C>(
    store: StoreView<C>,
    request: Seq<Access>,
    i: int,
)
    requires
        0 <= i < request.len(),
        store.acquire(request.take(i + 1)) is Err,
    ensures
        store.acquire(request) == store.acquire(request.take(i + 1)),
    decreases request.len(),
{
    if i + 1 < request.len() {
        assert(request.drop_last().take(i + 1) =~= request.take(i + 1));
        lemma_acquire_fails_later(store, request.drop_last(), i);
    } else {
        assert(request.take(i + 1) =~= request);
    }
}

} // verus!
