//! What holds of every store, proved over the model.

use vstd::prelude::*;
use crate::model::{
    kinds_of, Access, BorrowState, ComponentKind, StoreError, StoreView, MAX_READERS,
};
use crate::system::{stepped, swept_below, System};

verus! {

/// Granting one borrow changes no slot, keeps the store well formed, and is
/// undone by giving the borrow back.
pub proof fn lemma_acquire_one<C>(store: StoreView<C>, access: Access)
    requires
        store.wf(),
        store.acquire_one(access) is Ok,
    ensures
        store.acquire_one(access)->Ok_0.wf(),
        store.acquire_one(access)->Ok_0.same_data(store),
        store.acquire_one(access)->Ok_0.release_one(access) == store,
{
    let held = store.acquire_one(access)->Ok_0;
    if store.registered(access.kind) {
        assert(held.columns.dom() =~= store.columns.dom());
        assert(held.release_one(access).columns =~= store.columns);
    }
}

/// Granting the borrows of a request changes no slot, keeps the store well
/// formed, and is undone by giving them back.
pub proof fn lemma_acquire<C>(store: StoreView<C>, request: Seq<Access>)
    requires
        store.wf(),
        store.acquire(request) is Ok,
    ensures
        store.acquire(request)->Ok_0.wf(),
        store.acquire(request)->Ok_0.same_data(store),
        store.acquire(request)->Ok_0.release(request) == store,
    decreases request.len(),
{
    if request.len() > 0 {
        let before = store.acquire(request.drop_last())->Ok_0;
        lemma_acquire(store, request.drop_last());
        lemma_acquire_one(before, request.last());
    }
}

/// Stores with the same data give every join the same entities.
pub proof fn lemma_same_data_same_matching<C>(
    a: StoreView<C>,
    b: StoreView<C>,
    kinds: Seq<ComponentKind>,
    bound: int,
)
    requires
        a.same_data(b),
    ensures
        a.matching_below(kinds, bound) == b.matching_below(kinds, bound),
    decreases bound,
{
    if bound > 0 {
        lemma_same_data_same_matching(a, b, kinds, bound - 1);
        let entity = bound - 1;
        assert(a.has_all(kinds, entity) == b.has_all(kinds, entity)) by {
            assert forall|k: ComponentKind| #[trigger] a.present(k, entity) == b.present(k, entity) by {
                assert(a.columns.contains_key(k) == b.columns.contains_key(k));
            }
        }
    }
}

/// One call of the store, with its arguments.
pub enum Call<C> {
    NewEntity,
    Attach { entity: int, kind: ComponentKind, value: C },
    Detach { entity: int, kind: ComponentKind },
    Rewrite { entity: int, kind: ComponentKind, value: C },
    Delete { entity: int },
    Borrow { kind: ComponentKind },
    BorrowMut { kind: ComponentKind },
    Release { kind: ComponentKind },
    ReleaseMut { kind: ComponentKind },
    RewriteBorrowed { entity: int, kind: ComponentKind, value: C },
    PutBorrowed { entity: int, kind: ComponentKind, slot: Option<C> },
}

impl<C> StoreView<C> {
    /// The store after `call`: what the call's contract says it leaves, which
    /// is the store itself where the call is refused.
    pub open spec fn after(self, call: Call<C>) -> Self {
        match call {
            Call::NewEntity => if self.unborrowed() {
                self.with_new_entity()
            } else {
                self
            },
            Call::Attach { entity, kind, value } => if self.attach_outcome(entity, kind) is Ok {
                self.with_component(entity, kind, value)
            } else {
                self
            },
            Call::Detach { entity, kind } => if self.write_outcome(entity, kind) is Ok {
                self.without_component(entity, kind)
            } else {
                self
            },
            Call::Rewrite { entity, kind, value } => if self.write_outcome(entity, kind) is Ok
                && self.present(kind, entity) {
                self.with_component(entity, kind, value)
            } else {
                self
            },
            Call::Delete { entity } => if self.delete_outcome(entity) is Ok {
                self.without_entity(entity)
            } else {
                self
            },
            Call::Borrow { kind } => if self.borrow_outcome(kind) is Ok {
                self.with_shared_borrow(kind)
            } else {
                self
            },
            Call::BorrowMut { kind } => if self.borrow_mut_outcome(kind) is Ok {
                self.with_exclusive_borrow(kind)
            } else {
                self
            },
            Call::Release { kind } => if self.shared(kind) {
                self.without_shared_borrow(kind)
            } else {
                self
            },
            Call::ReleaseMut { kind } => if self.exclusive(kind) {
                self.without_exclusive_borrow(kind)
            } else {
                self
            },
            Call::RewriteBorrowed { entity, kind, value } => if self.exclusive_access_outcome(
                entity,
                kind,
            ) is Ok && self.present(kind, entity) {
                self.with_component(entity, kind, value)
            } else {
                self
            },
            Call::PutBorrowed { entity, kind, slot } => if self.exclusive_write_outcome(
                entity,
                kind,
                slot,
            ) is Ok {
                self.with_slot(entity, kind, slot)
            } else {
                self
            },
        }
    }

    /// The store after the calls of `calls`, first to last.
    pub open spec fn after_all(self, calls: Seq<Call<C>>) -> Self
        decreases calls.len(),
    {
        if calls.len() == 0 {
            self
        } else {
            self.after_all(calls.drop_last()).after(calls.last())
        }
    }
}

/// No call breaks the invariant of the store, and no call lets an entity
/// disappear or a deleted entity come back.
pub proof fn law_call_keeps_store_well_formed<C>(store: StoreView<C>, call: Call<C>)
    requires
        store.wf(),
    ensures
        store.after(call).wf(),
        store.after(call).entity_count >= store.entity_count,
        store.deleted.subset_of(store.after(call).deleted),
{
    let next = store.after(call);
    match call {
        Call::Rewrite { entity, kind, value } => {
            if store.write_outcome(entity, kind) is Ok && store.present(kind, entity) {
                assert(!store.deleted.contains(entity));
            }
        },
        Call::RewriteBorrowed { entity, kind, value } => {
            if store.exclusive_access_outcome(entity, kind) is Ok && store.present(kind, entity) {
                assert(!store.deleted.contains(entity));
            }
        },
        _ => {},
    }
}

/// Column length invariant: after any sequence of calls on a new store,
/// every column that was registered has exactly one slot per entity.
pub proof fn law_column_length<C>(calls: Seq<Call<C>>, kind: ComponentKind)
    ensures
        StoreView::<C>::empty().after_all(calls).wf(),
        StoreView::<C>::empty().after_all(calls).registered(kind) ==> StoreView::<C>::empty(
        ).after_all(calls).columns[kind].slots.len() == StoreView::<C>::empty().after_all(
            calls,
        ).entity_count,
    decreases calls.len(),
{
    if calls.len() > 0 {
        law_column_length(calls.drop_last(), kind);
        law_call_keeps_store_well_formed(
            StoreView::<C>::empty().after_all(calls.drop_last()),
            calls.last(),
        );
    }
}

/// Any sequence of calls keeps a well-formed store well formed.
pub proof fn law_calls_keep_store_well_formed<C>(store: StoreView<C>, calls: Seq<Call<C>>)
    requires
        store.wf(),
    ensures
        store.after_all(calls).wf(),
        store.after_all(calls).entity_count >= store.entity_count,
        store.deleted.subset_of(store.after_all(calls).deleted),
    decreases calls.len(),
{
    if calls.len() > 0 {
        law_calls_keep_store_well_formed(store, calls.drop_last());
        law_call_keeps_store_well_formed(store.after_all(calls.drop_last()), calls.last());
    }
}

/// A deleted entity never again reports a component as present, whatever is
/// called afterwards.
pub proof fn law_deleted_entity_stays_empty<C>(
    store: StoreView<C>,
    entity: int,
    calls: Seq<Call<C>>,
    kind: ComponentKind,
)
    requires
        store.wf(),
        store.delete_outcome(entity) is Ok,
    ensures
        !store.without_entity(entity).after_all(calls).present(kind, entity),
{
    let cleared = store.after(Call::Delete { entity });
    law_call_keeps_store_well_formed(store, Call::Delete { entity });
    law_calls_keep_store_well_formed(cleared, calls);
    assert(cleared.deleted.contains(entity));
}

/// Round trip, first half: a component that was attached is what a read of
/// the same slot returns.
pub proof fn law_attach_then_get<C>(
    store: StoreView<C>,
    entity: int,
    kind: ComponentKind,
    value: C,
)
    requires
        store.wf(),
        store.attach_outcome(entity, kind) is Ok,
    ensures
        store.with_component(entity, kind, value).read_outcome(entity, kind) is Ok,
        store.with_component(entity, kind, value).slot(kind, entity) == Some(value),
{
}

/// Round trip, second half: after a component was removed, a read of the
/// same slot reports absence.
pub proof fn law_remove_then_get<C>(store: StoreView<C>, entity: int, kind: ComponentKind)
    requires
        store.wf(),
        store.write_outcome(entity, kind) is Ok,
    ensures
        store.without_component(entity, kind).read_outcome(entity, kind) is Ok,
        store.without_component(entity, kind).slot(kind, entity) is None,
{
}

/// A write to one slot is not seen in any other slot.
pub proof fn law_attach_leaves_other_slots<C>(
    store: StoreView<C>,
    entity: int,
    kind: ComponentKind,
    value: C,
    other_entity: int,
    other_kind: ComponentKind,
)
    requires
        store.wf(),
        store.attach_outcome(entity, kind) is Ok,
        other_entity != entity || other_kind != kind,
    ensures
        store.with_component(entity, kind, value).slot(other_kind, other_entity) == store.slot(
            other_kind,
            other_entity,
        ),
{
}

/// Idempotent removal: removing a component that the entity does not have
/// changes nothing, whether the call is accepted or refused.
pub proof fn law_remove_absent_changes_nothing<C>(
    store: StoreView<C>,
    entity: int,
    kind: ComponentKind,
)
    requires
        store.wf(),
        !store.present(kind, entity),
    ensures
        store.after(Call::Detach { entity, kind }) == store,
{
    if store.write_outcome(entity, kind) is Ok && store.registered(kind) {
        assert(store.columns[kind].slots.update(entity, None) =~= store.columns[kind].slots);
        assert(store.without_component(entity, kind).columns =~= store.columns);
    }
}

/// An entity is among those a join finds below `bound` exactly if it is
/// below `bound` and has every requested component.
pub proof fn lemma_matching_member<C>(
    store: StoreView<C>,
    kinds: Seq<ComponentKind>,
    bound: int,
    entity: int,
)
    ensures
        store.matching_below(kinds, bound).contains(entity) <==> (0 <= entity < bound
            && store.has_all(kinds, entity)),
    decreases bound,
{
    let found = store.matching_below(kinds, bound);
    if bound > 0 {
        let rest = store.matching_below(kinds, bound - 1);
        lemma_matching_member(store, kinds, bound - 1, entity);
        if store.has_all(kinds, bound - 1) {
            assert(found == rest.push(bound - 1));
            if found.contains(entity) {
                let i = choose|i: int| 0 <= i < found.len() && found[i] == entity;
                if i < rest.len() {
                    assert(rest[i] == entity);
                }
            }
            if entity == bound - 1 {
                assert(found[rest.len() as int] == entity);
            } else if rest.contains(entity) {
                let i = choose|i: int| 0 <= i < rest.len() && rest[i] == entity;
                assert(found[i] == entity);
            }
        }
    }
}

/// What a join finds below `bound` is in strictly ascending order.
pub proof fn lemma_matching_ascending<C>(
    store: StoreView<C>,
    kinds: Seq<ComponentKind>,
    bound: int,
    i: int,
    j: int,
)
    requires
        0 <= i < j < store.matching_below(kinds, bound).len(),
    ensures
        store.matching_below(kinds, bound)[i] < store.matching_below(kinds, bound)[j],
    decreases bound,
{
    if bound > 0 {
        let rest = store.matching_below(kinds, bound - 1);
        if store.has_all(kinds, bound - 1) && j == rest.len() {
            assert(rest.contains(rest[i]));
            lemma_matching_member(store, kinds, bound - 1, rest[i]);
        } else {
            lemma_matching_ascending(store, kinds, bound - 1, i, j);
        }
    }
}

/// Join completeness: a join visits exactly the entities that have every
/// requested component, each once, in ascending order.
pub proof fn law_join_complete<C>(store: StoreView<C>, kinds: Seq<ComponentKind>)
    ensures
        forall|e: int| #[trigger]
            store.matching(kinds).contains(e) <==> (store.in_range(e) && store.has_all(kinds, e)),
        forall|i: int, j: int|
            0 <= i < j < store.matching(kinds).len() ==> (#[trigger] store.matching(kinds)[i]) < (
            #[trigger] store.matching(kinds)[j]),
{
    let bound = store.entity_count as int;
    assert forall|e: int| #[trigger]
        store.matching(kinds).contains(e) <==> (store.in_range(e) && store.has_all(
            kinds,
            e,
        )) by {
        lemma_matching_member(store, kinds, bound, e);
    }
    assert forall|i: int, j: int| 0 <= i < j < store.matching(kinds).len() implies (
    #[trigger] store.matching(kinds)[i]) < (#[trigger] store.matching(kinds)[j]) by {
        lemma_matching_ascending(store, kinds, bound, i, j);
    }
}

/// Borrow exclusivity: while any borrow of a column is outstanding, its
/// exclusive borrow is refused, and the store is left as it was.
pub proof fn law_exclusive_borrow_refused_while_borrowed<C>(
    store: StoreView<C>,
    kind: ComponentKind,
)
    requires
        store.wf(),
        store.shared(kind) || store.exclusive(kind),
    ensures
        store.borrow_mut_outcome(kind) == Err::<(), StoreError>(StoreError::BorrowConflict),
        store.after(Call::BorrowMut { kind }) == store,
{
}

/// Borrow exclusivity: while the exclusive borrow of a column is
/// outstanding, a shared borrow of it is refused.
pub proof fn law_shared_borrow_refused_while_exclusive<C>(
    store: StoreView<C>,
    kind: ComponentKind,
)
    requires
        store.wf(),
        store.exclusive(kind),
    ensures
        store.borrow_outcome(kind) == Err::<(), StoreError>(StoreError::BorrowConflict),
        store.after(Call::Borrow { kind }) == store,
{
}

/// Two shared borrows of a column both succeed where the column exists, its
/// exclusive borrow is not outstanding and it has room for two more
/// readers; and giving both back leaves the store as it was.
pub proof fn law_two_shared_borrows_succeed<C>(store: StoreView<C>, kind: ComponentKind)
    requires
        store.wf(),
        store.registered(kind),
        match store.guard(kind) {
            BorrowState::Free => true,
            BorrowState::Shared(n) => n + 2 <= MAX_READERS,
            BorrowState::Exclusive => false,
        },
    ensures
        store.borrow_outcome(kind) is Ok,
        store.with_shared_borrow(kind).borrow_outcome(kind) is Ok,
        store.with_shared_borrow(kind).with_shared_borrow(kind).shared(kind),
        store.with_shared_borrow(kind).with_shared_borrow(kind).wf(),
        store.with_shared_borrow(kind).with_shared_borrow(kind).without_shared_borrow(
            kind,
        ).without_shared_borrow(kind) == store,
{
    let once = store.with_shared_borrow(kind);
    let twice = once.with_shared_borrow(kind);
    let back = twice.without_shared_borrow(kind);
    assert(back.guard(kind) == once.guard(kind));
    assert(back.without_shared_borrow(kind).guard(kind) == store.guard(kind));
    assert(back.without_shared_borrow(kind).columns =~= store.columns);
}

/// While any column is borrowed the shape of the store is kept: no entity is
/// created, none is deleted and no column is registered. Such calls are
/// refused and leave the store as it was.
pub proof fn law_shape_is_kept_while_borrowed<C>(
    store: StoreView<C>,
    entity: int,
    kind: ComponentKind,
    value: C,
)
    requires
        store.wf(),
        !store.unborrowed(),
    ensures
        store.after(Call::NewEntity) == store,
        store.after(Call::Delete { entity }) == store,
        !store.registered(kind) ==> store.attach_outcome(entity, kind) is Err && store.after(
            Call::Attach { entity, kind, value },
        ) == store,
{
}

/// Taking the borrows of a request that names no kind twice, from a store
/// in which the kinds it names are free, is not refused; and it leaves every
/// other column as it was.
pub proof fn lemma_acquire_free<C>(store: StoreView<C>, request: Seq<Access>)
    requires
        store.wf(),
        kinds_of(request).no_duplicates(),
        forall|i: int| 0 <= i < request.len() ==> store.guard(#[trigger] request[i].kind) is Free,
    ensures
        store.acquire(request) is Ok,
        forall|k: ComponentKind|
            !kinds_of(request).contains(k) ==> #[trigger] store.acquire(request)->Ok_0.guard(k)
                == store.guard(k),
    decreases request.len(),
{
    let kinds = kinds_of(request);
    if request.len() > 0 {
        let front = request.drop_last();
        let last = request.last();
        let n = request.len() as int;
        assert(kinds_of(front) =~= kinds.drop_last());
        assert forall|i: int, j: int|
            0 <= i < front.len() && 0 <= j < front.len() && i != j implies kinds_of(front)[i]
            != kinds_of(front)[j] by {
            assert(kinds[i] != kinds[j]);
        }
        assert forall|i: int| 0 <= i < front.len() implies store.guard(
            #[trigger] front[i].kind,
        ) is Free by {
            assert(front[i] == request[i]);
        }
        lemma_acquire_free(store, front);
        lemma_acquire(store, front);
        let held = store.acquire(front)->Ok_0;
        assert(!kinds_of(front).contains(last.kind)) by {
            if kinds_of(front).contains(last.kind) {
                let i = choose|i: int| 0 <= i < front.len() && kinds_of(front)[i] == last.kind;
                assert(kinds[i] == kinds[n - 1]);
            }
        }
        assert(held.guard(last.kind) == store.guard(last.kind));
        assert(store.guard(last.kind) is Free) by {
            assert(request[n - 1] == last);
        }
        assert(held.registered(last.kind) == store.registered(last.kind));
        assert forall|k: ComponentKind| !kinds.contains(k) implies #[trigger] store.acquire(
            request,
        )->Ok_0.guard(k) == store.guard(k) by {
            assert(k != last.kind) by {
                assert(kinds[n - 1] == last.kind);
            }
            assert(!kinds_of(front).contains(k)) by {
                if kinds_of(front).contains(k) {
                    let i = choose|i: int| 0 <= i < front.len() && kinds_of(front)[i] == k;
                    assert(kinds[i] == k);
                }
            }
            assert(held.guard(k) == store.guard(k));
        }
    }
}

/// A pass over a store in which nothing is borrowed is not refused, as long
/// as its request names no kind twice.
pub proof fn law_pass_over_unborrowed_store_is_granted<C>(store: StoreView<C>, request: Seq<Access>)
    requires
        store.wf(),
        store.unborrowed(),
        kinds_of(request).no_duplicates(),
    ensures
        store.pass_outcome(request) is Ok,
{
    lemma_acquire_free(store, request);
}

/// A pass changes what slots hold and nothing else: no entity, no column and
/// no borrow comes or goes.
pub proof fn law_pass_keeps_shape<C, S: System<C>>(
    start: StoreView<C>,
    before: S,
    kinds: Seq<ComponentKind>,
    bound: int,
    end: StoreView<C>,
    after: S,
)
    requires
        swept_below(start, before, kinds, bound, end, after),
    ensures
        end.same_shape(start),
        start.unborrowed() ==> end.unborrowed(),
    decreases bound,
{
    if bound > 0 {
        let (mid, during) = choose|mid: StoreView<C>, during: S|
            swept_below(start, before, kinds, bound - 1, mid, during) && #[trigger] stepped(
                mid,
                during,
                kinds,
                bound - 1,
                end,
                after,
            );
        law_pass_keeps_shape(start, before, kinds, bound - 1, mid, during);
        assert(end.columns.dom() =~= mid.columns.dom());
    }
    assert(end.columns.dom() =~= start.columns.dom());
    if start.unborrowed() {
        assert forall|k: ComponentKind| #[trigger] end.registered(k) implies end.columns[k].guard is Free by {
            assert(start.registered(k));
            assert(end.columns.contains_key(k));
        }
    }
}

/// A row that is put back as it was taken leaves the store as it is.
pub proof fn law_row_put_back_changes_nothing<C>(
    store: StoreView<C>,
    kinds: Seq<ComponentKind>,
    entity: int,
)
    requires
        store.wf(),
        store.has_all(kinds, entity),
    ensures
        store.with_row(kinds, entity, store.row(kinds, entity)) == store,
{
    let row = store.row(kinds, entity);
    let put = store.with_row(kinds, entity, row);
    assert forall|k: ComponentKind| #[trigger] store.columns.contains_key(k) implies put.columns[k]
        == store.columns[k] by {
        if kinds.contains(k) {
            let i = kinds.index_of(k);
            assert(0 <= i < kinds.len() && kinds[i] == k);
            assert(store.present(kinds[i], entity));
            assert(store.columns[k].slots.update(entity, Some(row[i])) =~= store.columns[k].slots);
        }
    }
    assert(put.columns =~= store.columns);
}

} // verus!
