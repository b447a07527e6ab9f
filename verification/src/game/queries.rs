//! Read passes over the game's store that the rules start from.

use vstd::prelude::*;
use crate::game::components::{cell_at, Component, CELL};
use crate::game::win::Marked;
use crate::model::{kinds_of, Access, AccessMode, ComponentKind, StoreError, StoreView};
use crate::store::World;

verus! {

/// The colour that a component shows, if it is of a type that has one: the
/// player's, a clone's, a win tile's.
pub open spec fn color_in(component: Component) -> Option<u8> {
    match component {
        Component::Player(player) => Some(player.color),
        Component::Clone(clone) => Some(clone.color),
        Component::WinTile(tile) => Some(tile.color),
        _ => None,
    }
}

/// The component belongs to the room `room`: a win tile belongs to the room
/// of its level, anything else to every room, and everything belongs where
/// no room is asked for.
pub open spec fn in_room(component: Component, room: Option<usize>) -> bool {
    match (component, room) {
        (Component::WinTile(tile), Some(level)) => tile.level == level,
        _ => true,
    }
}

/// The cell and the colour of `entity`, the colour being that of its
/// component of `kind`, where that component belongs to `room`.
pub open spec fn mark_at(
    store: StoreView<Component>,
    kind: ComponentKind,
    room: Option<usize>,
    entity: int,
) -> Option<Marked> {
    match (cell_at(store, entity), store.slot(kind, entity)) {
        (Some(cell), Some(component)) => match color_in(component) {
            Some(color) => if in_room(component, room) {
                Some(Marked { cell, color })
            } else {
                None
            },
            None => None,
        },
        _ => None,
    }
}

/// The marks of `entities`, in their order, without those that have none.
pub open spec fn marks_of(
    store: StoreView<Component>,
    kind: ComponentKind,
    room: Option<usize>,
    entities: Seq<int>,
) -> Seq<Marked>
    decreases entities.len(),
{
    if entities.len() == 0 {
        Seq::empty()
    } else {
        let rest = marks_of(store, kind, room, entities.drop_last());
        match mark_at(store, kind, room, entities.last()) {
            Some(mark) => rest.push(mark),
            None => rest,
        }
    }
}

/// The marks of all entities that have a cell and a component of `kind`
/// that belongs to `room`, in ascending order of the entities.
pub open spec fn marks(store: StoreView<Component>, kind: ComponentKind, room: Option<usize>) -> Seq<
    Marked,
> {
    marks_of(store, kind, room, store.matching(seq![CELL, kind]))
}

/// Two read borrows are granted where nothing is borrowed.
pub proof fn lemma_two_reads_granted<C>(store: StoreView<C>, first: ComponentKind, second: ComponentKind)
    requires
        store.wf(),
        store.unborrowed(),
    ensures
        store.acquire(
            seq![
                Access { kind: first, mode: AccessMode::Read },
                Access { kind: second, mode: AccessMode::Read },
            ],
        ) is Ok,
{
    let a = Access { kind: first, mode: AccessMode::Read };
    let b = Access { kind: second, mode: AccessMode::Read };
    let request = seq![a, b];
    assert(request.drop_last() =~= seq![a]);
    assert(seq![a].drop_last() =~= Seq::<Access>::empty());
    reveal_with_fuel(StoreView::acquire, 3);
    assert(store.acquire(Seq::<Access>::empty()) == Ok::<StoreView<C>, StoreError>(store));
    assert(store.acquire(seq![a]) == store.acquire_one(a));
    if store.registered(first) {
        assert(store.columns[first].guard is Free);
    }
    let held = store.acquire_one(a)->Ok_0;
    if held.registered(second) {
        if second != first {
            assert(store.registered(second));
            assert(held.columns[second].guard is Free);
        }
    }
}

/// The colour that a component shows.
pub fn color_of(component: &Component) -> (color: Option<u8>)
    ensures
        color == color_in(*component),
{
    match component {
        Component::Player(player) => Some(player.color),
        Component::Clone(clone) => Some(clone.color),
        Component::WinTile(tile) => Some(tile.color),
        _ => None,
    }
}

/// Whether the component belongs to `room`.
pub fn is_in_room(component: &Component, room: Option<usize>) -> (inside: bool)
    ensures
        inside == in_room(*component, room),
{
    match (component, room) {
        (Component::WinTile(tile), Some(level)) => tile.level == level,
        _ => true,
    }
}

/// The cells and colours of all entities that have a cell and a component
/// of `kind` that belongs to `room`, in ascending order of the entities.
/// The store is left as it was.
pub fn marked(world: &mut World<Component>, kind: ComponentKind, room: Option<usize>) -> (found:
    Vec<Marked>)
    requires
        old(world).wf(),
        old(world)@.unborrowed(),
    ensures
        final(world).wf(),
        final(world)@ == old(world)@,
        found@ == marks(old(world)@, kind, room),
{
    let request = vec![
        Access { kind: CELL, mode: AccessMode::Read },
        Access { kind, mode: AccessMode::Read },
    ];
    proof {
        lemma_two_reads_granted(world@, CELL, kind);
        assert(kinds_of(request@) =~= seq![CELL, kind]);
    }
    let entities = match world.join(&request) {
        Ok(entities) => entities,
        Err(_) => {
            return Vec::new();
        },
    };
    let ghost store = world@;
    let ghost ids = store.matching(seq![CELL, kind]);
    let mut found: Vec<Marked> = Vec::new();
    let mut i: usize = 0;
    assert(ids.take(0) =~= Seq::<int>::empty());
    while i < entities.len()
        invariant
            i <= entities@.len(),
            world.wf(),
            world@ == store,
            store.unborrowed(),
            ids == store.matching(seq![CELL, kind]),
            crate::model::as_ints(entities@) == ids,
            found@ == marks_of(store, kind, room, ids.take(i as int)),
        decreases entities@.len() - i,
    {
        let entity = entities[i];
        proof {
            assert(ids[i as int] == entity as int);
            assert(ids.take(i + 1).drop_last() =~= ids.take(i as int));
            assert(ids.take(i + 1).last() == entity as int);
            crate::laws::lemma_matching_member(
                store,
                seq![CELL, kind],
                store.entity_count as int,
                entity as int,
            );
            assert(ids.contains(ids[i as int]));
        }
        let cell = match world.get_component_from_entity(entity, CELL) {
            Ok(Some(Component::Cell(cell))) => Some(*cell),
            _ => None,
        };
        let color = match world.get_component_from_entity(entity, kind) {
            Ok(Some(component)) => if is_in_room(component, room) {
                color_of(component)
            } else {
                None
            },
            _ => None,
        };
        match (cell, color) {
            (Some(cell), Some(color)) => {
                found.push(Marked { cell, color });
            },
            _ => {},
        }
        i += 1;
    }
    assert(ids.take(i as int) =~= ids);
    found
}

} // verus!
