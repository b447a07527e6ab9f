//! The components of the game, as the store holds them: one kind per type.

use vstd::prelude::*;
use crate::game::animation::Animator;
use crate::game::boxes::PushBox;
use crate::game::buttons::{Button, SlaveButton};
use crate::game::clones::Playback;
use crate::model::{kinds_of, Access, AccessMode, as_ints};
use crate::game::common::Cell;
use crate::game::movement::Moveable;
use crate::game::player::Player;
use crate::game::render::Sprite;
use crate::game::win::WinTile;
use crate::laws::Call;
use crate::model::{ComponentKind, StoreError, StoreView};
use crate::store::World;

verus! {

pub const CELL: ComponentKind = 0;

pub const SPRITE: ComponentKind = 1;

pub const BUTTON: ComponentKind = 2;

pub const SLAVE_BUTTON: ComponentKind = 3;

pub const CLONE: ComponentKind = 4;

pub const PLAYBACK: ComponentKind = 5;

pub const PLAYER: ComponentKind = 6;

pub const MOVEABLE: ComponentKind = 7;

pub const PUSH_BOX: ComponentKind = 8;

pub const WIN_TILE: ComponentKind = 9;

pub const ANIMATOR: ComponentKind = 10;

/// A component of any of the game's types.
pub enum Component {
    Cell(Cell),
    Sprite(Sprite),
    Button(Button),
    SlaveButton(SlaveButton),
    Clone(crate::game::clones::Clone),
    Playback(Playback),
    Player(Player),
    Moveable(Moveable),
    PushBox(PushBox),
    WinTile(WinTile),
    Animator(Animator),
}

impl Component {
    /// The kind under which the store keeps a component of this type.
    pub open spec fn spec_kind(&self) -> ComponentKind {
        match self {
            Component::Cell(_) => CELL,
            Component::Sprite(_) => SPRITE,
            Component::Button(_) => BUTTON,
            Component::SlaveButton(_) => SLAVE_BUTTON,
            Component::Clone(_) => CLONE,
            Component::Playback(_) => PLAYBACK,
            Component::Player(_) => PLAYER,
            Component::Moveable(_) => MOVEABLE,
            Component::PushBox(_) => PUSH_BOX,
            Component::WinTile(_) => WIN_TILE,
            Component::Animator(_) => ANIMATOR,
        }
    }

    /// The kind under which the store keeps a component of this type.
    #[verifier::when_used_as_spec(spec_kind)]
    pub fn kind(&self) -> (kind: ComponentKind)
        ensures
            kind == self.kind(),
    {
        match self {
            Component::Cell(_) => CELL,
            Component::Sprite(_) => SPRITE,
            Component::Button(_) => BUTTON,
            Component::SlaveButton(_) => SLAVE_BUTTON,
            Component::Clone(_) => CLONE,
            Component::Playback(_) => PLAYBACK,
            Component::Player(_) => PLAYER,
            Component::Moveable(_) => MOVEABLE,
            Component::PushBox(_) => PUSH_BOX,
            Component::WinTile(_) => WIN_TILE,
            Component::Animator(_) => ANIMATOR,
        }
    }
}

/// Every column holds components of its own type only.
pub open spec fn typed(store: StoreView<Component>) -> bool {
    forall|kind: ComponentKind, entity: int|
        (#[trigger] store.slot(kind, entity)) matches Some(component) ==> component.kind() == kind
}

/// The cell that `entity` stands on, if it has one.
pub open spec fn cell_at(store: StoreView<Component>, entity: int) -> Option<Cell> {
    match store.slot(CELL, entity) {
        Some(Component::Cell(cell)) => Some(cell),
        _ => None,
    }
}

/// Attaches `component` to `entity`, under the kind of its type. A store
/// that is typed stays typed.
pub fn attach(world: &mut World<Component>, entity: usize, component: Component) -> (attached:
    Result<(), StoreError>)
    requires
        old(world).wf(),
    ensures
        final(world).wf(),
        attached == old(world)@.attach_outcome(entity as int, component.kind()),
        attached is Ok ==> final(world)@ == old(world)@.with_component(
            entity as int,
            component.kind(),
            component,
        ),
        attached is Err ==> final(world)@ == old(world)@,
        typed(old(world)@) ==> typed(final(world)@),
{
    let kind = component.kind();
    let attached = world.add_component_to_entity(entity, kind, component);
    proof {
        if attached is Ok && typed(old(world)@) {
            lemma_typed_with_component(old(world)@, entity as int, component);
        }
    }
    attached
}

/// Writing a component into the column of its own type keeps the store
/// typed.
pub proof fn lemma_typed_with_component(
    store: StoreView<Component>,
    entity: int,
    component: Component,
)
    requires
        store.wf(),
        typed(store),
        store.in_range(entity),
    ensures
        typed(store.with_component(entity, component.kind(), component)),
{
    let after = store.with_component(entity, component.kind(), component);
    assert forall|kind: ComponentKind, e: int| (#[trigger] after.slot(kind, e)) is Some implies after.slot(
        kind,
        e,
    )->0.kind() == kind by {
        if kind != component.kind() || e != entity {
            assert(after.slot(kind, e) == store.slot(kind, e));
        }
    }
}

/// The cell that `entity` stands on: `None` where it has none, or the
/// store cannot be read.
pub fn cell_of(world: &World<Component>, entity: usize) -> (cell: Option<Cell>)
    requires
        world.wf(),
    ensures
        cell == if world@.read_outcome(entity as int, CELL) is Ok {
            cell_at(world@, entity as int)
        } else {
            None
        },
{
    match world.get_component_from_entity(entity, CELL) {
        Ok(Some(Component::Cell(cell))) => Some(*cell),
        _ => None,
    }
}

/// The calls that remove the component of `kind` from each of `entities`,
/// in their order.
pub open spec fn detach_calls(kind: ComponentKind, entities: Seq<usize>) -> Seq<Call<Component>> {
    Seq::new(entities.len(), |i: int| Call::Detach { entity: entities[i] as int, kind })
}

/// Removes the component of `kind` from each of `entities`; an entity for
/// which the store refuses is passed over.
pub fn detach_all(world: &mut World<Component>, kind: ComponentKind, entities: &Vec<usize>)
    requires
        old(world).wf(),
    ensures
        final(world).wf(),
        final(world)@ == old(world)@.after_all(detach_calls(kind, entities@)),
        final(world)@.same_shape(old(world)@),
{
    let ghost calls = detach_calls(kind, entities@);
    let mut i: usize = 0;
    assert(calls.take(0) =~= Seq::<Call<Component>>::empty());
    while i < entities.len()
        invariant
            i <= entities@.len(),
            world.wf(),
            calls == detach_calls(kind, entities@),
            world@ == old(world)@.after_all(calls.take(i as int)),
            world@.same_shape(old(world)@),
        decreases entities@.len() - i,
    {
        proof {
            assert(calls.take(i + 1).drop_last() =~= calls.take(i as int));
            assert(calls.take(i + 1).last() == calls[i as int]);
        }
        let ghost reached = world@;
        let _ = world.remove_component_from_entity(entities[i], kind);
        assert(world@.columns.dom() =~= reached.columns.dom());
        i += 1;
    }
    assert(calls.take(i as int) =~= calls);
}

/// The calls that mark each of `entities` for playback, in their order.
pub open spec fn playback_calls(entities: Seq<int>) -> Seq<Call<Component>> {
    Seq::new(
        entities.len(),
        |i: int|
            Call::Attach {
                entity: entities[i],
                kind: PLAYBACK,
                value: Component::Playback(Playback {  }),
            },
    )
}

/// The store after every clone was marked for playback.
pub open spec fn clones_marked(store: StoreView<Component>) -> StoreView<Component> {
    store.after_all(playback_calls(store.matching(seq![CLONE])))
}

/// Marks every clone for playback: each entity that has a clone component
/// gets a playback mark. The pass is refused, and nothing changes, where the
/// clones cannot be read.
pub fn mark_clones_for_playback(world: &mut World<Component>) -> (marked: Result<(), StoreError>)
    requires
        old(world).wf(),
    ensures
        final(world).wf(),
        match marked {
            Ok(_) => old(world)@.acquire(seq![Access { kind: CLONE, mode: AccessMode::Read }]) is Ok
                && final(world)@ == clones_marked(old(world)@),
            Err(e) => old(world)@.acquire(seq![Access { kind: CLONE, mode: AccessMode::Read }])
                matches Err(refused) && refused == e && final(world)@ == old(world)@,
        },
{
    let request = vec![Access { kind: CLONE, mode: AccessMode::Read }];
    assert(request@ =~= seq![Access { kind: CLONE, mode: AccessMode::Read }]);
    assert(kinds_of(request@) =~= seq![CLONE]);
    let clones = match world.join(&request) {
        Ok(clones) => clones,
        Err(e) => {
            return Err(e);
        },
    };
    let ghost ids = old(world)@.matching(seq![CLONE]);
    let ghost calls = playback_calls(ids);
    let mut i: usize = 0;
    assert(calls.take(0) =~= Seq::<Call<Component>>::empty());
    while i < clones.len()
        invariant
            i <= clones@.len(),
            world.wf(),
            as_ints(clones@) == ids,
            calls == playback_calls(ids),
            world@ == old(world)@.after_all(calls.take(i as int)),
        decreases clones@.len() - i,
    {
        proof {
            assert(ids[i as int] == clones@[i as int] as int);
            assert(calls.take(i + 1).drop_last() =~= calls.take(i as int));
            assert(calls.take(i + 1).last() == calls[i as int]);
        }
        let _ = world.add_component_to_entity(clones[i], PLAYBACK, Component::Playback(Playback {  }));
        i += 1;
    }
    assert(calls.take(i as int) =~= calls);
    Ok(())
}

/// `entity` holds components of the kinds in `kinds` at most.
pub open spec fn holds_only(
    store: StoreView<Component>,
    entity: int,
    kinds: Seq<ComponentKind>,
) -> bool {
    forall|kind: ComponentKind|
        !kinds.contains(kind) ==> (#[trigger] store.slot(kind, entity)) is None
}

/// The kinds of what is only drawn: a cell and a sprite.
pub open spec fn drawn_kinds() -> Seq<ComponentKind> {
    seq![CELL, SPRITE]
}

/// The store `after` is the store `before` with new entities behind the old
/// ones: no entity that was there has changed, and none was deleted.
pub open spec fn built_upon(before: StoreView<Component>, after: StoreView<Component>) -> bool {
    &&& after.entity_count >= before.entity_count
    &&& after.deleted == before.deleted
    &&& forall|kind: ComponentKind, e: int|
        e < before.entity_count ==> #[trigger] after.slot(kind, e) == before.slot(kind, e)
}

/// What is built upon a store that was built upon another is built upon
/// the other.
pub proof fn lemma_built_upon_twice(
    first: StoreView<Component>,
    second: StoreView<Component>,
    third: StoreView<Component>,
)
    requires
        built_upon(first, second),
        built_upon(second, third),
    ensures
        built_upon(first, third),
{
    assert forall|kind: ComponentKind, e: int| e < first.entity_count implies #[trigger] third.slot(
        kind,
        e,
    ) == first.slot(kind, e) by {
        assert(third.slot(kind, e) == second.slot(kind, e));
    }
}

/// Creates an entity in a store in which nothing is borrowed.
pub fn spawn(world: &mut World<Component>) -> (entity: usize)
    requires
        old(world).wf(),
        old(world)@.unborrowed(),
    ensures
        final(world).wf(),
        final(world)@.unborrowed(),
        entity == old(world)@.entity_count,
        final(world)@ == old(world)@.with_new_entity(),
        final(world)@.live(entity as int),
        typed(old(world)@) ==> typed(final(world)@),
{
    let entity = match world.new_entity() {
        Ok(entity) => entity,
        Err(_) => 0,
    };
    proof {
        let before = old(world)@;
        let after = world@;
        assert forall|kind: ComponentKind| #[trigger] after.registered(kind) implies after.columns[kind].guard is Free by {
            assert(before.registered(kind));
        }
        if typed(before) {
            assert forall|kind: ComponentKind, e: int| (#[trigger] after.slot(kind, e)) is Some implies after.slot(
                kind,
                e,
            )->0.kind() == kind by {
                if e < before.entity_count {
                    assert(after.slot(kind, e) == before.slot(kind, e));
                }
            }
        }
    }
    entity
}

/// Gives the live entity `entity` the component `component`, in a store in
/// which nothing is borrowed.
pub fn give(world: &mut World<Component>, entity: usize, component: Component)
    requires
        old(world).wf(),
        old(world)@.unborrowed(),
        old(world)@.live(entity as int),
    ensures
        final(world).wf(),
        final(world)@.unborrowed(),
        final(world)@ == old(world)@.with_component(entity as int, component.kind(), component),
        final(world)@.entity_count == old(world)@.entity_count,
        forall|e: int| old(world)@.live(e) == final(world)@.live(e),
        typed(old(world)@) ==> typed(final(world)@),
{
    let _ = attach(world, entity, component);
    proof {
        let before = old(world)@;
        let after = world@;
        assert forall|kind: ComponentKind| #[trigger] after.registered(kind) implies after.columns[kind].guard is Free by {
            if kind != component.kind() {
                assert(before.registered(kind));
            } else if before.registered(kind) {
                assert(before.columns[kind].guard is Free);
            }
        }
    }
}

/// The store after `entity` was given each of `components`, first to last.
pub open spec fn given(
    store: StoreView<Component>,
    entity: int,
    components: Seq<Component>,
) -> StoreView<Component>
    decreases components.len(),
{
    if components.len() == 0 {
        store
    } else {
        given(store, entity, components.drop_last()).with_component(
            entity,
            components.last().kind(),
            components.last(),
        )
    }
}

/// The store after an entity was created and given each of `components`.
pub open spec fn with_entity(store: StoreView<Component>, components: Seq<Component>) -> StoreView<
    Component,
> {
    given(store.with_new_entity(), store.entity_count as int, components)
}

/// The kinds of `components`, in their order.
pub open spec fn kinds_in(components: Seq<Component>) -> Seq<ComponentKind> {
    Seq::new(components.len(), |i: int| components[i].kind())
}

/// Creates an entity and gives it each of `components`, first to last.
/// What the other entities hold is not touched; the new entity holds the
/// components it was given, the last of a kind where two are of one kind.
pub fn create(world: &mut World<Component>, components: Vec<Component>) -> (entity: usize)
    requires
        old(world).wf(),
        old(world)@.unborrowed(),
    ensures
        final(world).wf(),
        final(world)@.unborrowed(),
        entity == old(world)@.entity_count,
        final(world)@.entity_count == old(world)@.entity_count + 1,
        final(world)@.deleted == old(world)@.deleted,
        final(world)@ == with_entity(old(world)@, components@),
        typed(old(world)@) ==> typed(final(world)@),
        built_upon(old(world)@, final(world)@),
        forall|kind: ComponentKind, e: int|
            e != entity ==> #[trigger] final(world)@.slot(kind, e) == old(world)@.slot(kind, e),
        forall|kind: ComponentKind|
            !kinds_in(components@).contains(kind) ==> (#[trigger] final(world)@.slot(
                kind,
                entity as int,
            )) is None,
        holds_only(final(world)@, entity as int, kinds_in(components@)),
        forall|i: int|
            0 <= i < components@.len() && (forall|j: int|
                i < j < components@.len() ==> components@[j].kind() != components@[i].kind())
                ==> final(world)@.slot(#[trigger] components@[i].kind(), entity as int) == Some(
                components@[i],
            ),
{
    let entity = spawn(world);
    let ghost started = world@;
    let ghost all = components@;
    let mut components = components;
    let ghost mut done: int = 0;
    assert(all.take(0) =~= Seq::<Component>::empty());
    proof {
        let before = old(world)@;
        assert forall|kind: ComponentKind, e: int| e != entity implies #[trigger] started.slot(
            kind,
            e,
        ) == before.slot(kind, e) by {}
        assert forall|kind: ComponentKind| (#[trigger] started.slot(kind, entity as int)) is None by {}
    }
    while components.len() > 0
        invariant
            0 <= done <= all.len(),
            components@ == all.skip(done),
            world.wf(),
            world@.unborrowed(),
            world@.live(entity as int),
            world@.entity_count == started.entity_count,
            world@.deleted == started.deleted,
            world@ == given(started, entity as int, all.take(done)),
            typed(started) ==> typed(world@),
            forall|kind: ComponentKind, e: int|
                e != entity ==> #[trigger] world@.slot(kind, e) == started.slot(kind, e),
            forall|kind: ComponentKind|
                !kinds_in(all.take(done)).contains(kind) ==> (#[trigger] world@.slot(
                    kind,
                    entity as int,
                )) is None,
            forall|i: int|
                0 <= i < done && (forall|j: int| i < j < done ==> all[j].kind() != all[i].kind())
                    ==> world@.slot(#[trigger] all[i].kind(), entity as int) == Some(all[i]),
        decreases components@.len(),
    {
        let component = components.remove(0);
        let ghost reached = world@;
        proof {
            assert(component == all[done]);
            assert(all.take(done + 1).drop_last() =~= all.take(done));
            assert(all.take(done + 1).last() == all[done]);
            assert(components@ =~= all.skip(done + 1));
        }
        give(world, entity, component);
        proof {
            let kind_now = component.kind();
            assert forall|kind: ComponentKind, e: int| e != entity implies #[trigger] world@.slot(
                kind,
                e,
            ) == started.slot(kind, e) by {
                assert(world@.slot(kind, e) == reached.slot(kind, e));
            }
            assert forall|kind: ComponentKind| !kinds_in(all.take(done + 1)).contains(
                kind,
            ) implies (#[trigger] world@.slot(kind, entity as int)) is None by {
                assert(kinds_in(all.take(done + 1))[done] == kind_now);
                assert(kind != kind_now);
                if kinds_in(all.take(done)).contains(kind) {
                    let i = choose|i: int|
                        0 <= i < done && kinds_in(all.take(done))[i] == kind;
                    assert(kinds_in(all.take(done + 1))[i] == kind);
                }
                assert(world@.slot(kind, entity as int) == reached.slot(kind, entity as int));
            }
            assert forall|i: int|
                0 <= i < done + 1 && (forall|j: int|
                    i < j < done + 1 ==> all[j].kind() != all[i].kind()) implies world@.slot(
                #[trigger] all[i].kind(),
                entity as int,
            ) == Some(all[i]) by {
                if i < done {
                    assert(all[done].kind() != all[i].kind());
                    assert(world@.slot(all[i].kind(), entity as int) == reached.slot(
                        all[i].kind(),
                        entity as int,
                    ));
                }
            }
            done = done + 1;
        }
    }
    proof {
        assert(all.take(done) =~= all);
    }
    entity
}

} // verus!
