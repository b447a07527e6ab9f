//! Systems: the code that a pass over the store runs for each entity.

use vstd::prelude::*;
use crate::model::{ComponentKind, StoreView};

verus! {

/// What a pass runs once for every entity that has all the requested
/// components.
pub trait System<C>: Sized {
    /// A visit of `entity` can turn the system `before` into `after`, and
    /// the row `row` of the entity into `rewritten`. A system that says
    /// nothing of its visits admits every outcome.
    open spec fn visits(
        before: Self,
        entity: int,
        row: Seq<C>,
        after: Self,
        rewritten: Seq<C>,
    ) -> bool {
        true
    }

    /// Visits `entity`. `row` holds the entity's components in the
    /// requested columns, in the order of the request; what the visit leaves
    /// in `row` goes back into the store.
    fn visit(&mut self, entity: usize, row: &mut Vec<C>)
        ensures
            final(row)@.len() == old(row)@.len(),
            Self::visits(*old(self), entity as int, old(row)@, *final(self), final(row)@),
    ;
}

/// What the step of a pass at `entity` can make of the store `mid` and the
/// system `during`: a visit where the entity has all of `kinds`, nothing
/// where it has not.
pub open spec fn stepped<C, S: System<C>>(
    mid: StoreView<C>,
    during: S,
    kinds: Seq<ComponentKind>,
    entity: int,
    end: StoreView<C>,
    after: S,
) -> bool {
    if mid.has_all(kinds, entity) {
        exists|rewritten: Seq<C>|
            rewritten.len() == kinds.len() && #[trigger] S::visits(
                during,
                entity,
                mid.row(kinds, entity),
                after,
                rewritten,
            ) && end == mid.with_row(kinds, entity, rewritten)
    } else {
        end == mid && after == during
    }
}

/// A pass over the entities below `bound`, in ascending order, can turn the
/// store `start` into `end` and the system `before` into `after`.
pub open spec fn swept_below<C, S: System<C>>(
    start: StoreView<C>,
    before: S,
    kinds: Seq<ComponentKind>,
    bound: int,
    end: StoreView<C>,
    after: S,
) -> bool
    decreases bound,
{
    if bound <= 0 {
        end == start && after == before
    } else {
        exists|mid: StoreView<C>, during: S|
            swept_below(start, before, kinds, bound - 1, mid, during) && #[trigger] stepped(
                mid,
                during,
                kinds,
                bound - 1,
                end,
                after,
            )
    }
}

/// A pass over all entities of `start` can turn it into `end`, and the
/// system `before` into `after`.
pub open spec fn swept<C, S: System<C>>(
    start: StoreView<C>,
    before: S,
    kinds: Seq<ComponentKind>,
    end: StoreView<C>,
    after: S,
) -> bool {
    swept_below(start, before, kinds, start.entity_count as int, end, after)
}

} // verus!
