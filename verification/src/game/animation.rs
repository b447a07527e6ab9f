//! Sprite animations.

use vstd::prelude::*;
use crate::game::components::{Component, ANIMATOR, SPRITE};
use crate::game::render::Sprite;
use crate::model::{kinds_of, Access, AccessMode, StoreError};
use crate::store::World;
use crate::system::{swept, System};

verus! {

/// One frame of an animation: the sprite to show, and for how many
/// milliseconds.
#[derive(PartialEq, Eq, Structural, Clone, Copy, Debug)]
pub struct AnimationFrame {
    pub sprite: u32,
    pub length: u128,
}

impl AnimationFrame {
    pub fn new(sprite: u32, length: u128) -> (frame: Self)
        ensures
            frame == (AnimationFrame { sprite, length }),
    {
        Self { sprite, length }
    }
}

/// The frames of an animation, in order.
pub struct Animation {
    pub frames: Vec<AnimationFrame>,
    pub looping: bool,
}

/// Plays an animation.
pub struct Animator {
    pub animation: Animation,
    pub frame_index: usize,
    pub time: u128,
    pub playing: bool,
}

impl Animator {
    /// The animator points at one of the frames of its animation.
    pub open spec fn wf(&self) -> bool {
        self.frame_index < self.animation.frames@.len()
    }

    /// The frame after the one at `index`: the first one after the last.
    pub open spec fn next_index(&self) -> int {
        if self.frame_index + 1 == self.animation.frames@.len() {
            0
        } else {
            self.frame_index + 1
        }
    }

    /// The frame that is shown now.
    pub fn current_frame(&self) -> (frame: &AnimationFrame)
        requires
            self.wf(),
        ensures
            *frame == self.animation.frames@[self.frame_index as int],
    {
        &self.animation.frames[self.frame_index]
    }

    /// Goes to the next frame, and from the last frame back to the first.
    pub fn step(&mut self)
        requires
            old(self).wf(),
        ensures
            final(self).wf(),
            final(self).frame_index == old(self).next_index(),
            final(self).animation == old(self).animation,
            final(self).time == old(self).time,
            final(self).playing == old(self).playing,
    {
        let frames = self.animation.frames.len();
        self.frame_index += 1;
        if self.frame_index == frames {
            self.frame_index = 0;
        }
    }

    /// The time on the animator's clock after `delta_time` more
    /// milliseconds, held at the largest time the clock can show.
    pub open spec fn clock_after(&self, delta_time: u128) -> u128 {
        if self.time + delta_time > u128::MAX {
            u128::MAX
        } else {
            (self.time + delta_time) as u128
        }
    }

    /// Whether `delta_time` more milliseconds end the current frame.
    pub open spec fn frame_ends(&self, delta_time: u128) -> bool {
        self.playing && self.clock_after(delta_time)
            > self.animation.frames@[self.frame_index as int].length
    }

    /// Lets `delta_time` milliseconds pass. An animator that is not playing
    /// stays as it is. One that plays goes to its next frame once the
    /// current frame has been shown for longer than its length, starts the
    /// clock again, and puts that frame's sprite into `sprite`.
    pub fn animate(&mut self, sprite: &mut Sprite, delta_time: u128)
        requires
            old(self).wf(),
        ensures
            final(self).wf(),
            final(self).animation == old(self).animation,
            final(self).playing == old(self).playing,
            !old(self).playing ==> *final(self) == *old(self) && *final(sprite) == *old(sprite),
            old(self).frame_ends(delta_time) ==> final(self).time == 0 && final(self).frame_index
                == old(self).next_index() && *final(sprite) == (Sprite {
                index_x: old(self).animation.frames@[old(self).next_index()].sprite,
                ..*old(sprite)
            }),
            old(self).playing && !old(self).frame_ends(delta_time) ==> final(self).time == old(
                self,
            ).clock_after(delta_time) && final(self).frame_index == old(self).frame_index
                && *final(sprite) == *old(sprite),
    {
        if self.playing {
            self.time = self.time.saturating_add(delta_time);
            if self.time > self.current_frame().length {
                self.time = 0;
                self.step();
                sprite.index_x = self.current_frame().sprite;
            }
        }
    }
}

/// What `delta_time` milliseconds make of the animator `before` and the
/// sprite `shown`.
pub open spec fn animated(
    before: Animator,
    shown: Sprite,
    delta_time: u128,
    after: Animator,
    showing: Sprite,
) -> bool {
    &&& after.animation == before.animation
    &&& after.playing == before.playing
    &&& if !before.playing {
        after == before && showing == shown
    } else if before.frame_ends(delta_time) {
        after.time == 0 && after.frame_index == before.next_index() && showing == (Sprite {
            index_x: before.animation.frames@[before.next_index()].sprite,
            ..shown
        })
    } else {
        after.time == before.clock_after(delta_time) && after.frame_index == before.frame_index
            && showing == shown
    }
}

/// The pass that plays the animations: it visits the entities that have an
/// animator and a sprite, in this order, and lets time pass for each.
pub struct Animate {
    /// The milliseconds since the last frame.
    pub delta_time: u128,
}

impl Animate {
    /// The columns that the pass asks for: the animator and the sprite,
    /// both to be changed.
    pub open spec fn columns() -> Seq<Access> {
        seq![
            Access { kind: ANIMATOR, mode: AccessMode::Write },
            Access { kind: SPRITE, mode: AccessMode::Write },
        ]
    }

    /// The columns that the pass asks for.
    pub fn request() -> (request: Vec<Access>)
        ensures
            request@ == Self::columns(),
    {
        vec![
            Access { kind: ANIMATOR, mode: AccessMode::Write },
            Access { kind: SPRITE, mode: AccessMode::Write },
        ]
    }
}

impl System<Component> for Animate {
    open spec fn visits(
        before: Self,
        entity: int,
        row: Seq<Component>,
        after: Self,
        rewritten: Seq<Component>,
    ) -> bool {
        &&& after == before
        &&& rewritten.len() == row.len()
        &&& if row.len() == 2 && row[0] is Animator && row[1] is Sprite && row[0]->Animator_0.wf() {
            &&& rewritten[0] is Animator
            &&& rewritten[1] is Sprite
            &&& animated(
                row[0]->Animator_0,
                row[1]->Sprite_0,
                before.delta_time,
                rewritten[0]->Animator_0,
                rewritten[1]->Sprite_0,
            )
        } else {
            rewritten == row
        }
    }

    fn visit(&mut self, entity: usize, row: &mut Vec<Component>) {
        if row.len() != 2 {
            return;
        }
        let second = row.pop();
        let first = row.pop();
        match (first, second) {
            (Some(Component::Animator(mut animator)), Some(Component::Sprite(mut sprite))) => {
                assert(old(row)@[0] == Component::Animator(animator));
                assert(old(row)@[1] == Component::Sprite(sprite));
                if animator.frame_index < animator.animation.frames.len() {
                    animator.animate(&mut sprite, self.delta_time);
                    row.push(Component::Animator(animator));
                    row.push(Component::Sprite(sprite));
                } else {
                    row.push(Component::Animator(animator));
                    row.push(Component::Sprite(sprite));
                    assert(row@ =~= old(row)@);
                }
            },
            (Some(first), Some(second)) => {
                row.push(first);
                row.push(second);
                assert(row@ =~= old(row)@);
            },
            _ => {},
        }
    }
}

/// Plays the animations of all entities for `delta_time` milliseconds.
pub fn animate_entities(world: &mut World<Component>, delta_time: u128) -> (played: Result<
    (),
    StoreError,
>)
    requires
        old(world).wf(),
    ensures
        final(world).wf(),
        match played {
            Ok(_) => old(world)@.pass_outcome(Animate::columns()) is Ok && swept(
                old(world)@,
                Animate { delta_time },
                kinds_of(Animate::columns()),
                final(world)@,
                Animate { delta_time },
            ),
            Err(e) => old(world)@.pass_outcome(Animate::columns()) == Err::<(), StoreError>(e)
                && final(world)@ == old(world)@,
        },
{
    let request = Animate::request();
    let mut system = Animate { delta_time };
    let played = world.iterate_entities_with_id(&request, &mut system);
    proof {
        if played is Ok {
            lemma_animate_keeps_itself(
                old(world)@,
                Animate { delta_time },
                kinds_of(request@),
                old(world)@.entity_count as int,
                world@,
                system,
            );
        }
    }
    played
}

/// The pass changes the store, not itself.
proof fn lemma_animate_keeps_itself(
    start: crate::model::StoreView<Component>,
    before: Animate,
    kinds: Seq<crate::model::ComponentKind>,
    bound: int,
    end: crate::model::StoreView<Component>,
    after: Animate,
)
    requires
        crate::system::swept_below(start, before, kinds, bound, end, after),
    ensures
        after == before,
    decreases bound,
{
    if bound > 0 {
        let (mid, during) = choose|mid: crate::model::StoreView<Component>, during: Animate|
            crate::system::swept_below(start, before, kinds, bound - 1, mid, during)
                && #[trigger] crate::system::stepped(mid, during, kinds, bound - 1, end, after);
        lemma_animate_keeps_itself(start, before, kinds, bound - 1, mid, during);
    }
}

} // verus!
