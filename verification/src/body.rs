//! The body store: rigid rectangles tagged with a role, held in a flat arena
//! and addressed by index. A `Step` belongs to exactly one `Escalator`
//! through an explicit back-reference.

use vstd::prelude::*;
use crate::geom::{Rect, Vec2i, vel2_ok, TRACK_LIMIT};

verus! {

/// Which leg of the rectangular escalator loop a step occupies:
/// `A` descends at the top-left, `B` descends diagonally, `C` traverses the
/// bottom, `D` ascends diagonally back to the start of `A`.
#[derive(Clone, Copy, PartialEq, Eq, Structural, Debug)]
pub enum Arm {
    A,
    B,
    C,
    D,
}

/// A continuously-incrementing loop coordinate (`position` modulo `length`),
/// the alternative, closed-form parametrization of a step's travel.
#[derive(Clone, Copy, PartialEq, Eq, Structural, Debug)]
pub struct Track {
    pub position: i64,
    pub length: i64,
}

impl Track {
    pub open spec fn wf(self) -> bool {
        0 <= self.position < self.length <= TRACK_LIMIT
    }
}

/// The role a body plays in the simulation.
#[derive(Clone, Copy, PartialEq, Eq, Structural, Debug)]
pub enum Role {
    /// Immovable; terminates every propagation chain.
    Ground,
    /// Receives horizontal input.
    Player,
    /// Passive, only reactive.
    Crate,
    /// Parent frame for steps; itself movable and fallable.
    Escalator,
    /// Child of one escalator, with its arm state and optional track coordinate.
    Step { escalator: usize, arm: Arm, track: Option<Track> },
}

/// A simulated rigid rectangle. `velocity` is `None` while unresolved this
/// tick; `Some(zero)` means resolved to standing still.
#[derive(Clone, Copy, PartialEq, Eq, Structural, Debug)]
pub struct Body {
    pub rect: Rect,
    pub role: Role,
    pub velocity: Option<Vec2i>,
}

impl Body {
    pub open spec fn wf(self) -> bool {
        &&& self.rect.wf()
        &&& (self.velocity matches Some(v) ==> vel2_ok(v))
        &&& (self.role matches Role::Step { track: Some(t), .. } ==> t.wf())
    }

    /// Only active bodies relay pushes and carries; an inactive body still
    /// blocks. A step is inactive while it descends in arm `A`; every other
    /// body is active.
    pub open spec fn is_active(self) -> bool {
        !(self.role matches Role::Step { arm: Arm::A, .. })
    }
}

/// The flat store of all bodies; the index of a body is its identity.
pub struct World {
    pub bodies: Vec<Body>,
}

/// The step back-references of `bodies` land on escalators inside the store.
pub open spec fn steps_linked(bodies: Seq<Body>) -> bool {
    forall|i: int|
        0 <= i < bodies.len() ==> (#[trigger] bodies[i].role matches Role::Step { escalator, .. }
            ==> escalator < bodies.len() && bodies[escalator as int].role is Escalator)
}

pub open spec fn all_wf(bodies: Seq<Body>) -> bool {
    forall|i: int| 0 <= i < bodies.len() ==> (#[trigger] bodies[i]).wf()
}

impl World {
    pub open spec fn wf(self) -> bool {
        all_wf(self.bodies@) && steps_linked(self.bodies@)
    }

    pub open spec fn n(self) -> nat {
        self.bodies@.len()
    }

    pub fn new() -> (w: World)
        ensures
            w.wf(),
            w.bodies@ =~= Seq::<Body>::empty(),
    {
        World { bodies: Vec::new() }
    }

    pub fn len(&self) -> (n: usize)
        ensures
            n == self.n(),
    {
        self.bodies.len()
    }

    fn spawn(&mut self, body: Body) -> (id: usize)
        requires
            old(self).wf(),
            body.wf(),
            body.role matches Role::Step { escalator, .. } ==> escalator < old(self).n()
                && old(self).bodies@[escalator as int].role is Escalator,
        ensures
            final(self).wf(),
            final(self).bodies@ == old(self).bodies@.push(body),
            id == old(self).n(),
    {
        let id = self.bodies.len();
        self.bodies.push(body);
        assert forall|i: int| 0 <= i < self.bodies@.len() implies (#[trigger] self.bodies@[i]).wf() by {
            if i < id {
                assert(self.bodies@[i] == old(self).bodies@[i]);
            }
        }
        assert(steps_linked(self.bodies@)) by {
            assert forall|i: int|
                0 <= i < self.bodies@.len() && (#[trigger] self.bodies@[i].role matches Role::Step { .. })
                implies (self.bodies@[i].role matches Role::Step { escalator, .. }
                    ==> escalator < self.bodies@.len()
                        && self.bodies@[escalator as int].role is Escalator) by {
                if i < id {
                    assert(self.bodies@[i] == old(self).bodies@[i]);
                }
            }
        }
        id
    }

    /// Add an immovable ground slab.
    pub fn spawn_ground(&mut self, rect: Rect) -> (id: usize)
        requires
            old(self).wf(),
            rect.wf(),
        ensures
            final(self).wf(),
            final(self).bodies@ == old(self).bodies@.push(
                Body { rect, role: Role::Ground, velocity: None },
            ),
            id == old(self).n(),
    {
        self.spawn(Body { rect, role: Role::Ground, velocity: None })
    }

    /// Add the input-driven player body.
    pub fn spawn_player(&mut self, rect: Rect) -> (id: usize)
        requires
            old(self).wf(),
            rect.wf(),
        ensures
            final(self).wf(),
            final(self).bodies@ == old(self).bodies@.push(
                Body { rect, role: Role::Player, velocity: None },
            ),
            id == old(self).n(),
    {
        self.spawn(Body { rect, role: Role::Player, velocity: None })
    }

    /// Add a passive crate.
    pub fn spawn_crate(&mut self, rect: Rect) -> (id: usize)
        requires
            old(self).wf(),
            rect.wf(),
        ensures
            final(self).wf(),
            final(self).bodies@ == old(self).bodies@.push(
                Body { rect, role: Role::Crate, velocity: None },
            ),
            id == old(self).n(),
    {
        self.spawn(Body { rect, role: Role::Crate, velocity: None })
    }

    /// Add an escalator frame; its steps are added with `spawn_step`.
    pub fn spawn_escalator(&mut self, rect: Rect) -> (id: usize)
        requires
            old(self).wf(),
            rect.wf(),
        ensures
            final(self).wf(),
            final(self).bodies@ == old(self).bodies@.push(
                Body { rect, role: Role::Escalator, velocity: None },
            ),
            id == old(self).n(),
    {
        self.spawn(Body { rect, role: Role::Escalator, velocity: None })
    }

    /// Add a step of the escalator with identity `escalator`. A step that
    /// references a body that is not an escalator is a scene-construction
    /// error, ruled out here rather than discovered at run time.
    pub fn spawn_step(&mut self, escalator: usize, rect: Rect, arm: Arm, track: Option<Track>) -> (id: usize)
        requires
            old(self).wf(),
            rect.wf(),
            track matches Some(t) ==> t.wf(),
            escalator < old(self).n(),
            old(self).bodies@[escalator as int].role is Escalator,
        ensures
            final(self).wf(),
            final(self).bodies@ == old(self).bodies@.push(
                Body { rect, role: Role::Step { escalator, arm, track }, velocity: None },
            ),
            id == old(self).n(),
    {
        self.spawn(Body { rect, role: Role::Step { escalator, arm, track }, velocity: None })
    }
}

} // verus!
