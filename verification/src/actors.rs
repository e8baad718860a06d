//! Actors, the handles that name them, and the table that holds them.

use vstd::prelude::*;
use crate::error::EngineError;
use crate::geometry::{Area, Point, Rect};

verus! {

/// The number of parts into which a world unit is divided. Displacements and
/// the carried remainders are counted in such parts.
pub const UNIT: i32 = 1000;

/// What an actor is, mathematically: a box with its top-left corner at
/// `(x, y)` and the parts of a unit that it has not moved yet.
pub struct ActorView {
    pub x: int,
    pub y: int,
    pub width: int,
    pub height: int,
    pub remainder_x: int,
    pub remainder_y: int,
}

impl ActorView {
    /// Each remainder is less than a whole unit in size.
    pub open spec fn wf(self) -> bool {
        -UNIT < self.remainder_x < UNIT && -UNIT < self.remainder_y < UNIT
    }

    /// The same actor with its corner moved by `(dx, dy)`.
    pub open spec fn nudged(self, dx: int, dy: int) -> ActorView {
        ActorView { x: self.x + dx, y: self.y + dy, ..self }
    }

    /// The bounding box of the actor, translated by `(ox, oy)`.
    pub open spec fn area_at(self, ox: int, oy: int) -> Area {
        Area {
            left: self.x + ox,
            top: self.y + oy,
            right: self.x + ox + self.width,
            bottom: self.y + oy + self.height,
        }
    }
}

/// An actor: its top-left corner, its size, and for each axis the parts of a
/// unit that it has been asked to move and has not moved yet.
#[derive(Clone, Copy, Debug, PartialEq, Eq, Structural)]
pub struct Actor {
    pub(crate) position: Point,
    pub(crate) width: i32,
    pub(crate) height: i32,
    pub(crate) remainder_x: i32,
    pub(crate) remainder_y: i32,
}

impl View for Actor {
    type V = ActorView;

    closed spec fn view(&self) -> ActorView {
        ActorView {
            x: self.position.x as int,
            y: self.position.y as int,
            width: self.width as int,
            height: self.height as int,
            remainder_x: self.remainder_x as int,
            remainder_y: self.remainder_y as int,
        }
    }
}

impl Actor {
    #[verifier::type_invariant]
    pub(crate) open spec fn well_formed(&self) -> bool {
        self@.wf()
    }

    /// The corner and the size of an actor are machine integers.
    pub proof fn lemma_machine_sized(self)
        ensures
            i32::MIN <= self@.x <= i32::MAX,
            i32::MIN <= self@.y <= i32::MAX,
            i32::MIN <= self@.width <= i32::MAX,
            i32::MIN <= self@.height <= i32::MAX,
    {
    }

    /// An actor at `position` that carries nothing over.
    pub fn new(position: Point, width: i32, height: i32) -> (actor: Actor)
        ensures
            actor@ == (ActorView {
                x: position.x as int,
                y: position.y as int,
                width: width as int,
                height: height as int,
                remainder_x: 0,
                remainder_y: 0,
            }),
    {
        Actor { position, width, height, remainder_x: 0, remainder_y: 0 }
    }

    pub fn position(&self) -> (p: Point)
        ensures
            p.x == self@.x,
            p.y == self@.y,
    {
        self.position
    }

    pub fn width(&self) -> (w: i32)
        ensures
            w == self@.width,
    {
        self.width
    }

    pub fn height(&self) -> (h: i32)
        ensures
            h == self@.height,
    {
        self.height
    }

    /// The parts of a unit carried over horizontally: always less than a
    /// whole unit in size.
    pub fn remainder_x(&self) -> (r: i32)
        ensures
            r == self@.remainder_x,
            -UNIT < r < UNIT,
    {
        proof {
            use_type_invariant(self);
        }
        self.remainder_x
    }

    /// The parts of a unit carried over vertically: always less than a whole
    /// unit in size.
    pub fn remainder_y(&self) -> (r: i32)
        ensures
            r == self@.remainder_y,
            -UNIT < r < UNIT,
    {
        proof {
            use_type_invariant(self);
        }
        self.remainder_y
    }

    /// The same actor with its corner moved by `(dx, dy)`.
    pub(crate) fn shifted(&self, dx: i32, dy: i32) -> (actor: Actor)
        requires
            i32::MIN <= self@.x + dx <= i32::MAX,
            i32::MIN <= self@.y + dy <= i32::MAX,
        ensures
            actor@ == self@.nudged(dx as int, dy as int),
    {
        proof {
            use_type_invariant(self);
        }
        Actor { position: Point { x: self.position.x + dx, y: self.position.y + dy }, ..*self }
    }

    /// The same actor carrying `remainder` over horizontally.
    pub(crate) fn carrying_x(&self, remainder: i32) -> (actor: Actor)
        requires
            -UNIT < remainder < UNIT,
        ensures
            actor@ == (ActorView { remainder_x: remainder as int, ..self@ }),
    {
        proof {
            use_type_invariant(self);
        }
        Actor { remainder_x: remainder, ..*self }
    }

    /// The same actor carrying `remainder` over vertically.
    pub(crate) fn carrying_y(&self, remainder: i32) -> (actor: Actor)
        requires
            -UNIT < remainder < UNIT,
        ensures
            actor@ == (ActorView { remainder_y: remainder as int, ..self@ }),
    {
        proof {
            use_type_invariant(self);
        }
        Actor { remainder_y: remainder, ..*self }
    }

    /// The bounding box of the actor, translated by `offset`.
    pub fn bounds_at(&self, offset: Point) -> (r: Rect)
        ensures
            r@ == self@.area_at(offset.x as int, offset.y as int),
    {
        let left: i64 = self.position.x as i64 + offset.x as i64;
        let top: i64 = self.position.y as i64 + offset.y as i64;
        Rect { left, top, right: left + self.width as i64, bottom: top + self.height as i64 }
    }
}

/// Names one actor of a table. A handle stays valid for as long as the
/// table lives.
#[derive(Clone, Copy, Debug, PartialEq, Eq, Structural)]
pub struct ActorHandle {
    index: usize,
}

impl ActorHandle {
    /// The place in the table of the actor that the handle names.
    pub closed spec fn slot(self) -> int {
        self.index as int
    }
}

/// Every actor of the sequence is well formed.
pub open spec fn all_wf(actors: Seq<ActorView>) -> bool {
    forall|i: int| 0 <= i < actors.len() ==> (#[trigger] actors[i]).wf()
}

#[derive(Debug)]
pub struct ActorTable {
    actors: Vec<Actor>,
}

impl View for ActorTable {
    type V = Seq<ActorView>;

    closed spec fn view(&self) -> Seq<ActorView> {
        self.actors@.map_values(|a: Actor| a@)
    }
}

impl ActorTable {
    /// The handle was issued by this table.
    pub open spec fn issued(&self, handle: ActorHandle) -> bool {
        0 <= handle.slot() < self@.len()
    }

    pub fn new() -> (t: ActorTable)
        ensures
            t@ == Seq::<ActorView>::empty(),
    {
        let actors: Vec<Actor> = Vec::new();
        assert(actors@.map_values(|a: Actor| a@) =~= Seq::<ActorView>::empty());
        ActorTable { actors }
    }

    /// Appends an actor that has nothing carried over and returns its handle.
    pub fn insert(&mut self, position: Point, width: i32, height: i32) -> (h: ActorHandle)
        ensures
            h.slot() == old(self)@.len(),
            final(self)@ == old(self)@.push(
                ActorView {
                    x: position.x as int,
                    y: position.y as int,
                    width: width as int,
                    height: height as int,
                    remainder_x: 0,
                    remainder_y: 0,
                },
            ),
            all_wf(old(self)@) ==> all_wf(final(self)@),
    {
        let h = ActorHandle { index: self.actors.len() };
        let actor = Actor::new(position, width, height);
        proof {
            assert(self.actors@.push(actor).map_values(|a: Actor| a@) =~= old(self)@.push(actor@));
        }
        self.actors.push(actor);
        h
    }

    /// The actor that the handle names.
    pub fn get(&self, handle: ActorHandle) -> (r: Result<Actor, EngineError>)
        ensures
            self.issued(handle) ==> r is Ok && r->Ok_0@ == self@[handle.slot()],
            !self.issued(handle) ==> r == Err::<Actor, EngineError>(EngineError::InvalidHandle),
            r is Ok ==> r->Ok_0@.wf(),
    {
        if handle.index >= self.actors.len() {
            return Err(EngineError::InvalidHandle);
        }
        let actor: Actor = self.actors[handle.index];
        proof {
            use_type_invariant(&actor);
        }
        Ok(actor)
    }

    /// Puts `actor` in the place that the handle names.
    pub fn update(&mut self, handle: ActorHandle, actor: Actor) -> (r: Result<(), EngineError>)
        ensures
            old(self).issued(handle) ==> r is Ok && final(self)@ == old(self)@.update(
                handle.slot(),
                actor@,
            ),
            !old(self).issued(handle) ==> r == Err::<(), EngineError>(EngineError::InvalidHandle)
                && final(self)@ == old(self)@,
            all_wf(old(self)@) ==> all_wf(final(self)@),
    {
        if handle.index >= self.actors.len() {
            return Err(EngineError::InvalidHandle);
        }
        proof {
            use_type_invariant(&actor);
            assert(self.actors@.update(handle.slot(), actor).map_values(|a: Actor| a@)
                =~= old(self)@.update(handle.slot(), actor@));
        }
        self.actors.set(handle.index, actor);
        Ok(())
    }

    /// Moves the actor that the handle names to `position`; what it carries
    /// over stays.
    pub fn set_position(&mut self, handle: ActorHandle, position: Point) -> (r: Result<
        (),
        EngineError,
    >)
        ensures
            old(self).issued(handle) ==> r is Ok && final(self)@ == old(self)@.update(
                handle.slot(),
                ActorView {
                    x: position.x as int,
                    y: position.y as int,
                    ..old(self)@[handle.slot()]
                },
            ),
            !old(self).issued(handle) ==> r == Err::<(), EngineError>(EngineError::InvalidHandle)
                && final(self)@ == old(self)@,
            all_wf(old(self)@) ==> all_wf(final(self)@),
    {
        if handle.index >= self.actors.len() {
            return Err(EngineError::InvalidHandle);
        }
        let before: Actor = self.actors[handle.index];
        proof {
            use_type_invariant(&before);
        }
        let actor = Actor { position, ..before };
        proof {
            assert(old(self)@[handle.slot()] == before@);
            assert(self.actors@.update(handle.slot(), actor).map_values(|a: Actor| a@)
                =~= old(self)@.update(handle.slot(), actor@));
        }
        self.actors.set(handle.index, actor);
        Ok(())
    }

    /// The number of actors.
    pub fn len(&self) -> (n: usize)
        ensures
            n == self@.len(),
    {
        self.actors.len()
    }
}

} // verus!
