//! The engine: one grid, one table of actors, and the movement of the actors
//! through the grid, one axis at a time.

use vstd::prelude::*;
use crate::actors::{all_wf, Actor, ActorHandle, ActorTable, ActorView, UNIT};
use crate::error::EngineError;
use crate::geometry::Point;
use crate::grid::{laid_out, layout_ok, GridView, Tile, TileGrid};
use crate::motion::{
    clear, lemma_move_stays_clear, lemma_zero_delta, moved_h, moved_v, slide, whole_units,
};

verus! {

/// What an engine is, mathematically: its grid and its actors in the order
/// in which they were added.
pub struct EngineView {
    pub grid: GridView,
    pub actors: Seq<ActorView>,
}

impl EngineView {
    pub open spec fn wf(self) -> bool {
        self.grid.wf() && all_wf(self.actors)
    }

    /// No actor overlaps a solid cell.
    pub open spec fn all_clear(self) -> bool {
        forall|i: int| 0 <= i < self.actors.len() ==> clear(self.grid, #[trigger] self.actors[i])
    }

    /// The engine after the actor at `slot` has moved horizontally.
    pub open spec fn after_move_h(self, slot: int, delta: int) -> EngineView {
        EngineView {
            actors: self.actors.update(slot, moved_h(self.grid, self.actors[slot], delta).actor),
            ..self
        }
    }

    /// The engine after the actor at `slot` has moved vertically.
    pub open spec fn after_move_v(self, slot: int, delta: int) -> EngineView {
        EngineView {
            actors: self.actors.update(slot, moved_v(self.grid, self.actors[slot], delta).actor),
            ..self
        }
    }
}

/// One movement asked of an engine: the place of the actor in the table and
/// the displacement in parts of a unit.
pub enum Request {
    Horizontal { slot: int, delta: int },
    Vertical { slot: int, delta: int },
}

impl EngineView {
    /// The engine after one request. A request for an actor that does not
    /// exist changes nothing.
    pub open spec fn after(self, request: Request) -> EngineView {
        match request {
            Request::Horizontal { slot, delta } => if 0 <= slot < self.actors.len() {
                self.after_move_h(slot, delta)
            } else {
                self
            },
            Request::Vertical { slot, delta } => if 0 <= slot < self.actors.len() {
                self.after_move_v(slot, delta)
            } else {
                self
            },
        }
    }

    /// The engine after the requests, taken in order.
    pub open spec fn after_all(self, requests: Seq<Request>) -> EngineView
        decreases requests.len(),
    {
        if requests.len() == 0 {
            self
        } else {
            self.after(requests[0]).after_all(requests.subrange(1, requests.len() as int))
        }
    }
}

/// No sequence of movements, of whichever actors along whichever axes, puts
/// an actor inside a solid cell: if none overlaps one before the first
/// movement, none overlaps one after the last.
pub proof fn lemma_movements_keep_clear(engine: EngineView, requests: Seq<Request>)
    requires
        engine.all_clear(),
    ensures
        engine.after_all(requests).all_clear(),
    decreases requests.len(),
{
    if requests.len() != 0 {
        let next = engine.after(requests[0]);
        match requests[0] {
            Request::Horizontal { slot, delta } => {
                if 0 <= slot < engine.actors.len() {
                    lemma_move_stays_clear(engine.grid, engine.actors[slot], delta);
                }
            },
            Request::Vertical { slot, delta } => {
                if 0 <= slot < engine.actors.len() {
                    lemma_move_stays_clear(engine.grid, engine.actors[slot], delta);
                }
            },
        }
        assert(next.all_clear());
        lemma_movements_keep_clear(next, requests.subrange(1, requests.len() as int));
    }
}

/// The coordinate is one that an actor's corner can have.
pub open spec fn representable(coordinate: int) -> bool {
    i32::MIN <= coordinate <= i32::MAX
}

/// `sign * n` for a sign of one or minus one.
proof fn lemma_signed(sign: int, n: int)
    requires
        sign == 1 || sign == -1,
    ensures
        sign * n == (if sign == 1 { n } else { -n }),
{
    assert(1 * n == n && (-1) * n == -n) by (nonlinear_arith);
}

/// Whether `start` and the whole units in `total` together make a
/// coordinate that exists.
fn in_range(start: i32, total: i64) -> (r: bool)
    requires
        -0x2_0000_0000 < total < 0x2_0000_0000,
    ensures
        r == representable(start + whole_units(total as int)),
{
    let unit: i64 = UNIT as i64;
    let step: i64 = if total >= 0 { total / unit } else { -((-total) / unit) };
    let end: i64 = start as i64 + step;
    end >= i32::MIN as i64 && end <= i32::MAX as i64
}

#[derive(Debug)]
pub struct CollisionEngine {
    grid: TileGrid,
    actors: ActorTable,
}

impl View for CollisionEngine {
    type V = EngineView;

    closed spec fn view(&self) -> EngineView {
        EngineView { grid: self.grid@, actors: self.actors@ }
    }
}

impl CollisionEngine {
    /// The handle was issued by this engine.
    pub open spec fn issued(&self, handle: ActorHandle) -> bool {
        0 <= handle.slot() < self@.actors.len()
    }

    /// The actor can take the whole units of a horizontal movement by
    /// `delta` without its corner leaving the coordinates that exist.
    pub open spec fn fits_h(&self, handle: ActorHandle, delta: int) -> bool {
        let actor = self@.actors[handle.slot()];
        representable(actor.x + whole_units(actor.remainder_x + delta))
    }

    /// The same for a vertical movement.
    pub open spec fn fits_v(&self, handle: ActorHandle, delta: int) -> bool {
        let actor = self@.actors[handle.slot()];
        representable(actor.y + whole_units(actor.remainder_y + delta))
    }

    /// An engine on `grid` with no actors.
    pub fn new(grid: TileGrid) -> (engine: CollisionEngine)
        ensures
            engine@.wf(),
            engine@ == (EngineView { grid: grid@, actors: Seq::<ActorView>::empty() }),
    {
        proof {
            use_type_invariant(&grid);
        }
        CollisionEngine { grid, actors: ActorTable::new() }
    }

    /// Replaces the grid by the one that `tiles` make. There is one layer, so
    /// the index of the layer is not read. On a layout that makes no grid the
    /// engine stays as it was.
    pub fn add_static_tiled_layer(
        &mut self,
        tiles: Vec<Tile>,
        tile_width: i32,
        tile_height: i32,
        grid_width: i32,
        _layer_index: u8,
    ) -> (r: Result<(), EngineError>)
        ensures
            final(self)@.grid.wf(),
            old(self)@.wf() ==> final(self)@.wf(),
            layout_ok(tiles@.len(), tile_width as int, tile_height as int, grid_width as int)
                ==> r is Ok && final(self)@ == (EngineView {
                grid: laid_out(tiles@, tile_width as int, tile_height as int, grid_width as int),
                actors: old(self)@.actors,
            }),
            !layout_ok(tiles@.len(), tile_width as int, tile_height as int, grid_width as int)
                ==> r == Err::<(), EngineError>(EngineError::InvalidLayout) && final(self)@ == old(
                self,
            )@,
    {
        proof {
            use_type_invariant(&self.grid);
        }
        match TileGrid::build(tiles, tile_width, tile_height, grid_width) {
            Ok(grid) => {
                self.grid = grid;
                Ok(())
            },
            Err(e) => Err(e),
        }
    }

    /// Adds an actor with its top-left corner at `position`.
    pub fn add_actor(&mut self, position: Point, width: i32, height: i32) -> (h: ActorHandle)
        ensures
            final(self)@.grid.wf(),
            old(self)@.wf() ==> final(self)@.wf(),
            final(self).issued(h),
            h.slot() == old(self)@.actors.len(),
            final(self)@ == (EngineView {
                actors: old(self)@.actors.push(
                    ActorView {
                        x: position.x as int,
                        y: position.y as int,
                        width: width as int,
                        height: height as int,
                        remainder_x: 0,
                        remainder_y: 0,
                    },
                ),
                ..old(self)@
            }),
    {
        proof {
            use_type_invariant(&self.grid);
        }
        self.actors.insert(position, width, height)
    }

    /// The grid that the actors move through.
    pub fn grid(&self) -> (g: &TileGrid)
        ensures
            g@ == self@.grid,
            g@.wf(),
    {
        proof {
            use_type_invariant(&self.grid);
        }
        &self.grid
    }

    /// The number of actors added so far.
    pub fn actor_count(&self) -> (n: usize)
        ensures
            n == self@.actors.len(),
    {
        self.actors.len()
    }

    /// The actor as it stands: corner, size and what it carries over.
    pub fn actor(&self, handle: ActorHandle) -> (r: Result<Actor, EngineError>)
        ensures
            self.issued(handle) ==> r is Ok && r->Ok_0@ == self@.actors[handle.slot()],
            !self.issued(handle) ==> r == Err::<Actor, EngineError>(EngineError::InvalidHandle),
            r is Ok ==> r->Ok_0@.wf(),
    {
        self.actors.get(handle)
    }

    /// The top-left corner of the actor.
    pub fn actor_pos(&self, handle: ActorHandle) -> (r: Result<Point, EngineError>)
        ensures
            self.issued(handle) ==> r is Ok && r->Ok_0.x == self@.actors[handle.slot()].x
                && r->Ok_0.y == self@.actors[handle.slot()].y,
            !self.issued(handle) ==> r == Err::<Point, EngineError>(EngineError::InvalidHandle),
    {
        match self.actors.get(handle) {
            Ok(actor) => Ok(actor.position()),
            Err(e) => Err(e),
        }
    }

    /// Whether the actor, moved by `offset`, would overlap a solid cell.
    pub fn collide_check(&self, handle: ActorHandle, offset: Point) -> (r: Result<
        bool,
        EngineError,
    >)
        ensures
            self.issued(handle) ==> r == Ok::<bool, EngineError>(
                self@.grid.covers_solid(
                    self@.actors[handle.slot()].area_at(offset.x as int, offset.y as int),
                ),
            ),
            !self.issued(handle) ==> r == Err::<bool, EngineError>(EngineError::InvalidHandle),
    {
        match self.actors.get(handle) {
            Ok(actor) => Ok(self.grid.overlaps_solid(actor.bounds_at(offset))),
            Err(e) => Err(e),
        }
    }

    /// Moves the actor horizontally by `delta` parts of a unit and says
    /// whether a solid cell stopped it.
    pub fn move_h(&mut self, handle: ActorHandle, delta: i32) -> (r: Result<bool, EngineError>)
        requires
            old(self).issued(handle) ==> old(self).fits_h(handle, delta as int),
        ensures
            final(self)@.grid.wf(),
            old(self)@.wf() ==> final(self)@.wf(),
            old(self).issued(handle) ==> r == Ok::<bool, EngineError>(
                moved_h(old(self)@.grid, old(self)@.actors[handle.slot()], delta as int).collided,
            ) && final(self)@ == old(self)@.after_move_h(handle.slot(), delta as int),
            final(self)@ == old(self)@.after(
                (Request::Horizontal { slot: handle.slot(), delta: delta as int }),
            ),
            !old(self).issued(handle) ==> r == Err::<bool, EngineError>(
                EngineError::InvalidHandle,
            ) && final(self)@ == old(self)@,
            old(self)@.all_clear() ==> final(self)@.all_clear(),
            delta == 0 ==> final(self)@ == old(self)@ && r != Ok::<bool, EngineError>(true),
    {
        proof {
            use_type_invariant(&self.grid);
        }
        let actor: Actor = match self.actors.get(handle) {
            Ok(actor) => actor,
            Err(e) => {
                return Err(e);
            },
        };
        let unit: i64 = UNIT as i64;
        let total: i64 = actor.remainder_x() as i64 + delta as i64;
        let step: i64 = if total >= 0 { total / unit } else { -((-total) / unit) };
        let sign: i32 = if step < 0 { -1 } else { 1 };
        let wanted: i64 = if step < 0 { -step } else { step };
        let mut done: i64 = 0;
        let mut collided: bool = false;
        let mut current: Actor = actor;
        proof {
            actor.lemma_machine_sized();
            lemma_signed(sign as int, 0);
            lemma_signed(sign as int, wanted as int);
            assert(current@ == actor@.nudged(sign * 0, 0));
        }
        while !collided && done < wanted
            invariant
                self@.grid.wf(),
                0 <= done <= wanted,
                sign == 1 || sign == -1,
                representable(actor@.x),
                representable(actor@.y),
                representable(actor@.x + sign * wanted),
                current@ == actor@.nudged(sign * done, 0),
                slide(self@.grid, actor@, sign as int, 0, wanted as nat) == done + slide(
                    self@.grid,
                    current@,
                    sign as int,
                    0,
                    (wanted - done) as nat,
                ),
                collided ==> done < wanted && self@.grid.covers_solid(
                    current@.area_at(sign as int, 0),
                ),
            decreases wanted - done + (if collided { 0int } else { 1int }),
        {
            if self.grid.overlaps_solid(current.bounds_at(Point { x: sign, y: 0 })) {
                collided = true;
            } else {
                proof {
                    lemma_signed(sign as int, done as int);
                    lemma_signed(sign as int, done + 1);
                    lemma_signed(sign as int, wanted as int);
                }
                current = current.shifted(sign, 0);
                done = done + 1;
            }
        }
        let settled: Actor = if collided {
            current.carrying_x(0)
        } else {
            current.carrying_x((total - step * unit) as i32)
        };
        proof {
            lemma_signed(sign as int, wanted as int);
            let before = old(self)@.actors[handle.slot()];
            assert(settled@ == moved_h(self@.grid, before, delta as int).actor);
            assert(collided == moved_h(self@.grid, before, delta as int).collided);
            if old(self)@.all_clear() {
                lemma_move_stays_clear(self@.grid, before, delta as int);
            }
            if delta == 0 {
                lemma_zero_delta(self@.grid, before);
                assert(self@.actors.update(handle.slot(), before) =~= self@.actors);
            }
        }
        match self.actors.update(handle, settled) {
            Ok(()) => Ok(collided),
            Err(e) => Err(e),
        }
    }

    /// Moves the actor vertically by `delta` parts of a unit and says
    /// whether a solid cell stopped it.
    pub fn move_v(&mut self, handle: ActorHandle, delta: i32) -> (r: Result<bool, EngineError>)
        requires
            old(self).issued(handle) ==> old(self).fits_v(handle, delta as int),
        ensures
            final(self)@.grid.wf(),
            old(self)@.wf() ==> final(self)@.wf(),
            old(self).issued(handle) ==> r == Ok::<bool, EngineError>(
                moved_v(old(self)@.grid, old(self)@.actors[handle.slot()], delta as int).collided,
            ) && final(self)@ == old(self)@.after_move_v(handle.slot(), delta as int),
            final(self)@ == old(self)@.after(
                (Request::Vertical { slot: handle.slot(), delta: delta as int }),
            ),
            !old(self).issued(handle) ==> r == Err::<bool, EngineError>(
                EngineError::InvalidHandle,
            ) && final(self)@ == old(self)@,
            old(self)@.all_clear() ==> final(self)@.all_clear(),
            delta == 0 ==> final(self)@ == old(self)@ && r != Ok::<bool, EngineError>(true),
    {
        proof {
            use_type_invariant(&self.grid);
        }
        let actor: Actor = match self.actors.get(handle) {
            Ok(actor) => actor,
            Err(e) => {
                return Err(e);
            },
        };
        let unit: i64 = UNIT as i64;
        let total: i64 = actor.remainder_y() as i64 + delta as i64;
        let step: i64 = if total >= 0 { total / unit } else { -((-total) / unit) };
        let sign: i32 = if step < 0 { -1 } else { 1 };
        let wanted: i64 = if step < 0 { -step } else { step };
        let mut done: i64 = 0;
        let mut collided: bool = false;
        let mut current: Actor = actor;
        proof {
            actor.lemma_machine_sized();
            lemma_signed(sign as int, 0);
            lemma_signed(sign as int, wanted as int);
            assert(current@ == actor@.nudged(0, sign * 0));
        }
        while !collided && done < wanted
            invariant
                self@.grid.wf(),
                0 <= done <= wanted,
                sign == 1 || sign == -1,
                representable(actor@.x),
                representable(actor@.y),
                representable(actor@.y + sign * wanted),
                current@ == actor@.nudged(0, sign * done),
                slide(self@.grid, actor@, 0, sign as int, wanted as nat) == done + slide(
                    self@.grid,
                    current@,
                    0,
                    sign as int,
                    (wanted - done) as nat,
                ),
                collided ==> done < wanted && self@.grid.covers_solid(
                    current@.area_at(0, sign as int),
                ),
            decreases wanted - done + (if collided { 0int } else { 1int }),
        {
            if self.grid.overlaps_solid(current.bounds_at(Point { x: 0, y: sign })) {
                collided = true;
            } else {
                proof {
                    lemma_signed(sign as int, done as int);
                    lemma_signed(sign as int, done + 1);
                    lemma_signed(sign as int, wanted as int);
                }
                current = current.shifted(0, sign);
                done = done + 1;
            }
        }
        let settled: Actor = if collided {
            current.carrying_y(0)
        } else {
            current.carrying_y((total - step * unit) as i32)
        };
        proof {
            lemma_signed(sign as int, wanted as int);
            let before = old(self)@.actors[handle.slot()];
            assert(settled@ == moved_v(self@.grid, before, delta as int).actor);
            assert(collided == moved_v(self@.grid, before, delta as int).collided);
            if old(self)@.all_clear() {
                lemma_move_stays_clear(self@.grid, before, delta as int);
            }
            if delta == 0 {
                lemma_zero_delta(self@.grid, before);
                assert(self@.actors.update(handle.slot(), before) =~= self@.actors);
            }
        }
        match self.actors.update(handle, settled) {
            Ok(()) => Ok(collided),
            Err(e) => Err(e),
        }
    }

    /// Whether the handle was issued and a horizontal movement by `delta`
    /// keeps the actor within the coordinates that exist.
    pub fn can_move_h(&self, handle: ActorHandle, delta: i32) -> (r: bool)
        ensures
            r == (self.issued(handle) && self.fits_h(handle, delta as int)),
    {
        match self.actors.get(handle) {
            Ok(actor) => {
                let total: i64 = actor.remainder_x() as i64 + delta as i64;
                in_range(actor.position().x, total)
            },
            Err(_) => false,
        }
    }

    /// Whether the handle was issued and a vertical movement by `delta`
    /// keeps the actor within the coordinates that exist.
    pub fn can_move_v(&self, handle: ActorHandle, delta: i32) -> (r: bool)
        ensures
            r == (self.issued(handle) && self.fits_v(handle, delta as int)),
    {
        match self.actors.get(handle) {
            Ok(actor) => {
                let total: i64 = actor.remainder_y() as i64 + delta as i64;
                in_range(actor.position().y, total)
            },
            Err(_) => false,
        }
    }
}

} // verus!
