//! What a movement along one axis does to an actor, as mathematics, and the
//! laws that follow.

use vstd::prelude::*;
use crate::actors::{ActorView, UNIT};
use crate::geometry::{span_meets, Area};
use crate::grid::GridView;

verus! {

/// The whole units in `total` parts of a unit, rounded towards zero.
pub open spec fn whole_units(total: int) -> int {
    if total >= 0 {
        total / (UNIT as int)
    } else {
        -((-total) / (UNIT as int))
    }
}

/// The number of unit steps of `(dx, dy)` that the actor can take, out of at
/// most `limit`, before the next one would make it overlap a solid cell.
pub open spec fn slide(grid: GridView, actor: ActorView, dx: int, dy: int, limit: nat) -> nat
    decreases limit,
{
    if limit == 0 || grid.covers_solid(actor.area_at(dx, dy)) {
        0
    } else {
        1 + slide(grid, actor.nudged(dx, dy), dx, dy, (limit - 1) as nat)
    }
}

/// The result of one movement: the actor afterwards and whether it was
/// stopped by a solid cell.
pub struct Moved {
    pub actor: ActorView,
    pub collided: bool,
}

/// Moving `actor` horizontally by `delta` parts of a unit. The whole units in
/// the remainder and `delta` together are taken one at a time. If a solid
/// cell stops the actor, the remainder is dropped; otherwise the fraction is
/// carried over.
pub open spec fn moved_h(grid: GridView, actor: ActorView, delta: int) -> Moved {
    let total = actor.remainder_x + delta;
    let step = whole_units(total);
    let sign: int = if step < 0 { -1 } else { 1 };
    let wanted: nat = (if step < 0 { -step } else { step }) as nat;
    let done = slide(grid, actor, sign, 0, wanted);
    if done < wanted {
        Moved { actor: ActorView { remainder_x: 0, ..actor.nudged(sign * done, 0) }, collided: true }
    } else {
        Moved {
            actor: ActorView { remainder_x: total - step * UNIT, ..actor.nudged(step, 0) },
            collided: false,
        }
    }
}

/// Moving `actor` vertically by `delta` parts of a unit, in the same way.
pub open spec fn moved_v(grid: GridView, actor: ActorView, delta: int) -> Moved {
    let total = actor.remainder_y + delta;
    let step = whole_units(total);
    let sign: int = if step < 0 { -1 } else { 1 };
    let wanted: nat = (if step < 0 { -step } else { step }) as nat;
    let done = slide(grid, actor, 0, sign, wanted);
    if done < wanted {
        Moved { actor: ActorView { remainder_y: 0, ..actor.nudged(0, sign * done) }, collided: true }
    } else {
        Moved {
            actor: ActorView { remainder_y: total - step * UNIT, ..actor.nudged(0, step) },
            collided: false,
        }
    }
}

/// The actor's box overlaps no solid cell.
pub open spec fn clear(grid: GridView, actor: ActorView) -> bool {
    !grid.covers_solid(actor.area_at(0, 0))
}

/// A slide never takes more steps than its limit.
pub proof fn lemma_slide_within_limit(grid: GridView, actor: ActorView, dx: int, dy: int, limit: nat)
    ensures
        slide(grid, actor, dx, dy, limit) <= limit,
    decreases limit,
{
    if limit != 0 && !grid.covers_solid(actor.area_at(dx, dy)) {
        lemma_slide_within_limit(grid, actor.nudged(dx, dy), dx, dy, (limit - 1) as nat);
    }
}

/// An actor that overlaps no solid cell overlaps none where a slide leaves
/// it.
pub proof fn lemma_slide_stays_clear(grid: GridView, actor: ActorView, dx: int, dy: int, limit: nat)
    requires
        clear(grid, actor),
    ensures
        clear(
            grid,
            actor.nudged(
                dx * slide(grid, actor, dx, dy, limit),
                dy * slide(grid, actor, dx, dy, limit),
            ),
        ),
    decreases limit,
{
    let n = slide(grid, actor, dx, dy, limit);
    if limit == 0 || grid.covers_solid(actor.area_at(dx, dy)) {
        assert(n == 0);
        assert(actor.nudged(dx * 0, dy * 0) == actor);
    } else {
        let next = actor.nudged(dx, dy);
        let m = slide(grid, next, dx, dy, (limit - 1) as nat);
        assert(next.area_at(0, 0) == actor.area_at(dx, dy));
        lemma_slide_stays_clear(grid, next, dx, dy, (limit - 1) as nat);
        assert(dx + dx * m == dx * (1 + m)) by (nonlinear_arith);
        assert(dy + dy * m == dy * (1 + m)) by (nonlinear_arith);
        assert(next.nudged(dx * m, dy * m) == actor.nudged(dx * n, dy * n));
    }
}

/// Every place that a slide passes through, and the one where it ends, is
/// reached without overlapping a solid cell on the step that leads there.
pub proof fn lemma_slide_path_clear(
    grid: GridView,
    actor: ActorView,
    dx: int,
    dy: int,
    limit: nat,
    j: int,
)
    requires
        1 <= j <= slide(grid, actor, dx, dy, limit),
    ensures
        clear(grid, actor.nudged(dx * j, dy * j)),
    decreases limit,
{
    let next = actor.nudged(dx, dy);
    assert(next.area_at(0, 0) == actor.area_at(dx, dy));
    if j == 1 {
        assert(dx * 1 == dx && dy * 1 == dy) by (nonlinear_arith);
    } else {
        lemma_slide_path_clear(grid, next, dx, dy, (limit - 1) as nat, j - 1);
        assert(dx + dx * (j - 1) == dx * j) by (nonlinear_arith);
        assert(dy + dy * (j - 1) == dy * j) by (nonlinear_arith);
        assert(next.nudged(dx * (j - 1), dy * (j - 1)) == actor.nudged(dx * j, dy * j));
    }
}

/// A slide that ends before its limit ends in front of a solid cell.
pub proof fn lemma_slide_stopped(grid: GridView, actor: ActorView, dx: int, dy: int, limit: nat)
    requires
        slide(grid, actor, dx, dy, limit) < limit,
    ensures
        grid.covers_solid(
            actor.nudged(
                dx * slide(grid, actor, dx, dy, limit),
                dy * slide(grid, actor, dx, dy, limit),
            ).area_at(dx, dy),
        ),
    decreases limit,
{
    let n = slide(grid, actor, dx, dy, limit);
    if grid.covers_solid(actor.area_at(dx, dy)) {
        assert(n == 0);
        assert(actor.nudged(dx * 0, dy * 0) == actor);
    } else {
        let next = actor.nudged(dx, dy);
        let m = slide(grid, next, dx, dy, (limit - 1) as nat);
        lemma_slide_stopped(grid, next, dx, dy, (limit - 1) as nat);
        assert(dx + dx * m == dx * (1 + m)) by (nonlinear_arith);
        assert(dy + dy * m == dy * (1 + m)) by (nonlinear_arith);
        assert(next.nudged(dx * m, dy * m) == actor.nudged(dx * n, dy * n));
    }
}

/// A movement along either axis never leaves an actor inside a solid cell
/// that was not inside one before.
pub proof fn lemma_move_stays_clear(grid: GridView, actor: ActorView, delta: int)
    requires
        clear(grid, actor),
    ensures
        clear(grid, moved_h(grid, actor, delta).actor),
        clear(grid, moved_v(grid, actor, delta).actor),
{
    let step_h = whole_units(actor.remainder_x + delta);
    let sign_h: int = if step_h < 0 { -1 } else { 1 };
    let wanted_h: nat = (if step_h < 0 { -step_h } else { step_h }) as nat;
    lemma_slide_stays_clear(grid, actor, sign_h, 0, wanted_h);
    assert(0 * slide(grid, actor, sign_h, 0, wanted_h) == 0);
    lemma_slide_within_limit(grid, actor, sign_h, 0, wanted_h);
    let done_h = slide(grid, actor, sign_h, 0, wanted_h);
    assert(sign_h * done_h == if step_h < 0 { -done_h } else { done_h as int }) by (nonlinear_arith)
        requires
            sign_h == if step_h < 0 { -1int } else { 1int },
    ;
    let after_h = moved_h(grid, actor, delta).actor;
    assert(after_h.area_at(0, 0) == actor.nudged(
        sign_h * slide(grid, actor, sign_h, 0, wanted_h),
        0,
    ).area_at(0, 0));

    let step_v = whole_units(actor.remainder_y + delta);
    let sign_v: int = if step_v < 0 { -1 } else { 1 };
    let wanted_v: nat = (if step_v < 0 { -step_v } else { step_v }) as nat;
    lemma_slide_stays_clear(grid, actor, 0, sign_v, wanted_v);
    assert(0 * slide(grid, actor, 0, sign_v, wanted_v) == 0);
    lemma_slide_within_limit(grid, actor, 0, sign_v, wanted_v);
    let done_v = slide(grid, actor, 0, sign_v, wanted_v);
    assert(sign_v * done_v == if step_v < 0 { -done_v } else { done_v as int }) by (nonlinear_arith)
        requires
            sign_v == if step_v < 0 { -1int } else { 1int },
    ;
    let after_v = moved_v(grid, actor, delta).actor;
    assert(after_v.area_at(0, 0) == actor.nudged(
        0,
        sign_v * slide(grid, actor, 0, sign_v, wanted_v),
    ).area_at(0, 0));
}

/// A movement by nothing changes nothing and reports no collision.
pub proof fn lemma_zero_delta(grid: GridView, actor: ActorView)
    requires
        actor.wf(),
    ensures
        moved_h(grid, actor, 0) == (Moved { actor, collided: false }),
        moved_v(grid, actor, 0) == (Moved { actor, collided: false }),
{
    lemma_whole_units_small(actor.remainder_x);
    lemma_whole_units_small(actor.remainder_y);
}

/// Less than a unit holds no whole unit.
pub proof fn lemma_whole_units_small(total: int)
    requires
        -UNIT < total < UNIT,
    ensures
        whole_units(total) == 0,
{
}

/// An actor whose bottom edge lies on the top edge of a solid cell below it
/// is found to stand on ground by a probe one unit down. If it overlaps
/// nothing where it stands, the same probe finds nothing from one unit higher.
pub proof fn lemma_ground_probe(grid: GridView, actor: ActorView, cx: int, cy: int)
    requires
        grid.wf(),
        grid.solid_at(cx, cy),
        actor.width > 0,
        actor.height > 0,
        actor.y + actor.height == cy * grid.tile_height,
        span_meets(actor.x, actor.x + actor.width, cx, grid.tile_width),
    ensures
        grid.covers_solid(actor.area_at(0, 1)),
        clear(grid, actor) ==> !grid.covers_solid(actor.nudged(0, -1).area_at(0, 1)),
{
    let th = grid.tile_height;
    assert((cy + 1) * th == cy * th + th) by (nonlinear_arith);
    assert(actor.area_at(0, 1).meets_cell(cx, cy, grid.tile_width, th));
    assert(actor.nudged(0, -1).area_at(0, 1) == actor.area_at(0, 0));
}

/// A rectangle that lies wholly beyond one edge of the grid overlaps no
/// solid cell.
pub proof fn lemma_outside_is_clear(grid: GridView, area: Area)
    requires
        grid.wf(),
        area.right <= 0 || area.bottom <= 0 || area.left >= grid.grid_width * grid.tile_width
            || area.top >= grid.grid_height * grid.tile_height,
    ensures
        !grid.covers_solid(area),
{
    assert forall|cx: int, cy: int|
        grid.in_bounds(cx, cy) implies !area.meets_cell(
        cx,
        cy,
        grid.tile_width,
        grid.tile_height,
    ) by {
        let tw = grid.tile_width;
        let th = grid.tile_height;
        assert(0 <= cx * tw && (cx + 1) * tw <= grid.grid_width * tw) by (nonlinear_arith)
            requires
                0 <= cx < grid.grid_width,
                tw > 0,
        ;
        assert(0 <= cy * th && (cy + 1) * th <= grid.grid_height * th) by (nonlinear_arith)
            requires
                0 <= cy < grid.grid_height,
                th > 0,
        ;
    }
}

/// The actor lies wholly beyond one edge of the grid and a step of
/// `(dx, dy)` does not bring it nearer to that edge.
pub open spec fn beyond_edge(grid: GridView, actor: ActorView, dx: int, dy: int) -> bool {
    ||| actor.x + actor.width <= 0 && dx <= 0
    ||| actor.y + actor.height <= 0 && dy <= 0
    ||| actor.x >= grid.grid_width * grid.tile_width && dx >= 0
    ||| actor.y >= grid.grid_height * grid.tile_height && dy >= 0
}

/// Beyond the grid nothing stops an actor: a slide away from the nearest
/// edge takes every step up to its limit.
pub proof fn lemma_free_beyond_edge(grid: GridView, actor: ActorView, dx: int, dy: int, limit: nat)
    requires
        grid.wf(),
        beyond_edge(grid, actor, dx, dy),
    ensures
        slide(grid, actor, dx, dy, limit) == limit,
    decreases limit,
{
    if limit != 0 {
        lemma_outside_is_clear(grid, actor.area_at(dx, dy));
        lemma_free_beyond_edge(grid, actor.nudged(dx, dy), dx, dy, (limit - 1) as nat);
    }
}

/// Beyond the grid a movement takes every whole unit asked of it and
/// reports no collision.
pub proof fn lemma_move_free_beyond_edge(grid: GridView, actor: ActorView, delta: int)
    requires
        grid.wf(),
    ensures
        ({
            let step = whole_units(actor.remainder_x + delta);
            beyond_edge(grid, actor, if step < 0 { -1int } else { 1int }, 0) ==> !moved_h(
                grid,
                actor,
                delta,
            ).collided && moved_h(grid, actor, delta).actor.x == actor.x + step
        }),
        ({
            let step = whole_units(actor.remainder_y + delta);
            beyond_edge(grid, actor, 0, if step < 0 { -1int } else { 1int }) ==> !moved_v(
                grid,
                actor,
                delta,
            ).collided && moved_v(grid, actor, delta).actor.y == actor.y + step
        }),
{
    let step_h = whole_units(actor.remainder_x + delta);
    let sign_h: int = if step_h < 0 { -1 } else { 1 };
    let wanted_h: nat = (if step_h < 0 { -step_h } else { step_h }) as nat;
    if beyond_edge(grid, actor, sign_h, 0) {
        lemma_free_beyond_edge(grid, actor, sign_h, 0, wanted_h);
    }
    let step_v = whole_units(actor.remainder_y + delta);
    let sign_v: int = if step_v < 0 { -1 } else { 1 };
    let wanted_v: nat = (if step_v < 0 { -step_v } else { step_v }) as nat;
    if beyond_edge(grid, actor, 0, sign_v) {
        lemma_free_beyond_edge(grid, actor, 0, sign_v, wanted_v);
    }
}

} // verus!
