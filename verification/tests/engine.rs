use tile_collision::actors::ActorHandle;
use tile_collision::engine::CollisionEngine;
use tile_collision::error::EngineError;
use tile_collision::geometry::Point;
use tile_collision::grid::{build_grid, Tile};

/// One row of eight tiles of 32 by 32 with a wall in column five.
fn corridor() -> CollisionEngine {
    let mut tiles = vec![Tile::Empty; 8];
    tiles[5] = Tile::Solid;
    CollisionEngine::new(build_grid(tiles, 32, 32, 8).unwrap())
}

/// Four rows of four tiles of 32 by 32; the third row is ground.
fn room() -> CollisionEngine {
    let mut tiles = vec![Tile::Empty; 16];
    for column in 0..4 {
        tiles[8 + column] = Tile::Solid;
    }
    CollisionEngine::new(build_grid(tiles, 32, 32, 4).unwrap())
}

fn at(engine: &CollisionEngine, handle: ActorHandle) -> (i32, i32) {
    let p = engine.actor_pos(handle).unwrap();
    (p.x, p.y)
}

fn overlapping(engine: &CollisionEngine, handle: ActorHandle) -> bool {
    engine.collide_check(handle, Point { x: 0, y: 0 }).unwrap()
}

#[test]
fn zero_delta_changes_nothing() {
    let mut engine = corridor();
    let h = engine.add_actor(Point { x: 128, y: 0 }, 32, 32);
    assert_eq!(engine.move_h(h, 700), Ok(false));
    assert_eq!(engine.move_v(h, -700), Ok(false));
    let before = engine.actor(h).unwrap();
    assert_eq!(engine.move_h(h, 0), Ok(false));
    assert_eq!(engine.move_v(h, 0), Ok(false));
    assert_eq!(engine.actor(h).unwrap(), before);
    assert_eq!(before.remainder_x(), 700);
    assert_eq!(before.remainder_y(), -700);
}

#[test]
fn remainder_accumulates_to_a_whole_unit() {
    let mut engine = corridor();
    let h = engine.add_actor(Point { x: 0, y: 0 }, 32, 32);
    for _ in 0..3 {
        assert_eq!(engine.move_h(h, 300), Ok(false));
        assert_eq!(at(&engine, h), (0, 0));
    }
    assert_eq!(engine.actor(h).unwrap().remainder_x(), 900);
    assert_eq!(engine.move_h(h, 300), Ok(false));
    assert_eq!(at(&engine, h), (1, 0));
    assert_eq!(engine.actor(h).unwrap().remainder_x(), 200);
    assert_eq!(engine.actor(h).unwrap().remainder_y(), 0);
}

#[test]
fn remainder_rounds_towards_zero_when_negative() {
    let mut engine = corridor();
    let h = engine.add_actor(Point { x: 0, y: 0 }, 32, 32);
    for _ in 0..3 {
        assert_eq!(engine.move_v(h, -300), Ok(false));
        assert_eq!(at(&engine, h), (0, 0));
    }
    assert_eq!(engine.move_v(h, -300), Ok(false));
    assert_eq!(at(&engine, h), (0, -1));
    assert_eq!(engine.actor(h).unwrap().remainder_y(), -200);
    assert_eq!(engine.move_v(h, 1400), Ok(false));
    assert_eq!(at(&engine, h), (0, 0));
    assert_eq!(engine.actor(h).unwrap().remainder_y(), 200);
}

#[test]
fn wall_stops_an_adjacent_actor() {
    let mut engine = corridor();
    let h = engine.add_actor(Point { x: 128, y: 0 }, 32, 32);
    assert_eq!(engine.move_h(h, 50_000), Ok(true));
    assert_eq!(at(&engine, h), (128, 0));
    assert_eq!(engine.actor(h).unwrap().remainder_x(), 0);
}

#[test]
fn wall_stops_an_actor_on_its_way() {
    let mut engine = corridor();
    let h = engine.add_actor(Point { x: 100, y: 0 }, 32, 32);
    assert_eq!(engine.move_h(h, 50_999), Ok(true));
    assert_eq!(at(&engine, h), (128, 0));
    assert_eq!(engine.actor(h).unwrap().remainder_x(), 0);
    assert!(!overlapping(&engine, h));
}

#[test]
fn wall_stops_an_actor_coming_from_the_right() {
    let mut engine = corridor();
    let h = engine.add_actor(Point { x: 230, y: 0 }, 10, 10);
    assert_eq!(engine.move_h(h, -37_500), Ok(false));
    assert_eq!(at(&engine, h), (193, 0));
    assert_eq!(engine.actor(h).unwrap().remainder_x(), -500);
    assert_eq!(engine.move_h(h, -1_500), Ok(true));
    assert_eq!(at(&engine, h), (192, 0));
    assert_eq!(engine.actor(h).unwrap().remainder_x(), 0);
}

#[test]
fn fast_actor_does_not_tunnel() {
    let mut tiles = vec![Tile::Empty; 8];
    tiles[5] = Tile::Solid;
    let mut engine = CollisionEngine::new(build_grid(tiles, 4, 4, 8).unwrap());
    let h = engine.add_actor(Point { x: 0, y: 0 }, 2, 2);
    assert_eq!(engine.move_h(h, 1_000_000), Ok(true));
    assert_eq!(at(&engine, h), (18, 0));
}

#[test]
fn unobstructed_move_takes_every_unit() {
    let mut engine = corridor();
    let h = engine.add_actor(Point { x: 0, y: 0 }, 32, 32);
    assert_eq!(engine.move_h(h, 96_250), Ok(false));
    assert_eq!(at(&engine, h), (96, 0));
    assert_eq!(engine.actor(h).unwrap().remainder_x(), 250);
}

#[test]
fn probe_detects_ground() {
    let mut engine = room();
    let resting = engine.add_actor(Point { x: 40, y: 32 }, 20, 32);
    let hovering = engine.add_actor(Point { x: 40, y: 31 }, 20, 32);
    assert_eq!(engine.collide_check(resting, Point { x: 0, y: 1 }), Ok(true));
    assert_eq!(engine.collide_check(hovering, Point { x: 0, y: 1 }), Ok(false));
    assert_eq!(engine.collide_check(resting, Point { x: 0, y: 0 }), Ok(false));
    assert_eq!(engine.collide_check(hovering, Point { x: 0, y: 2 }), Ok(true));
}

#[test]
fn probe_changes_nothing() {
    let mut engine = room();
    let h = engine.add_actor(Point { x: 40, y: 32 }, 20, 32);
    engine.move_h(h, 400).unwrap();
    let before = engine.actor(h).unwrap();
    engine.collide_check(h, Point { x: 0, y: 1 }).unwrap();
    assert_eq!(engine.actor(h).unwrap(), before);
}

#[test]
fn falling_actor_lands_on_ground() {
    let mut engine = room();
    let h = engine.add_actor(Point { x: 40, y: 0 }, 20, 32);
    assert_eq!(engine.move_v(h, 10_500), Ok(false));
    assert_eq!(at(&engine, h), (40, 10));
    assert_eq!(engine.move_v(h, 100_000), Ok(true));
    assert_eq!(at(&engine, h), (40, 32));
    assert_eq!(engine.actor(h).unwrap().remainder_y(), 0);
    assert_eq!(engine.collide_check(h, Point { x: 0, y: 1 }), Ok(true));
    assert_eq!(engine.move_h(h, 30_000), Ok(false));
    assert_eq!(at(&engine, h), (70, 32));
}

#[test]
fn rising_actor_hits_the_ceiling() {
    let mut engine = room();
    let h = engine.add_actor(Point { x: 0, y: 100 }, 10, 10);
    assert_eq!(engine.move_v(h, -20_000), Ok(true));
    assert_eq!(at(&engine, h), (0, 96));
}

#[test]
fn moves_never_end_inside_a_solid_tile() {
    let mut engine = room();
    let a = engine.add_actor(Point { x: 3, y: 5 }, 17, 23);
    let b = engine.add_actor(Point { x: 100, y: 110 }, 9, 9);
    let deltas = [7_300, -12_900, 64_000, -250, 999, -131_072, 40_001, 3];
    for (i, d) in deltas.iter().enumerate() {
        for h in [a, b] {
            if i % 2 == 0 {
                engine.move_h(h, *d).unwrap();
                engine.move_v(h, -*d).unwrap();
            } else {
                engine.move_v(h, *d).unwrap();
                engine.move_h(h, *d).unwrap();
            }
            assert!(!overlapping(&engine, a));
            assert!(!overlapping(&engine, b));
        }
    }
}

#[test]
fn actor_leaves_the_mapped_area_freely() {
    let mut engine = room();
    let h = engine.add_actor(Point { x: 0, y: 0 }, 32, 32);
    assert_eq!(engine.move_h(h, -500_000), Ok(false));
    assert_eq!(at(&engine, h), (-500, 0));
    assert_eq!(engine.move_v(h, 2_000_000), Ok(false));
    assert_eq!(at(&engine, h), (-500, 2000));
    assert_eq!(engine.move_h(h, 3_000_000), Ok(false));
    assert_eq!(at(&engine, h), (2500, 2000));
    assert_eq!(engine.move_v(h, -5_000_000), Ok(false));
    assert_eq!(at(&engine, h), (2500, -3000));
    assert_eq!(engine.collide_check(h, Point { x: 0, y: 0 }), Ok(false));
}

#[test]
fn move_of_one_actor_leaves_the_others() {
    let mut engine = corridor();
    let a = engine.add_actor(Point { x: 0, y: 0 }, 8, 8);
    let b = engine.add_actor(Point { x: 64, y: 0 }, 8, 8);
    assert_eq!(engine.actor_count(), 2);
    engine.move_h(b, 450).unwrap();
    let b_before = engine.actor(b).unwrap();
    engine.move_h(a, 12_345).unwrap();
    engine.move_v(a, -2_001).unwrap();
    assert_eq!(engine.actor(b).unwrap(), b_before);
    assert_eq!(at(&engine, a), (12, -2));
}

#[test]
fn engine_rejects_a_handle_it_never_issued() {
    let mut large = corridor();
    large.add_actor(Point { x: 0, y: 0 }, 1, 1);
    let foreign = large.add_actor(Point { x: 0, y: 0 }, 1, 1);
    let mut small = corridor();
    small.add_actor(Point { x: 7, y: 7 }, 1, 1);
    assert_eq!(small.actor_pos(foreign), Err(EngineError::InvalidHandle));
    assert_eq!(small.actor(foreign), Err(EngineError::InvalidHandle));
    assert_eq!(small.collide_check(foreign, Point { x: 0, y: 1 }), Err(EngineError::InvalidHandle));
    assert_eq!(small.move_h(foreign, 5_000), Err(EngineError::InvalidHandle));
    assert_eq!(small.move_v(foreign, 5_000), Err(EngineError::InvalidHandle));
    assert!(!small.can_move_h(foreign, 0));
    assert!(!small.can_move_v(foreign, 0));
    assert_eq!(small.actor_count(), 1);
}

#[test]
fn replacing_the_grid_keeps_the_actors() {
    let mut engine = corridor();
    let h = engine.add_actor(Point { x: 128, y: 0 }, 32, 32);
    assert_eq!(engine.collide_check(h, Point { x: 1, y: 0 }), Ok(true));
    assert_eq!(engine.add_static_tiled_layer(vec![Tile::Empty; 8], 32, 32, 8, 1), Ok(()));
    assert_eq!(engine.collide_check(h, Point { x: 1, y: 0 }), Ok(false));
    assert_eq!(at(&engine, h), (128, 0));
    assert_eq!(engine.grid().grid_height(), 1);
    assert_eq!(engine.move_h(h, 50_000), Ok(false));
    assert_eq!(at(&engine, h), (178, 0));
}

#[test]
fn malformed_layer_leaves_the_grid() {
    let mut engine = corridor();
    let h = engine.add_actor(Point { x: 128, y: 0 }, 32, 32);
    assert_eq!(
        engine.add_static_tiled_layer(vec![Tile::Empty; 7], 32, 32, 8, 1),
        Err(EngineError::InvalidLayout)
    );
    assert_eq!(engine.grid().grid_width(), 8);
    assert_eq!(engine.collide_check(h, Point { x: 1, y: 0 }), Ok(true));
}

#[test]
fn range_check_guards_the_last_coordinate() {
    let mut engine = corridor();
    let h = engine.add_actor(Point { x: i32::MAX - 1, y: i32::MIN + 1 }, 4, 4);
    assert!(engine.can_move_h(h, 1_999));
    assert!(!engine.can_move_h(h, 2_000));
    assert!(engine.can_move_v(h, -1_999));
    assert!(!engine.can_move_v(h, -2_000));
    assert_eq!(engine.move_h(h, 1_999), Ok(false));
    assert_eq!(at(&engine, h), (i32::MAX, i32::MIN + 1));
    assert_eq!(engine.actor(h).unwrap().remainder_x(), 999);
    assert!(!engine.can_move_h(h, 1));
    assert!(engine.can_move_h(h, 0));
    assert!(engine.can_move_h(h, i32::MIN));
}

#[test]
fn actor_without_extent_passes_through() {
    let mut engine = corridor();
    let h = engine.add_actor(Point { x: 100, y: 0 }, 0, 32);
    assert_eq!(engine.move_h(h, 150_000), Ok(false));
    assert_eq!(at(&engine, h), (250, 0));
}
