use grid_quest::connection::Connection;
use grid_quest::cooldown::{Cooldown, MovementCooldown};
use grid_quest::grid_transform::GridTransform;
use grid_quest::menu::GridBounds;

#[test]
fn grid_vector_algebra() {
    let a = GridTransform::new(3, -2);
    let b = GridTransform::new(-1, 5);
    assert_eq!(a.add(b), GridTransform::new(2, 3));
    assert_eq!(a.sub(b), GridTransform::new(4, -7));
    assert_eq!(a.neg(), GridTransform::new(-3, 2));
    assert_eq!(b.mult(3), GridTransform::new(-3, 15));
}

#[test]
fn grid_direction_constants() {
    assert_eq!(GridTransform::north(), GridTransform::new(0, 1));
    assert_eq!(GridTransform::east(), GridTransform::new(1, 0));
    assert_eq!(GridTransform::south(), GridTransform::new(0, -1));
    assert_eq!(GridTransform::west(), GridTransform::new(-1, 0));
    assert_eq!(GridTransform::zero(), GridTransform::new(0, 0));
}

#[test]
fn neighbors_are_the_four_cardinal_tiles() {
    let p = GridTransform::new(4, 4);
    let n = p.neighbors();
    assert_eq!(n.len(), 4);
    assert_eq!(n[0], GridTransform::new(4, 5));
    assert_eq!(n[1], GridTransform::new(5, 4));
    assert_eq!(n[2], GridTransform::new(4, 3));
    assert_eq!(n[3], GridTransform::new(3, 4));
}

#[test]
fn cardinal_index_maps_the_four_directions() {
    assert_eq!(GridTransform::north().cardinal_index(), 0);
    assert_eq!(GridTransform::east().cardinal_index(), 1);
    assert_eq!(GridTransform::south().cardinal_index(), 2);
    assert_eq!(GridTransform::west().cardinal_index(), 3);
}

#[test]
fn pixels_truncate_toward_zero() {
    // pixels just below zero land on tile zero, not tile minus one
    assert_eq!(GridTransform::from_pixels(-5, -15), GridTransform::new(0, 0));
    assert_eq!(GridTransform::from_pixels(31, 16), GridTransform::new(1, 1));
    assert_eq!(GridTransform::from_pixels(-16, -17), GridTransform::new(-1, -1));
    assert_eq!(GridTransform::from_pixels(0, 15), GridTransform::new(0, 0));
}

#[test]
fn tile_coords_reject_negatives() {
    assert_eq!(GridTransform::new(3, 7).to_tile_coords(), Ok((3, 7)));
    assert!(GridTransform::new(-1, 7).to_tile_coords().is_err());
    assert!(GridTransform::new(3, -7).to_tile_coords().is_err());
}

#[test]
fn cooldown_finishes_and_resets() {
    let mut c = Cooldown::new(400);
    assert!(!c.finished());
    c.tick(150);
    assert!(!c.finished());
    assert_eq!(c.fraction_permille(), 375);
    c.tick(250);
    assert!(c.finished());
    assert_eq!(c.fraction_permille(), 1000);
    c.tick(10_000);
    assert_eq!(c.elapsed_ms, 400);
    c.reset();
    assert!(!c.finished());
    assert_eq!(c.fraction_permille(), 0);
    c.finish();
    assert!(c.finished());
}

#[test]
fn movement_cooldown_starts_finished() {
    let c = MovementCooldown::default();
    assert!(c.0.finished());
    assert_eq!(c.0.duration_ms, 400);
}

#[test]
fn bounds_include_and_grow() {
    let mut b = GridBounds::from_position(GridTransform::new(2, 3));
    assert!(b.includes(GridTransform::new(2, 3)));
    assert!(!b.includes(GridTransform::new(2, 4)));
    b.add_position(GridTransform::new(-1, 5));
    assert!(b.includes(GridTransform::new(0, 4)));
    assert!(!b.includes(GridTransform::new(3, 4)));
    assert_eq!(b.min_x, -1);
    assert_eq!(b.max_x, 2);
    assert_eq!(b.min_y, 3);
    assert_eq!(b.max_y, 5);
}

#[test]
fn diagonal_connection_crosses_its_corner_pair() {
    let diagonal = Connection::new(GridTransform::new(0, 0), GridTransform::new(1, 1));
    let corner_a = Connection::new(GridTransform::new(1, 0), GridTransform::new(0, 1));
    let corner_b = Connection::new(GridTransform::new(0, 1), GridTransform::new(1, 0));
    let unrelated = Connection::new(GridTransform::new(2, 0), GridTransform::new(0, 2));
    assert!(diagonal.crosses(&corner_a));
    assert!(diagonal.crosses(&corner_b));
    assert!(!diagonal.crosses(&unrelated));
    let straight = Connection::new(GridTransform::new(0, 0), GridTransform::new(1, 0));
    assert!(!straight.crosses(&corner_a));
}
