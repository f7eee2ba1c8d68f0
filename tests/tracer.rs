use ray_tracer::geom::Color;
use ray_tracer::tracer::{is_occluded, nearest_hit, Viewport, ViewportPosition};

#[test]
fn black_is_all_zero() {
    let c = Color::black();
    assert_eq!(c, Color { r: 0, g: 0, b: 0, a: 0 });
}

#[test]
fn new_viewport_is_black_and_sized() {
    let v = Viewport::new(3, 4);
    assert_eq!(v.height, 3);
    assert_eq!(v.width, 4);
    assert_eq!(v.values.len(), 12);
    assert!(v.values.iter().all(|c| *c == Color::black()));
}

#[test]
fn new_viewport_empty() {
    let v = Viewport::new(0, 5);
    assert_eq!(v.values.len(), 0);
    let w = Viewport::new(5, 0);
    assert_eq!(w.values.len(), 0);
}

#[test]
fn compute_each_is_row_major() {
    let mut v = Viewport::new(2, 3);
    v.compute_each(|p: ViewportPosition| Color {
        r: p.row as u8,
        g: p.col as u8,
        b: p.idx as u8,
        a: 255,
    });
    assert_eq!(v.values.len(), 6);
    for row in 0..2usize {
        for col in 0..3usize {
            let idx = row * 3 + col;
            assert_eq!(
                v.values[idx],
                Color { r: row as u8, g: col as u8, b: idx as u8, a: 255 }
            );
        }
    }
    assert_eq!(v.values[4], Color { r: 1, g: 1, b: 4, a: 255 });
}

#[test]
fn compute_each_overwrites_every_cell() {
    let mut v = Viewport::new(4, 1);
    v.compute_each(|_p: ViewportPosition| Color { r: 9, g: 8, b: 7, a: 6 });
    assert!(v.values.iter().all(|c| *c == Color { r: 9, g: 8, b: 7, a: 6 }));
}

#[test]
fn nearest_hit_picks_smallest_key() {
    let keys = vec![Some(700u64), None, Some(250), Some(900)];
    assert_eq!(nearest_hit(&keys), Some(2));
}

#[test]
fn nearest_hit_tie_goes_to_first() {
    let keys = vec![None, Some(5u64), Some(3), Some(3)];
    assert_eq!(nearest_hit(&keys), Some(2));
}

#[test]
fn nearest_hit_none_when_all_miss() {
    let keys: Vec<Option<u64>> = vec![None, None, None];
    assert_eq!(nearest_hit(&keys), None);
    let empty: Vec<Option<u64>> = Vec::new();
    assert_eq!(nearest_hit(&empty), None);
}

#[test]
fn nearest_of_two_spheres_at_different_depths() {
    // the farther sphere comes first in scene order
    let keys = vec![Some(6_000_000u64), Some(4_000_000)];
    assert_eq!(nearest_hit(&keys), Some(1));
    let keys = vec![Some(4_000_000u64), Some(6_000_000)];
    assert_eq!(nearest_hit(&keys), Some(0));
}

#[test]
fn nearest_hit_largest_key() {
    let keys = vec![Some(u64::MAX), None];
    assert_eq!(nearest_hit(&keys), Some(0));
}

#[test]
fn occluded_when_any_object_blocks() {
    assert!(is_occluded(&vec![false, false, true]));
    assert!(is_occluded(&vec![true]));
}

#[test]
fn not_occluded_when_nothing_blocks() {
    assert!(!is_occluded(&vec![false, false]));
    assert!(!is_occluded(&Vec::new()));
}
