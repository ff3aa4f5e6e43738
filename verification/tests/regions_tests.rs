use kscreenshot::regions::{bounding_rect, rect_area, regions_area, subtract_rect, subtract_regions};
use kscreenshot::Rect;

fn covered(pieces: &[Rect], x: i32, y: i32) -> usize {
    pieces
        .iter()
        .filter(|r| r.left <= x && x < r.right && r.top <= y && y < r.bottom)
        .count()
}

#[test]
fn subtract_rect_middle_hole() {
    let region = Rect::new(0, 0, 10, 10);
    let occluder = Rect::new(3, 4, 6, 7);
    let pieces = subtract_rect(region, occluder);
    assert_eq!(
        pieces,
        vec![
            Rect::new(0, 0, 10, 4),
            Rect::new(0, 7, 10, 10),
            Rect::new(0, 4, 3, 7),
            Rect::new(6, 4, 10, 7),
        ]
    );
    let total: u64 = pieces.iter().map(|r| rect_area(*r)).sum();
    assert_eq!(total + rect_area(region.intersect(occluder)), rect_area(region));
}

#[test]
fn subtract_rect_partitions_every_point() {
    let region = Rect::new(-4, -3, 9, 8);
    let occluders = [
        Rect::new(-10, -10, 0, 0),
        Rect::new(2, 2, 20, 20),
        Rect::new(-4, -3, 9, 8),
        Rect::new(100, 100, 120, 120),
        Rect::new(0, -5, 3, 12),
    ];
    for occluder in occluders {
        let pieces = subtract_rect(region, occluder);
        for x in -12..22 {
            for y in -12..22 {
                let inside = region.left <= x && x < region.right && region.top <= y && y < region.bottom;
                let hidden = occluder.left <= x && x < occluder.right && occluder.top <= y && y < occluder.bottom;
                let expected = usize::from(inside && !hidden);
                assert_eq!(covered(&pieces, x, y), expected, "point {x},{y} occluder {occluder:?}");
            }
        }
    }
}

#[test]
fn subtract_rect_without_overlap_keeps_region() {
    let region = Rect::new(0, 0, 5, 5);
    assert_eq!(subtract_rect(region, Rect::new(10, 10, 20, 20)), vec![region]);
}

#[test]
fn subtract_rect_full_cover_leaves_nothing() {
    let region = Rect::new(0, 0, 5, 5);
    assert!(subtract_rect(region, Rect::new(-1, -1, 6, 6)).is_empty());
}

#[test]
fn subtract_regions_drops_empty_and_keeps_order() {
    let regions = vec![Rect::new(0, 0, 10, 10), Rect::new(20, 0, 30, 10), Rect::new(5, 5, 5, 9)];
    let out = subtract_regions(regions, Rect::new(0, 0, 25, 5));
    assert_eq!(
        out,
        vec![Rect::new(0, 5, 10, 10), Rect::new(20, 5, 30, 10), Rect::new(25, 0, 30, 5)]
    );
    assert_eq!(regions_area(&out), 50 + 50 + 25);
}

#[test]
fn rect_area_values() {
    assert_eq!(rect_area(Rect::new(0, 0, 3, 4)), 12);
    assert_eq!(rect_area(Rect::new(0, 0, -3, 4)), 0);
    assert_eq!(rect_area(Rect::new(5, 5, 5, 100)), 0);
    assert_eq!(
        rect_area(Rect::new(i32::MIN, i32::MIN, i32::MAX, i32::MAX)),
        0xffff_ffffu64 * 0xffff_ffffu64
    );
}

#[test]
fn regions_area_sums() {
    assert_eq!(regions_area(&[]), 0);
    assert_eq!(regions_area(&[Rect::new(0, 0, 2, 2), Rect::new(0, 0, 1, 5)]), 9);
}

#[test]
fn bounding_rect_values() {
    assert_eq!(bounding_rect(&[]), None);
    assert_eq!(bounding_rect(&[Rect::new(1, 2, 3, 4)]), Some(Rect::new(1, 2, 3, 4)));
    assert_eq!(
        bounding_rect(&[Rect::new(1, 2, 3, 4), Rect::new(-5, 10, 0, 12), Rect::new(2, 0, 9, 1)]),
        Some(Rect::new(-5, 0, 9, 12))
    );
}

#[test]
fn subtracting_twice_changes_nothing_and_keeps_disjointness() {
    let regions = vec![Rect::new(0, 0, 10, 10), Rect::new(10, 0, 20, 10), Rect::new(0, 10, 20, 15)];
    let occluder = Rect::new(5, 5, 15, 12);
    let once = subtract_regions(regions.clone(), occluder);
    let twice = subtract_regions(once.clone(), occluder);
    assert_eq!(once, twice);
    for (i, a) in once.iter().enumerate() {
        assert!(a.intersect(occluder).is_empty());
        for (j, b) in once.iter().enumerate() {
            if i != j {
                assert!(a.intersect(*b).is_empty(), "{a:?} {b:?}");
            }
        }
    }
    let overlap: u64 = regions.iter().map(|r| rect_area(r.intersect(occluder))).sum();
    assert_eq!(regions_area(&once) + overlap, regions_area(&regions));
}
