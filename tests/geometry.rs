// Lengths are written in ten-thousandths of a unit.
use circle_packing::{Circle, Pos, Quadrant, Rect, ViableRect};

const UNIT: i32 = 10_000;

#[test]
fn circle_collisions() {
    let c = Circle { radius: UNIT };
    assert!(c.contains_point(&Pos { x: 0, y: 0 }));
    assert!(c.contains_point(&Pos { x: 0, y: UNIT }));
    assert!(c.contains_point(&Pos { x: UNIT, y: 0 }));
    let d = (1.0 / 2.0_f64.sqrt() - 0.0001) * UNIT as f64;
    assert!(c.contains_point(&Pos { x: d as i32, y: d as i32 }));
    assert!(!c.contains_point(&Pos { x: UNIT, y: UNIT }))
}

#[test]
fn circle_collisions_rect1() {
    let c = Circle { radius: UNIT };
    let rc = Pos { x: 0, y: 0 };
    let r = Rect::new(&rc, 5_000, 5_000, 0, 0);
    assert!(c.contains(&r))
}

#[test]
fn circle_collisions_rect2() {
    let c = Circle { radius: UNIT };
    let rc = Pos { x: 4_000, y: 3_000 };
    let r = Rect::new(&rc, 5_000, 5_000, 0, 0);
    assert!(c.contains(&r))
}

#[test]
fn circle_collisions_rect3() {
    let c = Circle { radius: UNIT };
    let rc = Pos { x: 4_000, y: 3_000 };
    let r = Rect::new(&rc, UNIT, 5_000, 0, 0);
    assert!(!c.contains(&r))
}

#[test]
fn circle_collisions_rect4() {
    let c = Circle { radius: UNIT };
    let rc = Pos { x: 0, y: 0 };
    let r = Rect::new(&rc, 2 * UNIT, 5_000, 0, 0);
    assert!(!c.contains(&r))
}

#[test]
fn rect_collision_test() {
    let rc = Pos { x: 0, y: 0 };
    let r = Rect::new(&rc, 2 * UNIT, 5_000, 0, 0);
    let r2 = Rect::new(&rc, 2 * UNIT, 5_000, 0, 0);
    assert!(r.overlaps(&r2))
}

#[test]
fn rect_collision_test2() {
    let rc = Pos { x: 0, y: 0 };
    let r = Rect::new(&rc, UNIT, UNIT, 0, 0);
    let rc2 = Pos { x: UNIT, y: UNIT };
    let r2 = Rect::new(&rc2, UNIT, UNIT, 0, 0);
    assert!(!r.overlaps(&r2))
}

#[test]
fn rect_collision_test3() {
    let rc = Pos { x: 0, y: 0 };
    let r = Rect::new(&rc, UNIT, UNIT, 0, 0);
    let rc2 = Pos { x: 11_000, y: 11_000 };
    let r2 = Rect::new(&rc2, UNIT, UNIT, 0, 0);
    assert!(!r.overlaps(&r2))
}

#[test]
fn rect_collision_test4() {
    let rc = Pos { x: 0, y: 0 };
    let r = Rect::new(&rc, UNIT, UNIT, 0, 0);
    let rc2 = Pos { x: 7_000, y: 7_000 };
    let r2 = Rect::new(&rc2, UNIT, UNIT, 0, 0);
    assert!(r.overlaps(&r2))
}

#[test]
fn vlinetest() {
    let rc = Pos { x: 0, y: 0 };
    let r = Rect::new(&rc, UNIT, UNIT, 0, 0);
    assert!(r.contains_vert_line(5_000));
    assert!(!r.contains_vert_line(6_000))
}

#[test]
fn overlap_is_symmetric_on_examples() {
    let a = Rect::new(&Pos { x: 0, y: 0 }, UNIT, 3 * UNIT, 1, 0);
    let b = Rect::new(&Pos { x: 15_000, y: 9_000 }, UNIT, UNIT, 1, 0);
    let c = Rect::new(&Pos { x: 25_000, y: 0 }, UNIT, UNIT, 1, 0);
    assert_eq!(a.overlaps(&b), b.overlaps(&a));
    assert_eq!(a.overlaps(&c), c.overlaps(&a));
    assert!(a.overlaps(&b));
    assert!(!a.overlaps(&c));
}

#[test]
fn side_by_side_squares_touch_without_overlap() {
    let a = Rect::new(&Pos { x: 0, y: 0 }, UNIT, UNIT, 1, 0);
    let b = Rect::new(&Pos { x: UNIT, y: 0 }, UNIT, UNIT, 1, 0);
    let far = Rect::new(&Pos { x: 5 * UNIT, y: 0 }, UNIT, UNIT, 1, 0);
    assert!(!a.overlaps(&b));
    assert!(!a.overlaps(&far));
}

#[test]
fn covers_compares_height_and_width() {
    let a = Rect::new(&Pos { x: 0, y: 0 }, 20, 30, 1, 0);
    assert!(a.covers(&ViableRect::new(20, 30, 5, 0)));
    assert!(a.covers(&ViableRect::new(10, 10, 5, 0)));
    assert!(!a.covers(&ViableRect::new(21, 10, 5, 0)));
    assert!(!a.covers(&ViableRect::new(10, 31, 5, 0)));
}

#[test]
fn quadrants_of_positions() {
    assert_eq!(Pos { x: 0, y: 0 }.quadrant(), Quadrant::First);
    assert_eq!(Pos { x: -1, y: 0 }.quadrant(), Quadrant::Second);
    assert_eq!(Pos { x: 0, y: -1 }.quadrant(), Quadrant::Third);
    assert_eq!(Pos { x: -1, y: -1 }.quadrant(), Quadrant::Fourth);
}

#[test]
fn magnitude_rounds_down() {
    assert_eq!(Pos { x: 3, y: 4 }.magn(), 5);
    assert_eq!(Pos { x: 1, y: 1 }.magn(), 1);
    assert_eq!(Pos { x: -7, y: 0 }.magn(), 7);
    assert_eq!(Pos { x: i32::MIN, y: i32::MIN }.magn(), 3_037_000_499);
}

#[test]
fn rect_new_derives_area_and_quadrant() {
    let r = Rect::new(&Pos { x: -5, y: 7 }, 4, 6, 9, 1234);
    assert_eq!(r.area, 24);
    assert_eq!(r.quadrant, Quadrant::Second);
    assert_eq!(r.value, 9);
    assert_eq!(r.mut_prob, 1234);
    assert_eq!(r.corner_x2_y2(Quadrant::Second), (-16, 18));
}

#[test]
fn circle_uses_corner_towards_center_quadrant() {
    let c = Circle { radius: 10 };
    // center in the lower right: the lower right corner (9, -1) is tested
    let r = Rect::new(&Pos { x: 8, y: -1 }, 0, 2, 1, 0);
    assert!(c.contains(&r));
    let r = Rect::new(&Pos { x: 9, y: -1 }, 2, 2, 1, 0);
    assert!(!c.contains(&r));
}

#[test]
fn add_and_checked_add() {
    let p = Pos { x: 1, y: 2 }.add_x(3).add_y(-5);
    assert_eq!((p.x, p.y), (4, -3));
    assert!(p.checked_add(i32::MAX, 0).is_none());
    let q = p.checked_add(-4, 3).unwrap();
    assert_eq!((q.x, q.y), (0, 0));
}
