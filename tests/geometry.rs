use rts::dimensions::{DisplayPoint, WorldCoord, WorldPoint, WorldRect, WORLD_ONE};

fn pt(x: i64, y: i64) -> WorldPoint {
    WorldPoint::new(WorldCoord(x), WorldCoord(y))
}

fn rect(x: i64, y: i64, w: i64, h: i64) -> WorldRect {
    WorldRect { top_left: pt(x, y), width: WorldCoord(w), height: WorldCoord(h) }
}

#[test]
fn magnitude_of_three_four_five() {
    assert_eq!(pt(3 * WORLD_ONE, 4 * WORLD_ONE).magnitude(), WorldCoord(5 * WORLD_ONE));
    assert_eq!(pt(0, 0).magnitude(), WorldCoord(0));
    assert_eq!(pt(-3, 4).magnitude(), WorldCoord(5));
    // floor of sqrt(2)
    assert_eq!(pt(1, 1).magnitude(), WorldCoord(1));
}

#[test]
fn normalized_has_unit_length() {
    let n = pt(3 * WORLD_ONE, 4 * WORLD_ONE).normalized();
    assert_eq!(n, pt(614, 819));
    let m = n.magnitude().0;
    assert!((m - WORLD_ONE).abs() <= 2);
    for p in [pt(1, 0), pt(-7, 0), pt(5, -12), pt(123456, 654321), pt(-WORLD_ONE, -WORLD_ONE)] {
        let m = p.normalized().magnitude().0;
        assert!((m - WORLD_ONE).abs() <= 2, "{:?} -> {}", p, m);
    }
    assert_eq!(pt(0, -9).normalized(), pt(0, -WORLD_ONE));
    // short vectors too come out of unit length
    assert_eq!(pt(1, 1).normalized(), pt(724, 724));
    assert_eq!(pt(-1, 1).normalized().magnitude(), WorldCoord(1023));
}

#[test]
fn normalized_zero_is_zero() {
    assert_eq!(pt(0, 0).normalized(), pt(0, 0));
}

#[test]
fn coord_clamp() {
    assert_eq!(WorldCoord(5).clamp(WorldCoord(0), WorldCoord(3)), WorldCoord(3));
    assert_eq!(WorldCoord(-5).clamp(WorldCoord(0), WorldCoord(3)), WorldCoord(0));
    assert_eq!(WorldCoord(2).clamp(WorldCoord(0), WorldCoord(3)), WorldCoord(2));
}

#[test]
fn point_clamp_to_rect() {
    let r = rect(10, 20, 5, 5);
    assert_eq!(pt(0, 100).clamp(&r), pt(10, 25));
    assert_eq!(pt(12, 22).clamp(&r), pt(12, 22));
}

#[test]
fn contains_is_inclusive_on_all_edges() {
    let r = rect(0, 0, 10, 10);
    assert!(r.contains(pt(0, 0)));
    assert!(r.contains(pt(10, 10)));
    assert!(r.contains(pt(10, 0)));
    assert!(!r.contains(pt(11, 5)));
    assert!(!r.contains(pt(-1, 5)));
}

#[test]
fn intersects_is_symmetric() {
    let rects = [
        rect(0, 0, 10, 10),
        rect(5, 5, 10, 10),
        rect(10, 10, 1, 1),
        rect(11, 0, 3, 3),
        rect(-5, 4, 30, 2),
        rect(2, 2, 1, 1),
    ];
    for a in rects.iter() {
        for b in rects.iter() {
            assert_eq!(a.intersects(b), b.intersects(a));
        }
    }
    assert!(rect(0, 0, 10, 10).intersects(&rect(5, 5, 10, 10)));
    assert!(rect(0, 0, 10, 10).intersects(&rect(10, 10, 1, 1)));
    assert!(!rect(0, 0, 10, 10).intersects(&rect(11, 0, 3, 3)));
    assert!(rect(0, 0, 10, 10).intersects(&rect(2, 2, 1, 1)));
}

#[test]
fn intersects_misses_a_cross_without_corners_inside() {
    // A wide thin rectangle across a tall thin one: no corner of either lies in the other.
    assert!(!rect(-5, 4, 30, 2).intersects(&rect(4, -5, 2, 30)));
}

#[test]
fn window_conversions() {
    let camera = pt(10 * WORLD_ONE, 20 * WORLD_ONE);
    let p = pt(15 * WORLD_ONE + 700, 20 * WORLD_ONE - 700);
    assert_eq!(p.to_window(camera), DisplayPoint::new(5, 0));
    assert_eq!(DisplayPoint::new(3, -4).to_world(), pt(3 * WORLD_ONE, -4 * WORLD_ONE));
    assert_eq!(
        DisplayPoint::new(3, -4).to_world_from(camera),
        pt(13 * WORLD_ONE, 16 * WORLD_ONE)
    );
    let r = rect(12 * WORLD_ONE, 22 * WORLD_ONE, 4 * WORLD_ONE + 5, 2 * WORLD_ONE);
    let d = r.to_window_rect(camera);
    assert_eq!(d.top_left, DisplayPoint::new(2, 2));
    assert_eq!((d.width, d.height), (4, 2));
    assert_eq!(WorldCoord(-3).to_window_as_dim(), 0);
    assert_eq!(WorldCoord(3 * WORLD_ONE).to_window_as_dim(), 3);
}

#[test]
fn display_rect_from_points() {
    let r = rts::dimensions::DisplayRect::from_points(DisplayPoint::new(5, -2), DisplayPoint::new(1, 7));
    assert_eq!(r.top_left, DisplayPoint::new(1, -2));
    assert_eq!((r.width, r.height), (4, 9));
    let w = rts::dimensions::DisplayRect::from_points(DisplayPoint::new(i32::MIN, 0), DisplayPoint::new(i32::MAX, 0));
    assert_eq!(w.width, u32::MAX);
}

#[test]
fn normalized_keeps_signs() {
    assert_eq!(pt(1, 2000).normalized(), pt(1, 1023));
    assert_eq!(pt(-1, -2000).normalized(), pt(-1, -1023));
    assert_eq!(pt(-3, 5000).normalized(), pt(-1, 1023));
    assert_eq!(pt(0, 5000).normalized(), pt(0, WORLD_ONE));
}

#[test]
fn coord_arithmetic() {
    let a = WorldCoord(3 * WORLD_ONE);
    let b = WorldCoord(-2 * WORLD_ONE - 512);
    assert_eq!(a.neg(), WorldCoord(-3 * WORLD_ONE));
    assert_eq!(a.add(b), WorldCoord(WORLD_ONE - 512));
    assert_eq!(a.sub(b), WorldCoord(5 * WORLD_ONE + 512));
    // 3 * -2.5 = -7.5
    assert_eq!(a.mul(b), WorldCoord(-7 * WORLD_ONE - 512));
    // 3 / -2.5 = -1.2, rounded toward zero at 1/1024
    assert_eq!(a.div(b), WorldCoord(-1228));
    assert_eq!(WorldCoord(-1).mul(WorldCoord(1)), WorldCoord(0));
    assert_eq!(WorldCoord(-7).div(WorldCoord(-2 * WORLD_ONE)), WorldCoord(3));
    let p = pt(2 * WORLD_ONE, -WORLD_ONE);
    assert_eq!(p.mul(WorldCoord(WORLD_ONE / 2)), pt(WORLD_ONE, -WORLD_ONE / 2));
    assert_eq!(p.div(WorldCoord(4 * WORLD_ONE)), pt(WORLD_ONE / 2, -WORLD_ONE / 4));
}
