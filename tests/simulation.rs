use rts::dimensions::{WorldCoord, WorldPoint, WORLD_ONE};
use rts::game::{Bullet, GameDur, State, Unit, BULLET_RADIUS, BULLET_SPEED, TICKS_PER_SEC};
use rts::keys::{KeyState, ModifierKey};
use rts::map::{TileMap, TILE_SIZE};
use rts::sprite::{SpriteParseError, SpriteRef};

fn pt(x: i64, y: i64) -> WorldPoint {
    WorldPoint::new(WorldCoord(x), WorldCoord(y))
}

fn map(text: &str) -> TileMap {
    TileMap::from_text(text.as_bytes()).unwrap()
}

fn unit(pos: WorldPoint, move_dir: WorldPoint, rad: i64) -> Unit {
    Unit {
        uid: 0,
        pos,
        heading: pt(WORLD_ONE, 0),
        move_dir,
        rad: WorldCoord(rad),
        base_speed: WorldCoord(300 * WORLD_ONE),
        shooting: false,
        ticks_per_shot: 3,
        ticks_to_shot: 0,
    }
}

fn bullet(pos: WorldPoint, heading: WorldPoint) -> Bullet {
    Bullet {
        pos,
        heading,
        speed: WorldCoord(BULLET_SPEED),
        rad: WorldCoord(BULLET_RADIUS),
        will_die_at_end_of_tick: false,
    }
}

const HALF: i64 = TILE_SIZE / 2;

// 300 units per second over one step of 1/120 s.
const STEP: i64 = 5 * WORLD_ONE / 2;

#[test]
fn blocked_move_keeps_position() {
    let mut s = State::blank(map("3\n3\nOOO\nOXO\nOOO\n"));
    s.units.push(unit(pt(HALF, TILE_SIZE + HALF), pt(WORLD_ONE, 0), 30 * WORLD_ONE));
    s.tick();
    assert_eq!(s.units[0].pos, pt(HALF, TILE_SIZE + HALF));
}

#[test]
fn free_move_advances_by_velocity() {
    let mut s = State::blank(map("3\n3\nOOO\nOXO\nOOO\n"));
    s.units.push(unit(pt(HALF, HALF), pt(WORLD_ONE, 0), 30 * WORLD_ONE));
    s.units.push(unit(pt(HALF, HALF), pt(0, 5), 10 * WORLD_ONE));
    s.tick();
    assert_eq!(s.units[0].pos, pt(HALF + STEP, HALF));
    assert_eq!(s.units[1].pos, pt(HALF, HALF + STEP));
}

#[test]
fn diagonal_move_is_normalised() {
    let mut s = State::blank(map("3\n3\nOOO\nOOO\nOOO\n"));
    s.units.push(unit(pt(HALF, HALF), pt(WORLD_ONE, WORLD_ONE), WORLD_ONE));
    s.tick();
    // heading (724, 724) of length about WORLD_ONE, times 300 units per second over 1/120 s
    let d = 724 * 300 * WORLD_ONE / (WORLD_ONE * 120);
    assert_eq!(s.units[0].pos, pt(HALF + d, HALF + d));
}

#[test]
fn end_to_end_center_obstacle() {
    let m = map("3\n3\nOOO\nOXO\nOOO\n");
    let mut s = State::blank(m);
    // center-left tile, moving right into the obstacle
    s.units.push(unit(pt(HALF, TILE_SIZE + HALF), pt(WORLD_ONE, 0), 30 * WORLD_ONE));
    // top-left tile, moving right into open space
    s.units.push(unit(pt(HALF, HALF), pt(WORLD_ONE, 0), 30 * WORLD_ONE));
    s.tick();
    assert_eq!(s.units[0].pos, pt(HALF, TILE_SIZE + HALF));
    assert_eq!(s.units[1].pos, pt(HALF + STEP, HALF));
}

#[test]
fn bullet_hitting_obstacle_is_removed() {
    let mut s = State::blank(map("3\n3\nOOO\nOXO\nOOO\n"));
    // Just left of the obstacle, flying right: its box reaches column 1 after one step.
    s.bullets.push(bullet(pt(TILE_SIZE - BULLET_RADIUS - 100, TILE_SIZE + HALF), pt(WORLD_ONE, 0)));
    // In open space, flying up.
    s.bullets.push(bullet(pt(HALF, HALF), pt(0, -WORLD_ONE)));
    // Far from the obstacle, flying right.
    s.bullets.push(bullet(pt(HALF, 2 * TILE_SIZE + HALF), pt(WORLD_ONE, 0)));
    s.tick();
    assert_eq!(s.bullets.len(), 2);
    let fly = 500 * WORLD_ONE / 120;
    assert_eq!(s.bullets[0].pos, pt(HALF, HALF - fly));
    assert_eq!(s.bullets[1].pos, pt(HALF + fly, 2 * TILE_SIZE + HALF));
    assert!(!s.bullets[0].will_die_at_end_of_tick);
}

#[test]
fn shooting_cadence() {
    let mut s = State::blank(map("5\n5\nOOOOO\nOOOOO\nOOOOO\nOOOOO\nOOOOO\n"));
    let mut u = unit(pt(HALF, HALF), pt(0, 0), 10 * WORLD_ONE);
    u.shooting = true;
    u.ticks_per_shot = 3;
    s.units.push(u);
    let mut counts = vec![];
    for _ in 0..7 {
        let before = s.bullets.len();
        s.tick();
        counts.push(s.bullets.len() - before);
        s.bullets.clear();
    }
    assert_eq!(counts, vec![1, 0, 0, 1, 0, 0, 1]);
}

#[test]
fn fired_bullet_starts_outside_the_unit() {
    let mut s = State::blank(map("5\n5\nOOOOO\nOOOOO\nOOOOO\nOOOOO\nOOOOO\n"));
    let mut u = unit(pt(2 * TILE_SIZE, 2 * TILE_SIZE), pt(0, 0), 10 * WORLD_ONE);
    u.shooting = true;
    s.units.push(u);
    s.tick();
    assert_eq!(s.bullets.len(), 1);
    let fly = 500 * WORLD_ONE / 120;
    // 1.1 radii ahead, then one step of flight
    assert_eq!(s.bullets[0].pos, pt(2 * TILE_SIZE + 11 * WORLD_ONE + fly, 2 * TILE_SIZE));
    assert_eq!(s.bullets[0].heading, pt(WORLD_ONE, 0));
    assert_eq!(s.units[0].ticks_to_shot, 2);
}

#[test]
fn aim_at_keeps_heading_on_own_position() {
    let mut u = unit(pt(100, 100), pt(0, 0), WORLD_ONE);
    u.aim_at(pt(100, 100));
    assert_eq!(u.heading, pt(WORLD_ONE, 0));
    u.aim_at(pt(100, 100 + 7 * WORLD_ONE));
    assert_eq!(u.heading, pt(0, WORLD_ONE));
    u.aim_at(pt(100 - 3 * WORLD_ONE, 100 - 4 * WORLD_ONE));
    assert_eq!(u.heading, pt(-614, -819));
}

#[test]
fn bounding_boxes() {
    let u = unit(pt(100, 200), pt(0, 0), 10);
    let b = u.bounding_box();
    assert_eq!(b.top_left, pt(90, 190));
    assert_eq!((b.width, b.height), (WorldCoord(20), WorldCoord(20)));
    assert_eq!(u.speed(), WorldCoord(300 * WORLD_ONE));
    assert_eq!(u.rad(), WorldCoord(10));
    assert_eq!(unit(pt(0, 0), pt(0, 0), 10 * WORLD_ONE + 5).window_rad(), 10);
    let bb = bullet(pt(50, 60), pt(WORLD_ONE, 0)).bounding_box();
    assert_eq!(bb.top_left, pt(50 - BULLET_RADIUS, 60 - BULLET_RADIUS));
    assert_eq!(bb.width, WorldCoord(2 * BULLET_RADIUS));
}

#[test]
fn level_one_roster() {
    let s = State::level1(map("2\n2\nOO\nOO\n"));
    assert_eq!(s.units.len(), 1);
    assert_eq!(s.units[0].pos, pt(100 * WORLD_ONE, 100 * WORLD_ONE));
    assert_eq!(s.units[0].ticks_per_shot, TICKS_PER_SEC / 2);
    assert_eq!(s.next_uid, 1);
    assert!(s.within_limits());
}

#[test]
fn limits_check() {
    let mut s = State::blank(map("1\n1\nO\n"));
    assert!(s.within_limits());
    s.units.push(unit(pt(i64::MAX, 0), pt(0, 0), 1));
    assert!(!s.within_limits());
}

#[test]
fn game_duration() {
    assert_eq!(GameDur::from_secs(2).ticks, 240);
    assert_eq!(GameDur::from_secs(0).ticks, 0);
}

#[test]
fn modifier_keys() {
    let mut k = KeyState::new();
    assert!(!k.ctrl() && !k.shift() && !k.alt());
    k.update_shift_alt_ctrl(Some(ModifierKey::RShift), true);
    assert!(k.shift() && !k.ctrl());
    k.update_shift_alt_ctrl(Some(ModifierKey::LCtrl), true);
    k.update_shift_alt_ctrl(Some(ModifierKey::RShift), false);
    assert!(k.ctrl() && !k.shift());
    k.update_shift_alt_ctrl(None, true);
    assert!(k.ctrl() && !k.alt());
}

#[test]
fn sprite_rect() {
    let s = SpriteRef { name: "unit".to_string(), offset_x: 4, offset_y: 8, width: 16, height: 32 };
    let r = s.rect();
    assert_eq!((r.top_left.x, r.top_left.y, r.width, r.height), (4, 8, 16, 32));
}

#[test]
fn bullet_leaving_the_map_is_removed() {
    let mut s = State::blank(map("3\n3\nOOO\nOXO\nOOO\n"));
    // At the left edge, flying left: after one step its box lies wholly off the map.
    s.bullets.push(bullet(pt(BULLET_RADIUS - 100, HALF), pt(-WORLD_ONE, 0)));
    // At the left edge, flying right: it stays.
    s.bullets.push(bullet(pt(BULLET_RADIUS - 100, HALF), pt(WORLD_ONE, 0)));
    s.tick();
    assert_eq!(s.bullets.len(), 1);
    assert_eq!(s.bullets[0].heading, pt(WORLD_ONE, 0));
}

#[test]
fn aim_at_a_close_target_gives_a_unit_heading() {
    let mut u = unit(pt(100, 100), pt(0, 0), WORLD_ONE);
    u.aim_at(pt(101, 101));
    assert_eq!(u.heading, pt(724, 724));
}

#[test]
fn sprite_line_parsing() {
    let r = SpriteRef::from_str("newt_gingrich 0 32 16 24").unwrap();
    assert_eq!(r.name, "newt_gingrich");
    assert_eq!((r.offset_x, r.offset_y, r.width, r.height), (0, 32, 16, 24));
    let r = SpriteRef::from_str("é +1 2 3 4").unwrap();
    assert_eq!(r.name, "é");
    assert_eq!(r.offset_x, 1);
    assert_eq!(SpriteRef::from_str("a 1 2 3").err(), Some(SpriteParseError::WrongFieldCount));
    assert_eq!(SpriteRef::from_str("a 1 2 3 4 5").err(), Some(SpriteParseError::WrongFieldCount));
    assert_eq!(SpriteRef::from_str("a  1 2 3 4").err(), Some(SpriteParseError::WrongFieldCount));
    assert_eq!(SpriteRef::from_str("a 1 2 x 4").err(), Some(SpriteParseError::BadNumber));
    assert_eq!(SpriteRef::from_str("a 1 2 3 ").err(), Some(SpriteParseError::BadNumber));
}
