use rts::dimensions::{WorldCoord, WorldPoint, WORLD_ONE};
use rts::game::{State, Unit};
use rts::dimensions::NORM_LIMIT;
use rts::input::{event_ok, handle_event, players_ok, Controls, InputEvent, Player, PlayerKeys};
use rts::keys::{KeyState, ModifierKey};
use rts::map::TileMap;

fn pt(x: i64, y: i64) -> WorldPoint {
    WorldPoint::new(WorldCoord(x), WorldCoord(y))
}

const W: u32 = 'w' as u32;
const A: u32 = 'a' as u32;
const S: u32 = 's' as u32;
const D: u32 = 'd' as u32;

fn setup() -> (Controls, State, Vec<Player>) {
    let mut state = State::level1(TileMap::from_text(b"2\n2\nOO\nOO\n").unwrap());
    state.units.push(Unit { uid: 1, ..state.units[0] });
    let controls = Controls {
        running: true,
        key_state: KeyState::new(),
        camera_pos: pt(10 * WORLD_ONE, 0),
    };
    let players = vec![Player { keys: PlayerKeys { up: W, down: S, left: A, right: D }, unit: 0 }];
    (controls, state, players)
}

fn down(key: u32) -> InputEvent {
    InputEvent::KeyDown { key: Some(key), modifier: None, repeat: false }
}

fn up(key: u32) -> InputEvent {
    InputEvent::KeyUp { key: Some(key), modifier: None }
}

#[test]
fn keys_steer_additively() {
    let (mut c, mut s, p) = setup();
    handle_event(&mut c, &mut s, &p, down(D));
    assert_eq!(s.units[0].move_dir, pt(WORLD_ONE, 0));
    handle_event(&mut c, &mut s, &p, down(W));
    assert_eq!(s.units[0].move_dir, pt(WORLD_ONE, -WORLD_ONE));
    handle_event(&mut c, &mut s, &p, down(A));
    assert_eq!(s.units[0].move_dir, pt(0, -WORLD_ONE));
    handle_event(&mut c, &mut s, &p, up(W));
    handle_event(&mut c, &mut s, &p, up(A));
    handle_event(&mut c, &mut s, &p, up(D));
    assert_eq!(s.units[0].move_dir, pt(0, 0));
    // key repeats change nothing
    handle_event(&mut c, &mut s, &p, InputEvent::KeyDown { key: Some(S), modifier: None, repeat: true });
    assert_eq!(s.units[0].move_dir, pt(0, 0));
    // the unit of no player is untouched
    assert_eq!(s.units[1], Unit { uid: 1, ..State::level1(TileMap::from_text(b"1\n1\nO").unwrap()).units[0] });
}

#[test]
fn trigger_and_quit() {
    let (mut c, mut s, p) = setup();
    handle_event(&mut c, &mut s, &p, InputEvent::FireDown);
    assert!(s.units[0].shooting);
    assert!(!s.units[1].shooting);
    handle_event(&mut c, &mut s, &p, InputEvent::FireUp);
    assert!(!s.units[0].shooting);
    assert!(c.running);
    handle_event(&mut c, &mut s, &p, InputEvent::Quit);
    assert!(!c.running);
}

#[test]
fn pointer_aims_through_the_camera() {
    let (mut c, mut s, p) = setup();
    // unit at (100, 100); camera at (10, 0): display (90, 107) is world (100, 107)
    handle_event(&mut c, &mut s, &p, InputEvent::PointerMoved { x: 90, y: 107 });
    assert_eq!(s.units[0].heading, pt(0, WORLD_ONE));
    // pointing at the unit itself keeps the heading
    handle_event(&mut c, &mut s, &p, InputEvent::PointerMoved { x: 90, y: 100 });
    assert_eq!(s.units[0].heading, pt(0, WORLD_ONE));
    assert_eq!(s.units[1].heading, pt(WORLD_ONE, 0));
}

#[test]
fn modifier_keys_are_tracked() {
    let (mut c, mut s, p) = setup();
    handle_event(&mut c, &mut s, &p, InputEvent::KeyDown { key: None, modifier: Some(ModifierKey::LAlt), repeat: false });
    assert!(c.key_state.alt());
    handle_event(&mut c, &mut s, &p, InputEvent::KeyUp { key: None, modifier: Some(ModifierKey::LAlt) });
    assert!(!c.key_state.alt());
    assert_eq!(s.units[0].move_dir, pt(0, 0));
}

#[test]
fn key_down_then_up_restores_direction() {
    let (mut c, mut s, p) = setup();
    // close to the edge of the steering range, one step inside it
    let m = NORM_LIMIT - 2 * WORLD_ONE;
    s.units[0].move_dir = pt(m, -m);
    for key in [W, A, S, D] {
        assert!(event_ok(&c, &s, &p, down(key)));
        handle_event(&mut c, &mut s, &p, down(key));
        assert_ne!(s.units[0].move_dir, pt(m, -m));
        assert!(event_ok(&c, &s, &p, up(key)));
        handle_event(&mut c, &mut s, &p, up(key));
        assert_eq!(s.units[0].move_dir, pt(m, -m));
    }
}

#[test]
fn event_range_checks() {
    let (c, mut s, p) = setup();
    assert!(players_ok(&p, 2));
    assert!(!players_ok(&p, 0));
    let two = vec![p[0], p[0]];
    assert!(!players_ok(&two, 2));
    assert!(event_ok(&c, &s, &p, InputEvent::FireDown));
    assert!(!event_ok(&c, &s, &two, InputEvent::FireDown));
    assert!(event_ok(&c, &s, &p, InputEvent::PointerMoved { x: 5, y: 5 }));
    assert!(!event_ok(&c, &s, &p, InputEvent::PointerMoved { x: i32::MAX, y: 5 }));
    s.units[0].move_dir = pt(NORM_LIMIT, 0);
    assert!(!event_ok(&c, &s, &p, down(D)));
}
