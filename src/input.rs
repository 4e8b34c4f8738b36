//! What input events do to the world: steering, shooting and aiming of the players' units.
use vstd::prelude::*;
use crate::dimensions::{
    point, DisplayPoint, WorldCoord, WorldPoint, COORD_LIMIT, NORM_LIMIT, WORLD_ONE,
};
use crate::game::{point_within, State, Unit, POS_LIMIT};
use crate::keys::{KeyState, ModifierKey};

verus! {

/// Key codes that steer one unit.
#[derive(Clone, Copy, Debug, PartialEq, Eq, Structural)]
pub struct PlayerKeys {
    pub up: u32,
    pub down: u32,
    pub left: u32,
    pub right: u32,
}

/// A player: its keys and the index of its unit in `State::units`.
#[derive(Clone, Copy, Debug, PartialEq, Eq, Structural)]
pub struct Player {
    pub keys: PlayerKeys,
    pub unit: usize,
}

/// An input event, with keys given as codes.
#[derive(Clone, Copy, Debug, PartialEq, Eq, Structural)]
pub enum InputEvent {
    /// The window closed or the quit key went down.
    Quit,
    /// A key went down; `repeat` is set for the automatic repeats of a held key.
    KeyDown { key: Option<u32>, modifier: Option<ModifierKey>, repeat: bool },
    KeyUp { key: Option<u32>, modifier: Option<ModifierKey> },
    /// The left pointer button went down.
    FireDown,
    /// The left pointer button went up.
    FireUp,
    /// The pointer moved to display position `(x, y)`.
    PointerMoved { x: i32, y: i32 },
}

/// What the interaction keeps besides the world.
#[derive(Clone, Copy, Debug, PartialEq, Eq, Structural)]
pub struct Controls {
    pub running: bool,
    pub key_state: KeyState,
    /// The world point shown at the display's top-left corner.
    pub camera_pos: WorldPoint,
}

/// Change of a movement component by one key: `neg` pulls it down, `pos` up.
pub open spec fn key_axis(key: u32, neg: u32, pos: u32) -> int {
    (if key == neg { -1int } else { 0 }) + (if key == pos { 1int } else { 0 })
}

/// The unit's movement direction after `key` went down (`sign == 1`) or up (`sign == -1`).
pub open spec fn steered(u: Unit, keys: PlayerKeys, key: u32, sign: int) -> Unit {
    Unit {
        move_dir: point(
            u.move_dir.x.0 + sign * key_axis(key, keys.left, keys.right) * WORLD_ONE,
            u.move_dir.y.0 + sign * key_axis(key, keys.up, keys.down) * WORLD_ONE,
        ),
        ..u
    }
}

/// The unit after aiming at `target`; aiming at its own position keeps its heading.
pub open spec fn aimed(u: Unit, target: WorldPoint) -> Unit {
    if target == u.pos {
        u
    } else {
        Unit {
            heading: point(target.x.0 - u.pos.x.0, target.y.0 - u.pos.y.0).normalized_spec(),
            ..u
        }
    }
}

/// The world point under display position `(x, y)`.
pub open spec fn pointer_target(x: i32, y: i32, camera: WorldPoint) -> WorldPoint {
    point(x * WORLD_ONE + camera.x.0, y * WORLD_ONE + camera.y.0)
}

/// What `event` does to one player's unit.
pub open spec fn unit_after(u: Unit, keys: PlayerKeys, event: InputEvent, camera: WorldPoint) -> Unit {
    match event {
        InputEvent::KeyDown { key: Some(k), repeat: false, .. } => steered(u, keys, k, 1),
        InputEvent::KeyUp { key: Some(k), .. } => steered(u, keys, k, -1),
        InputEvent::FireDown => Unit { shooting: true, ..u },
        InputEvent::FireUp => Unit { shooting: false, ..u },
        InputEvent::PointerMoved { x, y } => aimed(u, pointer_target(x, y, camera)),
        _ => u,
    }
}

/// The ranges within which an event is handled free of overflow: every player's unit
/// lies within the position range and can take one more steering step, and a pointer
/// lies, through the camera, within the position range.
pub open spec fn event_in_range(
    controls: Controls,
    units: Seq<Unit>,
    players: Seq<Player>,
    event: InputEvent,
) -> bool {
    &&& players_valid(players, units.len() as int)
    &&& forall|i: int|
        0 <= i < players.len() ==> steerable(#[trigger] units[players[i].unit as int])
    &&& (event matches InputEvent::PointerMoved { x, y } ==> controls.camera_pos.in_limits()
        && point_within(pointer_target(x, y, controls.camera_pos), POS_LIMIT as int))
}

/// Releasing a key undoes pressing it: the movement direction is back where it was.
pub proof fn lemma_key_round_trip(u: Unit, keys: PlayerKeys, key: u32)
    requires
        steerable(u),
    ensures
        steered(steered(u, keys, key, 1), keys, key, -1) == u,
        steered(u, keys, key, 1).move_dir == point(
            u.move_dir.x.0 + key_axis(key, keys.left, keys.right) * WORLD_ONE,
            u.move_dir.y.0 + key_axis(key, keys.up, keys.down) * WORLD_ONE,
        ),
{
    let d = steered(u, keys, key, 1);
    assert(d.move_dir.x.0 == u.move_dir.x.0 + key_axis(key, keys.left, keys.right) * WORLD_ONE);
    assert(d.move_dir.y.0 == u.move_dir.y.0 + key_axis(key, keys.up, keys.down) * WORLD_ONE);
    let b = steered(d, keys, key, -1);
    assert(b.move_dir == u.move_dir);
}

pub open spec fn steerable(u: Unit) -> bool {
    point_within(u.pos, POS_LIMIT as int) && point_within(
        u.move_dir,
        (NORM_LIMIT - WORLD_ONE) as int,
    )
}

pub open spec fn controls_after(c: Controls, event: InputEvent) -> Controls {
    match event {
        InputEvent::Quit => Controls { running: false, ..c },
        InputEvent::KeyDown { modifier: Some(m), repeat: false, .. } => Controls {
            key_state: modifier_after(c.key_state, m, true),
            ..c
        },
        InputEvent::KeyUp { modifier: Some(m), .. } => Controls {
            key_state: modifier_after(c.key_state, m, false),
            ..c
        },
        _ => c,
    }
}

pub open spec fn modifier_after(k: KeyState, m: ModifierKey, is_down: bool) -> KeyState {
    match m {
        ModifierKey::LCtrl => KeyState { left_ctrl_down: is_down, ..k },
        ModifierKey::RCtrl => KeyState { right_ctrl_down: is_down, ..k },
        ModifierKey::LShift => KeyState { left_shift_down: is_down, ..k },
        ModifierKey::RShift => KeyState { right_shift_down: is_down, ..k },
        ModifierKey::LAlt => KeyState { left_alt_down: is_down, ..k },
        ModifierKey::RAlt => KeyState { right_alt_down: is_down, ..k },
    }
}

/// Players steer distinct units of the world.
pub open spec fn players_valid(players: Seq<Player>, n_units: int) -> bool {
    &&& forall|i: int| 0 <= i < players.len() ==> #[trigger] players[i].unit < n_units
    &&& forall|i: int, j: int|
        0 <= i < j < players.len() ==> #[trigger] players[i].unit != #[trigger] players[j].unit
}

fn steer(u: &mut Unit, keys: &PlayerKeys, key: u32, sign: i64)
    requires
        sign == 1 || sign == -1,
        point_within(old(u).move_dir, (NORM_LIMIT - WORLD_ONE) as int),
    ensures
        *final(u) == steered(*old(u), *keys, key, sign as int),
{
    let dx: i64 = (if key == keys.left { -1i64 } else { 0 }) + (if key == keys.right { 1i64 } else { 0 });
    let dy: i64 = (if key == keys.up { -1i64 } else { 0 }) + (if key == keys.down { 1i64 } else { 0 });
    let step_x: i64 = if sign == 1 { dx * WORLD_ONE } else { -(dx * WORLD_ONE) };
    let step_y: i64 = if sign == 1 { dy * WORLD_ONE } else { -(dy * WORLD_ONE) };
    assert(step_x == sign * dx * WORLD_ONE && step_y == sign * dy * WORLD_ONE) by (nonlinear_arith)
        requires
            sign == 1 || sign == -1,
            step_x == if sign == 1 { dx * WORLD_ONE } else { -(dx * WORLD_ONE) },
            step_y == if sign == 1 { dy * WORLD_ONE } else { -(dy * WORLD_ONE) },
    ;
    u.move_dir = WorldPoint {
        x: WorldCoord(u.move_dir.x.0 + step_x),
        y: WorldCoord(u.move_dir.y.0 + step_y),
    };
}

/// Whether `players` steer distinct units among the first `n_units`.
pub fn players_ok(players: &Vec<Player>, n_units: usize) -> (r: bool)
    ensures
        r == players_valid(players@, n_units as int),
{
    let mut i: usize = 0;
    while i < players.len()
        invariant
            i <= players@.len(),
            forall|k: int| 0 <= k < i ==> #[trigger] players@[k].unit < n_units,
            forall|a: int, b: int|
                0 <= a < b < i ==> #[trigger] players@[a].unit != #[trigger] players@[b].unit,
        decreases players@.len() - i,
    {
        if players[i].unit >= n_units {
            return false;
        }
        let mut j: usize = 0;
        while j < i
            invariant
                j <= i < players@.len(),
                forall|a: int| 0 <= a < j ==> #[trigger] players@[a].unit != players@[i as int].unit,
            decreases i - j,
        {
            if players[j].unit == players[i].unit {
                return false;
            }
            j = j + 1;
        }
        i = i + 1;
    }
    true
}

/// Whether `handle_event` may be called with these arguments: see `event_in_range`.
pub fn event_ok(controls: &Controls, game: &State, players: &Vec<Player>, event: InputEvent) -> (r: bool)
    ensures
        r == event_in_range(*controls, game.units@, players@, event),
{
    if !players_ok(players, game.units.len()) {
        return false;
    }
    let mut i: usize = 0;
    while i < players.len()
        invariant
            players_valid(players@, game.units@.len() as int),
            i <= players@.len(),
            forall|k: int|
                0 <= k < i ==> steerable(#[trigger] game.units@[players@[k].unit as int]),
        decreases players@.len() - i,
    {
        let u = &game.units[players[i].unit];
        let lim = NORM_LIMIT - WORLD_ONE;
        if !(within_pos(u.pos) && -lim <= u.move_dir.x.0 && u.move_dir.x.0 <= lim && -lim
            <= u.move_dir.y.0 && u.move_dir.y.0 <= lim) {
            assert(!steerable(game.units@[players@[i as int].unit as int]));
            return false;
        }
        i = i + 1;
    }
    match event {
        InputEvent::PointerMoved { x, y } => {
            let c = controls.camera_pos;
            if !(-COORD_LIMIT <= c.x.0 && c.x.0 <= COORD_LIMIT && -COORD_LIMIT <= c.y.0 && c.y.0
                <= COORD_LIMIT) {
                return false;
            }
            within_pos(DisplayPoint::new(x, y).to_world_from(c))
        },
        _ => true,
    }
}

fn within_pos(p: WorldPoint) -> (r: bool)
    ensures
        r == point_within(p, POS_LIMIT as int),
{
    -POS_LIMIT <= p.x.0 && p.x.0 <= POS_LIMIT && -POS_LIMIT <= p.y.0 && p.y.0 <= POS_LIMIT
}

/// Applies one input event: quitting, modifier keys, and for every player's unit the
/// steering keys, the trigger and aiming at the pointer.
pub fn handle_event(controls: &mut Controls, game: &mut State, players: &Vec<Player>, event: InputEvent)
    requires
        event_in_range(*old(controls), old(game).units@, players@, event),
    ensures
        *final(controls) == controls_after(*old(controls), event),
        final(game).map == old(game).map,
        final(game).bullets == old(game).bullets,
        final(game).next_uid == old(game).next_uid,
        final(game).units@.len() == old(game).units@.len(),
        forall|i: int|
            0 <= i < players@.len() ==> #[trigger] final(game).units@[players@[i].unit as int]
                == unit_after(
                old(game).units@[players@[i].unit as int],
                players@[i].keys,
                event,
                old(controls).camera_pos,
            ),
        forall|j: int|
            0 <= j < old(game).units@.len() && (forall|i: int|
                0 <= i < players@.len() ==> #[trigger] players@[i].unit != j)
                ==> #[trigger] final(game).units@[j] == old(game).units@[j],
{
    let camera = controls.camera_pos;
    match event {
        InputEvent::Quit => {
            controls.running = false;
        },
        InputEvent::KeyDown { modifier, repeat: false, .. } => {
            controls.key_state.update_shift_alt_ctrl(modifier, true);
        },
        InputEvent::KeyUp { modifier, .. } => {
            controls.key_state.update_shift_alt_ctrl(modifier, false);
        },
        _ => {},
    }
    let ghost units0 = game.units@;
    let mut i: usize = 0;
    while i < players.len()
        invariant
            players_valid(players@, units0.len() as int),
            event_in_range(*old(controls), units0, players@, event),
            game.units@.len() == units0.len(),
            game.map == old(game).map,
            game.bullets == old(game).bullets,
            game.next_uid == old(game).next_uid,
            units0 == old(game).units@,
            camera == old(controls).camera_pos,
            0 <= i <= players@.len(),
            forall|k: int|
                0 <= k < i ==> #[trigger] game.units@[players@[k].unit as int] == unit_after(
                    units0[players@[k].unit as int],
                    players@[k].keys,
                    event,
                    camera,
                ),
            forall|j: int|
                0 <= j < units0.len() && (forall|k: int|
                    0 <= k < i ==> #[trigger] players@[k].unit != j) ==> #[trigger] game.units@[j]
                    == units0[j],
        decreases players@.len() - i,
    {
        let p = players[i];
        let mut u = game.units[p.unit];
        assert(forall|k: int| 0 <= k < i ==> #[trigger] players@[k].unit != p.unit);
        assert(steerable(units0[players@[i as int].unit as int]));
        assert(u == units0[p.unit as int]);
        match event {
            InputEvent::KeyDown { key: Some(k), repeat: false, .. } => {
                steer(&mut u, &p.keys, k, 1);
            },
            InputEvent::KeyUp { key: Some(k), .. } => {
                steer(&mut u, &p.keys, k, -1);
            },
            InputEvent::FireDown => {
                u.shooting = true;
            },
            InputEvent::FireUp => {
                u.shooting = false;
            },
            InputEvent::PointerMoved { x, y } => {
                let target = DisplayPoint::new(x, y).to_world_from(camera);
                u.aim_at(target);
            },
            _ => {},
        }
        game.units.set(p.unit, u);
        i = i + 1;
    }
}

} // verus!
