//! Units, bullets, and the fixed-step update of the world.
use vstd::prelude::*;
use crate::dimensions::{
    point, tdiv, div_toward_zero, WorldCoord, WorldPoint, WorldRect,
    WORLD_ONE, NORM_LIMIT,
};
use crate::map::TileMap;

verus! {

/// Simulation steps per second.
pub const TICKS_PER_SEC: u32 = 120;

/// Raw steps per world unit times steps per second: the divisor that turns a
/// per-second speed times a heading into a per-step displacement.
pub const STEP_DIVISOR: i64 = 122880;

/// Radius of a fired bullet (2 world units).
pub const BULLET_RADIUS: i64 = 2048;

/// Speed of a fired bullet (500 world units per second).
pub const BULLET_SPEED: i64 = 512000;

/// Largest coordinate of a unit's position that a step accepts.
pub const POS_LIMIT: i64 = 0x40_0000_0000;

/// Largest coordinate of a bullet's position that a step accepts.
pub const BULLET_POS_LIMIT: i64 = 0x8_0000_0000_0000;

/// Largest heading component that a step accepts.
pub const HEADING_LIMIT: i64 = 0x10_0000;

/// Largest radius or speed that a step accepts.
pub const SIZE_LIMIT: i64 = 0x4000_0000;

/// A length of game time, counted in simulation steps.
#[derive(Clone, Copy, Debug, PartialEq, Eq, Structural)]
pub struct GameDur {
    pub ticks: u32,
}

impl GameDur {
    pub fn from_secs(secs: u32) -> (r: GameDur)
        requires
            secs * TICKS_PER_SEC <= u32::MAX,
        ensures
            r.ticks == secs * TICKS_PER_SEC,
    {
        GameDur { ticks: secs * TICKS_PER_SEC }
    }
}

pub open spec fn within(v: int, limit: int) -> bool {
    -limit <= v <= limit
}

pub open spec fn point_within(p: WorldPoint, limit: int) -> bool {
    within(p.x.0 as int, limit) && within(p.y.0 as int, limit)
}

/// The axis-aligned square of half-side `rad` centred on `p`.
pub open spec fn box_around(p: WorldPoint, rad: int) -> WorldRect {
    WorldRect {
        top_left: point(p.x.0 - rad, p.y.0 - rad),
        width: WorldCoord((2 * rad) as i64),
        height: WorldCoord((2 * rad) as i64),
    }
}

/// `v` scaled by `speed` per second, for one step.
pub open spec fn step_of(v: int, speed: int) -> int {
    tdiv(v * speed, STEP_DIVISOR as int)
}

/// A controllable actor.
#[derive(Clone, Copy, Debug, PartialEq, Eq, Structural)]
pub struct Unit {
    pub uid: u32,
    pub pos: WorldPoint,
    /// Aiming direction, of length about `WORLD_ONE`.
    pub heading: WorldPoint,
    /// Requested direction of movement; normalised before use.
    pub move_dir: WorldPoint,
    pub rad: WorldCoord,
    /// Speed in world units per second.
    pub base_speed: WorldCoord,
    pub shooting: bool,
    pub ticks_per_shot: u32,
    pub ticks_to_shot: u32,
}

/// A projectile.
#[derive(Clone, Copy, Debug, PartialEq, Eq, Structural)]
pub struct Bullet {
    pub pos: WorldPoint,
    pub heading: WorldPoint,
    pub speed: WorldCoord,
    pub rad: WorldCoord,
    pub will_die_at_end_of_tick: bool,
}

impl Unit {
    /// The ranges within which a step is free of overflow.
    pub open spec fn bounded(self) -> bool {
        &&& point_within(self.pos, POS_LIMIT as int)
        &&& point_within(self.heading, HEADING_LIMIT as int)
        &&& self.move_dir.within_norm_limit()
        &&& 0 <= self.rad.0 <= SIZE_LIMIT
        &&& 0 <= self.base_speed.0 <= SIZE_LIMIT
    }

    /// Displacement for one step: the normalised movement direction times the speed.
    pub open spec fn velocity(self) -> WorldPoint {
        let n = self.move_dir.normalized_spec();
        point(
            step_of(n.x.0 as int, self.base_speed.0 as int),
            step_of(n.y.0 as int, self.base_speed.0 as int),
        )
    }

    pub open spec fn candidate_pos(self) -> WorldPoint {
        point(self.pos.x.0 + self.velocity().x.0, self.pos.y.0 + self.velocity().y.0)
    }

    /// The unit after its move: the move is made whole, or not at all when the box at
    /// the new position would meet an obstacle.
    pub open spec fn moved(self, map: TileMap) -> Unit {
        if map.hits_wall(box_around(self.candidate_pos(), self.rad.0 as int)) {
            self
        } else {
            Unit { pos: self.candidate_pos(), ..self }
        }
    }

    pub open spec fn fires(self) -> bool {
        self.shooting && self.ticks_to_shot == 0
    }

    /// The bullet this unit fires: just outside its radius, along its heading.
    pub open spec fn shot(self) -> Bullet {
        Bullet {
            pos: point(
                self.pos.x.0 + tdiv(self.heading.x.0 * self.rad.0 * 11, WORLD_ONE * 10),
                self.pos.y.0 + tdiv(self.heading.y.0 * self.rad.0 * 11, WORLD_ONE * 10),
            ),
            heading: self.heading,
            speed: WorldCoord(BULLET_SPEED),
            rad: WorldCoord(BULLET_RADIUS),
            will_die_at_end_of_tick: false,
        }
    }

    /// The cooldown after the shooting check: reset on a shot, then one step down.
    pub open spec fn cooled(self) -> Unit {
        let t = if self.fires() {
            self.ticks_per_shot
        } else {
            self.ticks_to_shot
        };
        Unit { ticks_to_shot: if t > 0 { (t - 1) as u32 } else { 0 }, ..self }
    }

    /// The unit after one step on `map`.
    pub open spec fn stepped(self, map: TileMap) -> Unit {
        self.moved(map).cooled()
    }

    pub fn speed(&self) -> (r: WorldCoord)
        ensures
            r == self.base_speed,
    {
        self.base_speed
    }

    pub fn rad(&self) -> (r: WorldCoord)
        ensures
            r == self.rad,
    {
        self.rad
    }

    pub fn bounding_box(&self) -> (r: WorldRect)
        requires
            point_within(self.pos, BULLET_POS_LIMIT as int),
            0 <= self.rad.0 <= SIZE_LIMIT,
        ensures
            r == box_around(self.pos, self.rad.0 as int),
            r.wf(),
    {
        self.bounding_box_at(self.pos)
    }

    fn bounding_box_at(&self, p: WorldPoint) -> (r: WorldRect)
        requires
            0 <= self.rad.0 <= SIZE_LIMIT,
            point_within(p, BULLET_POS_LIMIT as int),
        ensures
            r == box_around(p, self.rad.0 as int),
            r.wf(),
    {
        let rad = self.rad();
        WorldRect {
            top_left: WorldPoint { x: WorldCoord(p.x.0 - rad.0), y: WorldCoord(p.y.0 - rad.0) },
            width: WorldCoord(rad.0 * 2),
            height: WorldCoord(rad.0 * 2),
        }
    }

    /// The radius in whole display units.
    pub fn window_rad(&self) -> (r: u32)
        requires
            0 <= self.rad.0 <= SIZE_LIMIT,
        ensures
            r == self.rad.0 / WORLD_ONE,
    {
        (self.rad.0 / WORLD_ONE) as u32
    }

    /// Turns the heading toward `target`; aiming at the unit's own position keeps the
    /// heading it had.
    pub fn aim_at(&mut self, target: WorldPoint)
        requires
            point_within(old(self).pos, POS_LIMIT as int),
            point_within(target, POS_LIMIT as int),
        ensures
            final(self).heading == if target == old(self).pos {
                old(self).heading
            } else {
                point(target.x.0 - old(self).pos.x.0, target.y.0 - old(self).pos.y.0).normalized_spec()
            },
            *final(self) == (Unit { heading: final(self).heading, ..*old(self) }),
    {
        let heading_raw = WorldPoint {
            x: WorldCoord(target.x.0 - self.pos.x.0),
            y: WorldCoord(target.y.0 - self.pos.y.0),
        };
        if heading_raw.x.0 == 0 && heading_raw.y.0 == 0 {
        } else {
            self.heading = heading_raw.normalized();
        }
    }

    /// Moves the unit for one step, then makes its shooting check; returns the bullet
    /// it fired, if any.
    fn step(&mut self, map: &TileMap) -> (r: Option<Bullet>)
        requires
            map.wf(),
            old(self).bounded(),
        ensures
            *final(self) == old(self).stepped(*map),
            r == if old(self).moved(*map).fires() {
                Some(old(self).moved(*map).shot())
            } else {
                None
            },
            old(self).moved(*map).fires() ==> old(self).moved(*map).shot().bounded(),
    {
        let n = self.move_dir.normalized();
        let speed = self.speed();
        let vel = WorldPoint {
            x: WorldCoord(step_component(n.x.0, speed.0)),
            y: WorldCoord(step_component(n.y.0, speed.0)),
        };
        let new_pos = WorldPoint {
            x: WorldCoord(self.pos.x.0 + vel.x.0),
            y: WorldCoord(self.pos.y.0 + vel.y.0),
        };
        let new_bounds = self.bounding_box_at(new_pos);
        if !map.rect_intersects_wall(new_bounds) {
            self.pos = new_pos;
        }
        let mut fired: Option<Bullet> = None;
        if self.shooting && self.ticks_to_shot == 0 {
            let heading = self.heading;
            let off_x = shot_offset(heading.x.0, self.rad.0);
            let off_y = shot_offset(heading.y.0, self.rad.0);
            fired = Some(
                Bullet {
                    pos: WorldPoint {
                        x: WorldCoord(self.pos.x.0 + off_x),
                        y: WorldCoord(self.pos.y.0 + off_y),
                    },
                    heading,
                    rad: WorldCoord(BULLET_RADIUS),
                    speed: WorldCoord(BULLET_SPEED),
                    will_die_at_end_of_tick: false,
                },
            );
            self.ticks_to_shot = self.ticks_per_shot;
        }
        if self.ticks_to_shot > 0 {
            self.ticks_to_shot = self.ticks_to_shot - 1;
        }
        fired
    }
}

/// One step of a displacement of `speed` per second along component `v`.
fn step_component(v: i64, speed: i64) -> (r: i64)
    requires
        -HEADING_LIMIT <= v <= HEADING_LIMIT,
        0 <= speed <= SIZE_LIMIT,
    ensures
        r == step_of(v as int, speed as int),
        -0x4_0000_0000 <= r <= 0x4_0000_0000,
{
    assert(-0x4_0000_0000_0000 <= v * speed <= 0x4_0000_0000_0000) by (nonlinear_arith)
        requires
            -HEADING_LIMIT <= v <= HEADING_LIMIT,
            0 <= speed <= SIZE_LIMIT,
    ;
    proof {
        lemma_quotient_bounded(v * speed, STEP_DIVISOR as int, 0x4_0000_0000_0000, 0x4_0000_0000);
    }
    div_toward_zero(v * speed, STEP_DIVISOR)
}

/// The offset, along component `h` of a heading, of a shot fired by a unit of radius `rad`.
fn shot_offset(h: i64, rad: i64) -> (r: i64)
    requires
        -HEADING_LIMIT <= h <= HEADING_LIMIT,
        0 <= rad <= SIZE_LIMIT,
    ensures
        r == tdiv(h * rad * 11, WORLD_ONE * 10),
        -0x200_0000_0000 <= r <= 0x200_0000_0000,
{
    assert(-0x4_0000_0000_0000 <= h * rad <= 0x4_0000_0000_0000) by (nonlinear_arith)
        requires
            -HEADING_LIMIT <= h <= HEADING_LIMIT,
            0 <= rad <= SIZE_LIMIT,
    ;
    proof {
        lemma_quotient_bounded(h * rad * 11, WORLD_ONE * 10, 0x2c_0000_0000_0000, 0x200_0000_0000);
    }
    div_toward_zero(h * rad * 11, WORLD_ONE * 10)
}

proof fn lemma_quotient_bounded(p: int, d: int, bound: int, q_bound: int)
    requires
        d > 0,
        -bound <= p <= bound,
        bound < (q_bound + 1) * d,
    ensures
        -q_bound <= tdiv(p, d) <= q_bound,
{
    let a = if p >= 0 { p } else { -p };
    vstd::arithmetic::div_mod::lemma_fundamental_div_mod(a, d);
    let q = a / d;
    let r = a % d;
    assert(q <= q_bound) by (nonlinear_arith)
        requires
            a == d * q + r,
            0 <= r,
            a <= bound,
            bound < (q_bound + 1) * d,
            d > 0,
    ;
    vstd::arithmetic::div_mod::lemma_div_pos_is_pos(a, d);
}

impl Bullet {
    pub open spec fn bounded(self) -> bool {
        &&& point_within(self.pos, BULLET_POS_LIMIT as int)
        &&& point_within(self.heading, HEADING_LIMIT as int)
        &&& 0 <= self.rad.0 <= SIZE_LIMIT
        &&& 0 <= self.speed.0 <= SIZE_LIMIT
    }

    /// The bullet after one step of flight on `map`: marked when its box meets an
    /// obstacle, or no longer meets the map at all.
    pub open spec fn advanced(self, map: TileMap) -> Bullet {
        let pos = point(
            self.pos.x.0 + step_of(self.heading.x.0 as int, self.speed.0 as int),
            self.pos.y.0 + step_of(self.heading.y.0 as int, self.speed.0 as int),
        );
        let bbox = box_around(pos, self.rad.0 as int);
        Bullet {
            pos,
            will_die_at_end_of_tick: self.will_die_at_end_of_tick || map.hits_wall(bbox) || !(
            exists|x: int, y: int| #[trigger] map.cell_meets(bbox, x, y)),
            ..self
        }
    }

    pub fn bounding_box(&self) -> (r: WorldRect)
        requires
            point_within(self.pos, 0x10_0000_0000_0000 - SIZE_LIMIT),
            0 <= self.rad.0 <= SIZE_LIMIT,
        ensures
            r == box_around(self.pos, self.rad.0 as int),
            r.wf(),
    {
        WorldRect {
            top_left: WorldPoint::new(
                WorldCoord(self.pos.x.0 - self.rad.0),
                WorldCoord(self.pos.y.0 - self.rad.0),
            ),
            width: WorldCoord(self.rad.0 * 2),
            height: WorldCoord(self.rad.0 * 2),
        }
    }

    fn advance(&mut self, map: &TileMap)
        requires
            map.wf(),
            old(self).bounded(),
        ensures
            *final(self) == old(self).advanced(*map),
    {
        let vx = step_component(self.heading.x.0, self.speed.0);
        let vy = step_component(self.heading.y.0, self.speed.0);
        self.pos = WorldPoint { x: WorldCoord(self.pos.x.0 + vx), y: WorldCoord(self.pos.y.0 + vy) };
        let bbox = self.bounding_box();
        if map.rect_intersects_wall(bbox) || !map.rect_meets_map(bbox) {
            self.will_die_at_end_of_tick = true;
        }
    }
}

/// The bullets fired by `units`, in the order of the units, when each moves and makes
/// its shooting check on `map`.
pub open spec fn spawns(map: TileMap, units: Seq<Unit>) -> Seq<Bullet>
    decreases units.len(),
{
    if units.len() == 0 {
        Seq::empty()
    } else {
        let prev = spawns(map, units.drop_last());
        let u = units.last().moved(map);
        if u.fires() {
            prev.push(u.shot())
        } else {
            prev
        }
    }
}

pub open spec fn advance_all(map: TileMap, bullets: Seq<Bullet>) -> Seq<Bullet> {
    bullets.map_values(|b: Bullet| b.advanced(map))
}

pub open spec fn survivors(bullets: Seq<Bullet>) -> Seq<Bullet> {
    bullets.filter(|b: Bullet| !b.will_die_at_end_of_tick)
}

/// A step keeps a unit where it is when the box at its candidate position meets an
/// obstacle, and otherwise moves it by exactly its velocity.
pub proof fn lemma_move_rejected_or_whole(u: Unit, map: TileMap)
    ensures
        map.hits_wall(box_around(u.candidate_pos(), u.rad.0 as int)) ==> u.stepped(map).pos
            == u.pos,
        !map.hits_wall(box_around(u.candidate_pos(), u.rad.0 as int)) ==> u.stepped(map).pos
            == point(u.pos.x.0 + u.velocity().x.0, u.pos.y.0 + u.velocity().y.0),
{
}

/// No bullet left after culling is marked, so a bullet whose box meets an obstacle, or
/// has left the map, after its flight is not among them.
pub proof fn lemma_hit_bullets_culled(map: TileMap, bullets: Seq<Bullet>)
    ensures
        forall|k: int|
            0 <= k < survivors(advance_all(map, bullets)).len() ==> !(#[trigger] survivors(
                advance_all(map, bullets),
            )[k]).will_die_at_end_of_tick,
        forall|i: int|
            0 <= i < bullets.len() && (#[trigger] bullets[i].advanced(map)).will_die_at_end_of_tick
                ==> !survivors(advance_all(map, bullets)).contains(bullets[i].advanced(map)),
{
    let pred = |b: Bullet| !b.will_die_at_end_of_tick;
    let s = advance_all(map, bullets);
    assert forall|k: int| 0 <= k < s.filter(pred).len() implies !(#[trigger] s.filter(
        pred,
    )[k]).will_die_at_end_of_tick by {
        s.lemma_filter_pred(pred, k);
    }
    assert forall|i: int|
        0 <= i < bullets.len() && (#[trigger] bullets[i].advanced(
            map,
        )).will_die_at_end_of_tick implies !s.filter(pred).contains(bullets[i].advanced(map)) by {
        if s.filter(pred).contains(bullets[i].advanced(map)) {
            let k = choose|k: int|
                0 <= k < s.filter(pred).len() && s.filter(pred)[k] == bullets[i].advanced(map);
            s.lemma_filter_pred(pred, k);
        }
    }
}

/// The unit after `k` steps on `map`.
pub open spec fn after_ticks(u: Unit, map: TileMap, k: nat) -> Unit
    decreases k,
{
    if k == 0 {
        u
    } else {
        after_ticks(u, map, (k - 1) as nat).stepped(map)
    }
}

/// A unit that keeps shooting, with `ticks_per_shot` at `n` and its cooldown at zero,
/// fires on the first step, on none of the next `n - 1`, and on step `n` is back in
/// its first state as far as shooting goes, so it fires once every `n` steps.
pub proof fn lemma_shooting_cadence(u: Unit, map: TileMap, j: nat)
    requires
        u.shooting,
        u.ticks_to_shot == 0,
        u.ticks_per_shot >= 1,
        j <= u.ticks_per_shot,
    ensures
        after_ticks(u, map, 0).moved(map).fires(),
        1 <= j < u.ticks_per_shot ==> !after_ticks(u, map, j).moved(map).fires(),
        j >= 1 ==> after_ticks(u, map, j).ticks_to_shot == u.ticks_per_shot - j,
        after_ticks(u, map, j).shooting,
        after_ticks(u, map, j).ticks_per_shot == u.ticks_per_shot,
        j == u.ticks_per_shot ==> after_ticks(u, map, j).moved(map).fires(),
    decreases j,
{
    if j > 1 {
        lemma_shooting_cadence(u, map, (j - 1) as nat);
    } else if j == 1 {
        lemma_shooting_cadence(u, map, 0);
    }
}

/// Whether the unit fires on step `k`.
pub open spec fn fires_at(u: Unit, map: TileMap, k: nat) -> bool {
    after_ticks(u, map, k).moved(map).fires()
}

/// How many bullets the unit fires in its first `k` steps.
pub open spec fn shots_in(u: Unit, map: TileMap, k: nat) -> nat
    decreases k,
{
    if k == 0 {
        0
    } else {
        shots_in(u, map, (k - 1) as nat) + if fires_at(u, map, (k - 1) as nat) {
            1nat
        } else {
            0nat
        }
    }
}

/// The part of a unit that decides when it fires.
pub open spec fn cadence_state(u: Unit) -> (bool, u32, u32) {
    (u.shooting, u.ticks_per_shot, u.ticks_to_shot)
}

proof fn lemma_cadence_shift(u: Unit, map: TileMap, k: nat, n: nat)
    requires
        cadence_state(after_ticks(u, map, n)) == cadence_state(u),
    ensures
        cadence_state(after_ticks(u, map, k + n)) == cadence_state(after_ticks(u, map, k)),
    decreases k,
{
    if k > 0 {
        lemma_cadence_shift(u, map, (k - 1) as nat, n);
        assert(after_ticks(u, map, k + n) == after_ticks(u, map, ((k - 1) + n) as nat).stepped(
            map,
        ));
    }
}

proof fn lemma_cadence_periodic(u: Unit, map: TileMap, q: nat, r: nat, n: nat)
    requires
        cadence_state(after_ticks(u, map, n)) == cadence_state(u),
    ensures
        cadence_state(after_ticks(u, map, q * n + r)) == cadence_state(after_ticks(u, map, r)),
    decreases q,
{
    if q > 0 {
        lemma_cadence_periodic(u, map, (q - 1) as nat, r, n);
        assert(q * n + r == ((q - 1) * n + r) + n) by (nonlinear_arith)
            requires
                q > 0,
        ;
        lemma_cadence_shift(u, map, ((q - 1) * n + r) as nat, n);
    } else {
        assert(q * n == 0) by (nonlinear_arith)
            requires
                q == 0,
        ;
    }
}

/// A unit that keeps shooting, with `ticks_per_shot` at `n >= 1` and its cooldown at
/// zero, fires on exactly the steps `k` with `k % n == 0`, so in its first `k` steps
/// it fires `ceil(k / n)` bullets.
pub proof fn lemma_shooting_every_n(u: Unit, map: TileMap, k: nat)
    requires
        u.shooting,
        u.ticks_to_shot == 0,
        u.ticks_per_shot >= 1,
    ensures
        fires_at(u, map, k) <==> (k as int) % (u.ticks_per_shot as int) == 0,
        shots_in(u, map, k) as int == (k + u.ticks_per_shot - 1) / (u.ticks_per_shot as int),
    decreases k,
{
    let n = u.ticks_per_shot as nat;
    lemma_shooting_cadence(u, map, n);
    lemma_shooting_cadence(u, map, 0);
    vstd::arithmetic::div_mod::lemma_fundamental_div_mod(k as int, n as int);
    let q = k / n;
    let r = k % n;
    assert(k == q * n + r);
    lemma_cadence_periodic(u, map, q, r, n);
    lemma_shooting_cadence(u, map, r);
    if k > 0 {
        let j = (k - 1) as nat;
        lemma_shooting_every_n(u, map, j);
        vstd::arithmetic::div_mod::lemma_fundamental_div_mod(j as int, n as int);
        let qj = j / n;
        let rj = j % n;
        assert(j == n * qj + rj);
        assert(qj * n == n * qj) by (nonlinear_arith);
        assert((qj + 1) * n == qj * n + n) by (nonlinear_arith);
        if rj == 0 {
            vstd::arithmetic::div_mod::lemma_fundamental_div_mod_converse(
                (j + n - 1) as int,
                n as int,
                qj as int,
                n - 1int,
            );
            vstd::arithmetic::div_mod::lemma_fundamental_div_mod_converse(
                (k + n - 1) as int,
                n as int,
                qj + 1int,
                0,
            );
        } else {
            vstd::arithmetic::div_mod::lemma_fundamental_div_mod_converse(
                (j + n - 1) as int,
                n as int,
                qj + 1int,
                rj - 1int,
            );
            vstd::arithmetic::div_mod::lemma_fundamental_div_mod_converse(
                (k + n - 1) as int,
                n as int,
                qj + 1int,
                rj as int,
            );
        }
    } else {
        assert(0 * (n as int) == 0);
        vstd::arithmetic::div_mod::lemma_fundamental_div_mod_converse(
            (n - 1) as int,
            n as int,
            0,
            n - 1,
        );
    }
}

/// UIDs name units uniquely.
pub type UID = u32;

/// The whole simulated world.
pub struct State {
    pub units: Vec<Unit>,
    pub bullets: Vec<Bullet>,
    pub map: TileMap,
    pub next_uid: UID,
}

impl State {
    /// Every unit and bullet lies within the ranges that a step accepts.
    pub open spec fn within_limits_spec(&self) -> bool {
        &&& forall|i: int| 0 <= i < self.units@.len() ==> #[trigger] self.units@[i].bounded()
        &&& forall|i: int| 0 <= i < self.bullets@.len() ==> #[trigger] self.bullets@[i].bounded()
    }

    /// A world with no units or bullets on `map`.
    pub fn blank(map: TileMap) -> (r: State)
        ensures
            r.units@.len() == 0,
            r.bullets@.len() == 0,
            r.map == map,
            r.next_uid == 0,
    {
        State { units: Vec::new(), bullets: Vec::new(), map, next_uid: 0 }
    }

    /// The first level on `map`: one unit at (100, 100), facing right, at rest, firing
    /// twice a second when it shoots.
    pub fn level1(map: TileMap) -> (r: State)
        ensures
            r.map == map,
            r.bullets@.len() == 0,
            r.next_uid == 1,
            r.units@ == seq![
                Unit {
                    uid: 0,
                    pos: point(100 * WORLD_ONE, 100 * WORLD_ONE),
                    heading: point(WORLD_ONE as int, 0),
                    move_dir: point(0, 0),
                    rad: WorldCoord((10 * WORLD_ONE) as i64),
                    base_speed: WorldCoord((300 * WORLD_ONE) as i64),
                    shooting: false,
                    ticks_per_shot: TICKS_PER_SEC / 2,
                    ticks_to_shot: 0,
                },
            ],
    {
        let mut state = State::blank(map);
        let uid = state.next_uid();
        state.units.push(
            Unit {
                uid,
                pos: WorldPoint { x: WorldCoord(100 * WORLD_ONE), y: WorldCoord(100 * WORLD_ONE) },
                heading: WorldPoint { x: WorldCoord(WORLD_ONE), y: WorldCoord(0) },
                move_dir: WorldPoint { x: WorldCoord(0), y: WorldCoord(0) },
                rad: WorldCoord(10 * WORLD_ONE),
                base_speed: WorldCoord(300 * WORLD_ONE),
                shooting: false,
                ticks_per_shot: TICKS_PER_SEC / 2,
                ticks_to_shot: 0,
            },
        );
        assert(state.units@ =~= seq![state.units@[0]]);
        state
    }

    /// Hands out the next UID.
    fn next_uid(&mut self) -> (r: UID)
        requires
            old(self).next_uid < UID::MAX,
        ensures
            r == old(self).next_uid,
            final(self).next_uid == old(self).next_uid + 1,
            final(self).units == old(self).units,
            final(self).bullets == old(self).bullets,
            final(self).map == old(self).map,
    {
        let uid = self.next_uid;
        self.next_uid = self.next_uid + 1;
        uid
    }

    pub fn within_limits(&self) -> (r: bool)
        ensures
            r == self.within_limits_spec(),
    {
        let mut i: usize = 0;
        while i < self.units.len()
            invariant
                forall|k: int| 0 <= k < i ==> #[trigger] self.units@[k].bounded(),
            decreases self.units.len() - i,
        {
            let u = &self.units[i];
            if !(-POS_LIMIT <= u.pos.x.0 && u.pos.x.0 <= POS_LIMIT && -POS_LIMIT <= u.pos.y.0
                && u.pos.y.0 <= POS_LIMIT && -HEADING_LIMIT <= u.heading.x.0 && u.heading.x.0
                <= HEADING_LIMIT && -HEADING_LIMIT <= u.heading.y.0 && u.heading.y.0
                <= HEADING_LIMIT && -NORM_LIMIT <= u.move_dir.x.0 && u.move_dir.x.0
                <= NORM_LIMIT && -NORM_LIMIT <= u.move_dir.y.0 && u.move_dir.y.0 <= NORM_LIMIT
                && 0 <= u.rad.0 && u.rad.0 <= SIZE_LIMIT && 0 <= u.base_speed.0 && u.base_speed.0
                <= SIZE_LIMIT) {
                assert(!self.units@[i as int].bounded());
                return false;
            }
            i = i + 1;
        }
        let mut j: usize = 0;
        while j < self.bullets.len()
            invariant
                forall|k: int| 0 <= k < self.units@.len() ==> #[trigger] self.units@[k].bounded(),
                forall|k: int| 0 <= k < j ==> #[trigger] self.bullets@[k].bounded(),
            decreases self.bullets.len() - j,
        {
            let b = &self.bullets[j];
            if !(-BULLET_POS_LIMIT <= b.pos.x.0 && b.pos.x.0 <= BULLET_POS_LIMIT
                && -BULLET_POS_LIMIT <= b.pos.y.0 && b.pos.y.0 <= BULLET_POS_LIMIT
                && -HEADING_LIMIT <= b.heading.x.0 && b.heading.x.0 <= HEADING_LIMIT
                && -HEADING_LIMIT <= b.heading.y.0 && b.heading.y.0 <= HEADING_LIMIT && 0
                <= b.rad.0 && b.rad.0 <= SIZE_LIMIT && 0 <= b.speed.0 && b.speed.0
                <= SIZE_LIMIT) {
                assert(!self.bullets@[j as int].bounded());
                return false;
            }
            j = j + 1;
        }
        true
    }

    /// One fixed step of the world: every unit moves and makes its shooting check, every
    /// bullet (the new ones too) flies, and the bullets marked on the way are removed,
    /// the others keeping their order.
    pub fn tick(&mut self)
        requires
            old(self).map.wf(),
            old(self).within_limits_spec(),
        ensures
            final(self).map == old(self).map,
            final(self).next_uid == old(self).next_uid,
            final(self).units@.len() == old(self).units@.len(),
            forall|i: int|
                0 <= i < old(self).units@.len() ==> #[trigger] final(self).units@[i]
                    == old(self).units@[i].stepped(old(self).map),
            final(self).bullets@ == survivors(
                advance_all(old(self).map, old(self).bullets@ + spawns(old(self).map, old(self).units@)),
            ),
    {
        let ghost units0 = self.units@;
        let ghost bullets0 = self.bullets@;
        let n = self.units.len();
        let mut i: usize = 0;
        while i < n
            invariant
                self.map == old(self).map,
                self.map.wf(),
                self.next_uid == old(self).next_uid,
                units0 == old(self).units@,
                bullets0 == old(self).bullets@,
                n == units0.len(),
                self.units@.len() == n,
                0 <= i <= n,
                forall|j: int| 0 <= j < i ==> #[trigger] self.units@[j] == units0[j].stepped(self.map),
                forall|j: int| i <= j < n ==> #[trigger] self.units@[j] == units0[j],
                forall|j: int| 0 <= j < n ==> #[trigger] units0[j].bounded(),
                self.bullets@ == bullets0 + spawns(self.map, units0.take(i as int)),
                forall|k: int| 0 <= k < self.bullets@.len() ==> #[trigger] self.bullets@[k].bounded(),
            decreases n - i,
        {
            let mut u = self.units[i];
            assert(u == units0[i as int]);
            let fired = u.step(&self.map);
            self.units.set(i, u);
            assert(units0.take(i + 1).drop_last() =~= units0.take(i as int));
            match fired {
                Some(b) => {
                    self.bullets.push(b);
                },
                None => {},
            }
            i = i + 1;
        }
        assert(units0.take(n as int) =~= units0);
        let ghost all = self.bullets@;
        let mut kept: Vec<Bullet> = Vec::new();
        let mut j: usize = 0;
        while j < self.bullets.len()
            invariant
                self.map == old(self).map,
                self.map.wf(),
                self.bullets@ == all,
                forall|k: int| 0 <= k < all.len() ==> #[trigger] all[k].bounded(),
                j <= all.len(),
                kept@ == survivors(advance_all(self.map, all.take(j as int))),
            decreases all.len() - j,
        {
            let mut b = self.bullets[j];
            b.advance(&self.map);
            assert(all.take(j + 1) =~= all.take(j as int).push(all[j as int]));
            assert(advance_all(self.map, all.take(j + 1)) =~= advance_all(
                self.map,
                all.take(j as int),
            ).push(b));
            proof {
                advance_all(self.map, all.take(j as int)).lemma_filter_push(
                    b,
                    |b: Bullet| !b.will_die_at_end_of_tick,
                );
            }
            if !b.will_die_at_end_of_tick {
                kept.push(b);
            }
            j = j + 1;
        }
        assert(all.take(all.len() as int) =~= all);
        self.bullets = kept;
    }
}

} // verus!
