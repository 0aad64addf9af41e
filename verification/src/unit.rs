//! Unit ids and per-unit state, with the per-frame movement step.
use vstd::prelude::*;
use crate::direction::{Direction, heading_of, turn_diff, turn_toward_spec, dir_x, dir_y};
use crate::fp8::{Fp8, XY, wrap_i32};
use crate::dat::UnitSize;

verus! {

/// The replay tag of slot `index` and generation `generation`:
/// generation in bits 11-15, index in bits 0-10.
pub open spec fn tag_of(index: u16, generation: u16) -> u16 {
    (generation << 11u16) | index
}

/// The slot index and generation held by a replay tag.
pub open spec fn id_of_tag(tag: u16) -> (u16, u16) {
    (tag & 0x07FF, tag >> 11u16)
}

/// A unit's slot index and generation.
#[derive(Debug, Clone, Copy, PartialEq, Eq, Structural, Hash)]
pub struct UnitId {
    index: u16,
    generation: u16,
}

impl View for UnitId {
    type V = (u16, u16);

    closed spec fn view(&self) -> (u16, u16) {
        (self.index, self.generation)
    }
}

impl UnitId {
    pub fn new(index: u16, generation: u16) -> (r: UnitId)
        ensures
            r@ == (index, generation),
    {
        UnitId { index, generation }
    }

    /// Decodes a replay unit tag.
    pub fn from_tag(tag: u16) -> (r: UnitId)
        ensures
            r@ == id_of_tag(tag),
    {
        UnitId { index: tag & 0x07FF, generation: tag >> 11 }
    }

    /// Encodes as a replay unit tag.
    pub fn to_tag(self) -> (r: u16)
        ensures
            r == tag_of(self@.0, self@.1),
    {
        (self.generation << 11) | self.index
    }

    pub fn index(self) -> (r: u16)
        ensures
            r == self@.0,
    {
        self.index
    }

    pub fn generation(self) -> (r: u16)
        ensures
            r == self@.1,
    {
        self.generation
    }
}

/// Decoding a tag and encoding the result gives the tag back.
pub proof fn lemma_tag_roundtrip(tag: u16)
    ensures
        tag_of(id_of_tag(tag).0, id_of_tag(tag).1) == tag,
{
    assert(((tag >> 11u16) << 11u16) | (tag & 0x07FF) == tag) by (bit_vector);
}

/// Encoding an id whose index fits in 11 bits and generation in 5 bits, then
/// decoding the tag, gives the id back.
pub proof fn lemma_id_roundtrip(index: u16, generation: u16)
    requires
        index < 0x800,
        generation < 0x20,
    ensures
        id_of_tag(tag_of(index, generation)) == (index, generation),
{
    assert(((generation << 11u16) | index) & 0x07FF == index) by (bit_vector)
        requires
            index < 0x800,
    ;
    assert(((generation << 11u16) | index) >> 11u16 == generation) by (bit_vector)
        requires
            index < 0x800,
            generation < 0x20,
    ;
}

/// Simplified movement state.
#[derive(Debug, Clone, Copy, PartialEq, Eq, Structural, Default)]
pub enum MoveState {
    #[default]
    AtRest,
    Moving,
    Arrived,
}

/// Full unit state for simulation.
#[derive(Debug, Clone)]
pub struct UnitState {
    pub id: UnitId,
    pub unit_type: u16,
    pub owner: u8,
    pub alive: bool,
    // Position
    pub exact_position: XY,
    pub pixel_x: i32,
    pub pixel_y: i32,
    // Movement
    pub velocity: XY,
    pub heading: Direction,
    pub current_speed: Fp8,
    pub move_state: MoveState,
    pub move_target: Option<(u16, u16)>,
    /// Pathfinding waypoints (pixel coordinates), followed in order.
    pub waypoints: Vec<(i32, i32)>,
    pub waypoint_index: usize,
    // Flingy parameters
    pub top_speed: i32,
    pub acceleration: i16,
    pub halt_distance: i32,
    pub turn_rate: u8,
    pub movement_type: u8,
    // Combat (hit points and shields in fp8)
    pub hp: i32,
    pub max_hp: i32,
    pub shields: i32,
    pub max_shields: i32,
    pub armor: u8,
    pub unit_size: UnitSize,
    pub is_air: bool,
    /// Weapon type ids (130 = none).
    pub ground_weapon: u8,
    pub air_weapon: u8,
    /// Frames until the unit can fire again.
    pub weapon_cooldown: u16,
    /// Unit tag of the attack target.
    pub attack_target: Option<u16>,
    // Production
    /// Unit types queued for training.
    pub build_queue: Vec<u16>,
    /// Frames remaining for the current build.
    pub build_timer: u16,
    pub is_building: bool,
    // Construction and morph
    pub under_construction: bool,
    /// Frames remaining for a morph (0 = not morphing).
    pub morph_timer: u16,
    /// Unit type being morphed into.
    pub morph_target: Option<u16>,
    // Energy (fp8)
    pub energy: i32,
    pub max_energy: i32,
    // Mining
    pub is_worker: bool,
    /// Frames until the current mining trip delivers (0 = not mining).
    pub mining_timer: u16,
    /// The gas building being mined, if any; otherwise minerals.
    pub mining_target: Option<u16>,
    /// Collision radius in pixels.
    pub collision_radius: u8,
}

/// The pixel the unit steers toward: its current waypoint, else its move target.
pub open spec fn steer_target(s: UnitState) -> Option<(i32, i32)> {
    if s.waypoint_index < s.waypoints@.len() {
        Some(s.waypoints@[s.waypoint_index as int])
    } else {
        match s.move_target {
            Some((mx, my)) => Some((mx as i32, my as i32)),
            None => None,
        }
    }
}

/// Fp8 displacement from the unit's exact position to the pixel `t` (wrapping).
pub open spec fn delta_to(s: UnitState, t: (i32, i32)) -> (int, int) {
    (wrap_i32((t.0 << 8i32) - s.exact_position.x.0), wrap_i32((t.1 << 8i32) - s.exact_position.y.0))
}

/// Distance (in fp8) within which a waypoint counts as reached: twice the top
/// speed, and at least two pixels.
pub open spec fn arrival_limit(top_speed: i32) -> int {
    2 * (if top_speed > 256 { top_speed as int } else { 256 })
}

/// Turn rate used for steering: the full rate for air units (movement type
/// 2), half of it, at least 1, for the others.
pub open spec fn steer_rate(turn_rate: u8, movement_type: u8) -> int {
    if movement_type == 2 {
        turn_rate as int
    } else if turn_rate / 2 > 1 {
        (turn_rate / 2) as int
    } else {
        1
    }
}

/// Speed after one frame: accelerate (capped at the top speed) when facing
/// the target, else decelerate (not below zero); both steps wrap in 32 bits.
pub open spec fn speed_after(speed: i32, acc: i16, top: i32, facing: bool) -> int {
    if facing {
        let n = wrap_i32(speed + acc);
        if n > top { top as int } else { n }
    } else {
        let n = wrap_i32(speed - acc);
        if n < 0 { 0 } else { n }
    }
}

/// Velocity component along unit-vector component `u` (fp8) at `speed`.
pub open spec fn velocity_component(u: int, speed: int) -> int {
    ((((u as i64) * (speed as i64)) as i64 >> 8i64) as i32) as int
}

/// The fields that movement leaves alone are equal.
pub open spec fn same_but_motion(a: UnitState, b: UnitState) -> bool {
    &&& a.id == b.id
    &&& a.unit_type == b.unit_type
    &&& a.owner == b.owner
    &&& a.alive == b.alive
    &&& a.top_speed == b.top_speed
    &&& a.acceleration == b.acceleration
    &&& a.halt_distance == b.halt_distance
    &&& a.turn_rate == b.turn_rate
    &&& a.movement_type == b.movement_type
    &&& a.hp == b.hp
    &&& a.max_hp == b.max_hp
    &&& a.shields == b.shields
    &&& a.max_shields == b.max_shields
    &&& a.armor == b.armor
    &&& a.unit_size == b.unit_size
    &&& a.is_air == b.is_air
    &&& a.ground_weapon == b.ground_weapon
    &&& a.air_weapon == b.air_weapon
    &&& a.weapon_cooldown == b.weapon_cooldown
    &&& a.attack_target == b.attack_target
    &&& a.build_queue@ == b.build_queue@
    &&& a.build_timer == b.build_timer
    &&& a.is_building == b.is_building
    &&& a.under_construction == b.under_construction
    &&& a.morph_timer == b.morph_timer
    &&& a.morph_target == b.morph_target
    &&& a.energy == b.energy
    &&& a.max_energy == b.max_energy
    &&& a.is_worker == b.is_worker
    &&& a.mining_timer == b.mining_timer
    &&& a.mining_target == b.mining_target
    &&& a.collision_radius == b.collision_radius
}

/// The movement fields other than position and motion are equal.
pub open spec fn same_route(a: UnitState, b: UnitState) -> bool {
    &&& a.move_state == b.move_state
    &&& a.move_target == b.move_target
    &&& a.waypoints@ == b.waypoints@
    &&& a.waypoint_index == b.waypoint_index
}

/// The inputs on which one movement step is defined: the squared distance to
/// the steering target and the squared arrival limit fit in 64 bits, and an
/// air unit that has to steer does not turn at rate 255, nor at rate 128
/// counter-clockwise.
pub open spec fn movement_defined(s: UnitState) -> bool {
    s.move_state == MoveState::Moving ==> match steer_target(s) {
        Some(t) => {
            let (dx, dy) = delta_to(s, t);
            let lim = arrival_limit(s.top_speed);
            &&& dx * dx + dy * dy <= i64::MAX
            &&& lim * lim <= i64::MAX
            &&& (dx * dx + dy * dy > lim * lim && s.movement_type == 2) ==> s.turn_rate != 255
        },
        None => true,
    }
}

/// One movement step takes state `s` to state `n`.
pub open spec fn movement_step(s: UnitState, n: UnitState) -> bool {
    &&& same_but_motion(n, s)
    &&& if s.move_state != MoveState::Moving {
        n == s
    } else {
        match steer_target(s) {
            None => {
                &&& n.move_state == MoveState::AtRest
                &&& same_route(n, (UnitState { move_state: MoveState::AtRest, ..s }))
                &&& n.exact_position == s.exact_position
                &&& n.pixel_x == s.pixel_x
                &&& n.pixel_y == s.pixel_y
                &&& n.velocity == s.velocity
                &&& n.heading == s.heading
                &&& n.current_speed == s.current_speed
            },
            Some(t) => {
                let (dx, dy) = delta_to(s, t);
                let lim = arrival_limit(s.top_speed);
                if dx * dx + dy * dy <= lim * lim {
                    // Reached: snap to the waypoint, then follow the next one, or stop.
                    &&& n.exact_position.x.0 == t.0 << 8i32
                    &&& n.exact_position.y.0 == t.1 << 8i32
                    &&& n.pixel_x == t.0
                    &&& n.pixel_y == t.1
                    &&& n.heading == s.heading
                    &&& if s.waypoint_index + 1 < s.waypoints@.len() {
                        &&& same_route(n, (UnitState { waypoint_index: (s.waypoint_index + 1) as usize, ..s }))
                        &&& n.velocity == s.velocity
                        &&& n.current_speed == s.current_speed
                    } else {
                        &&& n.velocity.x.0 == 0
                        &&& n.velocity.y.0 == 0
                        &&& n.current_speed.0 == 0
                        &&& n.move_state == MoveState::Arrived
                        &&& n.move_target is None
                        &&& n.waypoints@.len() == 0
                        &&& n.waypoint_index == 0
                    }
                } else {
                    // Steer toward the target, speed up or slow down, and move.
                    let desired = heading_of(dx, dy);
                    let rate = steer_rate(s.turn_rate, s.movement_type);
                    let h = turn_toward_spec(s.heading.0, desired as u8, rate as u8);
                    let d = turn_diff(h as u8, desired as u8);
                    let facing = (if d < 0 { -d } else { d }) < rate + 1;
                    let sp = speed_after(s.current_speed.0, s.acceleration, s.top_speed, facing);
                    let vx = velocity_component(dir_x(h), sp);
                    let vy = velocity_component(dir_y(h), sp);
                    &&& same_route(n, s)
                    &&& n.heading.0 == h
                    &&& n.current_speed.0 == sp
                    &&& n.velocity.x.0 == vx
                    &&& n.velocity.y.0 == vy
                    &&& n.exact_position.x.0 == wrap_i32(s.exact_position.x.0 + vx)
                    &&& n.exact_position.y.0 == wrap_i32(s.exact_position.y.0 + vy)
                    &&& n.pixel_x == n.exact_position.x.0 / 256
                    &&& n.pixel_y == n.exact_position.y.0 / 256
                }
            },
        }
    }
}

impl UnitState {
    /// Per-frame movement: steer toward the current waypoint (or the move
    /// target), snapping to it once within the arrival limit.
    pub fn update_movement(&mut self)
        requires
            movement_defined(*old(self)),
        ensures
            movement_step(*old(self), *final(self)),
    {
        if self.move_state != MoveState::Moving {
            return;
        }
        let (tx, ty) = if self.waypoint_index < self.waypoints.len() {
            self.waypoints[self.waypoint_index]
        } else if let Some((mx, my)) = self.move_target {
            (mx as i32, my as i32)
        } else {
            self.move_state = MoveState::AtRest;
            return;
        };
        let target = XY::from_pixels(tx, ty);
        let delta = target - self.exact_position;
        let dist_sq = delta.length_squared();
        let top = self.top_speed as i64;
        let limit = if top > 256 { top } else { 256 } * 2;
        proof {
            assert(limit == arrival_limit(self.top_speed));
            assert(0 <= limit * limit <= i64::MAX);
        }
        if dist_sq <= limit * limit {
            // Snap to the waypoint.
            self.exact_position = target;
            self.pixel_x = tx;
            self.pixel_y = ty;
            if self.waypoint_index < self.waypoints.len() {
                self.waypoint_index = self.waypoint_index + 1;
                if self.waypoint_index < self.waypoints.len() {
                    // More waypoints: keep moving at the same speed.
                    return;
                }
            }
            self.velocity = XY::zero();
            self.current_speed = Fp8::zero();
            self.move_state = MoveState::Arrived;
            self.move_target = None;
            self.waypoints.clear();
            self.waypoint_index = 0;
            return;
        }
        let desired = Direction::from_delta(delta.x, delta.y);
        let effective_rate = if self.movement_type == 2 {
            self.turn_rate
        } else {
            let half = self.turn_rate / 2;
            if half > 1 { half } else { 1 }
        };
        self.heading = self.heading.turn_toward(desired, effective_rate);
        let d = self.heading.diff(desired);
        let mag: u8 = if d < 0 { (-(d as i16)) as u8 } else { d as u8 };
        let facing_target = mag < effective_rate + 1;
        if facing_target {
            let new_speed = self.current_speed + Fp8::from_raw(self.acceleration as i32);
            self.current_speed = if new_speed.raw() > self.top_speed {
                Fp8::from_raw(self.top_speed)
            } else {
                new_speed
            };
        } else {
            let new_speed = self.current_speed - Fp8::from_raw(self.acceleration as i32);
            self.current_speed = if new_speed.0 < 0 { Fp8::zero() } else { new_speed };
        }
        let (ux, uy) = self.heading.unit_vector();
        let speed = self.current_speed.raw() as i64;
        proof {
            assert(-0x8000_0000_0000 <= (ux.0 as i64) * speed <= 0x8000_0000_0000) by (nonlinear_arith)
                requires
                    -0x8000 <= ux.0 <= 0x7FFF,
                    i32::MIN <= speed <= i32::MAX,
            ;
            assert(-0x8000_0000_0000 <= (uy.0 as i64) * speed <= 0x8000_0000_0000) by (nonlinear_arith)
                requires
                    -0x8000 <= uy.0 <= 0x7FFF,
                    i32::MIN <= speed <= i32::MAX,
            ;
        }
        self.velocity = XY {
            x: Fp8::from_raw((((ux.raw() as i64) * speed) >> 8) as i32),
            y: Fp8::from_raw((((uy.raw() as i64) * speed) >> 8) as i32),
        };
        self.exact_position = self.exact_position + self.velocity;
        let (px, py) = self.exact_position.to_pixels();
        self.pixel_x = px;
        self.pixel_y = py;
    }
}

/// A value already in `i32` range is its own 32-bit wrap.
proof fn lemma_wrap_in_range(v: int)
    requires
        i32::MIN <= v <= i32::MAX,
    ensures
        wrap_i32(v) == v,
{
    vstd::arithmetic::div_mod::lemma_small_mod((v + 0x8000_0000int) as nat, 0x1_0000_0000nat);
}

/// Movement never takes a unit above its top speed: from a speed between
/// zero and the top speed, with a non-negative acceleration, one movement
/// step keeps the speed there.
pub proof fn lemma_speed_stays_capped(s: UnitState, n: UnitState)
    requires
        movement_step(s, n),
        0 <= s.current_speed.0 <= s.top_speed,
        s.top_speed <= i32::MAX - i16::MAX,
        s.acceleration >= 0,
    ensures
        0 <= n.current_speed.0 <= n.top_speed,
{
    lemma_wrap_in_range(s.current_speed.0 + s.acceleration);
    lemma_wrap_in_range(s.current_speed.0 - s.acceleration);
}

} // verus!
