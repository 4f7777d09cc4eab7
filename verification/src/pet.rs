use vstd::prelude::*;

use crate::assets::{AnimationId, AssetManifest, ManifestView};

verus! {

pub const FIRST_AMBIENT_MIN_MS: u64 = 1_200;
pub const FIRST_AMBIENT_MAX_MS: u64 = 2_800;
pub const AMBIENT_MIN_MS: u64 = 12_000;
pub const AMBIENT_MAX_MS: u64 = 32_000;
pub const WALK_MIN_MS: u64 = 3_500;
pub const WALK_MAX_MS: u64 = 7_000;
pub const IDLE_MIN_MS: u64 = 8_000;
pub const IDLE_MAX_MS: u64 = 18_000;
pub const SIT_MIN_MS: u64 = 22_000;
pub const SIT_MAX_MS: u64 = 48_000;
pub const BLINK_MIN_MS: u64 = 900;
pub const BLINK_MAX_MS: u64 = 1_500;
pub const DANCE_MIN_MS: u64 = 3_600;
pub const DANCE_MAX_MS: u64 = 6_400;
pub const SLEEP_MIN_MS: u64 = 65_000;
pub const SLEEP_MAX_MS: u64 = 145_000;
pub const WALK_VELOCITY_PX_PER_SEC: i32 = 58;
pub const KNOCKDOWN_DURATION_MS: u64 = 2_500;
pub const POKE_COOLDOWN_MS: u64 = 1_200;
pub const STROKE_DURATION_MS: u64 = 1_800;
pub const DRAG_HOLD_MS: u64 = 30_000;
pub const DEFAULT_SEED: u64 = 0x4e6f6b6b;
/// Heart positions are kept in micro-pixels.
pub const MICROS_PER_PIXEL: i64 = 1_000_000;
/// Heart velocities are kept in milli-pixels per second.
pub const MILLIS_PER_PIXEL: i64 = 1_000;

#[derive(Clone, Copy, Debug, PartialEq, Eq, Structural)]
pub enum PetMood {
    Calm,
    Happy,
    Sleepy,
}

/// The screen area the pet may occupy, in pixels.
#[derive(Clone, Copy, Debug, PartialEq, Eq, Structural)]
pub struct Bounds {
    pub left: i32,
    pub top: i32,
    pub width: i32,
    pub height: i32,
    pub pet_size: i32,
}

impl Bounds {
    /// Bounds whose spans can be computed without overflow.
    pub open spec fn wf(self) -> bool {
        &&& i32::MIN <= self.width - self.pet_size <= i32::MAX
        &&& i32::MIN <= self.height - self.pet_size <= i32::MAX
    }

    /// Largest x the pet may take: `left` plus the free span, saturating at `i32::MAX`.
    pub open spec fn max_x_spec(self) -> int {
        saturate_i32(self.left + nonneg(self.width - self.pet_size))
    }

    pub open spec fn max_y_spec(self) -> int {
        saturate_i32(self.top + nonneg(self.height - self.pet_size))
    }

    pub open spec fn clamp_x_spec(self, x: int) -> int {
        clamp_int(x, self.left as int, self.max_x_spec())
    }

    pub open spec fn clamp_y_spec(self, y: int) -> int {
        clamp_int(y, self.top as int, self.max_y_spec())
    }

    pub fn new(width: i32, height: i32, pet_size: i32) -> (b: Self)
        ensures
            b == (Bounds { left: 0, top: 0, width, height, pet_size }),
    {
        Self::with_origin(0, 0, width, height, pet_size)
    }

    pub fn with_origin(left: i32, top: i32, width: i32, height: i32, pet_size: i32) -> (b: Self)
        ensures
            b == (Bounds { left, top, width, height, pet_size }),
    {
        Self { left, top, width, height, pet_size }
    }

    fn max_x(&self) -> (r: i32)
        requires
            self.wf(),
        ensures
            r == self.max_x_spec(),
    {
        let span = self.width - self.pet_size;
        saturating_add_nonneg(self.left, if span > 0 { span } else { 0 })
    }

    fn max_y(&self) -> (r: i32)
        requires
            self.wf(),
        ensures
            r == self.max_y_spec(),
    {
        let span = self.height - self.pet_size;
        saturating_add_nonneg(self.top, if span > 0 { span } else { 0 })
    }

    fn clamp_x(&self, x: i32) -> (r: i32)
        requires
            self.wf(),
        ensures
            r == self.clamp_x_spec(x as int),
    {
        clamp_i32(x, self.left, self.max_x())
    }

    fn clamp_y(&self, y: i32) -> (r: i32)
        requires
            self.wf(),
        ensures
            r == self.clamp_y_spec(y as int),
    {
        clamp_i32(y, self.top, self.max_y())
    }
}

pub open spec fn nonneg(v: int) -> int {
    if v > 0 { v } else { 0 }
}

pub open spec fn saturate_i32(v: int) -> int {
    if v > i32::MAX { i32::MAX as int } else if v < i32::MIN { i32::MIN as int } else { v }
}

pub open spec fn clamp_int(v: int, lo: int, hi: int) -> int {
    if v < lo { lo } else if v > hi { hi } else { v }
}

/// `base.saturating_add(span)` for a span that is never negative.
fn saturating_add_nonneg(base: i32, span: i32) -> (r: i32)
    requires
        span >= 0,
    ensures
        r == saturate_i32(base + span),
{
    if base > i32::MAX - span { i32::MAX } else { base + span }
}

fn clamp_i32(v: i32, lo: i32, hi: i32) -> (r: i32)
    requires
        lo <= hi,
    ensures
        r == clamp_int(v as int, lo as int, hi as int),
{
    if v < lo { lo } else if v > hi { hi } else { v }
}

/// What a frontend needs to draw the pet.
#[derive(Clone, Copy, Debug, PartialEq, Eq, Structural)]
pub struct PetSnapshot {
    pub x: i32,
    pub y: i32,
    pub animation: AnimationId,
    pub mood: PetMood,
    pub facing: i32,
    pub paused: bool,
    pub animation_started_ms: u64,
}

/// A floating heart. Positions are in micro-pixels, velocities in milli-pixels per
/// second, so that its motion is computed exactly in integers.
#[derive(Clone, Copy, Debug, PartialEq, Eq, Structural)]
pub struct HeartParticle {
    pub x: i64,
    pub y: i64,
    pub vx: i64,
    pub vy: i64,
    pub age_ms: u64,
    pub lifetime_ms: u64,
    pub frame: u16,
}

pub open spec fn sat_add_u64(a: u64, b: u64) -> u64 {
    if a + b > u64::MAX { u64::MAX } else { (a + b) as u64 }
}

pub open spec fn sat_sub_u64(a: u64, b: u64) -> u64 {
    if a < b { 0 } else { (a - b) as u64 }
}

pub open spec fn in_i64(v: int) -> bool {
    i64::MIN <= v <= i64::MAX
}

impl HeartParticle {
    /// Whether advancing by `dt_ms` stays within the integer range.
    pub open spec fn can_tick(self, dt_ms: u64) -> bool {
        &&& dt_ms <= i64::MAX
        &&& in_i64(self.vx * dt_ms)
        &&& in_i64(self.vy * dt_ms)
        &&& in_i64(self.x + self.vx * dt_ms)
        &&& in_i64(self.y + self.vy * dt_ms)
        &&& in_i64(8 * dt_ms)
        &&& in_i64(self.vy - 8 * dt_ms)
    }

    /// The particle after `dt_ms`: it ages, moves by its velocity and is pulled
    /// upwards by 8 px/s every second.
    pub open spec fn ticked(self, dt_ms: u64) -> HeartParticle {
        HeartParticle {
            x: (self.x + self.vx * dt_ms) as i64,
            y: (self.y + self.vy * dt_ms) as i64,
            vy: (self.vy - 8 * dt_ms) as i64,
            age_ms: sat_add_u64(self.age_ms, dt_ms),
            ..self
        }
    }

    pub fn tick(&mut self, dt_ms: u64)
        requires
            old(self).can_tick(dt_ms),
        ensures
            *final(self) == old(self).ticked(dt_ms),
    {
        self.age_ms = if self.age_ms > u64::MAX - dt_ms { u64::MAX } else { self.age_ms + dt_ms };
        let dt = dt_ms as i64;
        self.x = self.x + self.vx * dt;
        self.y = self.y + self.vy * dt;
        self.vy = self.vy - 8 * dt;
    }

    pub open spec fn alive_spec(self) -> bool {
        self.age_ms < self.lifetime_ms
    }

    pub fn alive(&self) -> (r: bool)
        ensures
            r == self.alive_spec(),
    {
        self.age_ms < self.lifetime_ms
    }

    /// Opacity fading linearly from 255 at birth to 0 at the end of the lifetime.
    pub open spec fn alpha_spec(self) -> u8 {
        if self.lifetime_ms == 0 {
            0
        } else {
            (sat_sub_u64(self.lifetime_ms, self.age_ms) * 255 / self.lifetime_ms as int) as u8
        }
    }

    pub fn alpha(&self) -> (a: u8)
        requires
            self.lifetime_ms * 255 <= u64::MAX,
        ensures
            a == self.alpha_spec(),
    {
        if self.lifetime_ms == 0 {
            return 0;
        }
        let remaining = if self.age_ms > self.lifetime_ms { 0 } else { self.lifetime_ms - self.age_ms };
        proof {
            assert(remaining * 255 <= self.lifetime_ms * 255) by (nonlinear_arith)
                requires remaining <= self.lifetime_ms;
            assert(remaining * 255 / (self.lifetime_ms as int) <= 255) by (nonlinear_arith)
                requires remaining <= self.lifetime_ms, self.lifetime_ms > 0;
        }
        ((remaining * 255) / self.lifetime_ms) as u8
    }

    /// Whole-pixel offset of the heart from a pixel origin, truncated towards zero
    /// and saturated to `i32`, as a float-to-int cast would give.
    pub open spec fn offset_spec(self, origin_x: i32, origin_y: i32) -> (i32, i32) {
        (
            saturate_i32(trunc_div(self.x - origin_x * MICROS_PER_PIXEL, MICROS_PER_PIXEL as int)) as i32,
            saturate_i32(trunc_div(self.y - origin_y * MICROS_PER_PIXEL, MICROS_PER_PIXEL as int)) as i32,
        )
    }

    pub fn offset_from(&self, origin_x: i32, origin_y: i32) -> (r: (i32, i32))
        requires
            i64::MIN < self.x - origin_x * MICROS_PER_PIXEL <= i64::MAX,
            i64::MIN < self.y - origin_y * MICROS_PER_PIXEL <= i64::MAX,
        ensures
            r == self.offset_spec(origin_x, origin_y),
    {
        let dx = self.x - (origin_x as i64) * MICROS_PER_PIXEL;
        let dy = self.y - (origin_y as i64) * MICROS_PER_PIXEL;
        (saturating_to_i32(trunc_div_i64(dx, MICROS_PER_PIXEL)), saturating_to_i32(trunc_div_i64(dy, MICROS_PER_PIXEL)))
    }
}

/// Integer division rounding towards zero.
pub open spec fn trunc_div(a: int, b: int) -> int
    recommends
        b > 0,
{
    if a >= 0 { a / b } else { -((-a) / b) }
}

fn trunc_div_i64(a: i64, b: i64) -> (r: i64)
    requires
        b > 0,
        a > i64::MIN,
    ensures
        r == trunc_div(a as int, b as int),
{
    if a >= 0 { a / b } else { -((-a) / b) }
}

fn signum_i32(v: i32) -> (r: i32)
    ensures
        r == signum(v as int),
{
    if v > 0 { 1 } else if v < 0 { -1 } else { 0 }
}

/// A heart in range can take a tick of at most 250 ms, and stays in range if it survives it.
proof fn lemma_heart_step(p: HeartParticle, dt_ms: u64)
    requires
        heart_in_range(p),
        dt_ms <= 250,
    ensures
        p.can_tick(dt_ms),
        p.ticked(dt_ms).alive_spec() ==> heart_in_range(p.ticked(dt_ms)),
{
    assert(-4_500 * dt_ms <= p.vx * dt_ms <= 4_500 * dt_ms) by (nonlinear_arith)
        requires -4_500 <= p.vx <= 4_500, 0 <= dt_ms;
    assert(-50_000 * dt_ms <= p.vy * dt_ms <= 0) by (nonlinear_arith)
        requires -50_000 <= p.vy <= 0, 0 <= dt_ms;
}

fn saturating_to_i32(v: i64) -> (r: i32)
    ensures
        r == saturate_i32(v as int),
{
    if v > i32::MAX as i64 { i32::MAX } else if v < i32::MIN as i64 { i32::MIN } else { v as i32 }
}

/// The seeded generator behind every random choice of the pet.
#[derive(Clone, Debug)]
struct TinyRng {
    state: u64,
}

/// One step of the linear congruential generator.
#[verifier::opaque]
pub open spec fn lcg_step(state: u64) -> u64 {
    state.wrapping_mul(6364136223846793005).wrapping_add(1442695040888963407)
}

/// A draw in `[min, max)`: the value and the generator state after it.
#[verifier::opaque]
pub open spec fn draw(state: u64, min: u64, max: u64) -> (u64, u64)
    recommends
        min < max,
{
    let next = lcg_step(state);
    ((min + next % ((max - min) as u64)) as u64, next)
}

/// Every draw lies in its range.
pub proof fn lemma_draw_in_range(state: u64, min: u64, max: u64)
    requires
        min < max,
    ensures
        min <= draw(state, min, max).0 < max,
{
    reveal(draw);
}

impl TinyRng {
    fn new(seed: u64) -> (r: Self)
        ensures
            r.state == seed | 1,
    {
        Self { state: seed | 1 }
    }

    fn next(&mut self) -> (r: u64)
        ensures
            r == lcg_step(old(self).state),
            final(self).state == r,
    {
        self.state = self.state.wrapping_mul(6364136223846793005).wrapping_add(1442695040888963407);
        proof {
            reveal(lcg_step);
        }
        self.state
    }

    fn range(&mut self, min: u64, max: u64) -> (r: u64)
        requires
            min < max,
        ensures
            (r, final(self).state) == draw(old(self).state, min, max),
            min <= r < max,
    {
        let n = self.next();
        proof {
            reveal(draw);
        }
        min + n % (max - min)
    }
}

pub open spec fn is_walk_animation(a: AnimationId) -> bool {
    a == AnimationId::Walk || a == AnimationId::WalkDown || a == AnimationId::WalkUp
        || a == AnimationId::WalkLeft || a == AnimationId::WalkRight
}

/// The walk that a roll of the walk-direction draw picks: animation and (dx, dy, facing).
pub open spec fn walk_for_roll(r: u64) -> (AnimationId, i32, i32, i32) {
    if r == 0 {
        (AnimationId::WalkDown, 0, 1, 1)
    } else if r == 1 {
        (AnimationId::WalkUp, 0, -1i32, -1i32)
    } else if r == 2 {
        (AnimationId::WalkLeft, -1i32, 0, -1i32)
    } else {
        (AnimationId::WalkRight, 1, 0, 1)
    }
}

/// The walking animation that matches a direction.
pub open spec fn walk_animation_for(dx: i32, dy: i32) -> AnimationId {
    if dx < 0 {
        AnimationId::WalkLeft
    } else if dx > 0 {
        AnimationId::WalkRight
    } else if dy < 0 {
        AnimationId::WalkUp
    } else {
        AnimationId::WalkDown
    }
}

/// A non-walking ambient action for a roll in `[32, 100)`: animation, duration range, mood.
pub open spec fn quiet_action_for_roll(roll: u64) -> (AnimationId, u64, u64, PetMood) {
    if roll <= 55 {
        (AnimationId::Idle, IDLE_MIN_MS, IDLE_MAX_MS, PetMood::Calm)
    } else if roll <= 73 {
        (AnimationId::Sit, SIT_MIN_MS, SIT_MAX_MS, PetMood::Calm)
    } else if roll <= 86 {
        (AnimationId::Blink, BLINK_MIN_MS, BLINK_MAX_MS, PetMood::Calm)
    } else if roll <= 94 {
        (AnimationId::Dance, DANCE_MIN_MS, DANCE_MAX_MS, PetMood::Happy)
    } else {
        (AnimationId::Sleep, SLEEP_MIN_MS, SLEEP_MAX_MS, PetMood::Sleepy)
    }
}

/// Rolls below this start a walk.
pub open spec fn walk_roll_limit() -> u64 {
    32
}

pub open spec fn signum(v: int) -> int {
    if v > 0 { 1 } else if v < 0 { -1 } else { 0 }
}

/// Pixels walked in `dt_ms` milliseconds.
pub open spec fn walk_step(dt_ms: u64) -> int {
    WALK_VELOCITY_PX_PER_SEC * dt_ms / 1000
}

/// The abstract state of a pet.
pub struct BrainState {
    pub snapshot: PetSnapshot,
    pub rng: u64,
    pub next_ambient_ms: u64,
    pub action_until_ms: u64,
    pub poke_cooldown_until_ms: u64,
    pub last_tick_ms: Option<u64>,
    pub walk_dx: i32,
    pub walk_dy: i32,
    pub first_ambient: bool,
    pub particles: Seq<HeartParticle>,
}

/// A heart whose motion over the rest of its life stays within the integer range.
pub open spec fn heart_in_range(p: HeartParticle) -> bool {
    &&& p.age_ms < p.lifetime_ms < 1_700
    &&& -4_500 <= p.vx <= 4_500
    &&& -27_000 - 8 * p.age_ms <= p.vy <= 0
    &&& -10_000_000_000_000_000 - 4_500 * p.age_ms <= p.x <= 10_000_000_000_000_000 + 4_500 * p.age_ms
    &&& -10_000_000_000_000_000 - 50_000 * p.age_ms <= p.y <= 10_000_000_000_000_000 + 50_000 * p.age_ms
}

/// Hearts aged by `dt_ms`, keeping only those still alive, in their order.
pub open spec fn aged_hearts(ps: Seq<HeartParticle>, dt_ms: u64) -> Seq<HeartParticle>
    decreases ps.len(),
{
    if ps.len() == 0 {
        Seq::empty()
    } else {
        let rest = aged_hearts(ps.drop_last(), dt_ms);
        let p = ps.last().ticked(dt_ms);
        if p.alive_spec() { rest.push(p) } else { rest }
    }
}

impl BrainState {
    /// Walking moves along exactly one axis, one pixel step at a time, and every heart
    /// stays within range.
    pub open spec fn wf(self) -> bool {
        &&& ((self.walk_dx == 0 && (self.walk_dy == 1 || self.walk_dy == -1))
            || (self.walk_dy == 0 && (self.walk_dx == 1 || self.walk_dx == -1)))
        &&& forall|i: int| 0 <= i < self.particles.len() ==> #[trigger] heart_in_range(self.particles[i])
    }

    pub open spec fn is_walking(self) -> bool {
        is_walk_animation(self.snapshot.animation)
    }

    /// Switches the animation, restarting its clock only when it changes.
    pub open spec fn with_animation(self, animation: AnimationId, now_ms: u64) -> BrainState {
        if self.snapshot.animation != animation {
            BrainState {
                snapshot: PetSnapshot { animation, animation_started_ms: now_ms, ..self.snapshot },
                ..self
            }
        } else {
            self
        }
    }

    pub open spec fn with_mood(self, mood: PetMood) -> BrainState {
        BrainState { snapshot: PetSnapshot { mood, ..self.snapshot }, ..self }
    }

    /// Draws a walking direction; gives the new state and the walking animation.
    pub open spec fn picked_walk(self) -> (BrainState, AnimationId) {
        let (r, rng) = draw(self.rng, 0, 4);
        let (animation, dx, dy, facing) = walk_for_roll(r);
        (
            BrainState {
                rng,
                walk_dx: dx,
                walk_dy: dy,
                snapshot: PetSnapshot { facing, ..self.snapshot },
                ..self
            },
            animation,
        )
    }

    /// Starts `animation` with `mood` for a drawn duration in `[min, max)`, then schedules
    /// the next ambient action `[AMBIENT_MIN_MS, AMBIENT_MAX_MS)` after `now_ms`.
    pub open spec fn started_action(
        self,
        animation: AnimationId,
        min: u64,
        max: u64,
        mood: PetMood,
        now_ms: u64,
    ) -> BrainState {
        let s = self.with_animation(animation, now_ms).with_mood(mood);
        let (duration, rng1) = draw(s.rng, min, max);
        let (gap, rng2) = draw(rng1, AMBIENT_MIN_MS, AMBIENT_MAX_MS);
        BrainState {
            rng: rng2,
            action_until_ms: sat_add_u64(now_ms, duration),
            next_ambient_ms: sat_add_u64(now_ms, gap),
            ..s
        }
    }

    /// The ambient action picked at `now_ms`: the first is always a walk; later ones are
    /// rolled from a table of walks and quiet actions.
    pub open spec fn ambient(self, now_ms: u64) -> BrainState {
        if self.first_ambient {
            let (s, animation) = BrainState { first_ambient: false, ..self }.picked_walk();
            s.started_action(animation, WALK_MIN_MS, WALK_MAX_MS, PetMood::Calm, now_ms)
        } else {
            let (roll, rng) = draw(self.rng, 0, 100);
            let s = BrainState { rng, ..self };
            if roll < walk_roll_limit() {
                let (s2, animation) = s.picked_walk();
                s2.started_action(animation, WALK_MIN_MS, WALK_MAX_MS, PetMood::Calm, now_ms)
            } else {
                let (animation, min, max, mood) = quiet_action_for_roll(roll);
                s.started_action(animation, min, max, mood, now_ms)
            }
        }
    }

    /// Any finished action gives way to a calm idle.
    pub open spec fn expired(self, now_ms: u64) -> BrainState {
        if now_ms >= self.action_until_ms && self.snapshot.animation != AnimationId::Idle {
            self.with_animation(AnimationId::Idle, now_ms).with_mood(PetMood::Calm)
        } else {
            self
        }
    }

    /// After a bounce, the walking animation follows the direction.
    pub open spec fn redirected(self, now_ms: u64) -> BrainState {
        self.with_animation(walk_animation_for(self.walk_dx, self.walk_dy), now_ms)
    }

    /// One step of movement: a walk advances and bounces off the edges; otherwise the
    /// pet is pulled back inside the bounds.
    pub open spec fn moved(self, dt_ms: u64, bounds: Bounds, now_ms: u64) -> BrainState {
        if self.is_walking() {
            let step = walk_step(dt_ms);
            let x = self.snapshot.x + step * self.walk_dx;
            let y = self.snapshot.y + step * self.walk_dy;
            let s1 = BrainState { snapshot: PetSnapshot { x: x as i32, y: y as i32, ..self.snapshot }, ..self };
            let s2 = if x <= bounds.left || x >= bounds.max_x_spec() {
                let dx = -s1.walk_dx;
                BrainState {
                    walk_dx: dx as i32,
                    snapshot: PetSnapshot {
                        facing: signum(dx) as i32,
                        x: bounds.clamp_x_spec(x) as i32,
                        ..s1.snapshot
                    },
                    ..s1
                }.redirected(now_ms)
            } else {
                s1
            };
            if y <= bounds.top || y >= bounds.max_y_spec() {
                let dy = -s2.walk_dy;
                BrainState {
                    walk_dy: dy as i32,
                    snapshot: PetSnapshot { y: bounds.clamp_y_spec(y) as i32, ..s2.snapshot },
                    ..s2
                }.redirected(now_ms)
            } else {
                s2
            }
        } else {
            BrainState {
                snapshot: PetSnapshot {
                    x: bounds.clamp_x_spec(self.snapshot.x as int) as i32,
                    y: bounds.clamp_y_spec(self.snapshot.y as int) as i32,
                    ..self.snapshot
                },
                ..self
            }
        }
    }

    /// Milliseconds a tick at `now_ms` advances by: the time since the last tick (16 on
    /// the first), at most 250.
    pub open spec fn tick_dt(self, now_ms: u64) -> u64 {
        let raw = match self.last_tick_ms {
            Some(last) => sat_sub_u64(now_ms, last),
            None => 16,
        };
        if raw < 250 { raw } else { 250 }
    }

    /// The whole state after a tick at `now_ms`.
    pub open spec fn ticked(self, now_ms: u64, bounds: Bounds) -> BrainState {
        let dt = self.tick_dt(now_ms);
        let s = BrainState {
            last_tick_ms: Some(now_ms),
            particles: aged_hearts(self.particles, dt),
            ..self
        };
        if s.snapshot.paused {
            s
        } else {
            let s1 = s.expired(now_ms);
            let s2 = if now_ms >= s1.next_ambient_ms && now_ms >= s1.action_until_ms {
                s1.ambient(now_ms)
            } else {
                s1
            };
            s2.moved(dt, bounds, now_ms)
        }
    }

    /// What a tick needs: a pet that is paused, or bounds whose free spans fit in `i32`.
    pub open spec fn can_tick(self, now_ms: u64, bounds: Bounds) -> bool {
        self.snapshot.paused || bounds.wf()
    }

    pub open spec fn knockdown_active(self, now_ms: u64) -> bool {
        self.snapshot.animation == AnimationId::Poke && now_ms < self.action_until_ms
    }

    pub open spec fn knocked_down(self, now_ms: u64) -> BrainState {
        BrainState {
            action_until_ms: (now_ms + KNOCKDOWN_DURATION_MS) as u64,
            ..self.with_animation(AnimationId::Poke, now_ms).with_mood(PetMood::Calm)
        }
    }

    /// A poke knocks the pet down unless it comes during the cooldown of the last one.
    pub open spec fn poked(self, now_ms: u64) -> (BrainState, bool) {
        if now_ms < self.poke_cooldown_until_ms {
            (self, false)
        } else {
            (
                BrainState {
                    poke_cooldown_until_ms: (now_ms + POKE_COOLDOWN_MS) as u64,
                    ..self.knocked_down(now_ms)
                },
                true,
            )
        }
    }

    pub open spec fn drag_begun(self, now_ms: u64) -> BrainState {
        BrainState {
            action_until_ms: (now_ms + DRAG_HOLD_MS) as u64,
            ..self.with_animation(AnimationId::Idle, now_ms).with_mood(PetMood::Calm)
        }
    }

    pub open spec fn with_position(self, x: int, y: int) -> BrainState {
        BrainState { snapshot: PetSnapshot { x: x as i32, y: y as i32, ..self.snapshot }, ..self }
    }

    /// The walking direction that a restored animation implies.
    pub open spec fn directed_for(self, animation: AnimationId) -> BrainState {
        if animation == AnimationId::Walk || animation == AnimationId::WalkDown {
            BrainState { walk_dx: 0, walk_dy: 1, snapshot: PetSnapshot { facing: 1, ..self.snapshot }, ..self }
        } else if animation == AnimationId::WalkUp {
            BrainState { walk_dx: 0, walk_dy: -1i32, snapshot: PetSnapshot { facing: -1i32, ..self.snapshot }, ..self }
        } else if animation == AnimationId::WalkLeft {
            BrainState { walk_dx: -1i32, walk_dy: 0, snapshot: PetSnapshot { facing: -1i32, ..self.snapshot }, ..self }
        } else if animation == AnimationId::WalkRight {
            BrainState { walk_dx: 1, walk_dy: 0, snapshot: PetSnapshot { facing: 1, ..self.snapshot }, ..self }
        } else {
            self
        }
    }
}

/// The `i`-th heart of a stroke, drawn from the generator at `rng`: its spawn point,
/// sprite frame, sideways spread, rising speed and lifetime, in that order.
pub open spec fn heart_at(rng: u64, i: int, snapshot: PetSnapshot, m: ManifestView) -> (HeartParticle, u64) {
    let (spawn_index, r1) = draw(rng, 0, m.heart_spawn_points.len() as u64);
    let (frame_index, r2) = draw(r1, 0, m.heart_frames.len() as u64);
    let (spread_roll, r3) = draw(r2, 0, 21);
    let (rise_roll, r4) = draw(r3, 0, 10);
    let (life_roll, r5) = draw(r4, 0, 400);
    let spawn = m.heart_spawn_points[spawn_index as int];
    let spread = spread_roll - 10;
    (
        HeartParticle {
            x: ((snapshot.x + spawn.x + spread) * MICROS_PER_PIXEL) as i64,
            y: ((snapshot.y + spawn.y - 2 * i) * MICROS_PER_PIXEL) as i64,
            vx: (450 * spread) as i64,
            vy: (-(18 + rise_roll) * MILLIS_PER_PIXEL) as i64,
            age_ms: 0,
            lifetime_ms: (1_300 + life_roll) as u64,
            frame: m.heart_frames[frame_index as int],
        },
        r5,
    )
}

/// The first `n` hearts of a stroke and the generator state after them.
pub open spec fn spawned_hearts(rng: u64, n: nat, snapshot: PetSnapshot, m: ManifestView) -> (
    Seq<HeartParticle>,
    u64,
)
    decreases n,
{
    if n == 0 {
        (Seq::empty(), rng)
    } else {
        let (hearts, r) = spawned_hearts(rng, (n - 1) as nat, snapshot, m);
        let (heart, r2) = heart_at(r, n - 1, snapshot, m);
        (hearts.push(heart), r2)
    }
}

impl BrainState {
    /// A stroke makes the pet happy for a while and releases three to five hearts,
    /// unless the pet is knocked down.
    pub open spec fn stroked(self, now_ms: u64, m: ManifestView) -> (BrainState, usize) {
        if self.knockdown_active(now_ms) {
            (self, 0)
        } else {
            let s = self.with_animation(AnimationId::Happy, now_ms).with_mood(PetMood::Happy);
            let (count, rng) = draw(s.rng, 3, 6);
            let (hearts, rng2) = spawned_hearts(rng, count as nat, s.snapshot, m);
            (
                BrainState {
                    action_until_ms: (now_ms + STROKE_DURATION_MS) as u64,
                    rng: rng2,
                    particles: s.particles + hearts,
                    ..s
                },
                count as usize,
            )
        }
    }

    /// The sheet frame showing at `now_ms`: the current animation's frame for the time since
    /// it started, or 0 if it has none.
    pub open spec fn frame_at(self, m: ManifestView, now_ms: u64) -> u16 {
        match m.animation_of(self.snapshot.animation).unwrap().frame_at_spec(
            sat_sub_u64(now_ms, self.snapshot.animation_started_ms),
        ) {
            Some(frame) => frame,
            None => 0,
        }
    }
}

/// The state of a freshly seeded pet.
pub open spec fn fresh_state(seed: u64) -> BrainState {
    let (first, rng) = draw(seed | 1, FIRST_AMBIENT_MIN_MS, FIRST_AMBIENT_MAX_MS);
    BrainState {
        snapshot: PetSnapshot {
            x: 32,
            y: 32,
            animation: AnimationId::Idle,
            mood: PetMood::Calm,
            facing: 1,
            paused: false,
            animation_started_ms: 0,
        },
        rng,
        next_ambient_ms: first,
        action_until_ms: 0,
        poke_cooldown_until_ms: 0,
        last_tick_ms: None,
        walk_dx: 1,
        walk_dy: 0,
        first_ambient: true,
        particles: Seq::empty(),
    }
}

/// The pet's behaviour: ambient actions, walking, reactions to pokes and strokes.
#[derive(Clone, Debug)]
pub struct PetBrain {
    snapshot: PetSnapshot,
    rng: TinyRng,
    next_ambient_ms: u64,
    action_until_ms: u64,
    poke_cooldown_until_ms: u64,
    last_tick_ms: Option<u64>,
    walk_velocity: i32,
    walk_dx: i32,
    walk_dy: i32,
    first_ambient: bool,
    particles: Vec<HeartParticle>,
}

impl View for PetBrain {
    type V = BrainState;

    closed spec fn view(&self) -> BrainState {
        BrainState {
            snapshot: self.snapshot,
            rng: self.rng.state,
            next_ambient_ms: self.next_ambient_ms,
            action_until_ms: self.action_until_ms,
            poke_cooldown_until_ms: self.poke_cooldown_until_ms,
            last_tick_ms: self.last_tick_ms,
            walk_dx: self.walk_dx,
            walk_dy: self.walk_dy,
            first_ambient: self.first_ambient,
            particles: self.particles@,
        }
    }
}

impl PetBrain {
    /// The brain's invariant: its abstract state is well formed and it walks at the
    /// fixed speed.
    pub closed spec fn inv(&self) -> bool {
        &&& self@.wf()
        &&& self.walk_velocity == WALK_VELOCITY_PX_PER_SEC
    }

    /// A brain that keeps its invariant has a well-formed state: among other things, every
    /// heart lives less than 1.7 s and stays within range.
    pub proof fn lemma_state_wf(&self)
        requires
            self.inv(),
        ensures
            self@.wf(),
    {
    }

    pub fn new(seed: u64) -> (brain: Self)
        ensures
            brain.inv(),
            brain@ == fresh_state(seed),
    {
        let mut rng = TinyRng::new(seed);
        let next_ambient_ms = rng.range(FIRST_AMBIENT_MIN_MS, FIRST_AMBIENT_MAX_MS);
        Self {
            snapshot: PetSnapshot {
                x: 32,
                y: 32,
                animation: AnimationId::Idle,
                mood: PetMood::Calm,
                facing: 1,
                paused: false,
                animation_started_ms: 0,
            },
            rng,
            next_ambient_ms,
            action_until_ms: 0,
            poke_cooldown_until_ms: 0,
            last_tick_ms: None,
            walk_velocity: WALK_VELOCITY_PX_PER_SEC,
            walk_dx: 1,
            walk_dy: 0,
            first_ambient: true,
            particles: Vec::new(),
        }
    }

    pub fn from_config(
        seed: u64,
        position: Option<(i32, i32)>,
        animation: AnimationId,
        mood: PetMood,
        paused: bool,
    ) -> (brain: Self)
        ensures
            brain.inv(),
            brain@ == ({
                let s = fresh_state(seed);
                let s1 = match position {
                    Some((x, y)) => s.with_position(x as int, y as int),
                    None => s,
                };
                BrainState {
                    snapshot: PetSnapshot { animation, mood, paused, ..s1.snapshot },
                    ..s1
                }.directed_for(animation)
            }),
    {
        let mut brain = Self::new(seed);
        if let Some((x, y)) = position {
            brain.snapshot.x = x;
            brain.snapshot.y = y;
        }
        brain.snapshot.animation = animation;
        brain.snapshot.mood = mood;
        brain.snapshot.paused = paused;
        brain.apply_direction_for_animation(animation);
        brain
    }

    pub fn snapshot(&self) -> (s: PetSnapshot)
        ensures
            s == self@.snapshot,
    {
        self.snapshot
    }

    pub fn particles(&self) -> (ps: &[HeartParticle])
        ensures
            ps@ == self@.particles,
    {
        self.particles.as_slice()
    }

    pub fn set_paused(&mut self, paused: bool)
        requires
            old(self).inv(),
        ensures
            final(self).inv(),
            final(self)@ == (BrainState { snapshot: PetSnapshot { paused, ..old(self)@.snapshot }, ..old(self)@ }),
    {
        self.snapshot.paused = paused;
    }

    pub fn toggle_paused(&mut self)
        requires
            old(self).inv(),
        ensures
            final(self).inv(),
            final(self)@ == (BrainState {
                snapshot: PetSnapshot { paused: !old(self)@.snapshot.paused, ..old(self)@.snapshot },
                ..old(self)@
            }),
    {
        self.snapshot.paused = !self.snapshot.paused;
    }

    pub fn reset_position(&mut self, bounds: Bounds)
        requires
            old(self).inv(),
            bounds.wf(),
            bounds.left + 24 <= i32::MAX,
            bounds.max_y_spec() - 24 >= i32::MIN,
        ensures
            final(self).inv(),
            final(self)@ == old(self)@.with_position(
                bounds.clamp_x_spec(bounds.left + 24),
                bounds.clamp_y_spec(bounds.max_y_spec() - 24),
            ),
    {
        self.snapshot.x = bounds.clamp_x(bounds.left + 24);
        self.snapshot.y = bounds.clamp_y(bounds.max_y() - 24);
    }

    pub fn set_position(&mut self, x: i32, y: i32, bounds: Bounds)
        requires
            old(self).inv(),
            bounds.wf(),
        ensures
            final(self).inv(),
            final(self)@ == old(self)@.with_position(bounds.clamp_x_spec(x as int), bounds.clamp_y_spec(y as int)),
    {
        self.snapshot.x = bounds.clamp_x(x);
        self.snapshot.y = bounds.clamp_y(y);
    }

    pub fn begin_drag(&mut self, now_ms: u64)
        requires
            old(self).inv(),
            now_ms + DRAG_HOLD_MS <= u64::MAX,
        ensures
            final(self).inv(),
            final(self)@ == old(self)@.drag_begun(now_ms),
    {
        self.set_animation(AnimationId::Idle, now_ms);
        self.snapshot.mood = PetMood::Calm;
        self.action_until_ms = now_ms + DRAG_HOLD_MS;
    }

    /// Ages every heart by `dt_ms` and drops those whose lifetime is over.
    fn age_particles(&mut self, dt_ms: u64)
        requires
            old(self).inv(),
            dt_ms <= 250,
        ensures
            final(self).inv(),
            final(self)@ == (BrainState { particles: aged_hearts(old(self)@.particles, dt_ms), ..old(self)@ }),
    {
        let mut kept: Vec<HeartParticle> = Vec::new();
        let n = self.particles.len();
        let ghost ps = self.particles@;
        for i in 0..n
            invariant
                n == ps.len(),
                ps == self.particles@,
                dt_ms <= 250,
                kept@ == aged_hearts(ps.take(i as int), dt_ms),
                forall|j: int| 0 <= j < ps.len() ==> #[trigger] heart_in_range(ps[j]),
                forall|j: int| 0 <= j < kept@.len() ==> #[trigger] heart_in_range(kept@[j]),
        {
            let mut p = self.particles[i];
            proof {
                lemma_heart_step(p, dt_ms);
                assert(ps.take(i + 1).drop_last() == ps.take(i as int));
                assert(ps.take(i + 1).last() == p);
            }
            p.tick(dt_ms);
            if p.alive() {
                kept.push(p);
            }
        }
        proof {
            assert(ps.take(n as int) == ps);
        }
        self.particles = kept;
    }

    pub fn tick(&mut self, now_ms: u64, bounds: Bounds)
        requires
            old(self).inv(),
            old(self)@.can_tick(now_ms, bounds),
        ensures
            final(self).inv(),
            final(self)@ == old(self)@.ticked(now_ms, bounds),
    {
        let raw = match self.last_tick_ms {
            Some(last) => if now_ms < last { 0 } else { now_ms - last },
            None => 16,
        };
        let dt_ms = if raw < 250 { raw } else { 250 };
        self.last_tick_ms = Some(now_ms);
        self.age_particles(dt_ms);

        if self.snapshot.paused {
            return;
        }

        if now_ms >= self.action_until_ms && matches!(
            self.snapshot.animation,
            AnimationId::Blink | AnimationId::Walk | AnimationId::WalkDown | AnimationId::WalkUp
                | AnimationId::WalkLeft | AnimationId::WalkRight | AnimationId::Sit | AnimationId::Sleep
                | AnimationId::Happy | AnimationId::Poke | AnimationId::Dance
        ) {
            self.set_animation(AnimationId::Idle, now_ms);
            self.snapshot.mood = PetMood::Calm;
        }

        if now_ms >= self.next_ambient_ms && now_ms >= self.action_until_ms {
            self.pick_ambient(now_ms);
        }

        self.walk_or_settle(dt_ms, bounds, now_ms);
    }

    fn walk_or_settle(&mut self, dt_ms: u64, bounds: Bounds, now_ms: u64)
        requires
            old(self).inv(),
            dt_ms <= 250,
            bounds.wf(),
        ensures
            final(self).inv(),
            final(self)@ == old(self)@.moved(dt_ms, bounds, now_ms),
    {
        if self.is_walking() {
            let step = self.walk_velocity as i64 * dt_ms as i64 / 1000;
            assert(step == walk_step(dt_ms) && 0 <= step <= 14);
            assert(step * self.walk_dx == step || step * self.walk_dx == -step || step * self.walk_dx == 0)
                by (nonlinear_arith)
                requires self.walk_dx == 0 || self.walk_dx == 1 || self.walk_dx == -1;
            assert(step * self.walk_dy == step || step * self.walk_dy == -step || step * self.walk_dy == 0)
                by (nonlinear_arith)
                requires self.walk_dy == 0 || self.walk_dy == 1 || self.walk_dy == -1;
            let x = self.snapshot.x as i64 + step * self.walk_dx as i64;
            let y = self.snapshot.y as i64 + step * self.walk_dy as i64;
            let left = bounds.left as i64;
            let max_x = bounds.max_x() as i64;
            let top = bounds.top as i64;
            let max_y = bounds.max_y() as i64;
            if x <= left || x >= max_x {
                assert(-1 <= self.walk_dx <= 1);
                self.walk_dx = -self.walk_dx;
                self.snapshot.facing = signum_i32(self.walk_dx);
                self.snapshot.x = (if x < left { left } else if x > max_x { max_x } else { x }) as i32;
                self.apply_walk_animation_for_direction(now_ms);
            } else {
                self.snapshot.x = x as i32;
            }
            if y <= top || y >= max_y {
                assert(-1 <= self.walk_dy <= 1);
                self.walk_dy = -self.walk_dy;
                self.snapshot.y = (if y < top { top } else if y > max_y { max_y } else { y }) as i32;
                self.apply_walk_animation_for_direction(now_ms);
            } else {
                self.snapshot.y = y as i32;
            }
        } else {
            self.snapshot.x = bounds.clamp_x(self.snapshot.x);
            self.snapshot.y = bounds.clamp_y(self.snapshot.y);
        }
    }

    pub fn poke(&mut self, now_ms: u64) -> (accepted: bool)
        requires
            old(self).inv(),
            now_ms >= old(self)@.poke_cooldown_until_ms ==> now_ms + KNOCKDOWN_DURATION_MS <= u64::MAX,
        ensures
            final(self).inv(),
            (final(self)@, accepted) == old(self)@.poked(now_ms),
    {
        if now_ms < self.poke_cooldown_until_ms {
            return false;
        }
        self.knockdown(now_ms);
        self.poke_cooldown_until_ms = now_ms + POKE_COOLDOWN_MS;
        true
    }

    pub fn knockdown(&mut self, now_ms: u64)
        requires
            old(self).inv(),
            now_ms + KNOCKDOWN_DURATION_MS <= u64::MAX,
        ensures
            final(self).inv(),
            final(self)@ == old(self)@.knocked_down(now_ms),
    {
        self.set_animation(AnimationId::Poke, now_ms);
        self.snapshot.mood = PetMood::Calm;
        self.action_until_ms = now_ms + KNOCKDOWN_DURATION_MS;
    }

    pub fn is_knockdown_active(&self, now_ms: u64) -> (active: bool)
        ensures
            active == self@.knockdown_active(now_ms),
    {
        self.snapshot.animation == AnimationId::Poke && now_ms < self.action_until_ms
    }

    pub fn stroke(&mut self, now_ms: u64, manifest: &AssetManifest) -> (count: usize)
        requires
            old(self).inv(),
            now_ms + STROKE_DURATION_MS <= u64::MAX,
            manifest@.heart_spawn_points.len() > 0,
            manifest@.heart_frames.len() > 0,
        ensures
            final(self).inv(),
            (final(self)@, count) == old(self)@.stroked(now_ms, manifest@),
    {
        if self.is_knockdown_active(now_ms) {
            return 0;
        }
        self.set_animation(AnimationId::Happy, now_ms);
        self.snapshot.mood = PetMood::Happy;
        self.action_until_ms = now_ms + STROKE_DURATION_MS;
        let count = self.rng.range(3, 6) as usize;
        self.spawn_hearts(count, manifest);
        count
    }

    fn spawn_hearts(&mut self, count: usize, manifest: &AssetManifest)
        requires
            old(self).inv(),
            count <= 5,
            manifest@.heart_spawn_points.len() > 0,
            manifest@.heart_frames.len() > 0,
        ensures
            final(self).inv(),
            ({
                let (hearts, rng) = spawned_hearts(old(self)@.rng, count as nat, old(self)@.snapshot, manifest@);
                final(self)@ == BrainState { rng, particles: old(self)@.particles + hearts, ..old(self)@ }
            }),
    {
        let ghost start = self@;
        let spawn_len = manifest.heart_spawn_points.len();
        let frames_len = manifest.heart_frames.len();
        for i in 0..count
            invariant
                self.inv(),
                count <= 5,
                spawn_len == manifest@.heart_spawn_points.len() > 0,
                frames_len == manifest@.heart_frames.len() > 0,
                ({
                    let (hearts, rng) = spawned_hearts(start.rng, i as nat, start.snapshot, manifest@);
                    self@ == BrainState { rng, particles: start.particles + hearts, ..start }
                }),
        {
            let ghost before = self@;
            let spawn_index = self.rng.range(0, spawn_len as u64);
            let spawn = manifest.heart_spawn_points[spawn_index as usize];
            let frame_index = self.rng.range(0, frames_len as u64);
            let frame = manifest.heart_frames[frame_index as usize];
            let spread: i64 = self.rng.range(0, 21) as i64 - 10;
            let rise = self.rng.range(0, 10);
            let lifetime = 1_300 + self.rng.range(0, 400);
            let heart = HeartParticle {
                x: ((self.snapshot.x as i64) + (spawn.x as i64) + spread) * MICROS_PER_PIXEL,
                y: ((self.snapshot.y as i64) + (spawn.y as i64) - 2 * (i as i64)) * MICROS_PER_PIXEL,
                vx: 450 * spread,
                vy: -(18 + rise as i64) * MILLIS_PER_PIXEL,
                age_ms: 0,
                lifetime_ms: lifetime,
                frame,
            };
            proof {
                let (hearts, rng) = spawned_hearts(start.rng, i as nat, start.snapshot, manifest@);
                assert(heart_at(rng, i as int, start.snapshot, manifest@) == (heart, self.rng.state));
                assert(heart_in_range(heart));
            }
            self.particles.push(heart);
            proof {
                let (hearts, rng) = spawned_hearts(start.rng, i as nat, start.snapshot, manifest@);
                assert(start.particles + hearts.push(heart) =~= (start.particles + hearts).push(heart));
                assert forall|j: int| 0 <= j < self@.particles.len() implies #[trigger] heart_in_range(self@.particles[j]) by {
                    if j < before.particles.len() {
                        assert(self@.particles[j] == before.particles[j]);
                    }
                }
            }
        }
    }

    /// The sheet frame to draw at `now_ms`.
    pub fn current_frame(&self, manifest: &AssetManifest, now_ms: u64) -> (frame: u16)
        requires
            manifest@.animation_of(self@.snapshot.animation) is Some,
            manifest@.animation_of(self@.snapshot.animation).unwrap().total_spec() <= u64::MAX,
        ensures
            frame == self@.frame_at(manifest@, now_ms),
    {
        let animation = manifest.animation(self.snapshot.animation);
        let elapsed = if now_ms < self.snapshot.animation_started_ms {
            0
        } else {
            now_ms - self.snapshot.animation_started_ms
        };
        match animation.frame_at(elapsed) {
            Some(frame) => frame,
            None => 0,
        }
    }

    fn set_animation(&mut self, animation: AnimationId, now_ms: u64)
        requires
            old(self).inv(),
        ensures
            final(self).inv(),
            final(self)@ == old(self)@.with_animation(animation, now_ms),
    {
        if self.snapshot.animation != animation {
            self.snapshot.animation = animation;
            self.snapshot.animation_started_ms = now_ms;
        }
    }

    /// When the next ambient action is due.
    pub fn next_ambient_ms(&self) -> (t: u64)
        ensures
            t == self@.next_ambient_ms,
    {
        self.next_ambient_ms
    }

    /// Until when the current action holds.
    pub fn action_until_ms(&self) -> (t: u64)
        ensures
            t == self@.action_until_ms,
    {
        self.action_until_ms
    }

    /// Schedules the next ambient action.
    pub fn set_next_ambient_ms(&mut self, at_ms: u64)
        requires
            old(self).inv(),
        ensures
            final(self).inv(),
            final(self)@ == (BrainState { next_ambient_ms: at_ms, ..old(self)@ }),
    {
        self.next_ambient_ms = at_ms;
    }

    /// Sets whether the next ambient action is the first one, which is always a walk.
    pub fn set_first_ambient(&mut self, first: bool)
        requires
            old(self).inv(),
        ensures
            final(self).inv(),
            final(self)@ == (BrainState { first_ambient: first, ..old(self)@ }),
    {
        self.first_ambient = first;
    }

    /// Puts the pet at `(x, y)` as given, without clamping.
    pub fn place(&mut self, x: i32, y: i32)
        requires
            old(self).inv(),
        ensures
            final(self).inv(),
            final(self)@ == old(self)@.with_position(x as int, y as int),
    {
        self.snapshot.x = x;
        self.snapshot.y = y;
    }

    pub fn is_walking(&self) -> (r: bool)
        ensures
            r == self@.is_walking(),
    {
        match self.snapshot.animation {
            AnimationId::Walk | AnimationId::WalkDown | AnimationId::WalkUp | AnimationId::WalkLeft
            | AnimationId::WalkRight => true,
            _ => false,
        }
    }

    fn pick_walk_direction(&mut self) -> (animation: AnimationId)
        requires
            old(self).inv(),
        ensures
            final(self).inv(),
            (final(self)@, animation) == old(self)@.picked_walk(),
    {
        let r = self.rng.range(0, 4);
        assert(self@.particles == old(self)@.particles);
        if r == 0 {
            self.walk_dx = 0;
            self.walk_dy = 1;
            self.snapshot.facing = 1;
            AnimationId::WalkDown
        } else if r == 1 {
            self.walk_dx = 0;
            self.walk_dy = -1;
            self.snapshot.facing = -1;
            AnimationId::WalkUp
        } else if r == 2 {
            self.walk_dx = -1;
            self.walk_dy = 0;
            self.snapshot.facing = -1;
            AnimationId::WalkLeft
        } else {
            self.walk_dx = 1;
            self.walk_dy = 0;
            self.snapshot.facing = 1;
            AnimationId::WalkRight
        }
    }

    fn apply_walk_animation_for_direction(&mut self, now_ms: u64)
        requires
            old(self).inv(),
        ensures
            final(self).inv(),
            final(self)@ == old(self)@.redirected(now_ms),
    {
        let animation = if self.walk_dx < 0 {
            AnimationId::WalkLeft
        } else if self.walk_dx > 0 {
            AnimationId::WalkRight
        } else if self.walk_dy < 0 {
            AnimationId::WalkUp
        } else {
            AnimationId::WalkDown
        };
        self.set_animation(animation, now_ms);
    }

    fn apply_direction_for_animation(&mut self, animation: AnimationId)
        requires
            old(self).inv(),
        ensures
            final(self).inv(),
            final(self)@ == old(self)@.directed_for(animation),
    {
        match animation {
            AnimationId::Walk | AnimationId::WalkDown => {
                self.walk_dx = 0;
                self.walk_dy = 1;
                self.snapshot.facing = 1;
            },
            AnimationId::WalkUp => {
                self.walk_dx = 0;
                self.walk_dy = -1;
                self.snapshot.facing = -1;
            },
            AnimationId::WalkLeft => {
                self.walk_dx = -1;
                self.walk_dy = 0;
                self.snapshot.facing = -1;
            },
            AnimationId::WalkRight => {
                self.walk_dx = 1;
                self.walk_dy = 0;
                self.snapshot.facing = 1;
            },
            _ => {},
        }
    }

    fn next_ambient_time(&mut self, now_ms: u64) -> (t: u64)
        ensures
            ({
                let (gap, rng) = draw(old(self).rng.state, AMBIENT_MIN_MS, AMBIENT_MAX_MS);
                t == sat_add_u64(now_ms, gap) && final(self).rng.state == rng
            }),
            final(self).snapshot == old(self).snapshot,
            final(self).next_ambient_ms == old(self).next_ambient_ms,
            final(self).action_until_ms == old(self).action_until_ms,
            final(self).poke_cooldown_until_ms == old(self).poke_cooldown_until_ms,
            final(self).last_tick_ms == old(self).last_tick_ms,
            final(self).walk_velocity == old(self).walk_velocity,
            final(self).walk_dx == old(self).walk_dx,
            final(self).walk_dy == old(self).walk_dy,
            final(self).first_ambient == old(self).first_ambient,
            final(self).particles == old(self).particles,
    {
        let gap = self.rng.range(AMBIENT_MIN_MS, AMBIENT_MAX_MS);
        if now_ms > u64::MAX - gap { u64::MAX } else { now_ms + gap }
    }

    fn start_action(&mut self, animation: AnimationId, min: u64, max: u64, mood: PetMood, now_ms: u64)
        requires
            old(self).inv(),
            min < max,
            max <= SLEEP_MAX_MS,
        ensures
            final(self).inv(),
            final(self)@ == old(self)@.started_action(animation, min, max, mood, now_ms),
    {
        self.set_animation(animation, now_ms);
        self.snapshot.mood = mood;
        let duration = self.rng.range(min, max);
        self.action_until_ms = if now_ms > u64::MAX - duration { u64::MAX } else { now_ms + duration };
        self.next_ambient_ms = self.next_ambient_time(now_ms);
    }

    fn pick_ambient(&mut self, now_ms: u64)
        requires
            old(self).inv(),
        ensures
            final(self).inv(),
            final(self)@ == old(self)@.ambient(now_ms),
    {
        if self.first_ambient {
            self.first_ambient = false;
            let animation = self.pick_walk_direction();
            self.start_action(animation, WALK_MIN_MS, WALK_MAX_MS, PetMood::Calm, now_ms);
            return;
        }
        let roll = self.rng.range(0, 100);
        if roll <= 31 {
            let animation = self.pick_walk_direction();
            self.start_action(animation, WALK_MIN_MS, WALK_MAX_MS, PetMood::Calm, now_ms);
        } else if roll <= 55 {
            self.start_action(AnimationId::Idle, IDLE_MIN_MS, IDLE_MAX_MS, PetMood::Calm, now_ms);
        } else if roll <= 73 {
            self.start_action(AnimationId::Sit, SIT_MIN_MS, SIT_MAX_MS, PetMood::Calm, now_ms);
        } else if roll <= 86 {
            self.start_action(AnimationId::Blink, BLINK_MIN_MS, BLINK_MAX_MS, PetMood::Calm, now_ms);
        } else if roll <= 94 {
            self.start_action(AnimationId::Dance, DANCE_MIN_MS, DANCE_MAX_MS, PetMood::Happy, now_ms);
        } else {
            self.start_action(AnimationId::Sleep, SLEEP_MIN_MS, SLEEP_MAX_MS, PetMood::Sleepy, now_ms);
        }
    }
}

impl Default for PetBrain {
    fn default() -> (brain: Self)
        ensures
            brain.inv(),
            brain@ == fresh_state(DEFAULT_SEED),
    {
        Self::new(DEFAULT_SEED)
    }
}


/// A started action ends within its duration range and the next ambient action falls in
/// the ambient range; place, walking direction and hearts are kept.
proof fn lemma_started_action(s: BrainState, animation: AnimationId, min: u64, max: u64, mood: PetMood, now_ms: u64)
    requires
        min < max,
    ensures
        ({
            let t = s.started_action(animation, min, max, mood, now_ms);
            &&& now_ms + min <= t.action_until_ms < now_ms + max || now_ms + max > u64::MAX
            &&& now_ms + AMBIENT_MIN_MS <= t.next_ambient_ms < now_ms + AMBIENT_MAX_MS || now_ms + AMBIENT_MAX_MS > u64::MAX
            &&& t.snapshot.animation == animation
            &&& t.snapshot.mood == mood
            &&& t.snapshot.x == s.snapshot.x
            &&& t.snapshot.y == s.snapshot.y
            &&& t.snapshot.paused == s.snapshot.paused
            &&& t.walk_dx == s.walk_dx
            &&& t.walk_dy == s.walk_dy
            &&& t.particles == s.particles
            &&& t.first_ambient == s.first_ambient
        }),
{
    let s1 = s.with_animation(animation, now_ms).with_mood(mood);
    lemma_draw_in_range(s1.rng, min, max);
    let (_, rng1) = draw(s1.rng, min, max);
    lemma_draw_in_range(rng1, AMBIENT_MIN_MS, AMBIENT_MAX_MS);
}

/// A picked walk moves along one axis and keeps position and hearts.
proof fn lemma_picked_walk(s: BrainState)
    ensures
        ({
            let (t, animation) = s.picked_walk();
            &&& is_walk_animation(animation)
            &&& ((t.walk_dx == 0 && (t.walk_dy == 1 || t.walk_dy == -1)) || (t.walk_dy == 0 && (t.walk_dx == 1 || t.walk_dx == -1)))
            &&& t.snapshot.x == s.snapshot.x
            &&& t.snapshot.y == s.snapshot.y
            &&& t.snapshot.paused == s.snapshot.paused
            &&& t.snapshot.animation == s.snapshot.animation
            &&& t.particles == s.particles
            &&& t.first_ambient == s.first_ambient
        }),
{
}

/// An ambient action keeps the pet where it is, keeps its hearts and its walking
/// discipline, and schedules the next one 12 to 32 seconds later.
pub proof fn lemma_ambient_schedule(s: BrainState, now_ms: u64)
    requires
        s.wf(),
        now_ms + SLEEP_MAX_MS <= u64::MAX,
    ensures
        ({
            let t = s.ambient(now_ms);
            &&& t.wf()
            &&& now_ms + AMBIENT_MIN_MS <= t.next_ambient_ms < now_ms + AMBIENT_MAX_MS
            &&& t.snapshot.x == s.snapshot.x
            &&& t.snapshot.y == s.snapshot.y
            &&& t.snapshot.paused == s.snapshot.paused
            &&& t.particles == s.particles
            &&& !t.first_ambient
        }),
{
    if s.first_ambient {
        let s0 = BrainState { first_ambient: false, ..s };
        lemma_picked_walk(s0);
        let (s1, a) = s0.picked_walk();
        lemma_started_action(s1, a, WALK_MIN_MS, WALK_MAX_MS, PetMood::Calm, now_ms);
    } else {
        let (roll, rng) = draw(s.rng, 0, 100);
        let s0 = BrainState { rng, ..s };
        if roll < walk_roll_limit() {
            lemma_picked_walk(s0);
            let (s1, a) = s0.picked_walk();
            lemma_started_action(s1, a, WALK_MIN_MS, WALK_MAX_MS, PetMood::Calm, now_ms);
        } else {
            let (a, min, max, mood) = quiet_action_for_roll(roll);
            lemma_started_action(s0, a, min, max, mood, now_ms);
        }
    }
}

/// The first ambient action is always a walk.
pub proof fn lemma_first_ambient_walks(s: BrainState, now_ms: u64)
    requires
        s.first_ambient,
    ensures
        s.ambient(now_ms).is_walking(),
        !s.ambient(now_ms).first_ambient,
{
    let s0 = BrainState { first_ambient: false, ..s };
    lemma_picked_walk(s0);
    let (s1, a) = s0.picked_walk();
    lemma_started_action(s1, a, WALK_MIN_MS, WALK_MAX_MS, PetMood::Calm, now_ms);
}

/// Later ambient actions that rest last as long as their kind says: idling 8 to 18 s,
/// sitting 22 to 48 s, sleeping 65 to 145 s.
pub proof fn lemma_quiet_actions_linger(s: BrainState, now_ms: u64)
    requires
        !s.first_ambient,
        now_ms + SLEEP_MAX_MS <= u64::MAX,
    ensures
        ({
            let t = s.ambient(now_ms);
            &&& t.snapshot.animation == AnimationId::Idle ==> now_ms + IDLE_MIN_MS <= t.action_until_ms < now_ms + IDLE_MAX_MS
            &&& t.snapshot.animation == AnimationId::Sit ==> now_ms + SIT_MIN_MS <= t.action_until_ms < now_ms + SIT_MAX_MS
            &&& t.snapshot.animation == AnimationId::Sleep ==> now_ms + SLEEP_MIN_MS <= t.action_until_ms < now_ms + SLEEP_MAX_MS
        }),
{
    let (roll, rng) = draw(s.rng, 0, 100);
    let s0 = BrainState { rng, ..s };
    if roll < walk_roll_limit() {
        lemma_picked_walk(s0);
        let (s1, a) = s0.picked_walk();
        lemma_started_action(s1, a, WALK_MIN_MS, WALK_MAX_MS, PetMood::Calm, now_ms);
    } else {
        let (a, min, max, mood) = quiet_action_for_roll(roll);
        lemma_started_action(s0, a, min, max, mood, now_ms);
    }
}

/// Every later ambient action follows the roll drawn from `[0, 100)` at the pet's generator:
/// rolls below 32 start a calm walk of 3.5 to 7 s; 32 to 55 a calm idle of 8 to 18 s; 56 to
/// 73 a calm sit of 22 to 48 s; 74 to 86 a calm blink of 0.9 to 1.5 s; 87 to 94 a happy
/// dance of 3.6 to 6.4 s; 95 and above a sleepy nap of 65 to 145 s. Each duration is stated
/// where its end fits in `u64`.
pub proof fn lemma_ambient_roll_table(s: BrainState, now_ms: u64)
    requires
        !s.first_ambient,
    ensures
        ({
            let roll = draw(s.rng, 0, 100).0;
            let t = s.ambient(now_ms);
            let d = t.action_until_ms - now_ms;
            &&& roll < 32 ==> t.is_walking() && t.snapshot.mood == PetMood::Calm
                && (now_ms + WALK_MAX_MS <= u64::MAX ==> WALK_MIN_MS <= d < WALK_MAX_MS)
            &&& 32 <= roll <= 55 ==> t.snapshot.animation == AnimationId::Idle && t.snapshot.mood == PetMood::Calm
                && (now_ms + IDLE_MAX_MS <= u64::MAX ==> IDLE_MIN_MS <= d < IDLE_MAX_MS)
            &&& 56 <= roll <= 73 ==> t.snapshot.animation == AnimationId::Sit && t.snapshot.mood == PetMood::Calm
                && (now_ms + SIT_MAX_MS <= u64::MAX ==> SIT_MIN_MS <= d < SIT_MAX_MS)
            &&& 74 <= roll <= 86 ==> t.snapshot.animation == AnimationId::Blink && t.snapshot.mood == PetMood::Calm
                && (now_ms + BLINK_MAX_MS <= u64::MAX ==> BLINK_MIN_MS <= d < BLINK_MAX_MS)
            &&& 87 <= roll <= 94 ==> t.snapshot.animation == AnimationId::Dance && t.snapshot.mood == PetMood::Happy
                && (now_ms + DANCE_MAX_MS <= u64::MAX ==> DANCE_MIN_MS <= d < DANCE_MAX_MS)
            &&& 95 <= roll ==> t.snapshot.animation == AnimationId::Sleep && t.snapshot.mood == PetMood::Sleepy
                && (now_ms + SLEEP_MAX_MS <= u64::MAX ==> SLEEP_MIN_MS <= d < SLEEP_MAX_MS)
        }),
{
    let (roll, rng) = draw(s.rng, 0, 100);
    let s0 = BrainState { rng, ..s };
    if roll < walk_roll_limit() {
        lemma_picked_walk(s0);
        let (s1, a) = s0.picked_walk();
        lemma_started_action(s1, a, WALK_MIN_MS, WALK_MAX_MS, PetMood::Calm, now_ms);
    } else {
        let (a, min, max, mood) = quiet_action_for_roll(roll);
        lemma_started_action(s0, a, min, max, mood, now_ms);
    }
}

/// An ambient walk goes the way its animation shows, and the drawn direction in `[0, 4)`
/// picks it: 0 walks down (facing right), 1 up (facing left), 2 left (facing left), 3
/// right (facing right). The direction is drawn right after the roll, or first thing for
/// the first ambient action.
pub proof fn lemma_ambient_walk_directions(s: BrainState, now_ms: u64)
    ensures
        ({
            let t = s.ambient(now_ms);
            let dir_rng = if s.first_ambient { s.rng } else { draw(s.rng, 0, 100).1 };
            let dir = draw(dir_rng, 0, 4).0;
            &&& t.snapshot.animation == AnimationId::WalkDown ==> t.walk_dx == 0 && t.walk_dy == 1 && t.snapshot.facing == 1
            &&& t.snapshot.animation == AnimationId::WalkUp ==> t.walk_dx == 0 && t.walk_dy == -1 && t.snapshot.facing == -1
            &&& t.snapshot.animation == AnimationId::WalkLeft ==> t.walk_dx == -1 && t.walk_dy == 0 && t.snapshot.facing == -1
            &&& t.snapshot.animation == AnimationId::WalkRight ==> t.walk_dx == 1 && t.walk_dy == 0 && t.snapshot.facing == 1
            &&& (s.first_ambient || draw(s.rng, 0, 100).0 < 32) ==> {
                &&& dir == 0 ==> t.snapshot.animation == AnimationId::WalkDown
                &&& dir == 1 ==> t.snapshot.animation == AnimationId::WalkUp
                &&& dir == 2 ==> t.snapshot.animation == AnimationId::WalkLeft
                &&& dir == 3 ==> t.snapshot.animation == AnimationId::WalkRight
            }
        }),
{
    lemma_draw_in_range(s.rng, 0, 100);
    if s.first_ambient {
        let s0 = BrainState { first_ambient: false, ..s };
        lemma_picked_walk(s0);
        lemma_draw_in_range(s0.rng, 0, 4);
        let (s1, a) = s0.picked_walk();
        lemma_started_action(s1, a, WALK_MIN_MS, WALK_MAX_MS, PetMood::Calm, now_ms);
    } else {
        let (roll, rng) = draw(s.rng, 0, 100);
        let s0 = BrainState { rng, ..s };
        if roll < walk_roll_limit() {
            lemma_picked_walk(s0);
            lemma_draw_in_range(s0.rng, 0, 4);
            let (s1, a) = s0.picked_walk();
            lemma_started_action(s1, a, WALK_MIN_MS, WALK_MAX_MS, PetMood::Calm, now_ms);
        } else {
            let (a, min, max, mood) = quiet_action_for_roll(roll);
            lemma_started_action(s0, a, min, max, mood, now_ms);
        }
    }
}

/// A walking step turns the walk around at the edges it reaches: when the new x reaches or
/// passes the left edge or the largest x, the horizontal direction is negated, the pet
/// faces the new direction and is pulled back within the bounds; likewise the vertical
/// direction at the top edge and the largest y. Without an edge the direction, facing and
/// new coordinate stay as walked. After any turn the walking animation matches the new
/// direction: left, right, up or down.
pub proof fn lemma_walk_bounces(s: BrainState, dt_ms: u64, bounds: Bounds, now_ms: u64)
    requires
        s.wf(),
        s.is_walking(),
    ensures
        ({
            let t = s.moved(dt_ms, bounds, now_ms);
            let x = s.snapshot.x + walk_step(dt_ms) * s.walk_dx;
            let y = s.snapshot.y + walk_step(dt_ms) * s.walk_dy;
            let side = x <= bounds.left || x >= bounds.max_x_spec();
            let end = y <= bounds.top || y >= bounds.max_y_spec();
            &&& side ==> t.walk_dx == -s.walk_dx && t.snapshot.facing == -s.walk_dx
                && bounds.left <= t.snapshot.x <= bounds.max_x_spec()
            &&& !side ==> t.walk_dx == s.walk_dx && t.snapshot.facing == s.snapshot.facing && t.snapshot.x == x
            &&& end ==> t.walk_dy == -s.walk_dy && bounds.top <= t.snapshot.y <= bounds.max_y_spec()
            &&& !end ==> t.walk_dy == s.walk_dy && t.snapshot.y == y
            &&& (side || end) ==> {
                &&& t.walk_dx < 0 ==> t.snapshot.animation == AnimationId::WalkLeft
                &&& t.walk_dx > 0 ==> t.snapshot.animation == AnimationId::WalkRight
                &&& t.walk_dx == 0 && t.walk_dy < 0 ==> t.snapshot.animation == AnimationId::WalkUp
                &&& t.walk_dx == 0 && t.walk_dy > 0 ==> t.snapshot.animation == AnimationId::WalkDown
            }
            &&& !(side || end) ==> t.snapshot.animation == s.snapshot.animation
        }),
{
}

/// An accepted stroke makes the pet happy until 1.8 s later: its action ends at
/// `now_ms + 1_800`, and ticks before then, whatever the bounds, keep it happy.
pub proof fn lemma_stroke_holds_happy(s: BrainState, now_ms: u64, m: ManifestView, times: Seq<u64>, bounds: Bounds)
    requires
        !s.knockdown_active(now_ms),
        now_ms + 1_800 <= u64::MAX,
        forall|i: int| 0 <= i < times.len() ==> #[trigger] times[i] < now_ms + 1_800,
    ensures
        ({
            let t = s.stroked(now_ms, m).0;
            let u = ticked_through(t, times, bounds);
            &&& t.action_until_ms == now_ms + 1_800
            &&& u.snapshot.animation == AnimationId::Happy
            &&& u.snapshot.mood == PetMood::Happy
            &&& u.action_until_ms == now_ms + 1_800
        }),
    decreases times.len(),
{
    if times.len() > 0 {
        let prefix = times.drop_last();
        assert forall|i: int| 0 <= i < prefix.len() implies #[trigger] prefix[i] < now_ms + 1_800 by {
            assert(prefix[i] == times[i]);
        }
        lemma_stroke_holds_happy(s, now_ms, m, prefix, bounds);
        assert(times.last() == times[times.len() - 1]);
    }
}

/// A fresh pet starts its first ambient action 1.2 to 2.8 seconds in.
pub proof fn lemma_first_ambient_is_soon(seed: u64)
    ensures
        FIRST_AMBIENT_MIN_MS <= fresh_state(seed).next_ambient_ms < FIRST_AMBIENT_MAX_MS,
        fresh_state(seed).wf(),
{
    lemma_draw_in_range(seed | 1, FIRST_AMBIENT_MIN_MS, FIRST_AMBIENT_MAX_MS);
}

/// After a tick of a running pet, the pet lies within the bounds.
pub proof fn lemma_tick_keeps_pet_in_bounds(s: BrainState, now_ms: u64, bounds: Bounds)
    requires
        s.wf(),
        s.can_tick(now_ms, bounds),
        !s.snapshot.paused,
    ensures
        bounds.left <= s.ticked(now_ms, bounds).snapshot.x <= bounds.max_x_spec(),
        bounds.top <= s.ticked(now_ms, bounds).snapshot.y <= bounds.max_y_spec(),
{
    let dt = s.tick_dt(now_ms);
    let s0 = BrainState { last_tick_ms: Some(now_ms), particles: aged_hearts(s.particles, dt), ..s };
    let s1 = s0.expired(now_ms);
    assert((s1.walk_dx == 0 && (s1.walk_dy == 1 || s1.walk_dy == -1)) || (s1.walk_dy == 0 && (s1.walk_dx == 1 || s1.walk_dx == -1)));
    let s2 = if now_ms >= s1.next_ambient_ms && now_ms >= s1.action_until_ms {
        lemma_ambient_walk_axes(s1, now_ms);
        s1.ambient(now_ms)
    } else {
        s1
    };
    assert((s2.walk_dx == 0 && (s2.walk_dy == 1 || s2.walk_dy == -1)) || (s2.walk_dy == 0 && (s2.walk_dx == 1 || s2.walk_dx == -1)));
    assert(s2.snapshot.x == s.snapshot.x && s2.snapshot.y == s.snapshot.y);
    let step = walk_step(dt);
    assert(0 <= step <= 14);
    assert(-14 <= step * s2.walk_dx <= 14 && -14 <= step * s2.walk_dy <= 14) by (nonlinear_arith)
        requires 0 <= step <= 14, -1 <= s2.walk_dx <= 1, -1 <= s2.walk_dy <= 1;
}

/// An ambient action keeps the pet walking along one axis and does not move it.
proof fn lemma_ambient_walk_axes(s: BrainState, now_ms: u64)
    requires
        (s.walk_dx == 0 && (s.walk_dy == 1 || s.walk_dy == -1)) || (s.walk_dy == 0 && (s.walk_dx == 1 || s.walk_dx == -1)),
    ensures
        ({
            let t = s.ambient(now_ms);
            &&& (t.walk_dx == 0 && (t.walk_dy == 1 || t.walk_dy == -1)) || (t.walk_dy == 0 && (t.walk_dx == 1 || t.walk_dx == -1))
            &&& t.snapshot.x == s.snapshot.x
            &&& t.snapshot.y == s.snapshot.y
        }),
{
    if s.first_ambient {
        let s0 = BrainState { first_ambient: false, ..s };
        lemma_picked_walk(s0);
        let (s1, a) = s0.picked_walk();
        lemma_started_action(s1, a, WALK_MIN_MS, WALK_MAX_MS, PetMood::Calm, now_ms);
    } else {
        let (roll, rng) = draw(s.rng, 0, 100);
        let s0 = BrainState { rng, ..s };
        if roll < walk_roll_limit() {
            lemma_picked_walk(s0);
            let (s1, a) = s0.picked_walk();
            lemma_started_action(s1, a, WALK_MIN_MS, WALK_MAX_MS, PetMood::Calm, now_ms);
        } else {
            let (a, min, max, mood) = quiet_action_for_roll(roll);
            lemma_started_action(s0, a, min, max, mood, now_ms);
        }
    }
}

/// A paused pet keeps its pose, place and mood through a tick; only its hearts age.
pub proof fn lemma_paused_tick_keeps_snapshot(s: BrainState, now_ms: u64, bounds: Bounds)
    requires
        s.snapshot.paused,
    ensures
        s.ticked(now_ms, bounds).snapshot == s.snapshot,
        s.ticked(now_ms, bounds).particles == aged_hearts(s.particles, s.tick_dt(now_ms)),
{
}

/// The state after ticks at the given times, in order.
pub open spec fn ticked_through(s: BrainState, times: Seq<u64>, bounds: Bounds) -> BrainState
    decreases times.len(),
{
    if times.len() == 0 {
        s
    } else {
        ticked_through(s, times.drop_last(), bounds).ticked(times.last(), bounds)
    }
}

/// After the pet is grabbed, ticks before the 30 s hold ends start no ambient action: the
/// pet stays idle and calm, its clock and schedule untouched, whatever the bounds. This
/// holds for every grab that `begin_drag` accepts, those whose hold deadline fits in `u64`.
pub proof fn lemma_drag_hold(s: BrainState, now_ms: u64, times: Seq<u64>, bounds: Bounds)
    requires
        now_ms + DRAG_HOLD_MS <= u64::MAX,
        forall|i: int| 0 <= i < times.len() ==> #[trigger] times[i] < now_ms + DRAG_HOLD_MS,
    ensures
        ({
            let held = s.drag_begun(now_ms);
            let t = ticked_through(held, times, bounds);
            &&& t.snapshot.animation == AnimationId::Idle
            &&& t.snapshot.mood == PetMood::Calm
            &&& t.snapshot.animation_started_ms == held.snapshot.animation_started_ms
            &&& t.action_until_ms == now_ms + DRAG_HOLD_MS
            &&& t.next_ambient_ms == s.next_ambient_ms
            &&& t.rng == s.rng
        }),
    decreases times.len(),
{
    if times.len() > 0 {
        let prefix = times.drop_last();
        assert forall|i: int| 0 <= i < prefix.len() implies #[trigger] prefix[i] < now_ms + DRAG_HOLD_MS by {
            assert(prefix[i] == times[i]);
        }
        lemma_drag_hold(s, now_ms, prefix, bounds);
        assert(times.last() == times[times.len() - 1]);
    }
}

/// After an accepted poke, pokes are refused for 1.2 seconds.
pub proof fn lemma_poke_cooldown(s: BrainState, first_ms: u64, second_ms: u64)
    requires
        s.poked(first_ms).1,
        first_ms <= second_ms < first_ms + POKE_COOLDOWN_MS,
        first_ms + KNOCKDOWN_DURATION_MS <= u64::MAX,
    ensures
        !s.poked(first_ms).0.poked(second_ms).1,
        s.poked(first_ms).0.poked(second_ms).0 == s.poked(first_ms).0,
{
}

/// A poke releases no hearts.
pub proof fn lemma_poke_spawns_no_hearts(s: BrainState, now_ms: u64)
    ensures
        s.poked(now_ms).0.particles == s.particles,
{
}

/// A knockdown stays active for 2.5 seconds.
pub proof fn lemma_knockdown_lasts(s: BrainState, start_ms: u64, now_ms: u64)
    requires
        start_ms <= now_ms < start_ms + KNOCKDOWN_DURATION_MS,
        start_ms + KNOCKDOWN_DURATION_MS <= u64::MAX,
    ensures
        s.knocked_down(start_ms).knockdown_active(now_ms),
{
}

/// A knockdown is over 2.5 seconds after it began: from then on strokes are welcome again.
pub proof fn lemma_knockdown_ends(s: BrainState, start_ms: u64, now_ms: u64)
    requires
        start_ms + KNOCKDOWN_DURATION_MS <= now_ms,
    ensures
        !s.knocked_down(start_ms).knockdown_active(now_ms),
        s.knocked_down(start_ms).action_until_ms == start_ms + 2_500,
{
}

/// A stroke during an active knockdown changes nothing and releases no hearts.
pub proof fn lemma_stroke_respects_knockdown(s: BrainState, now_ms: u64, m: ManifestView)
    requires
        s.knockdown_active(now_ms),
    ensures
        s.stroked(now_ms, m) == (s, 0usize),
{
}

/// A stroke that draws `n` hearts releases exactly `n`.
pub proof fn lemma_spawned_hearts_len(rng: u64, n: nat, snapshot: PetSnapshot, m: ManifestView)
    ensures
        spawned_hearts(rng, n, snapshot, m).0.len() == n,
    decreases n,
{
    if n > 0 {
        lemma_spawned_hearts_len(rng, (n - 1) as nat, snapshot, m);
    }
}

/// Otherwise a stroke makes the pet happy and releases three to five hearts.
pub proof fn lemma_stroke_spawns_hearts(s: BrainState, now_ms: u64, m: ManifestView)
    requires
        !s.knockdown_active(now_ms),
    ensures
        ({
            let (t, count) = s.stroked(now_ms, m);
            &&& 3 <= count <= 5
            &&& t.particles.len() == s.particles.len() + count
            &&& t.particles.subrange(0, s.particles.len() as int) == s.particles
            &&& t.snapshot.animation == AnimationId::Happy
            &&& t.snapshot.mood == PetMood::Happy
        }),
{
    let s1 = s.with_animation(AnimationId::Happy, now_ms).with_mood(PetMood::Happy);
    lemma_draw_in_range(s1.rng, 3, 6);
    let (count, rng) = draw(s1.rng, 3, 6);
    lemma_spawned_hearts_len(rng, count as nat, s1.snapshot, m);
    let (t, c) = s.stroked(now_ms, m);
    assert(t.particles.subrange(0, s.particles.len() as int) =~= s.particles);
}

/// Grabbing the pet stops any walk and calms it.
pub proof fn lemma_drag_stops_walk(s: BrainState, now_ms: u64)
    ensures
        !s.drag_begun(now_ms).is_walking(),
        s.drag_begun(now_ms).snapshot.mood == PetMood::Calm,
{
}

/// A heart is opaque at birth and fades as it ages, down to nothing at the end of its life.
pub proof fn lemma_heart_fades(p: HeartParticle, q: HeartParticle)
    requires
        p.lifetime_ms == q.lifetime_ms,
        p.age_ms <= q.age_ms,
        p.lifetime_ms * 255 <= u64::MAX,
    ensures
        q.alpha_spec() <= p.alpha_spec(),
        p.age_ms == 0 && p.lifetime_ms > 0 ==> p.alpha_spec() == 255,
        !q.alive_spec() ==> q.alpha_spec() == 0,
{
    if p.lifetime_ms > 0 {
        let l = p.lifetime_ms as int;
        let rp = sat_sub_u64(p.lifetime_ms, p.age_ms) as int;
        let rq = sat_sub_u64(q.lifetime_ms, q.age_ms) as int;
        assert(rq <= rp);
        assert(rq * 255 / l <= rp * 255 / l) by (nonlinear_arith)
            requires rq <= rp, 0 <= rq, l > 0;
        assert(rp * 255 / l <= 255) by (nonlinear_arith)
            requires rp <= l, 0 <= rp, l > 0;
        assert(rq * 255 / l <= 255) by (nonlinear_arith)
            requires rq <= l, 0 <= rq, l > 0;
        if p.age_ms == 0 {
            assert(l * 255 / l == 255) by (nonlinear_arith)
                requires l > 0;
        }
    }
}

#[verifier::external_type_specification]
#[verifier::external_body]
pub struct ExSystemTime(std::time::SystemTime);

#[verifier::external_type_specification]
#[verifier::external_body]
pub struct ExSystemTimeError(std::time::SystemTimeError);

/// `std::time::SystemTime::now`: the clock's reading; nothing is stated of it.
#[verifier::external_body]
fn system_time_now() -> std::time::SystemTime {
    std::time::SystemTime::now()
}

/// `SystemTime::duration_since` the Unix epoch; nothing is stated of the outcome.
#[verifier::external_body]
fn duration_since_unix_epoch(time: &std::time::SystemTime) -> Result<
    std::time::Duration,
    std::time::SystemTimeError,
> {
    time.duration_since(std::time::UNIX_EPOCH)
}

/// `Duration::as_nanos`: the whole nanoseconds of the duration; nothing is stated of them.
#[verifier::external_body]
fn duration_as_nanos(duration: &std::time::Duration) -> u128 {
    duration.as_nanos()
}

/// A seed from the clock: the low 64 bits of the nanoseconds since the Unix epoch, or
/// the default seed when the clock reads before the epoch. It depends on the time, so
/// nothing more is stated of it.
pub fn unix_time_seed() -> u64 {
    match duration_since_unix_epoch(&system_time_now()) {
        Ok(duration) => low_64_bits(duration_as_nanos(&duration)),
        Err(_) => DEFAULT_SEED,
    }
}

fn low_64_bits(v: u128) -> (r: u64)
    ensures
        r == v % 0x1_0000_0000_0000_0000,
{
    (v % 0x1_0000_0000_0000_0000) as u64
}

} // verus!
