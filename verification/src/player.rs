//! The player state machine and integrator: kinematic state, per-substep
//! collision resolution against the object list, velocity/position/rotation
//! integration, and edge-triggered input hooks.
//!
//! Every quantity is fixed-point (see `crate::fx`). The engine works in a
//! bounded world: integrated positions are clamped to `COORD_LIMIT`, vertical
//! velocity to `VEL_LIMIT` and rotation to `ROT_LIMIT`; the bounds are far
//! outside anything reachable in play and exist so that the arithmetic stays
//! inside `i64`.

use vstd::prelude::*;
use crate::fx::{
    clamp, fx_mul, atan_degrees, floor_to_grid, lemma_fx_mul_range, ratio, round_to_quarter_turn,
    spec_atan_degrees, spec_clamp, spec_fx_mul, spec_floor_to_grid, spec_ratio,
    spec_round_to_quarter_turn, COORD_BOUND, COORD_LIMIT, DT_LIMIT, FX_SCALE, HALF_OBJECT_SIZE,
    OBJECT_SIZE, QUARTER_TURN, ROT_LIMIT, VEL_LIMIT,
};
use crate::geometry::AxisBoundingBox;
use crate::object::{Object, PlayerMode, PortalIds, GRAVITY_ORB_ID, JUMP_ORB_ID, JUMP_PAD_ID};

verus! {

/// Downward acceleration per scaled substep (0.958199 world units).
pub const GRAVITY: i64 = 9_581_990;

/// Launch velocity of a grounded jump (11.180032 world units per step).
pub const JUMP_ACCEL: i64 = 111_800_320;

/// Angular velocity while airborne in Cube mode (360 degrees per second).
pub const ROTATION_VEL: i64 = 3_600_000_000;

/// Horizontal speed before the speed multiplier (5.7700018 units per step).
pub const X_VELOCITY: i64 = 57_700_018;

/// Speed multiplier of the baseline (1x) scroll speed (0.9).
pub const PLAYER_SPEED: i64 = 9_000_000;

/// Terminal fall speed magnitude in Cube mode (15 units per step).
pub const TERMINAL_FALL: i64 = 150_000_000;

/// Vertical boost a jump pad sets (16 units per step).
pub const PAD_BOOST: i64 = 160_000_000;

/// Upper vertical-velocity clamp in Ship mode (8 units per step).
pub const SHIP_UPPER_VEL: i64 = 80_000_000;

/// Lower vertical-velocity clamp in Ship mode (-6.4 units per step).
pub const SHIP_LOWER_VEL: i64 = -64_000_000;

/// Default ceiling altitude outside Ship mode (300 grid cells).
pub const CUBE_CEILING: i64 = 90_000_000_000;

/// Ship mode's floor reference: the portal altitude is grid-snapped and
/// bounded below by five grid cells.
pub const MIN_PORTAL_Y: i64 = 1_500_000_000;

/// Height of the Ship-mode corridor above its floor (ten grid cells).
pub const SHIP_CORRIDOR: i64 = 3_000_000_000;

/// Side length of the inner (squish-death) bounding box (0.3 of a cell).
pub const INNER_SIZE: i64 = 90_000_000;

/// Half of `INNER_SIZE`.
pub const HALF_INNER_SIZE: i64 = 45_000_000;

/// Bound on the ground and ceiling altitudes the collision scan produces.
pub const BOUNDARY_BOUND: i64 = 1_100_000_000_000_000;

/// The player's kinematic state. `(x, y)` is the center of its bounding box;
/// `portal_y` caches the floor reference altitude of the most recent
/// Ship-mode portal. `dead == true` freezes integration until `reset`.
#[derive(Clone, Copy, Debug, PartialEq, Eq, Structural)]
pub struct Player {
    pub x: i64,
    pub y: i64,
    pub rotation: i64,
    pub y_vel: i64,
    pub rotation_vel: i64,
    pub dead: bool,
    pub on_ground: bool,
    pub mode: PlayerMode,
    pub is_holding: bool,
    pub is_rising: bool,
    pub gravity: i64,
    pub portal_y: i64,
    pub is_buffering: bool,
    pub is_upside_down: bool,
    pub jump_accel: i64,
}

impl Player {
    /// Validity of the kinematic state: every quantity lies in the engine's
    /// world bounds, and the tuning constants hold their configured values.
    pub open spec fn wf(self) -> bool {
        &&& -COORD_BOUND <= self.x <= COORD_BOUND
        &&& -COORD_BOUND <= self.y <= COORD_BOUND
        &&& -VEL_LIMIT <= self.y_vel <= VEL_LIMIT
        &&& -ROT_LIMIT <= self.rotation <= ROT_LIMIT
        &&& 0 <= self.portal_y <= COORD_LIMIT
        &&& self.gravity == GRAVITY
        &&& self.jump_accel == JUMP_ACCEL
        &&& self.rotation_vel == ROTATION_VEL
    }

    /// The initial state: origin, at rest, Cube mode, alive.
    pub open spec fn spec_new() -> Player {
        Player {
            x: 0,
            y: 0,
            rotation: 0,
            y_vel: 0,
            rotation_vel: ROTATION_VEL,
            dead: false,
            on_ground: false,
            mode: PlayerMode::Cube,
            is_holding: false,
            is_rising: false,
            gravity: GRAVITY,
            portal_y: 0,
            is_buffering: false,
            is_upside_down: false,
            jump_accel: JUMP_ACCEL,
        }
    }

    /// Builds the initial state.
    pub fn new() -> (r: Self)
        ensures
            r == Self::spec_new(),
            r.wf(),
    {
        Player {
            x: 0,
            y: 0,
            rotation: 0,
            y_vel: 0,
            rotation_vel: ROTATION_VEL,
            dead: false,
            on_ground: false,
            mode: PlayerMode::Cube,
            is_holding: false,
            is_rising: false,
            gravity: GRAVITY,
            portal_y: 0,
            is_buffering: false,
            is_upside_down: false,
            jump_accel: JUMP_ACCEL,
        }
    }

    /// Whether the player is dead (a terminal state until `reset`).
    pub fn is_dead(&self) -> (r: bool)
        ensures
            r == self.dead,
    {
        self.dead
    }

    /// Whether the player stood on ground after the latest substep.
    pub fn is_on_ground(&self) -> (r: bool)
        ensures
            r == self.on_ground,
    {
        self.on_ground
    }

    /// The gravity orientation: `-1` when upside down, else `1`.
    pub open spec fn spec_gravity_mult(self) -> int {
        if self.is_upside_down {
            -1
        } else {
            1
        }
    }

    /// The player's outer bounding box: one grid cell centered on `(x, y)`.
    pub open spec fn spec_bounding_box(self) -> AxisBoundingBox {
        AxisBoundingBox {
            x: (self.x - HALF_OBJECT_SIZE) as i64,
            y: (self.y + HALF_OBJECT_SIZE) as i64,
            width: OBJECT_SIZE,
            height: OBJECT_SIZE,
        }
    }

    /// Computes the outer bounding box.
    pub fn bounding_box(&self) -> (r: AxisBoundingBox)
        requires
            self.wf(),
        ensures
            r == self.spec_bounding_box(),
            r.wf(),
    {
        AxisBoundingBox {
            x: self.x - HALF_OBJECT_SIZE,
            y: self.y + HALF_OBJECT_SIZE,
            width: OBJECT_SIZE,
            height: OBJECT_SIZE,
        }
    }

    /// The smaller inner box used for the squish-death test.
    pub open spec fn spec_inner_bounding_box(self) -> AxisBoundingBox {
        AxisBoundingBox {
            x: (self.x - HALF_INNER_SIZE) as i64,
            y: (self.y + HALF_INNER_SIZE) as i64,
            width: INNER_SIZE,
            height: INNER_SIZE,
        }
    }

    /// Computes the inner bounding box.
    pub fn inner_bounding_box(&self) -> (r: AxisBoundingBox)
        requires
            self.wf(),
        ensures
            r == self.spec_inner_bounding_box(),
            r.wf(),
    {
        AxisBoundingBox {
            x: self.x - HALF_INNER_SIZE,
            y: self.y + HALF_INNER_SIZE,
            width: INNER_SIZE,
            height: INNER_SIZE,
        }
    }

    /// The default ground altitude of the current mode: Ship mode derives it
    /// from the cached portal altitude, grid-snapped and bounded below; every
    /// other mode uses altitude zero.
    pub open spec fn spec_ground_height(self) -> int {
        if self.mode == PlayerMode::Ship {
            let snapped = spec_floor_to_grid(self.portal_y as int);
            (if snapped >= MIN_PORTAL_Y {
                snapped
            } else {
                MIN_PORTAL_Y as int
            }) - MIN_PORTAL_Y
        } else {
            0
        }
    }

    /// Computes the default ground altitude.
    pub fn ground_height(&self) -> (r: i64)
        requires
            self.wf(),
        ensures
            r == self.spec_ground_height(),
            0 <= r <= COORD_LIMIT,
    {
        if self.mode == PlayerMode::Ship {
            let snapped = floor_to_grid(self.portal_y);
            let m = if snapped >= MIN_PORTAL_Y {
                snapped
            } else {
                MIN_PORTAL_Y
            };
            m - MIN_PORTAL_Y
        } else {
            0
        }
    }

    /// The default ceiling altitude of the current mode: far away in Cube
    /// mode, a fixed corridor above the Ship floor otherwise.
    pub open spec fn spec_ceiling_height(self) -> int {
        if self.mode == PlayerMode::Cube {
            CUBE_CEILING as int
        } else {
            self.spec_ground_height() + SHIP_CORRIDOR
        }
    }

    /// Computes the default ceiling altitude.
    pub fn ceiling_height(&self) -> (r: i64)
        requires
            self.wf(),
        ensures
            r == self.spec_ceiling_height(),
            0 <= r <= BOUNDARY_BOUND,
    {
        if self.mode == PlayerMode::Cube {
            CUBE_CEILING
        } else {
            self.ground_height() + SHIP_CORRIDOR
        }
    }

    /// The gravity orientation as a value.
    fn get_gravity_mult(&self) -> (r: i64)
        ensures
            r as int == self.spec_gravity_mult(),
    {
        if self.is_upside_down {
            -1
        } else {
            1
        }
    }

    /// Whether the player counts as falling: vertical velocity below twice
    /// the gravity constant.
    pub open spec fn spec_is_falling(self) -> bool {
        self.y_vel < 2 * self.gravity
    }

    /// Computes the falling test.
    fn is_falling(&self) -> (r: bool)
        requires
            self.wf(),
        ensures
            r == self.spec_is_falling(),
    {
        self.y_vel < 2 * self.gravity
    }

    /// Arms a press: the player holds input, and a buffered activation is
    /// armed for orb triggers. Call once per physical press transition.
    pub fn press_jump(&mut self)
        ensures
            *final(self) == (Player { is_holding: true, is_buffering: true, ..*old(self) }),
    {
        self.is_holding = true;
        self.is_buffering = true;
    }

    /// Releases a press: holding and buffering both end. Call once per
    /// physical release transition.
    pub fn release_jump(&mut self)
        ensures
            *final(self) == (Player { is_holding: false, is_buffering: false, ..*old(self) }),
    {
        self.is_holding = false;
        self.is_buffering = false;
    }

    /// Restores kinematic defaults after death or a manual restart: alive,
    /// at rest, Cube mode, normal gravity. Position is restored by the level
    /// container.
    pub fn reset(&mut self)
        ensures
            *final(self) == (Player {
                dead: false,
                y_vel: 0,
                mode: PlayerMode::Cube,
                is_upside_down: false,
                ..*old(self)
            }),
    {
        self.dead = false;
        self.y_vel = 0;
        self.mode = PlayerMode::Cube;
        self.is_upside_down = false;
    }
}

/// The portal altitude a Ship portal at altitude `y` establishes: `y`
/// snapped down to the grid and bounded below by `MIN_PORTAL_Y`.
pub open spec fn spec_portal_altitude(y: int) -> int {
    let snapped = spec_floor_to_grid(y);
    if snapped >= MIN_PORTAL_Y {
        snapped
    } else {
        MIN_PORTAL_Y as int
    }
}

/// The state after the type-specific triggers of one touched object fire,
/// in the engine's fixed precedence: Ship portal, Cube portal, jump pad,
/// jump orb, gravity trigger, gravity orb. Orbs fire only while a buffered
/// press is armed, and consume it. Triggers fire on solid and non-solid
/// objects alike.
pub open spec fn spec_apply_triggers(p: Player, o: Object) -> Player {
    let p1 = if o.id == PortalIds::Ship.spec_object_id() {
        Player {
            mode: PlayerMode::Ship,
            rotation: 0,
            portal_y: spec_portal_altitude(o.y as int) as i64,
            ..p
        }
    } else {
        p
    };
    let p2 = if o.id == PortalIds::Cube.spec_object_id() {
        Player { mode: PlayerMode::Cube, ..p1 }
    } else {
        p1
    };
    let p3 = if o.id == JUMP_PAD_ID {
        Player { y_vel: PAD_BOOST, ..p2 }
    } else {
        p2
    };
    let p4 = if o.id == JUMP_ORB_ID && p3.is_buffering {
        Player { y_vel: p3.jump_accel, is_buffering: false, ..p3 }
    } else {
        p3
    };
    let p5 = if o.id == PortalIds::YellowGravity.spec_object_id() {
        Player { is_upside_down: true, ..p4 }
    } else {
        p4
    };
    if o.id == GRAVITY_ORB_ID && p5.is_buffering {
        let flipped = Player { is_upside_down: !p5.is_upside_down, ..p5 };
        Player {
            y_vel: (spec_fx_mul(flipped.jump_accel as int, -8_000_000)
                * flipped.spec_gravity_mult()) as i64,
            is_buffering: false,
            ..flipped
        }
    } else {
        p5
    }
}

/// Triggers change only the mode, rotation, portal altitude, vertical
/// velocity and the orientation/buffer flags; position, death and ground
/// state are untouched, and validity is preserved.
pub proof fn lemma_apply_triggers_props(p: Player, o: Object)
    requires
        p.wf(),
        o.wf(),
    ensures
        spec_apply_triggers(p, o).wf(),
        spec_apply_triggers(p, o).x == p.x,
        spec_apply_triggers(p, o).y == p.y,
        spec_apply_triggers(p, o).dead == p.dead,
        spec_apply_triggers(p, o).on_ground == p.on_ground,
        spec_apply_triggers(p, o).is_holding == p.is_holding,
        spec_apply_triggers(p, o).is_rising == p.is_rising,
{
}

/// The outcome of resolving one object in the scan: the player either died
/// on it, or continues with possibly updated state and altitudes.
pub enum StepOutcome {
    Died(Player),
    Cont(Player, i64, i64),
}

/// The result of scanning the whole object list in one substep: either the
/// player died (on a deadly touch or a squish), or it survived with the
/// resolved ground and ceiling altitudes.
pub enum ScanOutcome {
    Dead(Player),
    Alive(Player, i64, i64),
}

/// Resolves one object against the player. An object whose world box misses
/// the player's outer box changes nothing. A touched deadly object kills.
/// Otherwise triggers fire, and a solid object then either raises the
/// running ground (its steppable top lies at or under the player's bottom,
/// the raise withheld while the player moves upward fast), kills by squish
/// (its box overlaps the player's inner box), or lowers the running ceiling.
/// The steppable top sits a third of a cell under the box top, never below
/// the object's position.
pub open spec fn spec_scan_step(p: Player, o: Object, ground: i64, ceiling: i64) -> StepOutcome {
    let wb = o.spec_world_box();
    if !AxisBoundingBox::spec_intersects(p.spec_bounding_box(), wb) {
        StepOutcome::Cont(p, ground, ceiling)
    } else if o.death {
        StepOutcome::Died(Player { dead: true, ..p })
    } else {
        let p2 = spec_apply_triggers(p, o);
        if !o.solid {
            StepOutcome::Cont(p2, ground, ceiling)
        } else {
            let step = wb.height as int / 2 - OBJECT_SIZE as int / 3;
            let object_top = o.y + (if step >= 0 {
                step
            } else {
                0
            });
            let player_bottom = p2.y - HALF_OBJECT_SIZE;
            let player_top = p2.y + HALF_OBJECT_SIZE;
            let object_bottom = wb.y - wb.height;
            let ceiling2 = if player_top < object_top && object_bottom < ceiling {
                object_bottom as i64
            } else {
                ceiling
            };
            if player_bottom >= object_top {
                let ground2 = if wb.y > ground && p2.y_vel < FX_SCALE {
                    wb.y
                } else {
                    ground
                };
                StepOutcome::Cont(p2, ground2, ceiling2)
            } else if AxisBoundingBox::spec_intersects(p2.spec_inner_bounding_box(), wb) {
                StepOutcome::Died(Player { dead: true, ..p2 })
            } else {
                StepOutcome::Cont(p2, ground, ceiling2)
            }
        }
    }
}

/// One object's step keeps the player's position and validity, and keeps
/// in-bounds altitudes in bounds; death is set only by a `Died` outcome.
pub proof fn lemma_scan_step_props(p: Player, o: Object, ground: i64, ceiling: i64)
    requires
        p.wf(),
        o.wf(),
        -BOUNDARY_BOUND <= ground <= BOUNDARY_BOUND,
        -BOUNDARY_BOUND <= ceiling <= BOUNDARY_BOUND,
    ensures
        spec_scan_step(p, o, ground, ceiling) matches StepOutcome::Cont(q, g, c) ==> {
            &&& q.wf()
            &&& q.x == p.x
            &&& q.y == p.y
            &&& q.dead == p.dead
            &&& -BOUNDARY_BOUND <= g <= BOUNDARY_BOUND
            &&& -BOUNDARY_BOUND <= c <= BOUNDARY_BOUND
        },
        spec_scan_step(p, o, ground, ceiling) matches StepOutcome::Died(q) ==> {
            &&& q.wf()
            &&& q.x == p.x
            &&& q.y == p.y
            &&& q.dead
        },
{
    lemma_apply_triggers_props(p, o);
}

/// One substep's collision scan over the objects from the front, in list
/// order (order sets trigger precedence): `spec_scan_step` folded over the
/// list, stopping at the first death.
pub open spec fn spec_scan(p: Player, objs: Seq<Object>, ground: i64, ceiling: i64) -> ScanOutcome
    decreases objs.len(),
{
    if objs.len() == 0 {
        ScanOutcome::Alive(p, ground, ceiling)
    } else {
        match spec_scan_step(p, objs[0], ground, ceiling) {
            StepOutcome::Died(q) => ScanOutcome::Dead(q),
            StepOutcome::Cont(q, g, c) => spec_scan(q, objs.drop_first(), g, c),
        }
    }
}

/// The scan keeps the player's position, death flag and validity, and keeps
/// the resolved altitudes within `BOUNDARY_BOUND`.
pub proof fn lemma_scan_props(p: Player, objs: Seq<Object>, ground: i64, ceiling: i64)
    requires
        p.wf(),
        forall|i: int| 0 <= i < objs.len() ==> (#[trigger] objs[i]).wf(),
        -BOUNDARY_BOUND <= ground <= BOUNDARY_BOUND,
        -BOUNDARY_BOUND <= ceiling <= BOUNDARY_BOUND,
    ensures
        spec_scan(p, objs, ground, ceiling) matches ScanOutcome::Alive(q, g, c) ==> {
            &&& q.wf()
            &&& q.x == p.x
            &&& q.y == p.y
            &&& q.dead == p.dead
            &&& -BOUNDARY_BOUND <= g <= BOUNDARY_BOUND
            &&& -BOUNDARY_BOUND <= c <= BOUNDARY_BOUND
        },
        spec_scan(p, objs, ground, ceiling) matches ScanOutcome::Dead(q) ==> {
            &&& q.wf()
            &&& q.x == p.x
            &&& q.y == p.y
            &&& q.dead
        },
    decreases objs.len(),
{
    if objs.len() > 0 {
        lemma_scan_step_props(p, objs[0], ground, ceiling);
        let rest = objs.drop_first();
        assert(forall|i: int| 0 <= i < rest.len() ==> (#[trigger] rest[i]).wf());
        match spec_scan_step(p, objs[0], ground, ceiling) {
            StepOutcome::Died(q) => {},
            StepOutcome::Cont(q, g, c) => {
                lemma_scan_props(q, rest, g, c);
            },
        }
    }
}

/// The whole collision pass of one substep: resolves the scan from the
/// mode's default altitudes and, when the player survives, orients the
/// returned `(ground, ceiling)` pair by the (possibly just flipped) gravity
/// direction. `None` means the player died during the scan.
pub open spec fn spec_collision(p: Player, objs: Seq<Object>) -> (Player, Option<(i64, i64)>) {
    let g0 = p.spec_ground_height() as i64;
    let c0 = p.spec_ceiling_height() as i64;
    match spec_scan(p, objs, g0, c0) {
        ScanOutcome::Dead(q) => (q, None),
        ScanOutcome::Alive(q, g, c) => (
            q,
            if q.is_upside_down {
                Some((c, g))
            } else {
                Some((g, c))
            },
        ),
    }
}

impl Player {
    /// Resolves one object of the scan, mutating the player and the running
    /// altitudes; returns whether the player died on it.
    #[verifier::rlimit(60)]
    fn scan_object(&mut self, o: &Object, ground: &mut i64, ceiling: &mut i64) -> (died: bool)
        requires
            old(self).wf(),
            o.wf(),
            -BOUNDARY_BOUND <= *old(ground) <= BOUNDARY_BOUND,
            -BOUNDARY_BOUND <= *old(ceiling) <= BOUNDARY_BOUND,
        ensures
            died ==> spec_scan_step(*old(self), *o, *old(ground), *old(ceiling))
                == StepOutcome::Died(*final(self)),
            !died ==> spec_scan_step(*old(self), *o, *old(ground), *old(ceiling))
                == StepOutcome::Cont(*final(self), *final(ground), *final(ceiling)),
    {
        let ghost entry = *self;
        let object_bb = o.offset_bounding_box();
        if !self.bounding_box().intersects(&object_bb) {
            return false;
        }
        if o.death {
            self.dead = true;
            return true;
        }
        if o.id == PortalIds::Ship.object_id() {
            self.mode = PlayerMode::Ship;
            self.rotation = 0;
            let snapped = floor_to_grid(o.y);
            self.portal_y = if snapped >= MIN_PORTAL_Y {
                snapped
            } else {
                MIN_PORTAL_Y
            };
        }
        if o.id == PortalIds::Cube.object_id() {
            self.mode = PlayerMode::Cube;
        }
        if o.id == JUMP_PAD_ID {
            self.y_vel = PAD_BOOST;
        }
        if o.id == JUMP_ORB_ID && self.is_buffering {
            self.y_vel = self.jump_accel;
            self.is_buffering = false;
        }
        if o.id == PortalIds::YellowGravity.object_id() {
            self.is_upside_down = true;
        }
        if o.id == GRAVITY_ORB_ID && self.is_buffering {
            self.is_upside_down = !self.is_upside_down;
            let boost = fx_mul(self.jump_accel, -8_000_000);
            self.y_vel = if self.is_upside_down {
                -boost
            } else {
                boost
            };
            self.is_buffering = false;
        }
        proof {
            assert(*self == spec_apply_triggers(entry, *o));
            lemma_apply_triggers_props(entry, *o);
        }
        if !o.solid {
            return false;
        }
        let half_h: i64 = ((object_bb.height as u64) / 2u64) as i64;
        let raw_step: i64 = half_h - OBJECT_SIZE / 3;
        let step: i64 = if raw_step >= 0 {
            raw_step
        } else {
            0
        };
        let object_top: i64 = o.y + step;
        let player_bottom: i64 = self.y - HALF_OBJECT_SIZE;
        let player_top: i64 = self.y + HALF_OBJECT_SIZE;
        let object_bottom: i64 = object_bb.y - object_bb.height;
        if player_top < object_top && object_bottom < *ceiling {
            *ceiling = object_bottom;
        }
        if player_bottom >= object_top {
            if object_bb.y > *ground && self.y_vel < FX_SCALE {
                *ground = object_bb.y;
            }
            false
        } else if self.inner_bounding_box().intersects(&object_bb) {
            self.dead = true;
            true
        } else {
            false
        }
    }

    /// Scans `objects` once: fires the triggers of every touched object and
    /// resolves the ground and ceiling the current substep integrates
    /// against, already oriented by gravity. Returns `None` — with the
    /// player marked dead — as soon as a deadly touch or a squish is found;
    /// the rest of the list is not scanned.
    pub fn collision(&mut self, objects: &Vec<Object>) -> (r: Option<(i64, i64)>)
        requires
            old(self).wf(),
            forall|i: int| 0 <= i < objects@.len() ==> (#[trigger] objects@[i]).wf(),
        ensures
            (*final(self), r) == spec_collision(*old(self), objects@),
            final(self).wf(),
            final(self).x == old(self).x,
            final(self).y == old(self).y,
            r is Some ==> final(self).dead == old(self).dead,
            r is None ==> final(self).dead,
            r matches Some((g, c)) ==> -BOUNDARY_BOUND <= g <= BOUNDARY_BOUND && -BOUNDARY_BOUND
                <= c <= BOUNDARY_BOUND,
    {
        let mut ground = self.ground_height();
        let mut ceiling = self.ceiling_height();
        let ghost entry = *self;
        let ghost g0 = ground;
        let ghost c0 = ceiling;
        let n = objects.len();
        let mut i: usize = 0;
        proof {
            assert(objects@.skip(0) =~= objects@);
        }
        while i < n
            invariant
                i <= n,
                n == objects@.len(),
                forall|j: int| 0 <= j < objects@.len() ==> (#[trigger] objects@[j]).wf(),
                entry == *old(self),
                entry.wf(),
                g0 == entry.spec_ground_height(),
                c0 == entry.spec_ceiling_height(),
                -BOUNDARY_BOUND <= g0 <= BOUNDARY_BOUND,
                -BOUNDARY_BOUND <= c0 <= BOUNDARY_BOUND,
                self.wf(),
                self.x == entry.x,
                self.y == entry.y,
                self.dead == entry.dead,
                -BOUNDARY_BOUND <= ground <= BOUNDARY_BOUND,
                -BOUNDARY_BOUND <= ceiling <= BOUNDARY_BOUND,
                spec_scan(entry, objects@, g0, c0) == spec_scan(
                    *self,
                    objects@.skip(i as int),
                    ground,
                    ceiling,
                ),
            decreases n - i,
        {
            let ghost before = *self;
            let ghost g_in = ground;
            let ghost c_in = ceiling;
            let ghost tail = objects@.skip(i as int);
            proof {
                assert(tail.len() == n - i);
                assert(tail[0] == objects@[i as int]);
                assert(tail.drop_first() =~= objects@.skip(i as int + 1));
            }
            let o = &objects[i];
            let died = self.scan_object(o, &mut ground, &mut ceiling);
            proof {
                lemma_scan_step_props(before, *o, g_in, c_in);
            }
            if died {
                proof {
                    assert(spec_scan(before, tail, g_in, c_in) == ScanOutcome::Dead(*self));
                }
                return None;
            }
            proof {
                assert(spec_scan(before, tail, g_in, c_in) == spec_scan(
                    *self,
                    objects@.skip(i as int + 1),
                    ground,
                    ceiling,
                ));
            }
            i = i + 1;
        }
        proof {
            assert(objects@.skip(n as int) =~= Seq::<Object>::empty());
        }
        if self.is_upside_down {
            Some((ceiling, ground))
        } else {
            Some((ground, ceiling))
        }
    }
}

/// Largest scaled substep the integrator sees (`DT_LIMIT / 4`, times the
/// 60-per-second step rate and the 0.9 speed factor).
pub const SLOW_DT_BOUND: i64 = 13_500_000_000;

/// Largest raw substep duration (`DT_LIMIT / 4`).
pub const SUBSTEP_BOUND: i64 = 250_000_000;

/// The mode-dependent velocity rule of one substep, fed the scaled substep
/// duration. Cube mode is a rise/fall machine: holding input while grounded
/// launches at `jump_accel` (sign by gravity orientation) and starts rising;
/// rising decelerates under gravity until the velocity crosses twice the
/// gravity constant; falling accelerates downward, clamped at the terminal
/// speed. Ship mode applies a signed thrust — held input decelerates or
/// reverses, released input accelerates, with an extra multiplier while
/// falling — clamped to asymmetric bounds. Other modes leave the velocity
/// unchanged. A rising velocity is additionally confined to the engine's
/// `VEL_LIMIT` range (unreachable in play; it keeps the state in bounds).
pub open spec fn spec_update_jump(p: Player, slow_dt: i64) -> Player {
    match p.mode {
        PlayerMode::Cube => {
            let flip = p.spec_gravity_mult();
            let p0 = if p.on_ground {
                Player { is_buffering: false, ..p }
            } else {
                p
            };
            if p0.is_holding && p0.on_ground {
                Player {
                    on_ground: false,
                    is_rising: true,
                    y_vel: (flip * p0.jump_accel) as i64,
                    ..p0
                }
            } else if p0.is_rising {
                let v1 = p0.y_vel - spec_fx_mul(p0.gravity as int, slow_dt as int) * flip;
                let v = spec_clamp(v1, -VEL_LIMIT as int, VEL_LIMIT as int) as i64;
                Player { y_vel: v, is_rising: !(v <= 2 * p0.gravity), ..p0 }
            } else {
                let og = if p0.y_vel < 2 * p0.gravity {
                    false
                } else {
                    p0.on_ground
                };
                let v1 = p0.y_vel - spec_fx_mul(p0.gravity as int, slow_dt as int) * flip;
                let v = if p0.is_upside_down {
                    (if v1 <= TERMINAL_FALL {
                        v1
                    } else {
                        TERMINAL_FALL as int
                    }) as i64
                } else {
                    (if v1 >= -TERMINAL_FALL {
                        v1
                    } else {
                        -TERMINAL_FALL as int
                    }) as i64
                };
                Player { on_ground: og, y_vel: v, ..p0 }
            }
        },
        PlayerMode::Ship => {
            let flip = p.spec_gravity_mult();
            let falling = p.spec_is_falling();
            let accel: int = if !p.is_holding && !falling {
                12_000_000
            } else if p.is_holding {
                -10_000_000
            } else {
                8_000_000
            };
            let extra: int = if p.is_holding && falling {
                5_000_000
            } else {
                4_000_000
            };
            let t = spec_fx_mul(
                spec_fx_mul(spec_fx_mul(GRAVITY as int, slow_dt as int) * flip, accel),
                extra,
            );
            let v = spec_clamp(
                p.y_vel - t,
                SHIP_LOWER_VEL as int,
                SHIP_UPPER_VEL as int,
            ) as i64;
            Player { y_vel: v, ..p }
        },
        _ => p,
    }
}

/// One substep's position, clamp and rotation rule, applied after the
/// velocity rule: horizontal auto-scroll and vertical advance, positions
/// confined to the world range; then a ground snap (zeroing the velocity,
/// grounding, and squaring the rotation in Cube mode), a Ship ceiling snap
/// while ascending, or an airborne rotation update (angular velocity in Cube
/// mode, nose following the displacement slope otherwise).
pub open spec fn spec_integrate(p: Player, dt_sub: i64, ground: i64, ceiling: i64) -> Player {
    let rob_dt = 60 * (dt_sub as int);
    let slow_dt = spec_fx_mul(rob_dt, 9_000_000) as i64;
    let p1 = spec_update_jump(p, slow_dt);
    let dx = spec_fx_mul(spec_fx_mul(X_VELOCITY as int, PLAYER_SPEED as int), rob_dt);
    let dy = spec_fx_mul(p1.y_vel as int, slow_dt as int);
    let x2 = spec_clamp(p1.x + dx, -COORD_LIMIT as int, COORD_LIMIT as int) as i64;
    let y2 = spec_clamp(p1.y + dy, -COORD_LIMIT as int, COORD_LIMIT as int) as i64;
    let crossed_ground = if p1.is_upside_down {
        y2 + HALF_OBJECT_SIZE >= ground
    } else {
        y2 - HALF_OBJECT_SIZE <= ground
    };
    if crossed_ground {
        Player {
            x: x2,
            y: (if p1.is_upside_down {
                ground - HALF_OBJECT_SIZE
            } else {
                ground + HALF_OBJECT_SIZE
            }) as i64,
            y_vel: 0,
            rotation: if p1.mode == PlayerMode::Cube {
                spec_round_to_quarter_turn(p1.rotation as int) as i64
            } else {
                0
            },
            on_ground: true,
            ..p1
        }
    } else if p1.mode == PlayerMode::Ship && y2 + HALF_OBJECT_SIZE >= ceiling && p1.y_vel > 0 {
        Player { x: x2, y: (ceiling - HALF_OBJECT_SIZE) as i64, y_vel: 0, rotation: 0, ..p1 }
    } else {
        let rot = if p1.mode == PlayerMode::Cube {
            spec_clamp(
                p1.rotation + spec_fx_mul(p1.rotation_vel as int, dt_sub as int)
                    * p1.spec_gravity_mult(),
                -ROT_LIMIT as int,
                ROT_LIMIT as int,
            ) as i64
        } else {
            (-spec_atan_degrees(spec_ratio(dy, dx))) as i64
        };
        Player { x: x2, y: y2, rotation: rot, on_ground: false, ..p1 }
    }
}

/// One whole substep: the collision pass, then — when the player survived —
/// the velocity and position rules against the resolved altitudes.
pub open spec fn spec_substep(p: Player, dt_sub: i64, objs: Seq<Object>) -> Player {
    let pc = spec_collision(p, objs);
    match pc.1 {
        Option::None => pc.0,
        Option::Some((g, c)) => spec_integrate(pc.0, dt_sub, g, c),
    }
}

/// `n` substeps in sequence; a substep that ends with the player dead skips
/// every remaining substep.
pub open spec fn spec_substeps(p: Player, dt_sub: i64, objs: Seq<Object>, n: nat) -> Player
    decreases n,
{
    if n == 0 {
        p
    } else {
        let p1 = spec_substep(p, dt_sub, objs);
        if p1.dead {
            p1
        } else {
            spec_substeps(p1, dt_sub, objs, (n - 1) as nat)
        }
    }
}

/// A whole frame: four equal substeps of a quarter of `dt` each; a no-op on
/// a dead player.
pub open spec fn spec_update(p: Player, dt: i64, objs: Seq<Object>) -> Player {
    if p.dead {
        p
    } else {
        spec_substeps(p, ((dt as int) / 4) as i64, objs, 4)
    }
}

impl Player {
    /// Applies the mode's velocity rule for one scaled substep.
    fn update_jump(&mut self, slow_dt: i64)
        requires
            old(self).wf(),
            0 <= slow_dt <= SLOW_DT_BOUND,
        ensures
            *final(self) == spec_update_jump(*old(self), slow_dt),
            final(self).wf(),
            final(self).x == old(self).x,
            final(self).y == old(self).y,
            final(self).dead == old(self).dead,
            final(self).mode == old(self).mode,
            final(self).is_upside_down == old(self).is_upside_down,
            final(self).rotation == old(self).rotation,
    {
        match self.mode {
            PlayerMode::Cube => {
                let should_jump = self.is_holding;
                if self.on_ground {
                    self.is_buffering = false;
                }
                if should_jump && self.on_ground {
                    self.on_ground = false;
                    self.is_rising = true;
                    self.y_vel = if self.is_upside_down {
                        -self.jump_accel
                    } else {
                        self.jump_accel
                    };
                } else {
                    proof {
                        lemma_fx_mul_range(
                            self.gravity as int,
                            slow_dt as int,
                            10_000_000,
                            SLOW_DT_BOUND as int,
                        );
                    }
                    let d = fx_mul(self.gravity, slow_dt);
                    let dd = if self.is_upside_down {
                        -d
                    } else {
                        d
                    };
                    if self.is_rising {
                        self.y_vel = clamp(self.y_vel - dd, -VEL_LIMIT, VEL_LIMIT);
                        if self.y_vel <= 2 * self.gravity {
                            self.is_rising = false;
                        }
                    } else {
                        if self.y_vel < 2 * self.gravity {
                            self.on_ground = false;
                        }
                        self.y_vel = self.y_vel - dd;
                        if self.is_upside_down {
                            if self.y_vel > TERMINAL_FALL {
                                self.y_vel = TERMINAL_FALL;
                            }
                        } else {
                            if self.y_vel < -TERMINAL_FALL {
                                self.y_vel = -TERMINAL_FALL;
                            }
                        }
                    }
                }
            },
            PlayerMode::Ship => {
                let falling = self.is_falling();
                let accel: i64 = if !self.is_holding && !falling {
                    12_000_000
                } else if self.is_holding {
                    -10_000_000
                } else {
                    8_000_000
                };
                let extra: i64 = if self.is_holding && falling {
                    5_000_000
                } else {
                    4_000_000
                };
                proof {
                    lemma_fx_mul_range(
                        GRAVITY as int,
                        slow_dt as int,
                        10_000_000,
                        SLOW_DT_BOUND as int,
                    );
                }
                let t1 = fx_mul(GRAVITY, slow_dt);
                let t2 = if self.is_upside_down {
                    -t1
                } else {
                    t1
                };
                proof {
                    lemma_fx_mul_range(t2 as int, accel as int, 13_500_000_000, 12_000_000);
                }
                let t3 = fx_mul(t2, accel);
                proof {
                    lemma_fx_mul_range(t3 as int, extra as int, 16_200_000_000, 5_000_000);
                }
                let t4 = fx_mul(t3, extra);
                self.y_vel = clamp(self.y_vel - t4, SHIP_LOWER_VEL, SHIP_UPPER_VEL);
            },
            _ => {},
        }
    }

    /// Integrates one substep against the resolved altitudes: velocity rule,
    /// auto-scroll and vertical advance, then the ground/ceiling clamp and
    /// rotation rule.
    #[verifier::rlimit(100)]
    #[verifier::spinoff_prover]
    fn integrate_substep(&mut self, dt_sub: i64, ground: i64, ceiling: i64)
        requires
            old(self).wf(),
            0 <= dt_sub <= SUBSTEP_BOUND,
            -BOUNDARY_BOUND <= ground <= BOUNDARY_BOUND,
            -BOUNDARY_BOUND <= ceiling <= BOUNDARY_BOUND,
        ensures
            *final(self) == spec_integrate(*old(self), dt_sub, ground, ceiling),
            final(self).wf(),
            final(self).dead == old(self).dead,
    {
        let rob_dt: i64 = 60 * dt_sub;
        proof {
            lemma_fx_mul_range(rob_dt as int, 9_000_000, 15_000_000_000, 9_000_000);
        }
        let slow_dt: i64 = fx_mul(rob_dt, 9_000_000);
        self.update_jump(slow_dt);
        let ghost p1 = *self;
        proof {
            lemma_fx_mul_range(X_VELOCITY as int, PLAYER_SPEED as int, 57_700_018, 9_000_000);
        }
        let scroll = fx_mul(X_VELOCITY, PLAYER_SPEED);
        proof {
            lemma_fx_mul_range(scroll as int, rob_dt as int, 51_930_017, 15_000_000_000);
        }
        let dx = fx_mul(scroll, rob_dt);
        proof {
            lemma_fx_mul_range(
                self.y_vel as int,
                slow_dt as int,
                VEL_LIMIT as int,
                SLOW_DT_BOUND as int,
            );
        }
        let dy = fx_mul(self.y_vel, slow_dt);
        self.x = clamp(self.x + dx, -COORD_LIMIT, COORD_LIMIT);
        self.y = clamp(self.y + dy, -COORD_LIMIT, COORD_LIMIT);
        proof {
            let o = *old(self);
            let rob = 60 * (dt_sub as int);
            assert(rob_dt == rob);
            assert(slow_dt == spec_fx_mul(rob, 9_000_000) as i64);
            assert(p1 == spec_update_jump(o, slow_dt));
            assert(dx == spec_fx_mul(spec_fx_mul(X_VELOCITY as int, PLAYER_SPEED as int), rob));
            assert(dy == spec_fx_mul(p1.y_vel as int, slow_dt as int));
            assert(self.x == spec_clamp(p1.x + dx, -COORD_LIMIT as int, COORD_LIMIT as int));
            assert(self.y == spec_clamp(p1.y + dy, -COORD_LIMIT as int, COORD_LIMIT as int));
        }
        let crossed_ground = if self.is_upside_down {
            self.y + HALF_OBJECT_SIZE >= ground
        } else {
            self.y - HALF_OBJECT_SIZE <= ground
        };
        if crossed_ground {
            self.y = if self.is_upside_down {
                ground - HALF_OBJECT_SIZE
            } else {
                ground + HALF_OBJECT_SIZE
            };
            self.y_vel = 0;
            if self.mode == PlayerMode::Cube {
                self.rotation = round_to_quarter_turn(self.rotation);
            } else {
                self.rotation = 0;
            }
            self.on_ground = true;
            proof {
                assert(*self == spec_integrate(*old(self), dt_sub, ground, ceiling));
            }
        } else if self.mode == PlayerMode::Ship && self.y + HALF_OBJECT_SIZE >= ceiling
            && self.y_vel > 0 {
            self.y = ceiling - HALF_OBJECT_SIZE;
            self.y_vel = 0;
            self.rotation = 0;
            proof {
                assert(*self == spec_integrate(*old(self), dt_sub, ground, ceiling));
            }
        } else {
            self.on_ground = false;
            if self.mode == PlayerMode::Cube {
                proof {
                    lemma_fx_mul_range(
                        self.rotation_vel as int,
                        dt_sub as int,
                        ROTATION_VEL as int,
                        SUBSTEP_BOUND as int,
                    );
                }
                let rd = fx_mul(self.rotation_vel, dt_sub);
                let rd_signed = if self.is_upside_down {
                    -rd
                } else {
                    rd
                };
                proof {
                    assert((rd as int) * 1 == rd as int) by (nonlinear_arith);
                    assert((rd as int) * -1 == -(rd as int)) by (nonlinear_arith);
                }
                self.rotation = clamp(self.rotation + rd_signed, -ROT_LIMIT, ROT_LIMIT);
            } else {
                self.rotation = -atan_degrees(ratio(dy, dx));
            }
            proof {
                let tgt = spec_integrate(*old(self), dt_sub, ground, ceiling);
                assert(self.x == tgt.x);
                assert(self.y == tgt.y);
                assert(self.y_vel == tgt.y_vel);
                assert(self.on_ground == tgt.on_ground);
                assert(self.rotation == tgt.rotation);
                assert(*self == tgt);
            }
        }
    }

    /// Advances the player by `dt` seconds of simulated time, split into
    /// four equal substeps, against `objects` in their given order. A dead
    /// player is left untouched; a death during any substep ends the whole
    /// call at once, skipping the remaining substeps.
    pub fn update(&mut self, dt: i64, objects: &Vec<Object>)
        requires
            old(self).wf(),
            0 <= dt <= DT_LIMIT,
            forall|i: int| 0 <= i < objects@.len() ==> (#[trigger] objects@[i]).wf(),
        ensures
            *final(self) == spec_update(*old(self), dt, objects@),
            final(self).wf(),
    {
        if self.dead {
            return;
        }
        let dt_sub: i64 = ((dt as u64) / 4u64) as i64;
        let ghost entry = *self;
        let mut k: usize = 0;
        while k < 4
            invariant
                k <= 4,
                entry == *old(self),
                entry.wf(),
                !entry.dead,
                dt_sub == ((dt as int) / 4) as i64,
                0 <= dt && dt <= DT_LIMIT,
                self.wf(),
                !self.dead,
                0 <= dt_sub <= SUBSTEP_BOUND,
                forall|j: int| 0 <= j < objects@.len() ==> (#[trigger] objects@[j]).wf(),
                spec_substeps(entry, dt_sub, objects@, 4) == spec_substeps(
                    *self,
                    dt_sub,
                    objects@,
                    (4 - k) as nat,
                ),
            decreases 4 - k,
        {
            let ghost before = *self;
            let co = self.collision(objects);
            match co {
                Option::None => {
                    proof {
                        assert(spec_substep(before, dt_sub, objects@) == *self);
                        assert(spec_substeps(before, dt_sub, objects@, (4 - k) as nat) == *self);
                    }
                    return;
                },
                Option::Some((ground, ceiling)) => {
                    let ghost scanned = *self;
                    self.integrate_substep(dt_sub, ground, ceiling);
                    proof {
                        assert(*self == spec_substep(before, dt_sub, objects@));
                        assert(!self.dead);
                        assert(spec_substeps(before, dt_sub, objects@, (4 - k) as nat)
                            == spec_substeps(*self, dt_sub, objects@, (4 - k - 1) as nat));
                    }
                },
            }
            k = k + 1;
        }
    }
}

/// The velocity rule leaves position, death, mode, orientation and rotation
/// untouched, and keeps the state valid.
pub proof fn lemma_update_jump_props(p: Player, slow_dt: i64)
    requires
        p.wf(),
        0 <= slow_dt <= SLOW_DT_BOUND,
    ensures
        spec_update_jump(p, slow_dt).wf(),
        spec_update_jump(p, slow_dt).x == p.x,
        spec_update_jump(p, slow_dt).y == p.y,
        spec_update_jump(p, slow_dt).dead == p.dead,
        spec_update_jump(p, slow_dt).mode == p.mode,
        spec_update_jump(p, slow_dt).is_upside_down == p.is_upside_down,
        spec_update_jump(p, slow_dt).rotation == p.rotation,
{
    lemma_fx_mul_range(GRAVITY as int, slow_dt as int, 10_000_000, SLOW_DT_BOUND as int);
    if p.mode == PlayerMode::Ship {
        let t1 = spec_fx_mul(GRAVITY as int, slow_dt as int);
        let t2 = t1 * p.spec_gravity_mult();
        let falling = p.spec_is_falling();
        let accel: int = if !p.is_holding && !falling {
            12_000_000
        } else if p.is_holding {
            -10_000_000
        } else {
            8_000_000
        };
        let extra: int = if p.is_holding && falling {
            5_000_000
        } else {
            4_000_000
        };
        lemma_fx_mul_range(t2, accel, 13_500_000_000, 12_000_000);
        lemma_fx_mul_range(spec_fx_mul(t2, accel), extra, 16_200_000_000, 5_000_000);
    }
}

/// Law: a Cube-mode ground clamp — landing from any vertical velocity —
/// always leaves the rotation at an exact multiple of 90 degrees, the
/// vertical velocity at zero, and the player grounded.
pub proof fn lemma_cube_landing(p: Player, dt_sub: i64, ground: i64, ceiling: i64)
    requires
        p.wf(),
        0 <= dt_sub <= SUBSTEP_BOUND,
        p.mode == PlayerMode::Cube,
        spec_crosses_ground(p, dt_sub, ground),
    ensures
        spec_integrate(p, dt_sub, ground, ceiling).y_vel == 0,
        spec_integrate(p, dt_sub, ground, ceiling).rotation % QUARTER_TURN == 0,
        spec_integrate(p, dt_sub, ground, ceiling).on_ground,
{
    let rob_dt = 60 * (dt_sub as int);
    lemma_fx_mul_range(rob_dt, 9_000_000, 15_000_000_000, 9_000_000);
    let slow_dt = spec_fx_mul(rob_dt, 9_000_000) as i64;
    lemma_update_jump_props(p, slow_dt);
    let p1 = spec_update_jump(p, slow_dt);
    crate::fx::lemma_round_quarter_divides(p1.rotation as int);
    crate::fx::lemma_round_quarter_range(p1.rotation as int);
}

/// Whether one substep's integration crosses the resolved ground boundary
/// (so the ground clamp fires).
pub open spec fn spec_crosses_ground(p: Player, dt_sub: i64, ground: i64) -> bool {
    let rob_dt = 60 * (dt_sub as int);
    let slow_dt = spec_fx_mul(rob_dt, 9_000_000) as i64;
    let p1 = spec_update_jump(p, slow_dt);
    let dy = spec_fx_mul(p1.y_vel as int, slow_dt as int);
    let y2 = spec_clamp(p1.y + dy, -COORD_LIMIT as int, COORD_LIMIT as int) as i64;
    if p1.is_upside_down {
        y2 + HALF_OBJECT_SIZE >= ground
    } else {
        y2 - HALF_OBJECT_SIZE <= ground
    }
}

/// Law: a player whose bounding box overlaps a deadly object dies in the
/// scan, whichever triggers fired on the objects before it — triggers never
/// move the player, so the overlap still stands when the deadly object is
/// reached (unless an earlier squish killed the player first).
pub proof fn lemma_scan_death_touch(p: Player, objs: Seq<Object>, ground: i64, ceiling: i64)
    requires
        exists|i: int|
            0 <= i < objs.len() && (#[trigger] objs[i]).death
                && AxisBoundingBox::spec_intersects(
                p.spec_bounding_box(),
                objs[i].spec_world_box(),
            ),
    ensures
        spec_scan(p, objs, ground, ceiling) is Dead,
        spec_scan(p, objs, ground, ceiling) matches ScanOutcome::Dead(q) ==> q.dead,
    decreases objs.len(),
{
    let i = choose|i: int|
        0 <= i < objs.len() && (#[trigger] objs[i]).death && AxisBoundingBox::spec_intersects(
            p.spec_bounding_box(),
            objs[i].spec_world_box(),
        );
    match spec_scan_step(p, objs[0], ground, ceiling) {
        StepOutcome::Died(q) => {},
        StepOutcome::Cont(q, g2, c2) => {
            assert(i >= 1);
            assert(q.x == p.x && q.y == p.y);
            assert(q.spec_bounding_box() == p.spec_bounding_box());
            let rest = objs.drop_first();
            assert(rest[i - 1] == objs[i]);
            lemma_scan_death_touch(q, rest, g2, c2);
        },
    }
}

/// Law: a death during a substep ends the whole `update` call at once — the
/// remaining substeps run nothing.
pub proof fn lemma_death_ends_frame(p: Player, dt_sub: i64, objs: Seq<Object>, n: nat)
    requires
        n >= 1,
        spec_substep(p, dt_sub, objs).dead,
    ensures
        spec_substeps(p, dt_sub, objs, n) == spec_substep(p, dt_sub, objs),
{
}

/// Law: `update` is a no-op on a dead player until `reset`.
pub proof fn lemma_update_dead_frozen(p: Player, dt: i64, objs: Seq<Object>)
    requires
        p.dead,
    ensures
        spec_update(p, dt, objs) == p,
{
}

/// Law: a live player whose bounding box overlaps a deadly object ends the
/// `update` call dead, even when triggers earlier in the same substep
/// already changed its mode or velocity.
pub proof fn lemma_update_death_touch(p: Player, dt: i64, objs: Seq<Object>)
    requires
        exists|i: int|
            0 <= i < objs.len() && (#[trigger] objs[i]).death
                && AxisBoundingBox::spec_intersects(
                p.spec_bounding_box(),
                objs[i].spec_world_box(),
            ),
    ensures
        spec_update(p, dt, objs).dead,
{
    if !p.dead {
        let dt_sub = ((dt as int) / 4) as i64;
        let g0 = p.spec_ground_height() as i64;
        let c0 = p.spec_ceiling_height() as i64;
        lemma_scan_death_touch(p, objs, g0, c0);
        lemma_death_ends_frame(p, dt_sub, objs, 4);
    }
}

} // verus!
