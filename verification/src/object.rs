//! The object model: a static collidable or triggerable entity, the player
//! mode set, and the trigger-object identifiers the engine reacts to.

use vstd::prelude::*;
use crate::fx::{COORD_LIMIT, HALF_OBJECT_SIZE, OBJECT_SIZE};
use crate::geometry::AxisBoundingBox;

verus! {

/// Type id of objects that kill on touch.
pub const DEATH_ID: i32 = 8;

/// Type id of checkpoint markers (dropped after contributing a start
/// position).
pub const CHECKPOINT_ID: i32 = 31;

/// Type id of the jump pad (sets a fixed upward boost on touch).
pub const JUMP_PAD_ID: i32 = 35;

/// Type id of the jump orb (boosts only while a buffered press is armed).
pub const JUMP_ORB_ID: i32 = 36;

/// Type id of the gravity orb (flips gravity while a buffered press is
/// armed).
pub const GRAVITY_ORB_ID: i32 = 84;

/// Lower bound (inclusive) of the reserved authoring-trigger id range.
pub const TRIGGER_RANGE_START: i32 = 22;

/// Upper bound (exclusive) of the reserved authoring-trigger id range.
pub const TRIGGER_RANGE_END: i32 = 34;

/// The player's movement modes. `Ufo`, `Ball`, `Robot` and `Spider` are
/// declared extension points: no collision or integration branch is wired to
/// them, and the integrator leaves the vertical velocity of a player in such
/// a mode unchanged.
#[derive(Clone, Copy, Debug, PartialEq, Eq, Structural)]
pub enum PlayerMode {
    Cube,
    Ship,
    Ufo,
    Ball,
    Robot,
    Spider,
}

/// Portal and gravity-trigger object ids. `Ball`, `Ufo`, `Mini`, `NotMini`,
/// `Dual`, `Single` and `BlueGravity` are declared but not wired to any
/// engine behavior.
#[derive(Clone, Copy, Debug, PartialEq, Eq, Structural)]
pub enum PortalIds {
    Cube,
    Ship,
    Ball,
    Ufo,
    Mini,
    NotMini,
    Dual,
    Single,
    BlueGravity,
    YellowGravity,
}

impl PortalIds {
    /// The object type id this portal kind appears as in level data.
    pub open spec fn spec_object_id(self) -> i32 {
        match self {
            PortalIds::Cube => 12,
            PortalIds::Ship => 13,
            PortalIds::Ball => 47,
            PortalIds::Ufo => 111,
            PortalIds::Mini => 101,
            PortalIds::NotMini => 99,
            PortalIds::Dual => 286,
            PortalIds::Single => 287,
            PortalIds::BlueGravity => 10,
            PortalIds::YellowGravity => 11,
        }
    }

    /// Executable form of `spec_object_id`.
    pub fn object_id(&self) -> (r: i32)
        ensures
            r == self.spec_object_id(),
    {
        match self {
            PortalIds::Cube => 12,
            PortalIds::Ship => 13,
            PortalIds::Ball => 47,
            PortalIds::Ufo => 111,
            PortalIds::Mini => 101,
            PortalIds::NotMini => 99,
            PortalIds::Dual => 286,
            PortalIds::Single => 287,
            PortalIds::BlueGravity => 10,
            PortalIds::YellowGravity => 11,
        }
    }
}

/// A static, immovable collidable or triggerable entity. `(x, y)` is its
/// world position; its world bounding box is `bounding_box` translated by
/// `(x, y)`, recomputed on demand. Objects are immutable after load.
#[derive(Clone, Copy, Debug, PartialEq, Eq, Structural)]
pub struct Object {
    pub x: i64,
    pub y: i64,
    pub bounding_box: AxisBoundingBox,
    pub death: bool,
    pub id: i32,
    pub solid: bool,
}

/// Bound on the local-bounding-box offsets and extents a hitbox table may
/// hold.
pub const LOCAL_BOX_BOUND: i64 = 1_000_000_000_000;

impl Object {
    /// Validity of an object: its position lies in the engine's coordinate
    /// range and its local box is a small box around the position.
    pub open spec fn wf(self) -> bool {
        &&& -COORD_LIMIT <= self.x <= COORD_LIMIT
        &&& -COORD_LIMIT <= self.y <= COORD_LIMIT
        &&& local_box_wf(self.bounding_box)
    }

    /// A default object: the unit 30x30 box centered on its position, with
    /// no type id, not deadly, solid.
    pub open spec fn spec_new() -> Object {
        Object {
            x: 0,
            y: 0,
            bounding_box: AxisBoundingBox {
                x: (-HALF_OBJECT_SIZE) as i64,
                y: HALF_OBJECT_SIZE,
                width: OBJECT_SIZE,
                height: OBJECT_SIZE,
            },
            death: false,
            id: (-1) as i32,
            solid: true,
        }
    }

    /// Builds the default object.
    pub fn new() -> (r: Self)
        ensures
            r == Self::spec_new(),
            r.wf(),
    {
        Self {
            x: 0,
            y: 0,
            bounding_box: AxisBoundingBox {
                x: -HALF_OBJECT_SIZE,
                y: HALF_OBJECT_SIZE,
                width: OBJECT_SIZE,
                height: OBJECT_SIZE,
            },
            death: false,
            id: -1,
            solid: true,
        }
    }

    /// The object's world bounding box: the local box translated to the
    /// object's position.
    pub open spec fn spec_world_box(self) -> AxisBoundingBox {
        self.bounding_box.spec_offset_by(self.x as int, self.y as int)
    }

    /// Computes the world bounding box.
    pub fn offset_bounding_box(&self) -> (r: AxisBoundingBox)
        requires
            self.wf(),
        ensures
            r == self.spec_world_box(),
            r.wf(),
    {
        self.bounding_box.offset_by(self.x, self.y)
    }
}

/// Validity of a local (object-relative) bounding box.
pub open spec fn local_box_wf(b: AxisBoundingBox) -> bool {
    &&& -LOCAL_BOX_BOUND <= b.x <= LOCAL_BOX_BOUND
    &&& -LOCAL_BOX_BOUND <= b.y <= LOCAL_BOX_BOUND
    &&& 0 <= b.width <= LOCAL_BOX_BOUND
    &&& 0 <= b.height <= LOCAL_BOX_BOUND
}


} // verus!
