//! The shared data model of the game world.
//!
//! All world quantities are plain integers in fixed-point form: positions,
//! velocities and forces carry `MILLI` fractional steps per unit, and times
//! are milliseconds. The simulation is exact integer arithmetic, so every
//! system's effect can be stated and proved precisely.

use vstd::prelude::*;

verus! {

/// Entities are identified by opaque ids, assigned monotonically and never
/// reused while referenced.
pub type EntityId = u64;

/// Fractional steps per world unit: all fixed-point scalars count in
/// thousandths.
pub const MILLI: i64 = 1000;

/// Largest magnitude a position or velocity component may take.
pub const MAX_COORD: i64 = 1_000_000_000;

/// Largest magnitude an accumulated force component may take; accumulation
/// saturates here instead of overflowing.
pub const MAX_FORCE: i64 = 1_000_000_000_000_000;

/// Largest mass of a body or planet, in `MILLI` steps.
pub const MAX_MASS: i64 = 1_000_000;

/// Gravitational constant of the simulation.
pub const GRAV: i64 = 1_000_000;

/// A two-dimensional fixed-point vector, the scalar pair that positions,
/// velocities and forces are made of.
#[derive(Clone, Copy, Debug, PartialEq, Eq, Structural)]
pub struct Vec2 {
    pub x: i64,
    pub y: i64,
}

impl Vec2 {
    pub fn new(x: i64, y: i64) -> (r: Vec2)
        ensures
            r == (Vec2 { x, y }),
    {
        Vec2 { x, y }
    }

    pub fn zero() -> (r: Vec2)
        ensures
            r == (Vec2 { x: 0, y: 0 }),
    {
        Vec2 { x: 0, y: 0 }
    }
}

/// A movable object of the world: where it is, how it moves, what pushes it.
///
/// The accumulated force is reset to zero at the start of every tick and
/// mutated only by the simulation systems.
#[derive(Clone, Copy, Debug, PartialEq, Eq, Structural)]
pub struct Body {
    pub position: Vec2,
    pub velocity: Vec2,
    pub force: Vec2,
    pub mass: i64,
}

impl Body {
    /// Whether every component is within the world's fixed bounds.
    pub open spec fn bounded(self) -> bool {
        &&& -MAX_COORD <= self.position.x <= MAX_COORD
        &&& -MAX_COORD <= self.position.y <= MAX_COORD
        &&& -MAX_COORD <= self.velocity.x <= MAX_COORD
        &&& -MAX_COORD <= self.velocity.y <= MAX_COORD
        &&& -MAX_FORCE <= self.force.x <= MAX_FORCE
        &&& -MAX_FORCE <= self.force.y <= MAX_FORCE
        &&& 0 < self.mass <= MAX_MASS
    }

    /// A body at rest at the origin with unit mass.
    pub fn at_rest() -> (r: Body)
        ensures
            r == sp_at_rest(),
            r.bounded(),
    {
        Body {
            position: Vec2 { x: 0, y: 0 },
            velocity: Vec2 { x: 0, y: 0 },
            force: Vec2 { x: 0, y: 0 },
            mass: MILLI,
        }
    }
}

/// A body at rest at the origin with unit mass: what a new ship starts as.
pub open spec fn sp_at_rest() -> Body {
    Body {
        position: Vec2 { x: 0, y: 0 },
        velocity: Vec2 { x: 0, y: 0 },
        force: Vec2 { x: 0, y: 0 },
        mass: MILLI,
    }
}

/// An RGB color, carried by planets for rendering collaborators.
#[derive(Clone, Copy, Debug, PartialEq, Eq, Structural)]
pub struct Color {
    pub r: u8,
    pub g: u8,
    pub b: u8,
}

/// A static source of gravity and a collision target.
#[derive(Clone, Copy, Debug, PartialEq, Eq, Structural)]
pub struct Planet {
    pub position: Vec2,
    pub radius: i64,
    pub mass: i64,
    pub color: Color,
}

impl Planet {
    /// Whether the planet's components are within the world's fixed bounds.
    pub open spec fn bounded(self) -> bool {
        &&& -MAX_COORD <= self.position.x <= MAX_COORD
        &&& -MAX_COORD <= self.position.y <= MAX_COORD
        &&& 0 <= self.radius <= MAX_COORD
        &&& 0 < self.mass <= MAX_MASS
    }
}

/// Marker tagging an entity as player-controlled.
#[derive(Clone, Copy, Debug, PartialEq, Eq, Structural)]
pub struct Ship;

/// A text message shown to every connected player; at most one live per
/// sender.
#[derive(Debug, PartialEq, Eq)]
pub struct Broadcast {
    pub sender: EntityId,
    pub message: String,
}

impl Clone for Broadcast {
    fn clone(&self) -> (r: Self)
        ensures
            r.sender == self.sender,
            r.message@ == self.message@,
    {
        Broadcast { sender: self.sender, message: self.message.clone() }
    }
}

/// A scheduled thrust application.
///
/// The direction the original interface expresses as an angle is carried as
/// that angle's unit vector, scaled by `MILLI`; thrust is a fraction of full
/// throttle in `MILLI` steps, clamped to `[-MILLI, MILLI]` on entry.
#[derive(Clone, Copy, Debug, PartialEq, Eq, Structural)]
pub struct ManeuverData {
    pub start_ms: u64,
    pub duration_ms: u64,
    pub direction: Vec2,
    pub thrust: i64,
}

impl ManeuverData {
    /// Whether the direction is a scaled unit vector and the thrust is within
    /// throttle limits.
    pub open spec fn bounded(self) -> bool {
        &&& -MILLI <= self.direction.x <= MILLI
        &&& -MILLI <= self.direction.y <= MILLI
        &&& -MILLI <= self.thrust <= MILLI
        &&& self.start_ms + self.duration_ms <= u64::MAX
    }
}

/// A scheduled maneuver together with the ship it belongs to. Only the owning
/// client may cancel it; it is destroyed once its end time has elapsed.
#[derive(Clone, Copy, Debug, PartialEq, Eq, Structural)]
pub struct Maneuver {
    pub ship_id: EntityId,
    pub data: ManeuverData,
}

} // verus!
