//! Rigid bodies for the entities of a scene.

pub mod components;
pub mod systems;
pub mod theorems;

pub use self::components::{DynamicPhysicsObject, Ground, PhysicsState, PlayerTag, RigidBody};
pub use self::systems::{
    NPhysicsSystem, PhysicsWorldSystem, PlayerInputSystem, PlayerRotateSystem,
    PlayerRotateSystemDesc,
};
