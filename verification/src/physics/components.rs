//! What an entity carries to take part in the simulation.

use nphysics3d::object::DefaultBodyHandle;
use vstd::prelude::*;

verus! {

/// `nphysics3d::object::DefaultBodyHandle`: the key under which the solver
/// keeps a body. Nothing is said of what is inside it.
#[verifier::external_type_specification]
#[verifier::external_body]
pub struct ExDefaultBodyHandle(nphysics3d::object::DefaultBodyHandle);

/// Declares a body that moves: gravity and forces act on it. It collides as
/// a cube with edges of length `size`.
#[derive(Clone, Copy, Debug)]
pub struct RigidBody<S> {
    pub size: S,
}

/// Declares a body that stays where it is, whatever acts on it. It collides
/// as a cube with edges of length `size`.
#[derive(Clone, Copy, Debug)]
pub struct Ground<S> {
    pub size: S,
}

/// A declaration of a body, by the length of the edges of its cube.
pub trait PhysicalDescriptor<S> {
    /// The length of the edges.
    spec fn extent(&self) -> S;

    fn size(&self) -> (size: S)
        ensures
            size == self.extent(),
    ;
}

impl<S: Copy> PhysicalDescriptor<S> for RigidBody<S> {
    open spec fn extent(&self) -> S {
        self.size
    }

    fn size(&self) -> (size: S) {
        self.size
    }
}

impl<S: Copy> PhysicalDescriptor<S> for Ground<S> {
    open spec fn extent(&self) -> S {
        self.size
    }

    fn size(&self) -> (size: S) {
        self.size
    }
}

/// The body that the solver keeps for an entity.
#[derive(Clone, Copy, Debug)]
pub struct PhysicsState {
    pub body: DefaultBodyHandle,
}

impl PhysicsState {
    /// The state of an entity whose body the solver keeps under `body`.
    pub fn new(body: DefaultBodyHandle) -> (state: Self)
        ensures
            state == (PhysicsState { body }),
    {
        PhysicsState { body }
    }

    /// The handle of the body.
    pub fn body(&self) -> (body: DefaultBodyHandle)
        ensures
            body == self.body,
    {
        self.body
    }
}

/// Marks an entity that takes its pose from the solver.
#[derive(Clone, Copy, Debug, Default)]
pub struct DynamicPhysicsObject;

/// Marks an entity that the player steers.
#[derive(Clone, Copy, Debug, Default)]
pub struct PlayerTag;

} // verus!
