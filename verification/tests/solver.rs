use nalgebra::{Isometry3, Translation3, UnitQuaternion, Vector3};
use ncollide3d::shape::{Cuboid, ShapeHandle};
use nphysics3d::algebra::Force3;
use nphysics3d::force_generator::DefaultForceGeneratorSet;
use nphysics3d::joint::DefaultJointConstraintSet;
use nphysics3d::object::{
    Body, BodyPartHandle, ColliderDesc, DefaultBodyHandle, DefaultBodySet, DefaultColliderSet,
    RigidBodyDesc,
};
use nphysics3d::world::{DefaultGeometricalWorld, DefaultMechanicalWorld};
use physics_bridge::physics::systems::{
    BodyOrder, ImpulseOrder, PointerEvent, Provision, RotationOrder, Stage,
};
use physics_bridge::physics::{
    DynamicPhysicsObject, Ground, NPhysicsSystem, PhysicsState, PhysicsWorldSystem,
    PlayerInputSystem, PlayerRotateSystemDesc, PlayerTag, RigidBody,
};
use physics_bridge::ratio::Ratio;
use physics_bridge::storage::{Entity, Storage};

type Pose = Isometry3<f32>;

fn as_number(ratio: Ratio) -> f64 {
    ratio.numerator as f64 / ratio.denominator as f64
}

/// The world of the solver, driven by what the stages list.
struct PhysicsWorld {
    mechanical: DefaultMechanicalWorld<f64>,
    geometrical: DefaultGeometricalWorld<f64>,
    bodies: DefaultBodySet<f64>,
    colliders: DefaultColliderSet<f64>,
    joint_constraints: DefaultJointConstraintSet<f64>,
    force_generators: DefaultForceGeneratorSet<f64>,
}

impl PhysicsWorld {
    fn new(system: &PhysicsWorldSystem) -> Self {
        let gravity = system.gravity();
        PhysicsWorld {
            mechanical: DefaultMechanicalWorld::new(Vector3::new(
                as_number(gravity.x),
                as_number(gravity.y),
                as_number(gravity.z),
            )),
            geometrical: DefaultGeometricalWorld::new(),
            bodies: DefaultBodySet::new(),
            colliders: DefaultColliderSet::new(),
            joint_constraints: DefaultJointConstraintSet::new(),
            force_generators: DefaultForceGeneratorSet::new(),
        }
    }

    fn step(&mut self) {
        self.mechanical.step(
            &mut self.geometrical,
            &mut self.bodies,
            &mut self.colliders,
            &mut self.joint_constraints,
            &mut self.force_generators,
        )
    }

    fn create(&mut self, order: &BodyOrder<f32, Pose>) -> DefaultBodyHandle {
        let body = RigidBodyDesc::new()
            .position(nalgebra::convert::<Isometry3<f32>, Isometry3<f64>>(order.position))
            .status(order.status)
            .gravity_enabled(order.gravity_enabled)
            .build();
        let half = order.collider_size as f64 * as_number(order.half_extent);
        let shape = ShapeHandle::new(Cuboid::new(Vector3::new(half, half, half)));
        let handle = self.bodies.insert(body);
        let collider =
            ColliderDesc::new(shape)
            .density(as_number(order.density))
            .build(BodyPartHandle(handle, order.part));
        self.colliders.insert(collider);
        handle
    }

    fn pose(&self, handle: DefaultBodyHandle) -> Option<Pose> {
        self.bodies
            .rigid_body(handle)
            .map(|body| nalgebra::convert::<Isometry3<f64>, Isometry3<f32>>(*body.position()))
    }

    fn push(&mut self, order: &ImpulseOrder<f32>) {
        if let Some(body) = self.bodies.rigid_body_mut(order.body) {
            body.set_linear_damping(as_number(order.linear_damping));
            body.set_angular_damping(as_number(order.angular_damping));
            let force = Force3::new(
                Vector3::new(order.force.x as f64, 0.0, order.force.z as f64),
                Vector3::new(0.0, 0.0, 0.0),
            );
            body.apply_force(order.part, &force, order.force_type, order.auto_wake_up);
        }
    }

    fn turn(&mut self, order: &RotationOrder<f64>) {
        let body = self.bodies.rigid_body_mut(order.body).unwrap();
        let mut position = *body.position();
        position.append_rotation_mut(&UnitQuaternion::from_axis_angle(
            &Vector3::x_axis(),
            order.pitch * as_number(order.sensitivity),
        ));
        position.append_rotation_mut(&UnitQuaternion::from_axis_angle(
            &Vector3::y_axis(),
            order.yaw * as_number(order.sensitivity),
        ));
        body.set_position(position);
    }
}

struct Scene {
    rigidbody: Storage<RigidBody<f32>>,
    ground: Storage<Ground<f32>>,
    phystate: Storage<PhysicsState>,
    transform: Storage<Pose>,
    dynamic: Storage<DynamicPhysicsObject>,
    tags: Storage<PlayerTag>,
    schedule: PhysicsWorldSystem,
    world: PhysicsWorld,
    created: usize,
}

const CUBE: Entity = 0;
const FLOOR: Entity = 1;

/// A cube of edge 2 that hangs over a floor whose top lies at height zero.
fn scene(height: f32) -> Scene {
    let schedule = PhysicsWorldSystem::new();
    let world = PhysicsWorld::new(&schedule);
    let mut scene = Scene {
        rigidbody: Storage::new(),
        ground: Storage::new(),
        phystate: Storage::new(),
        transform: Storage::new(),
        dynamic: Storage::new(),
        tags: Storage::new(),
        schedule,
        world,
        created: 0,
    };
    scene.rigidbody.insert(CUBE, RigidBody { size: 2.0 });
    scene.transform.insert(CUBE, Isometry3::translation(0.0, height, 0.0));
    scene.tags.insert(CUBE, PlayerTag);
    scene.ground.insert(FLOOR, Ground { size: 20.0 });
    scene.transform.insert(FLOOR, Isometry3::translation(0.0, -10.0, 0.0));
    scene
}

impl Scene {
    fn provision(&mut self) {
        assert!(self.schedule.run(Stage::Provision));
        let orders =
            NPhysicsSystem.plan(&self.rigidbody, &self.ground, &self.phystate, &self.transform);
        let mut provisions: Vec<Provision> = Vec::new();
        for order in &orders {
            let handle = self.world.create(order);
            self.created += 1;
            provisions.push(order.fulfil(handle));
        }
        assert!(NPhysicsSystem.can_attach(&provisions, &self.phystate));
        NPhysicsSystem.attach(&provisions, &mut self.phystate, &mut self.dynamic);
    }

    fn step(&mut self) {
        assert!(self.schedule.run(Stage::Step));
        self.world.step();
    }

    fn synchronize(&mut self) {
        assert!(self.schedule.run(Stage::Synchronize));
        let targets = NPhysicsSystem.targets(&self.transform, &self.phystate, &self.dynamic);
        let reports: Vec<(Entity, Option<Pose>)> =
            targets.iter().map(|(entity, handle)| (*entity, self.world.pose(*handle))).collect();
        NPhysicsSystem.synchronize(&mut self.transform, &self.phystate, &self.dynamic, &reports);
    }

    fn control(&mut self, horizontal: Option<f32>, vertical: Option<f32>, motions: &[(f64, f64)]) {
        assert!(self.schedule.run(Stage::Control));
        for order in PlayerInputSystem.run(&self.tags, &self.phystate, horizontal, vertical) {
            self.world.push(&order);
        }
        let events: Vec<PointerEvent<f64>> =
            motions.iter().map(|&(x, y)| PointerEvent::Motion { x, y }).collect();
        let system = PlayerRotateSystemDesc.build();
        for order in system.run(&events, true, true, &self.tags, &self.phystate) {
            self.world.turn(&order);
        }
    }

    fn tick(&mut self) {
        self.provision();
        self.step();
        self.synchronize();
        self.control(None, None, &[]);
    }

    fn cube(&self) -> &nphysics3d::object::RigidBody<f64> {
        self.world.bodies.rigid_body(self.phystate.get(CUBE).unwrap().body()).unwrap()
    }
}

#[test]
fn the_solver_makes_one_body_for_each_entity() {
    let mut scene = scene(5.0);
    for _ in 0..10 {
        scene.tick();
    }
    assert_eq!(scene.created, 2);
    assert_eq!(scene.world.bodies.iter().count(), 2);
    assert_eq!(scene.world.colliders.iter().count(), 2);
}

#[test]
fn the_collider_is_a_cube_of_half_the_size_each_way() {
    let mut scene = scene(5.0);
    scene.provision();
    let (_, collider) = scene.world.colliders.iter().next().unwrap();
    let cuboid = collider.shape().as_shape::<Cuboid<f64>>().unwrap();
    assert_eq!(cuboid.half_extents, Vector3::new(1.0, 1.0, 1.0));
    assert_eq!(collider.density(), 1.0);
}

#[test]
fn the_floor_keeps_its_pose_through_the_steps() {
    let mut scene = scene(5.0);
    let floor = *scene.transform.get(FLOOR).unwrap();
    for _ in 0..200 {
        scene.tick();
        assert_eq!(*scene.transform.get(FLOOR).unwrap(), floor);
    }
    assert!(!scene.dynamic.contains(FLOOR));
}

#[test]
fn the_cube_falls_and_comes_to_rest_on_the_floor() {
    let mut scene = scene(5.0);
    let mut last = scene.transform.get(CUBE).unwrap().translation.vector;
    let mut rested = None;
    for tick in 0..600 {
        scene.tick();
        let now = scene.transform.get(CUBE).unwrap().translation.vector;
        let moved = (now - last).norm();
        last = now;
        if tick > 0 && moved < 1.0e-4 {
            rested = Some(tick);
            break;
        }
    }
    assert!(rested.is_some());
    assert!(last.y < 5.0);
    assert!((last.y - 1.0).abs() < 0.1);
    assert!(last.x.abs() < 1.0e-3 && last.z.abs() < 1.0e-3);
    for _ in 0..20 {
        scene.tick();
        let now = scene.transform.get(CUBE).unwrap().translation.vector;
        assert!((now - last).norm() < 1.0e-3);
        last = now;
    }
}

#[test]
fn the_cube_takes_its_pose_from_the_solver() {
    let mut scene = scene(5.0);
    scene.tick();
    let first = scene.transform.get(CUBE).unwrap().translation.vector;
    scene.tick();
    let second = scene.transform.get(CUBE).unwrap().translation.vector;
    assert!(first.y < 5.0);
    assert!(second.y < first.y);
    let solver = scene.cube().position().translation.vector;
    assert_eq!(second, Vector3::new(solver.x as f32, solver.y as f32, solver.z as f32));
}

#[test]
fn a_push_along_the_horizontal_axis_changes_only_that_velocity() {
    let mut scene = scene(5.0);
    scene.provision();
    scene.step();
    scene.synchronize();
    let before = scene.cube().velocity().linear;
    scene.control(Some(1.0), Some(0.0), &[]);
    let after = scene.cube().velocity().linear;
    let change = after - before;
    assert!(change.x > 0.0);
    assert_eq!(change.x, 1.0);
    assert_eq!(change.y, 0.0);
    assert_eq!(change.z, 0.0);
    assert_eq!(scene.cube().velocity().angular, Vector3::new(0.0, 0.0, 0.0));
}

#[test]
fn a_push_needs_both_axes_to_change_the_velocity() {
    let mut scene = scene(5.0);
    scene.provision();
    scene.step();
    scene.synchronize();
    let before = *scene.cube().velocity();
    scene.control(Some(1.0), None, &[]);
    assert_eq!(scene.cube().velocity().linear, before.linear);
    assert_eq!(scene.cube().velocity().angular, before.angular);
    assert!(scene.schedule.run(Stage::Provision));
    assert!(scene.schedule.run(Stage::Step));
    assert!(scene.schedule.run(Stage::Synchronize));
    scene.control(None, Some(1.0), &[]);
    assert_eq!(scene.cube().velocity().linear, before.linear);
    assert_eq!(scene.cube().velocity().angular, before.angular);
}

#[test]
fn a_push_never_moves_the_floor() {
    let mut scene = scene(5.0);
    scene.tags.insert(FLOOR, PlayerTag);
    let floor = *scene.transform.get(FLOOR).unwrap();
    for _ in 0..30 {
        scene.provision();
        scene.step();
        scene.synchronize();
        scene.control(Some(1.0), Some(1.0), &[]);
        assert_eq!(*scene.transform.get(FLOOR).unwrap(), floor);
    }
}

#[test]
fn each_motion_adds_a_tenth_to_the_yaw_and_nothing_to_the_pitch() {
    let mut scene = scene(5.0);
    scene.provision();
    let mut yaw = 0.0;
    for event in 1..=20 {
        assert!(scene.schedule.run(Stage::Step));
        assert!(scene.schedule.run(Stage::Synchronize));
        scene.control(None, None, &[(1.0, 0.0)]);
        assert!(scene.schedule.run(Stage::Provision));
        let rotation = scene.cube().position().rotation;
        let (axis, angle) = rotation.axis_angle().unwrap();
        assert!((axis.into_inner() - Vector3::y()).norm() < 1.0e-9);
        assert!(angle > yaw);
        assert!((angle - yaw - 0.1).abs() < 1.0e-9);
        assert!((angle - 0.1 * event as f64).abs() < 1.0e-9);
        yaw = angle;
    }
}

#[test]
fn several_motions_in_one_tick_add_up() {
    let mut scene = scene(5.0);
    scene.provision();
    assert!(scene.schedule.run(Stage::Step));
    assert!(scene.schedule.run(Stage::Synchronize));
    scene.control(None, None, &[(1.0, 0.0), (1.0, 0.0), (1.0, 0.0)]);
    let (axis, angle) = scene.cube().position().rotation.axis_angle().unwrap();
    assert!((axis.into_inner() - Vector3::y()).norm() < 1.0e-9);
    assert!((angle - 0.3).abs() < 1.0e-9);
}

#[test]
fn a_motion_up_or_down_turns_about_the_lateral_axis() {
    let mut scene = scene(5.0);
    scene.provision();
    assert!(scene.schedule.run(Stage::Step));
    assert!(scene.schedule.run(Stage::Synchronize));
    scene.control(None, None, &[(0.0, 2.0)]);
    let (axis, angle) = scene.cube().position().rotation.axis_angle().unwrap();
    assert!((axis.into_inner() - Vector3::x()).norm() < 1.0e-9);
    assert!((angle - 0.2).abs() < 1.0e-9);
    let moved = scene.cube().position().translation;
    let turned = UnitQuaternion::from_axis_angle(&Vector3::x_axis(), 0.2)
        * Translation3::new(0.0, 5.0, 0.0).vector;
    assert!((moved.vector - turned).norm() < 1.0e-9);
}
