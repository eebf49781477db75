//! The stages of a tick, each as a function of the component tables.
//!
//! A stage that needs the solver does not call it. It lists what the solver
//! is to do, and a later stage takes what the solver answered.

use crate::physics::components::{
    DynamicPhysicsObject, Ground, PhysicalDescriptor, PhysicsState, PlayerTag, RigidBody,
};
use crate::ratio::Ratio;
use crate::storage::{ascending, in_order, lemma_ascending_gap, Entity, Storage};
use nphysics3d::algebra::ForceType;
use nphysics3d::object::{BodyStatus, DefaultBodyHandle};
use vstd::prelude::*;

verus! {

/// `nphysics3d::object::BodyStatus`. The enum is read as the solver defines
/// it, with its variants and nothing assumed of them.
#[verifier::external_type_specification]
pub struct ExBodyStatus(nphysics3d::object::BodyStatus);

/// `nphysics3d::algebra::ForceType`. The enum is read as the solver defines
/// it, with its variants and nothing assumed of them.
#[verifier::external_type_specification]
pub struct ExForceType(nphysics3d::algebra::ForceType);

/// The stages of a tick, in the order in which they run.
#[derive(Clone, Copy, Debug, PartialEq, Eq, Structural)]
pub enum Stage {
    /// Bodies are ordered and recorded for the entities that lack one.
    Provision,
    /// The solver advances the world by one step.
    Step,
    /// Poses are taken from the solver.
    Synchronize,
    /// Pushes and turns of the player are handed to the solver.
    Control,
}

impl Stage {
    /// The stage that runs after this one. After the last comes the first,
    /// of the next tick.
    pub open spec fn spec_next(self) -> Stage {
        match self {
            Stage::Provision => Stage::Step,
            Stage::Step => Stage::Synchronize,
            Stage::Synchronize => Stage::Control,
            Stage::Control => Stage::Provision,
        }
    }

    /// The stage that runs after this one.
    #[verifier::when_used_as_spec(spec_next)]
    pub fn next(self) -> (next: Stage)
        ensures
            next == self.spec_next(),
    {
        match self {
            Stage::Provision => Stage::Step,
            Stage::Step => Stage::Synchronize,
            Stage::Synchronize => Stage::Control,
            Stage::Control => Stage::Provision,
        }
    }
}

/// The gravity of the world, along its three axes.
#[derive(Clone, Copy, Debug, PartialEq, Eq, Structural)]
pub struct Gravity {
    pub x: Ratio,
    pub y: Ratio,
    pub z: Ratio,
}

/// Keeps the world advancing in step with the stages around it: the solver
/// steps once in a tick, after provisioning and before any pose is read.
pub struct PhysicsWorldSystem {
    due: Stage,
}

impl PhysicsWorldSystem {
    /// The stage that runs next.
    pub closed spec fn due(&self) -> Stage {
        self.due
    }

    /// The stage that is due after `stage` asked to run, where `due` was due
    /// before: the one after it where the two are the same, else `due` still.
    pub open spec fn due_then(due: Stage, stage: Stage) -> Stage {
        if stage == due {
            due.spec_next()
        } else {
            due
        }
    }

    /// The stage that is due after `requests` were made in turn, where the
    /// stage `due` was due before.
    pub open spec fn due_after(due: Stage, requests: Seq<Stage>) -> Stage
        decreases requests.len(),
    {
        if requests.len() == 0 {
            due
        } else {
            Self::due_then(Self::due_after(due, requests.drop_last()), requests.last())
        }
    }

    /// The requests among `requests` that were granted, in turn, where the
    /// stage `due` was due before.
    pub open spec fn granted(due: Stage, requests: Seq<Stage>) -> Seq<Stage>
        decreases requests.len(),
    {
        if requests.len() == 0 {
            Seq::empty()
        } else {
            let earlier = Self::granted(due, requests.drop_last());
            if requests.last() == Self::due_after(due, requests.drop_last()) {
                earlier.push(requests.last())
            } else {
                earlier
            }
        }
    }

    /// The system at the start of a tick.
    pub fn new() -> (system: Self)
        ensures
            system.due() == Stage::Provision,
    {
        PhysicsWorldSystem { due: Stage::Provision }
    }

    /// The gravity that the world is made with: 9.8 down the second axis.
    pub fn gravity(&self) -> (gravity: Gravity)
        ensures
            gravity == (Gravity { x: Ratio::of(0, 1), y: Ratio::of(-98, 10), z: Ratio::of(0, 1) }),
    {
        Gravity {
            x: Ratio { numerator: 0, denominator: 1 },
            y: Ratio { numerator: -98, denominator: 10 },
            z: Ratio { numerator: 0, denominator: 1 },
        }
    }

    /// The stage that runs next.
    pub fn stage(&self) -> (stage: Stage)
        ensures
            stage == self.due(),
    {
        self.due
    }

    /// Asks to run `stage`. It is granted where `stage` is the one due, and
    /// the stage after it is then due. Otherwise nothing changes.
    pub fn run(&mut self, stage: Stage) -> (granted: bool)
        ensures
            granted == (stage == old(self).due()),
            final(self).due() == Self::due_then(old(self).due(), stage),
    {
        if stage == self.due {
            self.due = stage.next();
            true
        } else {
            false
        }
    }
}

/// A body and its collider, as the solver is asked to make them.
#[derive(Debug)]
pub struct BodyOrder<S, P> {
    /// The entity that the body is for.
    pub entity: Entity,
    /// Where the body starts.
    pub position: P,
    pub status: BodyStatus,
    pub gravity_enabled: bool,
    /// The length of the edges of the cube that the body collides as.
    pub collider_size: S,
    /// The part of `collider_size` that the cube reaches from its centre.
    pub half_extent: Ratio,
    /// The density of the cube, from which a moving body has its mass.
    pub density: Ratio,
    /// The part of the body that the collider is fixed to.
    pub part: usize,
}

/// A body that the solver has made, to be recorded on its entity.
#[derive(Clone, Copy, Debug)]
pub struct Provision {
    pub entity: Entity,
    pub state: PhysicsState,
    /// Whether the entity takes its pose from the solver from now on.
    pub dynamic: bool,
}

impl<S, P> BodyOrder<S, P> {
    /// The record of this order once the solver keeps the body under `body`.
    pub open spec fn provision(&self, body: DefaultBodyHandle) -> Provision {
        Provision {
            entity: self.entity,
            state: PhysicsState { body },
            dynamic: self.status == BodyStatus::Dynamic,
        }
    }

    /// Records that the solver keeps the body of this order under `body`.
    pub fn fulfil(&self, body: DefaultBodyHandle) -> (provision: Provision)
        ensures
            provision == self.provision(body),
    {
        let dynamic = match self.status {
            BodyStatus::Dynamic => true,
            _ => false,
        };
        Provision { entity: self.entity, state: PhysicsState::new(body), dynamic }
    }
}

/// Decides how the next bodies are made.
#[derive(Clone, Copy, Debug)]
pub struct BodyCreator {
    pub body_status: BodyStatus,
    pub no_gravity: bool,
}

impl BodyCreator {
    /// The order that this creator writes for `entity`.
    pub open spec fn order<S, P>(&self, entity: Entity, collider_size: S, position: P) -> BodyOrder<
        S,
        P,
    > {
        BodyOrder {
            entity,
            position,
            status: self.body_status,
            gravity_enabled: !self.no_gravity,
            collider_size,
            half_extent: Ratio::of(1, 2),
            density: Ratio::of(1, 1),
            part: 0,
        }
    }

    /// A creator of moving bodies under gravity.
    pub fn new() -> (creator: Self)
        ensures
            creator == (BodyCreator { body_status: BodyStatus::Dynamic, no_gravity: false }),
    {
        BodyCreator { body_status: BodyStatus::Dynamic, no_gravity: false }
    }

    /// Gives the next bodies the status `status`.
    pub fn set_body_status(&mut self, status: BodyStatus) -> (creator: &mut Self)
        ensures
            *creator == (BodyCreator { body_status: status, ..*old(self) }),
            *final(self) == *final(creator),
    {
        self.body_status = status;
        self
    }

    /// Exempts the next bodies from gravity.
    pub fn set_no_gravity(&mut self) -> (creator: &mut Self)
        ensures
            *creator == (BodyCreator { no_gravity: true, ..*old(self) }),
            *final(self) == *final(creator),
    {
        self.no_gravity = true;
        self
    }

    /// Writes the order for a body of `entity` at `transform`, which collides
    /// as a cube with edges of length `collider_size`.
    pub fn create<S, P>(&self, entity: Entity, collider_size: S, transform: P) -> (order: BodyOrder<
        S,
        P,
    >)
        ensures
            order == self.order(entity, collider_size, transform),
    {
        BodyOrder {
            entity,
            position: transform,
            status: self.body_status,
            gravity_enabled: !self.no_gravity,
            collider_size,
            half_extent: Ratio { numerator: 1, denominator: 2 },
            density: Ratio { numerator: 1, denominator: 1 },
            part: 0,
        }
    }
}

/// The entities that declare a body and have a pose, but no body yet.
pub open spec fn unprovisioned<D, P>(
    descriptors: Map<Entity, D>,
    states: Map<Entity, PhysicsState>,
    poses: Map<Entity, P>,
) -> Set<Entity> {
    Set::new(
        |e: Entity| descriptors.contains_key(e) && !states.contains_key(e) && poses.contains_key(e),
    )
}

/// The orders of `creator` for the unprovisioned entities, the smaller entity
/// first: one for each, made from its descriptor and its pose.
pub open spec fn orders_for<S, P, D: PhysicalDescriptor<S>>(
    creator: BodyCreator,
    descriptors: Map<Entity, D>,
    states: Map<Entity, PhysicsState>,
    poses: Map<Entity, P>,
) -> Seq<BodyOrder<S, P>> {
    in_order(unprovisioned(descriptors, states, poses)).map_values(
        |e: Entity| creator.order(e, descriptors[e].extent(), poses[e]),
    )
}

/// The part of `orders_for` for the entities below `limit`.
spec fn orders_below<S, P, D: PhysicalDescriptor<S>>(
    creator: BodyCreator,
    descriptors: Map<Entity, D>,
    states: Map<Entity, PhysicsState>,
    poses: Map<Entity, P>,
    limit: nat,
) -> Seq<BodyOrder<S, P>> {
    ascending(unprovisioned(descriptors, states, poses), limit).map_values(
        |e: Entity| creator.order(e, descriptors[e].extent(), poses[e]),
    )
}

/// The orders of a tick: first those for the moving bodies, then those for
/// the fixed ones, which gravity leaves alone.
pub open spec fn pending_orders<S: Copy, P>(
    rigidbody: Map<Entity, RigidBody<S>>,
    ground: Map<Entity, Ground<S>>,
    states: Map<Entity, PhysicsState>,
    poses: Map<Entity, P>,
) -> Seq<BodyOrder<S, P>> {
    orders_for(
        BodyCreator { body_status: BodyStatus::Dynamic, no_gravity: false },
        rigidbody,
        states,
        poses,
    ) + orders_for(
        BodyCreator { body_status: BodyStatus::Static, no_gravity: true },
        ground,
        states,
        poses,
    )
}

/// Appends to `orders` what `creator` orders for the unprovisioned entities.
fn scan<S: Copy, P: Copy, D: PhysicalDescriptor<S>>(
    creator: &BodyCreator,
    descriptors: &Storage<D>,
    states: &Storage<PhysicsState>,
    poses: &Storage<P>,
    orders: &mut Vec<BodyOrder<S, P>>,
)
    ensures
        final(orders)@ == old(orders)@ + orders_for(*creator, descriptors@, states@, poses@),
{
    let limit = descriptors.bound();
    let ghost keys = unprovisioned(descriptors@, states@, poses@);
    let mut entity: usize = 0;
    while entity < limit
        invariant
            entity <= limit,
            keys == unprovisioned(descriptors@, states@, poses@),
            orders@ == old(orders)@ + orders_below(
                *creator,
                descriptors@,
                states@,
                poses@,
                entity as nat,
            ),
        decreases limit - entity,
    {
        let ghost before = orders_below(*creator, descriptors@, states@, poses@, entity as nat);
        if let Some(descriptor) = descriptors.get(entity) {
            if !states.contains(entity) {
                if let Some(pose) = poses.get(entity) {
                    orders.push(creator.create(entity, descriptor.size(), *pose));
                }
            }
        }
        entity += 1;
        assert(orders@ =~= old(orders)@ + orders_below(
            *creator,
            descriptors@,
            states@,
            poses@,
            entity as nat,
        )) by {
            let after = orders_below(*creator, descriptors@, states@, poses@, entity as nat);
            if keys.contains((entity - 1) as usize) {
                assert(after =~= before.push(
                    creator.order(
                        (entity - 1) as usize,
                        descriptors@[(entity - 1) as usize].extent(),
                        poses@[(entity - 1) as usize],
                    ),
                ));
            } else {
                assert(after =~= before);
            }
        }
    }
    proof {
        assert forall|e: Entity| limit <= e implies !keys.contains(e) by {}
        lemma_ascending_gap(keys, limit as nat, usize::MAX as nat + 1);
    }
}

/// Gives every entity that declares a body a body in the solver, and the
/// entities that move their pose from it.
pub struct NPhysicsSystem;

impl NPhysicsSystem {
    /// Lists the bodies that the solver is to make: one for each entity that
    /// declares a body and has a pose but no body yet. No table is changed.
    pub fn plan<S: Copy, P: Copy>(
        &self,
        rigidbody: &Storage<RigidBody<S>>,
        ground: &Storage<Ground<S>>,
        phystate: &Storage<PhysicsState>,
        transform: &Storage<P>,
    ) -> (orders: Vec<BodyOrder<S, P>>)
        ensures
            orders@ == pending_orders(rigidbody@, ground@, phystate@, transform@),
    {
        let mut creator = BodyCreator::new();
        let mut orders: Vec<BodyOrder<S, P>> = Vec::new();
        scan(&creator, rigidbody, phystate, transform, &mut orders);
        creator.set_body_status(BodyStatus::Static).set_no_gravity();
        scan(&creator, ground, phystate, transform, &mut orders);
        orders
    }
}

/// The records of `orders` once the solver keeps the body of each under the
/// handle at the same place in `handles`.
pub open spec fn fulfilled<S, P>(
    orders: Seq<BodyOrder<S, P>>,
    handles: Seq<DefaultBodyHandle>,
) -> Seq<Provision> {
    Seq::new(orders.len(), |i: int| orders[i].provision(handles[i]))
}

/// Whether `provisions` can be recorded on top of `states`: none of their
/// entities has a body already, and none occurs twice among them.
pub open spec fn attachable(provisions: Seq<Provision>, states: Map<Entity, PhysicsState>) -> bool {
    &&& forall|i: int|
        0 <= i < provisions.len() ==> !states.contains_key(#[trigger] provisions[i].entity)
    &&& forall|i: int, j: int|
        0 <= i < j < provisions.len() ==> (#[trigger] provisions[i]).entity
            != (#[trigger] provisions[j]).entity
}

/// `states` after the bodies of `provisions` are recorded, one after the other.
pub open spec fn with_states(
    states: Map<Entity, PhysicsState>,
    provisions: Seq<Provision>,
) -> Map<Entity, PhysicsState>
    decreases provisions.len(),
{
    if provisions.len() == 0 {
        states
    } else {
        with_states(states, provisions.drop_last()).insert(
            provisions.last().entity,
            provisions.last().state,
        )
    }
}

/// `markers` after the entities of the moving bodies among `provisions` are
/// marked.
pub open spec fn with_markers(
    markers: Map<Entity, DynamicPhysicsObject>,
    provisions: Seq<Provision>,
) -> Map<Entity, DynamicPhysicsObject>
    decreases provisions.len(),
{
    if provisions.len() == 0 {
        markers
    } else if provisions.last().dynamic {
        with_markers(markers, provisions.drop_last()).insert(
            provisions.last().entity,
            DynamicPhysicsObject,
        )
    } else {
        with_markers(markers, provisions.drop_last())
    }
}

/// The entities that take their pose from the solver: those with a pose, a
/// body and the marker.
pub open spec fn followed<P>(
    poses: Map<Entity, P>,
    states: Map<Entity, PhysicsState>,
    markers: Map<Entity, DynamicPhysicsObject>,
) -> Set<Entity> {
    Set::new(
        |e: Entity| poses.contains_key(e) && states.contains_key(e) && markers.contains_key(e),
    )
}

/// The followed entities, each with the handle of its body, the smaller
/// entity first.
pub open spec fn sync_targets<P>(
    poses: Map<Entity, P>,
    states: Map<Entity, PhysicsState>,
    markers: Map<Entity, DynamicPhysicsObject>,
) -> Seq<(Entity, DefaultBodyHandle)> {
    in_order(followed(poses, states, markers)).map_values(|e: Entity| (e, states[e].body))
}

/// The part of `sync_targets` for the entities below `limit`.
spec fn targets_below<P>(
    poses: Map<Entity, P>,
    states: Map<Entity, PhysicsState>,
    markers: Map<Entity, DynamicPhysicsObject>,
    limit: nat,
) -> Seq<(Entity, DefaultBodyHandle)> {
    ascending(followed(poses, states, markers), limit).map_values(
        |e: Entity| (e, states[e].body),
    )
}

/// `poses` after the solver's `reports` are taken in, one after the other. A
/// report counts where its entity is followed and the solver knew the body.
pub open spec fn synchronized<P>(
    poses: Map<Entity, P>,
    states: Map<Entity, PhysicsState>,
    markers: Map<Entity, DynamicPhysicsObject>,
    reports: Seq<(Entity, Option<P>)>,
) -> Map<Entity, P>
    decreases reports.len(),
{
    if reports.len() == 0 {
        poses
    } else {
        let earlier = synchronized(poses, states, markers, reports.drop_last());
        let (entity, pose) = reports.last();
        if pose is Some && followed(poses, states, markers).contains(entity) {
            earlier.insert(entity, pose->Some_0)
        } else {
            earlier
        }
    }
}

/// Taking reports in neither adds an entity to the poses nor removes one.
pub proof fn lemma_synchronized_domain<P>(
    poses: Map<Entity, P>,
    states: Map<Entity, PhysicsState>,
    markers: Map<Entity, DynamicPhysicsObject>,
    reports: Seq<(Entity, Option<P>)>,
)
    ensures
        synchronized(poses, states, markers, reports).dom() == poses.dom(),
    decreases reports.len(),
{
    if reports.len() > 0 {
        lemma_synchronized_domain(poses, states, markers, reports.drop_last());
        assert(synchronized(poses, states, markers, reports).dom() =~= poses.dom());
    }
}

impl NPhysicsSystem {
    /// Whether `provisions` can be attached to `phystate`.
    pub fn can_attach(
        &self,
        provisions: &Vec<Provision>,
        phystate: &Storage<PhysicsState>,
    ) -> (ok: bool)
        ensures
            ok == attachable(provisions@, phystate@),
    {
        let mut seen: Storage<DynamicPhysicsObject> = Storage::new();
        let mut i: usize = 0;
        while i < provisions.len()
            invariant
                i <= provisions.len(),
                attachable(provisions@.take(i as int), phystate@),
                forall|e: Entity|
                    seen@.contains_key(e) <==> exists|k: int|
                        0 <= k < i && (#[trigger] provisions[k]).entity == e,
            decreases provisions.len() - i,
        {
            let entity = provisions[i].entity;
            if phystate.contains(entity) || seen.contains(entity) {
                proof {
                    if !phystate@.contains_key(entity) {
                        let k = choose|k: int|
                            0 <= k < i && (#[trigger] provisions[k]).entity == entity;
                        assert(provisions@[k].entity == provisions@[i as int].entity);
                    }
                }
                return false;
            }
            seen.insert(entity, DynamicPhysicsObject);
            i += 1;
            assert(attachable(provisions@.take(i as int), phystate@)) by {
                let now = provisions@.take(i as int);
                let before = provisions@.take(i - 1);
                assert forall|a: int, b: int| 0 <= a < b < now.len() implies (
                #[trigger] now[a]).entity != (#[trigger] now[b]).entity by {
                    if b < i - 1 {
                        assert(before[a].entity != before[b].entity);
                    } else {
                        assert(provisions[a].entity != entity);
                    }
                }
                assert forall|a: int| 0 <= a < now.len() implies !phystate@.contains_key(
                    #[trigger] now[a].entity,
                ) by {
                    if a < i - 1 {
                        assert(!phystate@.contains_key(before[a].entity));
                    }
                }
            }
        }
        assert(provisions@.take(i as int) =~= provisions@);
        true
    }

    /// Records the bodies that the solver has made: each entity of
    /// `provisions` gets its state and, where its body moves, the marker.
    ///
    /// An entity is given a body once. To attach a second one is a fault of
    /// the caller, which `can_attach` tells beforehand.
    pub fn attach(
        &self,
        provisions: &Vec<Provision>,
        phystate: &mut Storage<PhysicsState>,
        dynamic: &mut Storage<DynamicPhysicsObject>,
    )
        requires
            attachable(provisions@, old(phystate)@),
        ensures
            final(phystate)@ == with_states(old(phystate)@, provisions@),
            final(dynamic)@ == with_markers(old(dynamic)@, provisions@),
    {
        let mut i: usize = 0;
        while i < provisions.len()
            invariant
                i <= provisions.len(),
                phystate@ == with_states(old(phystate)@, provisions@.take(i as int)),
                dynamic@ == with_markers(old(dynamic)@, provisions@.take(i as int)),
            decreases provisions.len() - i,
        {
            let provision = provisions[i];
            phystate.insert(provision.entity, provision.state);
            if provision.dynamic {
                dynamic.insert(provision.entity, DynamicPhysicsObject);
            }
            i += 1;
            assert(provisions@.take(i as int).drop_last() =~= provisions@.take(i - 1));
        }
        assert(provisions@.take(i as int) =~= provisions@);
    }

    /// Lists the entities that take their pose from the solver, each with the
    /// handle under which the solver is to be asked for it.
    pub fn targets<P>(
        &self,
        transform: &Storage<P>,
        phystate: &Storage<PhysicsState>,
        dynamic: &Storage<DynamicPhysicsObject>,
    ) -> (targets: Vec<(Entity, DefaultBodyHandle)>)
        ensures
            targets@ == sync_targets(transform@, phystate@, dynamic@),
    {
        let limit = phystate.bound();
        let ghost keys = followed(transform@, phystate@, dynamic@);
        let mut targets: Vec<(Entity, DefaultBodyHandle)> = Vec::new();
        let mut entity: usize = 0;
        while entity < limit
            invariant
                entity <= limit,
                keys == followed(transform@, phystate@, dynamic@),
                targets@ == targets_below(transform@, phystate@, dynamic@, entity as nat),
            decreases limit - entity,
        {
            let ghost before = targets@;
            if let Some(state) = phystate.get(entity) {
                if transform.contains(entity) && dynamic.contains(entity) {
                    targets.push((entity, state.body()));
                }
            }
            entity += 1;
            assert(targets@ =~= targets_below(transform@, phystate@, dynamic@, entity as nat)) by {
                let after = targets_below(transform@, phystate@, dynamic@, entity as nat);
                if keys.contains((entity - 1) as usize) {
                    assert(after =~= before.push(
                        ((entity - 1) as usize, phystate@[(entity - 1) as usize].body),
                    ));
                } else {
                    assert(after =~= before);
                }
            }
        }
        proof {
            assert forall|e: Entity| limit <= e implies !keys.contains(e) by {}
            lemma_ascending_gap(keys, limit as nat, usize::MAX as nat + 1);
        }
        targets
    }

    /// Takes in what the solver reports: the pose of each followed entity whose
    /// body the solver knew becomes the reported one. Every other pose stays.
    pub fn synchronize<P: Copy>(
        &self,
        transform: &mut Storage<P>,
        phystate: &Storage<PhysicsState>,
        dynamic: &Storage<DynamicPhysicsObject>,
        reports: &Vec<(Entity, Option<P>)>,
    )
        ensures
            final(transform)@ == synchronized(old(transform)@, phystate@, dynamic@, reports@),
    {
        let mut i: usize = 0;
        while i < reports.len()
            invariant
                i <= reports.len(),
                transform@ == synchronized(
                    old(transform)@,
                    phystate@,
                    dynamic@,
                    reports@.take(i as int),
                ),
            decreases reports.len() - i,
        {
            proof {
                lemma_synchronized_domain(
                    old(transform)@,
                    phystate@,
                    dynamic@,
                    reports@.take(i as int),
                );
            }
            let (entity, pose) = reports[i];
            if let Some(pose) = pose {
                if transform.contains(entity) && phystate.contains(entity) && dynamic.contains(
                    entity,
                ) {
                    transform.insert(entity, pose);
                }
            }
            i += 1;
            assert(reports@.take(i as int).drop_last() =~= reports@.take(i - 1));
        }
        assert(reports@.take(i as int) =~= reports@);
    }
}

/// The entities that the player steers and that have a body.
pub open spec fn controlled(
    tags: Map<Entity, PlayerTag>,
    states: Map<Entity, PhysicsState>,
) -> Set<Entity> {
    Set::new(|e: Entity| tags.contains_key(e) && states.contains_key(e))
}

/// The handles of the bodies of the controlled entities, the smaller entity
/// first.
pub open spec fn controlled_bodies(
    tags: Map<Entity, PlayerTag>,
    states: Map<Entity, PhysicsState>,
) -> Seq<DefaultBodyHandle> {
    in_order(controlled(tags, states)).map_values(|e: Entity| states[e].body)
}

/// The part of `controlled_bodies` for the entities below `limit`.
spec fn bodies_below(
    tags: Map<Entity, PlayerTag>,
    states: Map<Entity, PhysicsState>,
    limit: nat,
) -> Seq<DefaultBodyHandle> {
    ascending(controlled(tags, states), limit).map_values(|e: Entity| states[e].body)
}

/// Lists the handles of the bodies of the controlled entities.
fn steered(tags: &Storage<PlayerTag>, states: &Storage<PhysicsState>) -> (bodies: Vec<
    DefaultBodyHandle,
>)
    ensures
        bodies@ == controlled_bodies(tags@, states@),
{
    let limit = states.bound();
    let ghost keys = controlled(tags@, states@);
    let mut bodies: Vec<DefaultBodyHandle> = Vec::new();
    let mut entity: usize = 0;
    while entity < limit
        invariant
            entity <= limit,
            keys == controlled(tags@, states@),
            bodies@ == bodies_below(tags@, states@, entity as nat),
        decreases limit - entity,
    {
        let ghost before = bodies@;
        if let Some(state) = states.get(entity) {
            if tags.contains(entity) {
                bodies.push(state.body());
            }
        }
        entity += 1;
        assert(bodies@ =~= bodies_below(tags@, states@, entity as nat)) by {
            let after = bodies_below(tags@, states@, entity as nat);
            if keys.contains((entity - 1) as usize) {
                assert(after =~= before.push(states@[(entity - 1) as usize].body));
            } else {
                assert(after =~= before);
            }
        }
    }
    proof {
        assert forall|e: Entity| limit <= e implies !keys.contains(e) by {}
        lemma_ascending_gap(keys, limit as nat, usize::MAX as nat + 1);
    }
    bodies
}

/// A force in the ground plane: `x` along the lateral axis, `z` along the
/// forward axis. It has no part along the up axis and turns nothing.
#[derive(Clone, Copy, Debug)]
pub struct PlanarForce<S> {
    pub x: S,
    pub z: S,
}

/// A push that the solver is to give a body, after setting its damping.
#[derive(Debug)]
pub struct ImpulseOrder<S> {
    pub body: DefaultBodyHandle,
    pub linear_damping: Ratio,
    pub angular_damping: Ratio,
    /// The part of the body that is pushed.
    pub part: usize,
    pub force: PlanarForce<S>,
    pub force_type: ForceType,
    pub auto_wake_up: bool,
}

/// Turns the player's two axes into a push on each controlled body.
pub struct PlayerInputSystem;

impl PlayerInputSystem {
    /// The force of the two axes: there is one only where both are given.
    pub open spec fn spec_force<S>(horizontal: Option<S>, vertical: Option<S>) -> Option<
        PlanarForce<S>,
    > {
        if horizontal is Some && vertical is Some {
            Some(PlanarForce { x: horizontal->Some_0, z: vertical->Some_0 })
        } else {
            None
        }
    }

    /// The push of `force` on `body`: a change of velocity on its first part,
    /// with both dampings at one half, waking the body.
    pub open spec fn impulse<S>(body: DefaultBodyHandle, force: PlanarForce<S>) -> ImpulseOrder<S> {
        ImpulseOrder {
            body,
            linear_damping: Ratio::of(1, 2),
            angular_damping: Ratio::of(1, 2),
            part: 0,
            force,
            force_type: ForceType::VelocityChange,
            auto_wake_up: true,
        }
    }

    /// The pushes of a tick: none where an axis is missing, else one on each
    /// controlled body.
    pub open spec fn impulses<S>(
        tags: Map<Entity, PlayerTag>,
        states: Map<Entity, PhysicsState>,
        horizontal: Option<S>,
        vertical: Option<S>,
    ) -> Seq<ImpulseOrder<S>> {
        match Self::spec_force(horizontal, vertical) {
            Some(force) => controlled_bodies(tags, states).map_values(
                |body: DefaultBodyHandle| Self::impulse(body, force),
            ),
            None => Seq::empty(),
        }
    }

    /// Makes the force of the two axes.
    pub fn force<S>(horizontal: Option<S>, vertical: Option<S>) -> (force: Option<PlanarForce<S>>)
        ensures
            force == Self::spec_force(horizontal, vertical),
    {
        match horizontal {
            Some(x) => match vertical {
                Some(z) => Some(PlanarForce { x, z }),
                None => None,
            },
            None => None,
        }
    }

    /// Lists the pushes of this tick for the solver.
    pub fn run<S: Copy>(
        &self,
        tagged: &Storage<PlayerTag>,
        state: &Storage<PhysicsState>,
        horizontal: Option<S>,
        vertical: Option<S>,
    ) -> (orders: Vec<ImpulseOrder<S>>)
        ensures
            orders@ == Self::impulses(tagged@, state@, horizontal, vertical),
            horizontal is None || vertical is None ==> orders@.len() == 0,
            forall|i: int|
                0 <= i < orders@.len() ==> (#[trigger] orders@[i]).force == (PlanarForce {
                    x: horizontal->Some_0,
                    z: vertical->Some_0,
                }),
    {
        let mut orders: Vec<ImpulseOrder<S>> = Vec::new();
        if let Some(force) = Self::force(horizontal, vertical) {
            let bodies = steered(tagged, state);
            let mut i: usize = 0;
            while i < bodies.len()
                invariant
                    i <= bodies.len(),
                    orders@ == bodies@.take(i as int).map_values(
                        |body: DefaultBodyHandle| Self::impulse(body, force),
                    ),
                decreases bodies.len() - i,
            {
                orders.push(
                    ImpulseOrder {
                        body: bodies[i],
                        linear_damping: Ratio { numerator: 1, denominator: 2 },
                        angular_damping: Ratio { numerator: 1, denominator: 2 },
                        part: 0,
                        force,
                        force_type: ForceType::VelocityChange,
                        auto_wake_up: true,
                    },
                );
                i += 1;
                assert(orders@ =~= bodies@.take(i as int).map_values(
                    |body: DefaultBodyHandle| Self::impulse(body, force),
                ));
            }
            assert(bodies@.take(i as int) =~= bodies@);
        }
        assert(orders@ =~= Self::impulses(tagged@, state@, horizontal, vertical));
        orders
    }
}

/// What the rotation of the player reads of an event of an input device.
#[derive(Clone, Copy, Debug)]
pub enum PointerEvent<S> {
    /// The pointer moved by `x` to the side and by `y` up or down.
    Motion { x: S, y: S },
    /// Any other event.
    Other,
}

/// A turn that the solver is to give a body: first about the lateral axis by
/// `pitch` times `sensitivity`, then about the up axis by `yaw` times
/// `sensitivity`.
#[derive(Debug)]
pub struct RotationOrder<S> {
    pub body: DefaultBodyHandle,
    pub pitch: S,
    pub yaw: S,
    pub sensitivity: Ratio,
}

/// Turns the movement of the pointer into turns of each controlled body.
pub struct PlayerRotateSystem {
    sensitivity: Ratio,
}

impl PlayerRotateSystem {
    /// The part of a movement of the pointer that a body turns by.
    pub closed spec fn sensitivity(&self) -> Ratio {
        self.sensitivity
    }

    /// The turns that one event asks for: none unless the window has the
    /// focus, the cursor is captured and the pointer moved; then one for each
    /// of `bodies`.
    pub open spec fn turns<S>(
        &self,
        event: PointerEvent<S>,
        focused: bool,
        hidden: bool,
        bodies: Seq<DefaultBodyHandle>,
    ) -> Seq<RotationOrder<S>> {
        match event {
            PointerEvent::Motion { x, y } if focused && hidden => bodies.map_values(
                |body: DefaultBodyHandle|
                    RotationOrder { body, pitch: y, yaw: x, sensitivity: self.sensitivity() },
            ),
            _ => Seq::empty(),
        }
    }

    /// The turns that `events` ask for, event by event.
    pub open spec fn rotations<S>(
        &self,
        events: Seq<PointerEvent<S>>,
        focused: bool,
        hidden: bool,
        bodies: Seq<DefaultBodyHandle>,
    ) -> Seq<RotationOrder<S>>
        decreases events.len(),
    {
        if events.len() == 0 {
            Seq::empty()
        } else {
            self.rotations(events.drop_last(), focused, hidden, bodies) + self.turns(
                events.last(),
                focused,
                hidden,
                bodies,
            )
        }
    }

    /// Lists the turns of this tick for the solver.
    pub fn run<S: Copy>(
        &self,
        events: &Vec<PointerEvent<S>>,
        focused: bool,
        hidden: bool,
        tag: &Storage<PlayerTag>,
        state: &Storage<PhysicsState>,
    ) -> (orders: Vec<RotationOrder<S>>)
        ensures
            orders@ == self.rotations(
                events@,
                focused,
                hidden,
                controlled_bodies(tag@, state@),
            ),
            !focused || !hidden ==> orders@.len() == 0,
    {
        let bodies = steered(tag, state);
        let mut orders: Vec<RotationOrder<S>> = Vec::new();
        let mut i: usize = 0;
        while i < events.len()
            invariant
                i <= events.len(),
                bodies@ == controlled_bodies(tag@, state@),
                orders@ == self.rotations(events@.take(i as int), focused, hidden, bodies@),
                !focused || !hidden ==> orders@.len() == 0,
            decreases events.len() - i,
        {
            let ghost before = orders@;
            if focused && hidden {
                if let PointerEvent::Motion { x, y } = events[i] {
                    let mut j: usize = 0;
                    while j < bodies.len()
                        invariant
                            j <= bodies.len(),
                            orders@ == before + bodies@.take(j as int).map_values(
                                |body: DefaultBodyHandle|
                                    RotationOrder {
                                        body,
                                        pitch: y,
                                        yaw: x,
                                        sensitivity: self.sensitivity(),
                                    },
                            ),
                        decreases bodies.len() - j,
                    {
                        orders.push(
                            RotationOrder {
                                body: bodies[j],
                                pitch: y,
                                yaw: x,
                                sensitivity: self.sensitivity,
                            },
                        );
                        j += 1;
                        assert(orders@ =~= before + bodies@.take(j as int).map_values(
                            |body: DefaultBodyHandle|
                                RotationOrder {
                                    body,
                                    pitch: y,
                                    yaw: x,
                                    sensitivity: self.sensitivity(),
                                },
                        ));
                    }
                    assert(bodies@.take(j as int) =~= bodies@);
                }
            }
            i += 1;
            assert(events@.take(i as int).drop_last() =~= events@.take(i - 1));
            assert(orders@ =~= before + self.turns(events@[i - 1], focused, hidden, bodies@));
        }
        assert(events@.take(i as int) =~= events@);
        orders
    }
}

/// Makes the system that turns the controlled bodies.
pub struct PlayerRotateSystemDesc;

impl PlayerRotateSystemDesc {
    /// Builds the system, which turns a body by a tenth of what the pointer
    /// moved.
    pub fn build(self) -> (system: PlayerRotateSystem)
        ensures
            system.sensitivity() == Ratio::of(1, 10),
    {
        PlayerRotateSystem { sensitivity: Ratio { numerator: 1, denominator: 10 } }
    }
}


} // verus!
