//! What holds of the stages over any scene and any answers of the solver.

use crate::physics::components::{
    DynamicPhysicsObject, Ground, PhysicalDescriptor, PhysicsState, PlayerTag, RigidBody,
};
use crate::physics::systems::{
    attachable, controlled_bodies, fulfilled, orders_for, pending_orders, synchronized,
    unprovisioned, with_markers, with_states, BodyCreator, BodyOrder, ImpulseOrder,
    PhysicsWorldSystem, PlayerInputSystem, PlayerRotateSystem, PointerEvent, Provision,
    RotationOrder, Stage,
};
use crate::storage::{in_order, lemma_in_order, Entity};
use nphysics3d::algebra::ForceType;
use nphysics3d::object::{BodyStatus, DefaultBodyHandle};
use vstd::prelude::*;

verus! {

/// The orders of one creator hold one order for each unprovisioned entity
/// and none for any other, the smaller entity first, each made from the
/// entity's own descriptor and pose.
pub proof fn orders_cover_the_unprovisioned<S, P, D: PhysicalDescriptor<S>>(
    creator: BodyCreator,
    descriptors: Map<Entity, D>,
    states: Map<Entity, PhysicsState>,
    poses: Map<Entity, P>,
)
    ensures
        forall|i: int|
            #![trigger orders_for::<S, P, D>(creator, descriptors, states, poses)[i]]
            0 <= i < orders_for::<S, P, D>(creator, descriptors, states, poses).len() ==> {
                let order = orders_for::<S, P, D>(creator, descriptors, states, poses)[i];
                &&& unprovisioned(descriptors, states, poses).contains(order.entity)
                &&& order == creator.order(
                    order.entity,
                    descriptors[order.entity].extent(),
                    poses[order.entity],
                )
            },
        forall|e: Entity|
            #![trigger unprovisioned(descriptors, states, poses).contains(e)]
            unprovisioned(descriptors, states, poses).contains(e) ==> exists|i: int|
                0 <= i < orders_for::<S, P, D>(creator, descriptors, states, poses).len()
                    && (#[trigger] orders_for::<S, P, D>(
                    creator,
                    descriptors,
                    states,
                    poses,
                )[i]).entity == e,
        forall|i: int, j: int|
            0 <= i < j < orders_for::<S, P, D>(creator, descriptors, states, poses).len() ==> (
            #[trigger] orders_for::<S, P, D>(creator, descriptors, states, poses)[i]).entity < (
            #[trigger] orders_for::<S, P, D>(creator, descriptors, states, poses)[j]).entity,
{
    let keys = unprovisioned(descriptors, states, poses);
    let listed = in_order(keys);
    let orders = orders_for::<S, P, D>(creator, descriptors, states, poses);
    lemma_in_order(keys);
    assert(orders.len() == listed.len());
    assert forall|i: int| 0 <= i < orders.len() implies (#[trigger] orders[i]).entity
        == listed[i] by {}
    assert forall|e: Entity| #![trigger keys.contains(e)] keys.contains(e) implies exists|i: int|
        0 <= i < orders.len() && (#[trigger] orders[i]).entity == e by {
        assert(listed.contains(e));
        let i = choose|i: int| 0 <= i < listed.len() && listed[i] == e;
        assert(orders[i].entity == e);
    }
    assert forall|i: int, j: int| 0 <= i < j < orders.len() implies (#[trigger] orders[i]).entity
        < (#[trigger] orders[j]).entity by {
        assert(listed[i] < listed[j]);
    }
}

/// Recording provisions gives a state to their entities and to no others,
/// and keeps the state of every entity that is not among them.
pub proof fn recorded_states(states: Map<Entity, PhysicsState>, provisions: Seq<Provision>)
    ensures
        forall|e: Entity|
            #![trigger with_states(states, provisions).contains_key(e)]
            with_states(states, provisions).contains_key(e) <==> (states.contains_key(e)
                || exists|i: int|
                0 <= i < provisions.len() && (#[trigger] provisions[i]).entity == e),
        forall|e: Entity|
            #![trigger with_states(states, provisions)[e]]
            (forall|i: int| 0 <= i < provisions.len() ==> (#[trigger] provisions[i]).entity != e)
                ==> with_states(states, provisions)[e] == states[e],
    decreases provisions.len(),
{
    if provisions.len() > 0 {
        let earlier = provisions.drop_last();
        recorded_states(states, earlier);
        let last = provisions.last();
        assert forall|e: Entity|
            #![trigger with_states(states, provisions).contains_key(e)]
            with_states(states, provisions).contains_key(e) <==> (states.contains_key(e)
                || exists|i: int|
                0 <= i < provisions.len() && (#[trigger] provisions[i]).entity == e) by {
            if with_states(states, provisions).contains_key(e) {
                if e == last.entity {
                    assert(provisions[provisions.len() - 1].entity == e);
                } else if !states.contains_key(e) {
                    assert(with_states(states, earlier).contains_key(e));
                    let i = choose|i: int|
                        0 <= i < earlier.len() && (#[trigger] earlier[i]).entity == e;
                    assert(provisions[i].entity == e);
                }
            }
            if exists|i: int| 0 <= i < provisions.len() && (#[trigger] provisions[i]).entity == e {
                let i = choose|i: int|
                    0 <= i < provisions.len() && (#[trigger] provisions[i]).entity == e;
                if i < earlier.len() {
                    assert(earlier[i].entity == e);
                    assert(with_states(states, earlier).contains_key(e));
                }
            }
            if states.contains_key(e) {
                assert(with_states(states, earlier).contains_key(e));
            }
        }
        assert forall|e: Entity|
            #![trigger with_states(states, provisions)[e]]
            (forall|i: int|
                0 <= i < provisions.len() ==> (#[trigger] provisions[i]).entity
                    != e) implies with_states(states, provisions)[e] == states[e] by {
            assert(provisions[provisions.len() - 1].entity != e);
            assert forall|i: int| 0 <= i < earlier.len() implies (#[trigger] earlier[i]).entity
                != e by {
                assert(provisions[i].entity != e);
            }
            assert(with_states(states, earlier)[e] == states[e]);
        }
    }
}

/// Recording provisions marks the entities of the moving bodies among them
/// and no others.
pub proof fn recorded_markers(
    markers: Map<Entity, DynamicPhysicsObject>,
    provisions: Seq<Provision>,
)
    ensures
        forall|e: Entity|
            #![trigger with_markers(markers, provisions).contains_key(e)]
            with_markers(markers, provisions).contains_key(e) <==> (markers.contains_key(e)
                || exists|i: int|
                0 <= i < provisions.len() && (#[trigger] provisions[i]).entity == e
                    && provisions[i].dynamic),
    decreases provisions.len(),
{
    if provisions.len() > 0 {
        let earlier = provisions.drop_last();
        recorded_markers(markers, earlier);
        let last = provisions.last();
        assert forall|e: Entity|
            #![trigger with_markers(markers, provisions).contains_key(e)]
            with_markers(markers, provisions).contains_key(e) <==> (markers.contains_key(e)
                || exists|i: int|
                0 <= i < provisions.len() && (#[trigger] provisions[i]).entity == e
                    && provisions[i].dynamic) by {
            if with_markers(markers, provisions).contains_key(e) {
                if last.dynamic && e == last.entity {
                    assert(provisions[provisions.len() - 1].entity == e);
                } else if !markers.contains_key(e) {
                    assert(with_markers(markers, earlier).contains_key(e));
                    let i = choose|i: int|
                        0 <= i < earlier.len() && (#[trigger] earlier[i]).entity == e
                            && earlier[i].dynamic;
                    assert(provisions[i].entity == e);
                }
            }
            if exists|i: int|
                0 <= i < provisions.len() && (#[trigger] provisions[i]).entity == e
                    && provisions[i].dynamic {
                let i = choose|i: int|
                    0 <= i < provisions.len() && (#[trigger] provisions[i]).entity == e
                        && provisions[i].dynamic;
                if i < earlier.len() {
                    assert(earlier[i].entity == e);
                    assert(with_markers(markers, earlier).contains_key(e));
                }
            }
            if markers.contains_key(e) {
                assert(with_markers(markers, earlier).contains_key(e));
            }
        }
    }
}

/// Provisioning is idempotent: once the bodies that a tick orders are
/// recorded, whatever handles the solver gave them, the same tables order
/// nothing more. So no entity gets a second body.
pub proof fn provisioning_is_idempotent<S: Copy, P>(
    rigidbody: Map<Entity, RigidBody<S>>,
    ground: Map<Entity, Ground<S>>,
    states: Map<Entity, PhysicsState>,
    poses: Map<Entity, P>,
    handles: Seq<DefaultBodyHandle>,
)
    ensures
        pending_orders(
            rigidbody,
            ground,
            with_states(
                states,
                fulfilled(pending_orders(rigidbody, ground, states, poses), handles),
            ),
            poses,
        ) == Seq::<BodyOrder<S, P>>::empty(),
{
    let moving = BodyCreator { body_status: BodyStatus::Dynamic, no_gravity: false };
    let fixed = BodyCreator { body_status: BodyStatus::Static, no_gravity: true };
    let first = orders_for::<S, P, RigidBody<S>>(moving, rigidbody, states, poses);
    let second = orders_for::<S, P, Ground<S>>(fixed, ground, states, poses);
    let orders = pending_orders(rigidbody, ground, states, poses);
    let provisions = fulfilled(orders, handles);
    let after = with_states(states, provisions);
    orders_cover_the_unprovisioned::<S, P, RigidBody<S>>(moving, rigidbody, states, poses);
    orders_cover_the_unprovisioned::<S, P, Ground<S>>(fixed, ground, states, poses);
    recorded_states(states, provisions);
    assert forall|e: Entity| !unprovisioned(rigidbody, after, poses).contains(e) by {
        if unprovisioned(rigidbody, states, poses).contains(e) {
            let i = choose|i: int| 0 <= i < first.len() && (#[trigger] first[i]).entity == e;
            assert(orders[i] == first[i]);
            assert(provisions[i].entity == e);
            assert(after.contains_key(e));
        } else if rigidbody.contains_key(e) && poses.contains_key(e) {
            assert(after.contains_key(e));
        }
    }
    assert forall|e: Entity| !unprovisioned(ground, after, poses).contains(e) by {
        if unprovisioned(ground, states, poses).contains(e) {
            let i = choose|i: int| 0 <= i < second.len() && (#[trigger] second[i]).entity == e;
            assert(orders[first.len() + i] == second[i]);
            assert(provisions[first.len() + i].entity == e);
            assert(after.contains_key(e));
        } else if ground.contains_key(e) && poses.contains_key(e) {
            assert(after.contains_key(e));
        }
    }
    orders_cover_the_unprovisioned::<S, P, RigidBody<S>>(moving, rigidbody, after, poses);
    orders_cover_the_unprovisioned::<S, P, Ground<S>>(fixed, ground, after, poses);
    let again_first = orders_for::<S, P, RigidBody<S>>(moving, rigidbody, after, poses);
    let again_second = orders_for::<S, P, Ground<S>>(fixed, ground, after, poses);
    if again_first.len() > 0 {
        assert(unprovisioned(rigidbody, after, poses).contains(again_first[0].entity));
    }
    if again_second.len() > 0 {
        assert(unprovisioned(ground, after, poses).contains(again_second[0].entity));
    }
    assert(pending_orders(rigidbody, ground, after, poses) =~= Seq::<BodyOrder<S, P>>::empty());
}

/// Where no entity declares both a moving and a fixed body, a tick orders
/// exactly one body for each entity that lacks one, and the records of these
/// orders can be attached, whatever handles the solver gave them.
pub proof fn one_body_per_entity<S: Copy, P>(
    rigidbody: Map<Entity, RigidBody<S>>,
    ground: Map<Entity, Ground<S>>,
    states: Map<Entity, PhysicsState>,
    poses: Map<Entity, P>,
    handles: Seq<DefaultBodyHandle>,
)
    requires
        forall|e: Entity| !(rigidbody.contains_key(e) && ground.contains_key(e)),
    ensures
        forall|i: int, j: int|
            0 <= i < j < pending_orders(rigidbody, ground, states, poses).len() ==> (
            #[trigger] pending_orders(rigidbody, ground, states, poses)[i]).entity != (
            #[trigger] pending_orders(rigidbody, ground, states, poses)[j]).entity,
        forall|e: Entity|
            #![trigger poses.contains_key(e)]
            (rigidbody.contains_key(e) || ground.contains_key(e)) && poses.contains_key(e)
                && !states.contains_key(e) <==> exists|i: int|
                0 <= i < pending_orders(rigidbody, ground, states, poses).len()
                    && (#[trigger] pending_orders(rigidbody, ground, states, poses)[i]).entity
                    == e,
        attachable(fulfilled(pending_orders(rigidbody, ground, states, poses), handles), states),
{
    let moving = BodyCreator { body_status: BodyStatus::Dynamic, no_gravity: false };
    let fixed = BodyCreator { body_status: BodyStatus::Static, no_gravity: true };
    let first = orders_for::<S, P, RigidBody<S>>(moving, rigidbody, states, poses);
    let second = orders_for::<S, P, Ground<S>>(fixed, ground, states, poses);
    let orders = pending_orders(rigidbody, ground, states, poses);
    let provisions = fulfilled(orders, handles);
    orders_cover_the_unprovisioned::<S, P, RigidBody<S>>(moving, rigidbody, states, poses);
    orders_cover_the_unprovisioned::<S, P, Ground<S>>(fixed, ground, states, poses);
    assert forall|i: int| 0 <= i < orders.len() implies if i < first.len() {
        (#[trigger] orders[i]) == first[i] && unprovisioned(rigidbody, states, poses).contains(
            orders[i].entity,
        )
    } else {
        orders[i] == second[i - first.len()] && unprovisioned(ground, states, poses).contains(
            orders[i].entity,
        )
    } by {
        if i < first.len() {
            assert(orders[i] == first[i]);
        } else {
            assert(orders[i] == second[i - first.len()]);
        }
    }
    assert forall|i: int, j: int| 0 <= i < j < orders.len() implies (#[trigger] orders[i]).entity
        != (#[trigger] orders[j]).entity by {
        if j < first.len() {
            assert(first[i].entity < first[j].entity);
        } else if i >= first.len() {
            assert(second[i - first.len()].entity < second[j - first.len()].entity);
        }
    }
    assert forall|e: Entity|
        #![trigger poses.contains_key(e)]
        (rigidbody.contains_key(e) || ground.contains_key(e)) && poses.contains_key(e)
            && !states.contains_key(e) <==> exists|i: int|
            0 <= i < orders.len() && (#[trigger] orders[i]).entity == e by {
        if unprovisioned(rigidbody, states, poses).contains(e) {
            let i = choose|i: int| 0 <= i < first.len() && (#[trigger] first[i]).entity == e;
            assert(orders[i].entity == e);
        }
        if unprovisioned(ground, states, poses).contains(e) {
            let i = choose|i: int| 0 <= i < second.len() && (#[trigger] second[i]).entity == e;
            assert(orders[first.len() + i].entity == e);
        }
    }
    assert forall|i: int| 0 <= i < provisions.len() implies !states.contains_key(
        #[trigger] provisions[i].entity,
    ) by {
        assert(provisions[i].entity == orders[i].entity);
    }
    assert forall|i: int, j: int| 0 <= i < j < provisions.len() implies (
    #[trigger] provisions[i]).entity != (#[trigger] provisions[j]).entity by {
        assert(orders[i].entity != orders[j].entity);
    }
}

/// The five tables that provisioning and synchronizing work on.
pub struct Scene<S, P> {
    pub rigidbody: Map<Entity, RigidBody<S>>,
    pub ground: Map<Entity, Ground<S>>,
    pub states: Map<Entity, PhysicsState>,
    pub poses: Map<Entity, P>,
    pub markers: Map<Entity, DynamicPhysicsObject>,
}

/// What the solver answers in one tick: a handle for each body that was
/// ordered and, after its step, a report for each pose that was asked for.
pub struct Answers<P> {
    pub handles: Seq<DefaultBodyHandle>,
    pub reports: Seq<(Entity, Option<P>)>,
}

/// The scene after one tick: the bodies it orders are recorded, then the
/// reports are taken in.
pub open spec fn tick<S: Copy, P>(scene: Scene<S, P>, answers: Answers<P>) -> Scene<S, P> {
    let provisions = fulfilled(
        pending_orders(scene.rigidbody, scene.ground, scene.states, scene.poses),
        answers.handles,
    );
    let states = with_states(scene.states, provisions);
    let markers = with_markers(scene.markers, provisions);
    Scene {
        rigidbody: scene.rigidbody,
        ground: scene.ground,
        states,
        poses: synchronized(scene.poses, states, markers, answers.reports),
        markers,
    }
}

/// The scene after one tick for each of `answers`, in turn.
pub open spec fn ticks<S: Copy, P>(scene: Scene<S, P>, answers: Seq<Answers<P>>) -> Scene<S, P>
    decreases answers.len(),
{
    if answers.len() == 0 {
        scene
    } else {
        tick(ticks(scene, answers.drop_last()), answers.last())
    }
}

/// Taking reports in leaves the pose of an entity that is not followed as it
/// was.
pub proof fn unfollowed_pose_is_kept<P>(
    poses: Map<Entity, P>,
    states: Map<Entity, PhysicsState>,
    markers: Map<Entity, DynamicPhysicsObject>,
    reports: Seq<(Entity, Option<P>)>,
    entity: Entity,
)
    requires
        !(poses.contains_key(entity) && states.contains_key(entity) && markers.contains_key(
            entity,
        )),
    ensures
        synchronized(poses, states, markers, reports).contains_key(entity) == poses.contains_key(
            entity,
        ),
        synchronized(poses, states, markers, reports)[entity] == poses[entity],
    decreases reports.len(),
{
    if reports.len() > 0 {
        unfollowed_pose_is_kept(poses, states, markers, reports.drop_last(), entity);
    }
}

/// The pose of a followed entity is the one of the last report that names it
/// with a pose; where there is none, it is as it was.
pub proof fn followed_pose_is_the_last_report<P>(
    poses: Map<Entity, P>,
    states: Map<Entity, PhysicsState>,
    markers: Map<Entity, DynamicPhysicsObject>,
    reports: Seq<(Entity, Option<P>)>,
    entity: Entity,
)
    requires
        poses.contains_key(entity),
        states.contains_key(entity),
        markers.contains_key(entity),
    ensures
        (forall|i: int|
            0 <= i < reports.len() ==> !((#[trigger] reports[i]).0 == entity && reports[i].1
                is Some)) ==> synchronized(poses, states, markers, reports)[entity]
            == poses[entity],
        forall|i: int|
            #![trigger reports[i]]
            0 <= i < reports.len() && reports[i].0 == entity && reports[i].1 is Some && (forall|
                j: int,
            |
                i < j < reports.len() ==> !((#[trigger] reports[j]).0 == entity && reports[j].1
                    is Some)) ==> synchronized(poses, states, markers, reports)[entity]
                == reports[i].1->Some_0,
    decreases reports.len(),
{
    if reports.len() > 0 {
        let earlier = reports.drop_last();
        followed_pose_is_the_last_report(poses, states, markers, earlier, entity);
        let last = reports.last();
        if last.0 == entity && last.1 is Some {
            assert forall|i: int|
                #![trigger reports[i]]
                0 <= i < reports.len() && reports[i].0 == entity && reports[i].1 is Some
                    && (forall|j: int|
                    i < j < reports.len() ==> !((#[trigger] reports[j]).0 == entity
                        && reports[j].1 is Some)) implies synchronized(
                poses,
                states,
                markers,
                reports,
            )[entity] == reports[i].1->Some_0 by {
                if i < reports.len() - 1 {
                    assert(reports[reports.len() - 1].0 == entity);
                }
            }
            assert(reports[reports.len() - 1] == last);
        } else {
            assert forall|i: int|
                #![trigger reports[i]]
                0 <= i < reports.len() && reports[i].0 == entity && reports[i].1 is Some
                    && (forall|j: int|
                    i < j < reports.len() ==> !((#[trigger] reports[j]).0 == entity
                        && reports[j].1 is Some)) implies synchronized(
                poses,
                states,
                markers,
                reports,
            )[entity] == reports[i].1->Some_0 by {
                assert(i < earlier.len());
                assert(earlier[i] == reports[i]);
                assert forall|j: int| i < j < earlier.len() implies !((#[trigger] earlier[j]).0
                    == entity && earlier[j].1 is Some) by {
                    assert(earlier[j] == reports[j]);
                }
            }
            if forall|i: int|
                0 <= i < reports.len() ==> !((#[trigger] reports[i]).0 == entity && reports[i].1
                    is Some) {
                assert forall|i: int| 0 <= i < earlier.len() implies !((#[trigger] earlier[i]).0
                    == entity && earlier[i].1 is Some) by {
                    assert(earlier[i] == reports[i]);
                }
            }
        }
    }
}

/// A tick marks no entity that declares no moving body.
pub proof fn tick_marks_only_moving_bodies<S: Copy, P>(
    scene: Scene<S, P>,
    answers: Answers<P>,
    entity: Entity,
)
    requires
        !scene.rigidbody.contains_key(entity),
        !scene.markers.contains_key(entity),
    ensures
        !tick(scene, answers).markers.contains_key(entity),
{
    let moving = BodyCreator { body_status: BodyStatus::Dynamic, no_gravity: false };
    let fixed = BodyCreator { body_status: BodyStatus::Static, no_gravity: true };
    let first = orders_for::<S, P, RigidBody<S>>(moving, scene.rigidbody, scene.states, scene.poses);
    let second = orders_for::<S, P, Ground<S>>(fixed, scene.ground, scene.states, scene.poses);
    let orders = pending_orders(scene.rigidbody, scene.ground, scene.states, scene.poses);
    let provisions = fulfilled(orders, answers.handles);
    orders_cover_the_unprovisioned::<S, P, RigidBody<S>>(
        moving,
        scene.rigidbody,
        scene.states,
        scene.poses,
    );
    orders_cover_the_unprovisioned::<S, P, Ground<S>>(
        fixed,
        scene.ground,
        scene.states,
        scene.poses,
    );
    recorded_markers(scene.markers, provisions);
    assert forall|i: int|
        0 <= i < provisions.len() && (#[trigger] provisions[i]).entity
            == entity implies !provisions[i].dynamic by {
        if i < first.len() {
            assert(orders[i] == first[i]);
            assert(unprovisioned(scene.rigidbody, scene.states, scene.poses).contains(
                first[i].entity,
            ));
        } else {
            assert(orders[i] == second[i - first.len()]);
            assert(second[i - first.len()].status == BodyStatus::Static);
        }
    }
}

/// A body is made once. Over any number of ticks, whatever the solver answers
/// in them, an entity that has a body keeps the handle of that body.
pub proof fn a_body_is_never_replaced<S: Copy, P>(
    scene: Scene<S, P>,
    answers: Seq<Answers<P>>,
    entity: Entity,
)
    requires
        scene.states.contains_key(entity),
    ensures
        ticks(scene, answers).states.contains_key(entity),
        ticks(scene, answers).states[entity] == scene.states[entity],
    decreases answers.len(),
{
    if answers.len() > 0 {
        let before = ticks(scene, answers.drop_last());
        a_body_is_never_replaced(scene, answers.drop_last(), entity);
        let moving = BodyCreator { body_status: BodyStatus::Dynamic, no_gravity: false };
        let fixed = BodyCreator { body_status: BodyStatus::Static, no_gravity: true };
        let first = orders_for::<S, P, RigidBody<S>>(
            moving,
            before.rigidbody,
            before.states,
            before.poses,
        );
        let second = orders_for::<S, P, Ground<S>>(
            fixed,
            before.ground,
            before.states,
            before.poses,
        );
        let orders = pending_orders(before.rigidbody, before.ground, before.states, before.poses);
        let provisions = fulfilled(orders, answers.last().handles);
        orders_cover_the_unprovisioned::<S, P, RigidBody<S>>(
            moving,
            before.rigidbody,
            before.states,
            before.poses,
        );
        orders_cover_the_unprovisioned::<S, P, Ground<S>>(
            fixed,
            before.ground,
            before.states,
            before.poses,
        );
        assert forall|i: int| 0 <= i < provisions.len() implies (#[trigger] provisions[i]).entity
            != entity by {
            if i < first.len() {
                assert(orders[i] == first[i]);
                assert(unprovisioned(before.rigidbody, before.states, before.poses).contains(
                    first[i].entity,
                ));
            } else {
                assert(orders[i] == second[i - first.len()]);
                assert(unprovisioned(before.ground, before.states, before.poses).contains(
                    second[i - first.len()].entity,
                ));
            }
        }
        recorded_states(before.states, provisions);
    }
}

/// A fixed body keeps its pose. Over any number of ticks, whatever the solver
/// answers in them, an entity that declares no moving body and does not carry
/// the marker has at the end the pose it had at the start, and is not marked
/// on the way. So it is with every entity that declares only `Ground`.
pub proof fn fixed_pose_is_invariant<S: Copy, P>(
    scene: Scene<S, P>,
    answers: Seq<Answers<P>>,
    entity: Entity,
)
    requires
        !scene.rigidbody.contains_key(entity),
        !scene.markers.contains_key(entity),
    ensures
        ticks(scene, answers).poses.contains_key(entity) == scene.poses.contains_key(entity),
        ticks(scene, answers).poses[entity] == scene.poses[entity],
        !ticks(scene, answers).markers.contains_key(entity),
        ticks(scene, answers).rigidbody == scene.rigidbody,
    decreases answers.len(),
{
    if answers.len() > 0 {
        let before = ticks(scene, answers.drop_last());
        fixed_pose_is_invariant(scene, answers.drop_last(), entity);
        tick_marks_only_moving_bodies(before, answers.last(), entity);
        let after = tick(before, answers.last());
        unfollowed_pose_is_kept(
            before.poses,
            after.states,
            after.markers,
            answers.last().reports,
            entity,
        );
    }
}


/// The force is gated on both axes: where either is missing, no body is
/// pushed, whatever the other holds.
pub proof fn no_push_without_both_axes<S>(
    tags: Map<Entity, PlayerTag>,
    states: Map<Entity, PhysicsState>,
    horizontal: Option<S>,
    vertical: Option<S>,
)
    requires
        horizontal is None || vertical is None,
    ensures
        PlayerInputSystem::spec_force(horizontal, vertical) is None,
        PlayerInputSystem::impulses(tags, states, horizontal, vertical) == Seq::<
            ImpulseOrder<S>,
        >::empty(),
{
}

/// The push follows the axes: where both are given, every controlled body
/// gets one push, whose force has the horizontal axis as its lateral part
/// and the vertical axis as its forward part, as a change of velocity.
pub proof fn push_follows_the_axes<S>(
    tags: Map<Entity, PlayerTag>,
    states: Map<Entity, PhysicsState>,
    horizontal: S,
    vertical: S,
)
    ensures
        PlayerInputSystem::impulses(tags, states, Some(horizontal), Some(vertical)).len()
            == controlled_bodies(tags, states).len(),
        forall|i: int|
            #![trigger PlayerInputSystem::impulses(tags, states, Some(horizontal), Some(vertical))[i]]
            0 <= i < controlled_bodies(tags, states).len() ==> {
                let order = PlayerInputSystem::impulses(
                    tags,
                    states,
                    Some(horizontal),
                    Some(vertical),
                )[i];
                &&& order.body == controlled_bodies(tags, states)[i]
                &&& order.force.x == horizontal
                &&& order.force.z == vertical
                &&& order.force_type == ForceType::VelocityChange
            },
{
}

/// Without the focus of the window or without the captured cursor, no event
/// turns a body.
pub proof fn no_turn_without_focus_and_capture<S>(
    system: PlayerRotateSystem,
    events: Seq<PointerEvent<S>>,
    focused: bool,
    hidden: bool,
    bodies: Seq<DefaultBodyHandle>,
)
    requires
        !focused || !hidden,
    ensures
        system.rotations(events, focused, hidden, bodies) == Seq::<RotationOrder<S>>::empty(),
    decreases events.len(),
{
    if events.len() > 0 {
        no_turn_without_focus_and_capture(system, events.drop_last(), focused, hidden, bodies);
    }
}

/// The turn at place `i` where every body is turned once for each movement:
/// the bodies take turns within a movement, the movements follow each other.
pub open spec fn turn_at<S>(
    system: PlayerRotateSystem,
    events: Seq<PointerEvent<S>>,
    bodies: Seq<DefaultBodyHandle>,
    i: int,
) -> RotationOrder<S> {
    let event = events[i / (bodies.len() as int)];
    RotationOrder {
        body: bodies[i % (bodies.len() as int)],
        pitch: event->y,
        yaw: event->x,
        sensitivity: system.sensitivity(),
    }
}

/// Turns add up event by event. Under focus and capture, a run of movements
/// of the pointer gives every body one turn for each movement, in the order
/// of the movements: its yaw is what the pointer moved sideways, its pitch
/// what it moved up or down, each to be taken times the sensitivity. So a
/// movement without a part up or down asks for no pitch.
pub proof fn every_motion_turns_every_body<S>(
    system: PlayerRotateSystem,
    events: Seq<PointerEvent<S>>,
    bodies: Seq<DefaultBodyHandle>,
)
    requires
        forall|k: int| 0 <= k < events.len() ==> #[trigger] events[k] is Motion,
    ensures
        system.rotations(events, true, true, bodies).len() == events.len() * bodies.len(),
        forall|i: int|
            0 <= i < system.rotations(events, true, true, bodies).len() ==> 0 <= #[trigger] (i / (
            bodies.len() as int)) < events.len(),
        forall|i: int|
            0 <= i < system.rotations(events, true, true, bodies).len()
                ==> #[trigger] system.rotations(events, true, true, bodies)[i] == turn_at(
                system,
                events,
                bodies,
                i,
            ),
    decreases events.len(),
{
    let n = bodies.len() as int;
    let orders = system.rotations(events, true, true, bodies);
    if events.len() > 0 {
        let earlier = events.drop_last();
        let k = events.len() - 1;
        every_motion_turns_every_body(system, earlier, bodies);
        let head = system.rotations(earlier, true, true, bodies);
        let tail = system.turns(events.last(), true, true, bodies);
        assert(events[k] is Motion);
        assert(tail.len() == n);
        assert(head.len() == k * n);
        assert(orders.len() == events.len() * n) by (nonlinear_arith)
            requires
                orders.len() == k * n + n,
                k == events.len() - 1,
        ;
        assert forall|i: int| 0 <= i < orders.len() implies 0 <= #[trigger] (i / n)
            < events.len() && orders[i] == turn_at(system, events, bodies, i) by {
            if i < k * n {
                assert(head[i] == turn_at(system, earlier, bodies, i));
                assert(0 <= i / n < earlier.len());
                assert(earlier[i / n] == events[i / n]);
            } else {
                let j = i - k * n;
                assert(0 <= j < n) by (nonlinear_arith)
                    requires
                        j == i - k * n,
                        k * n <= i < k * n + n,
                ;
                vstd::arithmetic::div_mod::lemma_fundamental_div_mod_converse(i, n, k, j);
                assert(orders[i] == tail[j]);
            }
        }
    } else {
        assert(events.len() * n == 0) by (nonlinear_arith)
            requires
                events.len() == 0,
        ;
    }
}

/// The stages keep their order. Whatever is asked for and however often, the
/// stages that are granted follow each other as the stages of a tick do,
/// beginning with the one that was due. So between two grants of one stage
/// every other stage is granted once: the solver steps once in a tick, after
/// provisioning and before the poses are read.
pub proof fn stages_keep_their_order(due: Stage, requests: Seq<Stage>)
    ensures
        PhysicsWorldSystem::granted(due, requests).len() > 0 ==> PhysicsWorldSystem::granted(
            due,
            requests,
        )[0] == due,
        forall|i: int|
            0 <= i < PhysicsWorldSystem::granted(due, requests).len() - 1
                ==> PhysicsWorldSystem::granted(due, requests)[i + 1]
                == (#[trigger] PhysicsWorldSystem::granted(due, requests)[i]).spec_next(),
        PhysicsWorldSystem::due_after(due, requests) == if PhysicsWorldSystem::granted(
            due,
            requests,
        ).len() == 0 {
            due
        } else {
            PhysicsWorldSystem::granted(due, requests).last().spec_next()
        },
    decreases requests.len(),
{
    if requests.len() > 0 {
        stages_keep_their_order(due, requests.drop_last());
    }
}


} // verus!
