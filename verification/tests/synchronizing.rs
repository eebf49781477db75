use nphysics3d::object::{DefaultBodyHandle, DefaultBodySet, RigidBodyDesc};
use physics_bridge::physics::{DynamicPhysicsObject, NPhysicsSystem, PhysicsState};
use physics_bridge::storage::Storage;

type Pose = [f32; 3];

fn handles(count: usize) -> Vec<DefaultBodyHandle> {
    let mut bodies: DefaultBodySet<f64> = DefaultBodySet::new();
    (0..count).map(|_| bodies.insert(RigidBodyDesc::new().build())).collect()
}

struct Tables {
    transform: Storage<Pose>,
    phystate: Storage<PhysicsState>,
    dynamic: Storage<DynamicPhysicsObject>,
    handles: Vec<DefaultBodyHandle>,
}

/// Entities 1 and 3 move, entity 2 is fixed, entity 5 has a marker but no body.
fn tables() -> Tables {
    let handles = handles(3);
    let mut tables = Tables {
        transform: Storage::new(),
        phystate: Storage::new(),
        dynamic: Storage::new(),
        handles,
    };
    for entity in [1, 2, 3, 5] {
        tables.transform.insert(entity, [entity as f32, 0.0, 0.0]);
    }
    tables.phystate.insert(1, PhysicsState::new(tables.handles[0]));
    tables.phystate.insert(2, PhysicsState::new(tables.handles[1]));
    tables.phystate.insert(3, PhysicsState::new(tables.handles[2]));
    tables.dynamic.insert(1, DynamicPhysicsObject);
    tables.dynamic.insert(3, DynamicPhysicsObject);
    tables.dynamic.insert(5, DynamicPhysicsObject);
    tables
}

#[test]
fn targets_are_the_marked_entities_with_pose_and_body() {
    let tables = tables();
    let targets = NPhysicsSystem.targets(&tables.transform, &tables.phystate, &tables.dynamic);
    assert_eq!(targets, vec![(1, tables.handles[0]), (3, tables.handles[2])]);
}

#[test]
fn targets_leave_out_an_entity_without_a_pose() {
    let mut tables = tables();
    tables.transform.remove(1);
    let targets = NPhysicsSystem.targets(&tables.transform, &tables.phystate, &tables.dynamic);
    assert_eq!(targets, vec![(3, tables.handles[2])]);
}

#[test]
fn synchronize_overwrites_the_pose_of_a_moving_entity() {
    let mut tables = tables();
    let reports = vec![(1, Some([1.0, -0.5, 0.25])), (3, Some([3.0, 7.0, 0.0]))];
    NPhysicsSystem.synchronize(&mut tables.transform, &tables.phystate, &tables.dynamic, &reports);
    assert_eq!(tables.transform.get(1), Some(&[1.0, -0.5, 0.25]));
    assert_eq!(tables.transform.get(3), Some(&[3.0, 7.0, 0.0]));
    assert_eq!(tables.transform.get(2), Some(&[2.0, 0.0, 0.0]));
}

#[test]
fn synchronize_leaves_the_pose_where_the_handle_is_stale() {
    let mut tables = tables();
    let reports = vec![(1, None), (3, Some([3.0, 7.0, 0.0]))];
    NPhysicsSystem.synchronize(&mut tables.transform, &tables.phystate, &tables.dynamic, &reports);
    assert_eq!(tables.transform.get(1), Some(&[1.0, 0.0, 0.0]));
    assert_eq!(tables.transform.get(3), Some(&[3.0, 7.0, 0.0]));
}

#[test]
fn synchronize_never_moves_a_fixed_entity() {
    let mut tables = tables();
    for step in 0..50 {
        let reports =
            vec![(2, Some([9.0, step as f32, 9.0])), (1, Some([0.0, -(step as f32), 0.0]))];
        NPhysicsSystem.synchronize(
            &mut tables.transform,
            &tables.phystate,
            &tables.dynamic,
            &reports,
        );
        assert_eq!(tables.transform.get(2), Some(&[2.0, 0.0, 0.0]));
    }
    assert_eq!(tables.transform.get(1), Some(&[0.0, -49.0, 0.0]));
}

#[test]
fn synchronize_ignores_reports_on_entities_it_does_not_follow() {
    let mut tables = tables();
    let reports = vec![(5, Some([5.5, 5.5, 5.5])), (8, Some([8.0, 8.0, 8.0]))];
    NPhysicsSystem.synchronize(&mut tables.transform, &tables.phystate, &tables.dynamic, &reports);
    assert_eq!(tables.transform.get(5), Some(&[5.0, 0.0, 0.0]));
    assert!(!tables.transform.contains(8));
}

#[test]
fn synchronize_takes_the_last_report_on_an_entity() {
    let mut tables = tables();
    let reports = vec![(1, Some([1.0, 1.0, 1.0])), (1, Some([2.0, 2.0, 2.0])), (1, None)];
    NPhysicsSystem.synchronize(&mut tables.transform, &tables.phystate, &tables.dynamic, &reports);
    assert_eq!(tables.transform.get(1), Some(&[2.0, 2.0, 2.0]));
}

#[test]
fn synchronize_without_reports_changes_nothing() {
    let mut tables = tables();
    NPhysicsSystem.synchronize(
        &mut tables.transform,
        &tables.phystate,
        &tables.dynamic,
        &Vec::new(),
    );
    for entity in [1usize, 2, 3, 5] {
        assert_eq!(tables.transform.get(entity), Some(&[entity as f32, 0.0, 0.0]));
    }
}
