use softbody::schedule::{
    first_collision_pair, next_collision_pair, relaxation_sweep, step_plan, BodyOutline, StepTask,
};

fn walk(n: usize) -> Vec<(usize, usize)> {
    let mut out = Vec::new();
    let mut pair = first_collision_pair(n);
    while let Some((i, j)) = pair {
        out.push((i, j));
        pair = next_collision_pair(n, i, j);
    }
    out
}

#[test]
fn four_particles_give_six_ordered_pairs() {
    assert_eq!(walk(4), vec![(0, 1), (0, 2), (0, 3), (1, 2), (1, 3), (2, 3)]);
}

#[test]
fn fewer_than_two_particles_give_no_pairs() {
    assert_eq!(first_collision_pair(0), None);
    assert_eq!(first_collision_pair(1), None);
    assert_eq!(first_collision_pair(2), Some((0, 1)));
}

#[test]
fn next_pair_moves_to_the_next_partner_then_the_next_leader() {
    assert_eq!(next_collision_pair(5, 1, 2), Some((1, 3)));
    assert_eq!(next_collision_pair(5, 1, 4), Some((2, 3)));
    assert_eq!(next_collision_pair(5, 3, 4), None);
}

#[test]
fn every_pair_once() {
    let n = 9;
    let pairs = walk(n);
    assert_eq!(pairs.len(), n * (n - 1) / 2);
    for i in 0..n {
        for j in i + 1..n {
            assert_eq!(pairs.iter().filter(|&&p| p == (i, j)).count(), 1);
        }
    }
}

#[test]
fn sweep_visits_springs_then_shape_then_collisions_then_bounds() {
    let bodies = vec![
        BodyOutline { springs: 2, has_shape: true },
        BodyOutline { springs: 0, has_shape: false },
        BodyOutline { springs: 1, has_shape: true },
    ];
    assert_eq!(
        relaxation_sweep(&bodies),
        vec![
            StepTask::Spring { body: 0, spring: 0 },
            StepTask::Spring { body: 0, spring: 1 },
            StepTask::Shape { body: 0 },
            StepTask::Spring { body: 2, spring: 0 },
            StepTask::Shape { body: 2 },
            StepTask::Collisions,
            StepTask::Boundary,
        ]
    );
}

#[test]
fn sweep_without_bodies_still_resolves_collisions_and_bounds() {
    assert_eq!(
        relaxation_sweep(&vec![]),
        vec![StepTask::Collisions, StepTask::Boundary]
    );
}

#[test]
fn step_integrates_then_sweeps_each_iteration_then_updates_velocities() {
    let bodies = vec![BodyOutline { springs: 1, has_shape: true }];
    let sweep = vec![
        StepTask::Spring { body: 0, spring: 0 },
        StepTask::Shape { body: 0 },
        StepTask::Collisions,
        StepTask::Boundary,
    ];
    let mut expected = vec![StepTask::Integrate];
    expected.extend(sweep.iter().copied());
    expected.extend(sweep.iter().copied());
    expected.extend(sweep.iter().copied());
    expected.push(StepTask::UpdateVelocities);
    assert_eq!(step_plan(&bodies, 3), expected);
}

#[test]
fn step_with_no_iterations_only_integrates_and_updates() {
    let bodies = vec![BodyOutline { springs: 4, has_shape: false }];
    assert_eq!(
        step_plan(&bodies, 0),
        vec![StepTask::Integrate, StepTask::UpdateVelocities]
    );
}
