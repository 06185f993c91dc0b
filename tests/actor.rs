use preference_list::actor::Actor;
use preference_list::goal::{GoalData, GoalWrapper};
use std::cmp::Ordering;

const A: u64 = 1;
const B: u64 = 2;
const C: u64 = 3;
const X: u64 = 100;
const Y: u64 = 200;

fn one_shot(goal: u64, units_required: i32, id: i32) -> GoalData {
    GoalData::Satisfaction { goal, units_required, units: 0, id }
}

fn periodic(goal: u64, units_required: i32, id: i32) -> GoalData {
    GoalData::RegularSatisfaction { goal, time_required: 10, time: 0, units_required, units: 0, id }
}

fn queue_len(actor: &Actor, item: u64) -> usize {
    actor.preference_list().get(&item).map(|q| q.len()).unwrap_or(0)
}

#[test]
fn get_goal_reads_either_shape() {
    assert_eq!(one_shot(A, 1, 0).get_goal(), A);
    assert_eq!(periodic(B, 1, 0).get_goal(), B);
}

#[test]
fn is_recurring_only_for_periodic() {
    assert!(!one_shot(A, 1, 0).is_recurring());
    assert!(periodic(A, 1, 0).is_recurring());
}

#[test]
fn entries_equal_by_record_not_rank() {
    let e1 = GoalWrapper { rank: 0, goal: one_shot(A, 1, 0) };
    let e2 = GoalWrapper { rank: 7, goal: one_shot(A, 1, 0) };
    let e3 = GoalWrapper { rank: 0, goal: one_shot(A, 1, 1) };
    assert!(e1 == e2);
    assert!(e1 != e3);
}

#[test]
fn construction_ranks_by_position() {
    let actor = Actor::new(
        "a".to_string(),
        vec![one_shot(A, 2, 0), one_shot(B, 1, 1)],
        vec![(A, vec![X]), (B, vec![X])],
    );
    assert_eq!(actor.name, "a");
    assert_eq!(actor.get_best_goal(X), Some(A));
    assert_eq!(actor.goal_hierarchy().get(&A), Some(&0));
    assert_eq!(actor.goal_hierarchy().get(&B), Some(&1));
    assert_eq!(queue_len(&actor, X), 2);
}

#[test]
fn scenario_consume_twice_then_next_goal() {
    let mut actor = Actor::new(
        "a".to_string(),
        vec![one_shot(A, 2, 0), one_shot(B, 1, 1)],
        vec![(A, vec![X]), (B, vec![X])],
    );
    assert_eq!(actor.get_best_goal(X), Some(A));
    assert_eq!(actor.use_item(X), None);
    assert_eq!(actor.get_best_goal(X), Some(A));
    assert_eq!(queue_len(&actor, X), 2);
    let done = actor.use_item(X).expect("second unit satisfies A");
    assert_eq!(done.get_goal(), A);
    assert_eq!(done, GoalData::Satisfaction { goal: A, units_required: 2, units: 1, id: 0 });
    assert_eq!(actor.get_best_goal(X), Some(B));
    assert_eq!(queue_len(&actor, X), 1);
    assert_eq!(actor.goal_hierarchy().get(&A), None);
}

#[test]
fn scenario_remove_from_two_items() {
    let mut actor = Actor::new(
        "a".to_string(),
        vec![one_shot(A, 1, 0), one_shot(B, 1, 1), one_shot(C, 1, 2)],
        vec![(A, vec![X, Y]), (B, vec![X]), (C, vec![Y])],
    );
    assert_eq!(actor.get_best_goal(X), Some(A));
    assert_eq!(actor.get_best_goal(Y), Some(A));
    actor.remove_goal(A);
    assert_eq!(actor.get_best_goal(X), Some(B));
    assert_eq!(actor.get_best_goal(Y), Some(C));
    assert_eq!(queue_len(&actor, X), 1);
    assert_eq!(queue_len(&actor, Y), 1);
    assert_eq!(actor.goal_hierarchy().get(&A), None);
}

#[test]
fn remove_drops_every_entry_of_the_goal() {
    let mut actor = Actor::new(
        "a".to_string(),
        vec![one_shot(A, 1, 0), one_shot(B, 1, 1)],
        vec![(A, vec![X, X]), (B, vec![X])],
    );
    assert_eq!(queue_len(&actor, X), 3);
    actor.remove_goal(A);
    assert_eq!(queue_len(&actor, X), 1);
    assert_eq!(actor.get_best_goal(X), Some(B));
}

#[test]
fn remove_unknown_goal_still_clears_bookkeeping() {
    let mut actor = Actor::new("a".to_string(), vec![], vec![]);
    actor.add_goal(periodic(A, 1, 0), 4);
    assert_eq!(actor.goal_hierarchy().get(&A), Some(&4));
    assert!(actor.recurring_goals().contains_key(&A));
    actor.remove_goal(A);
    assert!(actor.goal_hierarchy().is_empty());
    assert!(actor.recurring_goals().is_empty());
}

#[test]
fn consume_on_empty_queue_is_noop() {
    let mut actor = Actor::new(
        "a".to_string(),
        vec![one_shot(A, 1, 0)],
        vec![(A, vec![X])],
    );
    assert_eq!(actor.use_item(Y), None);
    assert_eq!(actor.get_best_goal(X), Some(A));
    assert_eq!(queue_len(&actor, X), 1);
    assert!(!actor.preference_list().contains_key(&Y));
    assert_eq!(actor.goal_hierarchy().len(), 1);
}

#[test]
fn consume_satisfying_purges_every_item() {
    let mut actor = Actor::new(
        "a".to_string(),
        vec![one_shot(A, 1, 0), one_shot(B, 1, 1)],
        vec![(A, vec![X, Y]), (B, vec![Y])],
    );
    assert_eq!(actor.use_item(X), Some(one_shot(A, 1, 0)));
    assert_eq!(actor.get_best_goal(X), None);
    assert_eq!(actor.get_best_goal(Y), Some(B));
    assert_eq!(queue_len(&actor, Y), 1);
}

#[test]
fn registering_does_not_queue_until_added() {
    let mut actor = Actor::new(
        "a".to_string(),
        vec![one_shot(A, 1, 0)],
        vec![(A, vec![X])],
    );
    actor.add_satisfaction_entry(A, Y);
    assert_eq!(actor.get_best_goal(Y), None);
    assert_eq!(queue_len(&actor, Y), 0);
    actor.add_goal(one_shot(A, 1, 5), 0);
    assert_eq!(actor.get_best_goal(Y), Some(A));
    assert_eq!(queue_len(&actor, Y), 1);
}

#[test]
fn registering_a_new_goal_lists_the_item_once() {
    let mut actor = Actor::new("a".to_string(), vec![], vec![]);
    actor.add_satisfaction_entry(A, X);
    actor.add_goal(one_shot(A, 1, 0), 0);
    assert_eq!(queue_len(&actor, X), 1);
}

#[test]
fn later_pairs_for_a_goal_append() {
    let actor = Actor::new(
        "a".to_string(),
        vec![one_shot(A, 1, 0)],
        vec![(A, vec![X]), (A, vec![Y])],
    );
    assert_eq!(actor.get_best_goal(X), Some(A));
    assert_eq!(actor.get_best_goal(Y), Some(A));
}

#[test]
fn ranks_are_those_known_at_insertion() {
    let mut actor = Actor::new("a".to_string(), vec![], vec![(A, vec![X]), (B, vec![X])]);
    actor.add_goal(one_shot(A, 1, 0), 5);
    actor.add_goal(one_shot(B, 1, 1), 3);
    assert_eq!(actor.get_best_goal(X), Some(B));
    // A is re-ranked in the hierarchy, but its queued entry keeps rank 5
    actor.add_goal(one_shot(C, 1, 2), 9);
    assert_eq!(actor.goal_hierarchy().get(&A), Some(&5));
    let queue = actor.preference_list().get(&X).unwrap();
    assert_eq!(queue[0].rank, 5);
    assert_eq!(queue[1].rank, 3);
}

#[test]
fn later_add_at_better_rank_takes_the_head() {
    let mut actor = Actor::new("a".to_string(), vec![], vec![(A, vec![X]), (B, vec![X])]);
    actor.add_goal(one_shot(A, 1, 0), 5);
    actor.add_goal(one_shot(B, 1, 1), 3);
    actor.add_goal(one_shot(A, 1, 2), 1);
    assert_eq!(actor.get_best_goal(X), Some(A));
    assert_eq!(actor.goal_hierarchy().get(&A), Some(&1));
    assert_eq!(queue_len(&actor, X), 3);
}

#[test]
fn equal_ranks_favour_the_first_queued() {
    let mut actor = Actor::new("a".to_string(), vec![], vec![(A, vec![X]), (B, vec![X])]);
    actor.add_goal(one_shot(B, 1, 0), 2);
    actor.add_goal(one_shot(A, 1, 1), 2);
    assert_eq!(actor.get_best_goal(X), Some(B));
}

#[test]
fn partial_progress_is_kept() {
    let mut actor = Actor::new(
        "a".to_string(),
        vec![one_shot(A, 3, 0)],
        vec![(A, vec![X])],
    );
    assert_eq!(actor.use_item(X), None);
    assert_eq!(actor.use_item(X), None);
    let queue = actor.preference_list().get(&X).unwrap();
    assert_eq!(queue[0].goal, GoalData::Satisfaction { goal: A, units_required: 3, units: 2, id: 0 });
    assert_eq!(actor.use_item(X).map(|g| g.get_goal()), Some(A));
    assert_eq!(actor.get_best_goal(X), None);
}

#[test]
fn periodic_goals_are_cached() {
    let actor = Actor::new(
        "a".to_string(),
        vec![periodic(A, 1, 0), one_shot(B, 1, 1)],
        vec![(A, vec![X]), (B, vec![X])],
    );
    assert_eq!(actor.recurring_goals().get(&A), Some(&periodic(A, 1, 0)));
    assert!(!actor.recurring_goals().contains_key(&B));
}

#[test]
fn unknown_item_has_no_best_goal() {
    let actor = Actor::new("a".to_string(), vec![one_shot(A, 1, 0)], vec![(A, vec![X])]);
    assert_eq!(actor.get_best_goal(Y), None);
}

#[test]
fn compare_items_by_goal_order() {
    let actor = Actor::new(
        "a".to_string(),
        vec![one_shot(B, 1, 0), one_shot(A, 1, 1)],
        vec![(A, vec![Y]), (B, vec![X])],
    );
    assert_eq!(actor.compare_item_values(X, Y), Some(Ordering::Greater));
    assert_eq!(actor.compare_item_values(Y, X), Some(Ordering::Less));
    assert_eq!(actor.compare_item_values(X, X), Some(Ordering::Equal));
    assert_eq!(actor.compare_item_values(X, 999), None);
    assert_eq!(actor.compare_item_values(999, X), None);
}
