//! The actor: per-item preference queues kept consistent as goals are added,
//! consumed and retired.
use vstd::prelude::*;

use std::collections::HashMap;

use crate::goal::{Goal, GoalData, GoalWrapper, Item};
use crate::model::{
    index_of, lemma_add_wf, lemma_consume_wf, lemma_queues_with_none, lemma_queues_with_step,
    lemma_queues_without_none, lemma_queues_without_step, lemma_register_wf, lemma_remove_wf,
    lemma_top_index, queue_in, queues_with, queues_without, top_index, without_goal, ActorModel,
};

verus! {

/// A map of each item to the queue of goals that it can satisfy, in the order
/// they were queued. The goal an item is used for is always the head of its
/// queue: the first entry of the lowest rank.
pub type PreferenceList = HashMap<Item, Vec<GoalWrapper>>;

/// The (goal, items) pairs of a satisfaction list, as sequences.
pub open spec fn satisfaction_pairs(pairs: Seq<(Goal, Vec<Item>)>) -> Seq<(Goal, Seq<Item>)> {
    pairs.map_values(|p: (Goal, Vec<Item>)| (p.0, p.1@))
}

/// How two goals compare by their own order, not by their ranks.
pub open spec fn goal_order(a: Goal, b: Goal) -> std::cmp::Ordering {
    if a < b {
        std::cmp::Ordering::Less
    } else if a > b {
        std::cmp::Ordering::Greater
    } else {
        std::cmp::Ordering::Equal
    }
}

/// Individual acting, valuing, satisfying Austrian microeconomic actor
pub struct Actor {
    /// Name for printouts
    pub name: String,
    /// Periodic goals, kept so that their timers can be read and the goals re-added
    recurring_goals: HashMap<Goal, GoalData>,
    /// Mapping of items to their goals
    preference_list: PreferenceList,
    /// Mapping of goals to the items that can satisfy them
    satisfactions: HashMap<Goal, Vec<Item>>,
    /// How much goals are valued: each goal's rank, lower is more preferred
    goal_hierarchy: HashMap<Goal, usize>,
}

impl View for Actor {
    type V = ActorModel;

    closed spec fn view(&self) -> ActorModel {
        ActorModel {
            queues: self.preference_list@.map_values(|q: Vec<GoalWrapper>| q@),
            ranks: self.goal_hierarchy@,
            capable: self.satisfactions@.map_values(|v: Vec<Item>| v@),
            recurring: self.recurring_goals@,
        }
    }
}

/// Position of the head of a non-empty queue.
fn top_position(q: &Vec<GoalWrapper>) -> (t: usize)
    requires
        q.len() > 0,
    ensures
        t == top_index(q@),
        t < q.len(),
{
    let mut t: usize = 0;
    let mut j: usize = 1;
    while j < q.len()
        invariant
            1 <= j <= q.len(),
            t == top_index(q@.subrange(0, j as int)),
        decreases q.len() - j,
    {
        proof {
            let s = q@.subrange(0, j as int + 1);
            assert(s.drop_last() =~= q@.subrange(0, j as int));
            lemma_top_index(q@.subrange(0, j as int));
            assert(s[t as int] == q@[t as int]);
        }
        if q[j].rank < q[t].rank {
            t = j;
        }
        j += 1;
    }
    proof {
        assert(q@.subrange(0, q.len() as int) =~= q@);
        lemma_top_index(q@);
    }
    t
}

/// A new queue holding the entries of `q` that are not for goal `g`, in order.
fn without_goal_of(q: &Vec<GoalWrapper>, g: Goal) -> (r: Vec<GoalWrapper>)
    ensures
        r@ == without_goal(q@, g),
{
    let mut r: Vec<GoalWrapper> = Vec::new();
    let mut j: usize = 0;
    while j < q.len()
        invariant
            j <= q.len(),
            r@ == without_goal(q@.subrange(0, j as int), g),
        decreases q.len() - j,
    {
        proof {
            assert(q@.subrange(0, j as int + 1).drop_last() =~= q@.subrange(0, j as int));
        }
        if q[j].goal.get_goal() != g {
            r.push(q[j]);
        }
        j += 1;
    }
    proof {
        assert(q@.subrange(0, q.len() as int) =~= q@);
    }
    r
}

/// Append the items of `src` to `dst`.
fn append_items(dst: &mut Vec<Item>, src: &Vec<Item>)
    ensures
        final(dst)@ == old(dst)@ + src@,
{
    let mut j: usize = 0;
    while j < src.len()
        invariant
            j <= src.len(),
            dst@ == old(dst)@ + src@.subrange(0, j as int),
        decreases src.len() - j,
    {
        dst.push(src[j]);
        proof {
            assert(old(dst)@ + src@.subrange(0, j as int + 1) =~= (old(dst)@ + src@.subrange(
                0,
                j as int,
            )).push(src@[j as int]));
        }
        j += 1;
    }
    proof {
        assert(src@.subrange(0, src.len() as int) =~= src@);
    }
}

impl Actor {
    /// The actor's name.
    pub closed spec fn spec_name(&self) -> String {
        self.name
    }

    /// Construct a new actor. The satisfaction index is built from the
    /// (goal, items) pairs in order, a later pair for the same goal appending its
    /// items; then each record of `hierarchy` is added at the rank of its
    /// position, so that the first is the most preferred.
    pub fn new(name: String, hierarchy: Vec<GoalData>, satisfactions: Vec<(Goal, Vec<Item>)>) -> (r:
        Actor)
        ensures
            r.spec_name() == name,
            r@ == ActorModel::fresh(index_of(satisfaction_pairs(satisfactions@))).with_hierarchy(
                hierarchy@,
            ),
            r@.wf(),
    {
        let ghost pairs = satisfaction_pairs(satisfactions@);
        let mut this = Actor {
            name: name,
            recurring_goals: HashMap::new(),
            preference_list: HashMap::new(),
            satisfactions: HashMap::new(),
            goal_hierarchy: HashMap::new(),
        };
        let mut k: usize = 0;
        while k < satisfactions.len()
            invariant
                k <= satisfactions.len(),
                pairs == satisfaction_pairs(satisfactions@),
                this.name == name,
                this@ == ActorModel::fresh(index_of(pairs.subrange(0, k as int))),
            decreases satisfactions.len() - k,
        {
            let goal = satisfactions[k].0;
            let ghost before = this.satisfactions@.map_values(|v: Vec<Item>| v@);
            let mut items = match this.satisfactions.remove(&goal) {
                Some(items) => items,
                None => Vec::new(),
            };
            append_items(&mut items, &satisfactions[k].1);
            this.satisfactions.insert(goal, items);
            proof {
                assert(pairs.subrange(0, k as int + 1).drop_last() =~= pairs.subrange(0, k as int));
                assert(this.satisfactions@.map_values(|v: Vec<Item>| v@) =~= index_of(
                    pairs.subrange(0, k as int + 1),
                ));
            }
            k += 1;
        }
        proof {
            assert(pairs.subrange(0, satisfactions.len() as int) =~= pairs);
        }
        let ghost base = this@;
        let mut k: usize = 0;
        while k < hierarchy.len()
            invariant
                k <= hierarchy.len(),
                this.name == name,
                this@ == base.with_hierarchy(hierarchy@.subrange(0, k as int)),
                this@.wf(),
            decreases hierarchy.len() - k,
        {
            proof {
                assert(hierarchy@.subrange(0, k as int + 1).drop_last() =~= hierarchy@.subrange(
                    0,
                    k as int,
                ));
            }
            this.add_goal(hierarchy[k], k);
            k += 1;
        }
        proof {
            assert(hierarchy@.subrange(0, hierarchy.len() as int) =~= hierarchy@);
        }
        this
    }

    /// Adds a goal to the queues of all of the items that can satisfy it, at
    /// rank `location`; that rank then stands for the goal in the hierarchy.
    /// Entries queued before keep the ranks they were queued with.
    pub fn add_goal(&mut self, goal: GoalData, location: usize)
        requires
            old(self)@.wf(),
        ensures
            final(self)@ == old(self)@.add(goal, location),
            final(self)@.wf(),
            final(self).spec_name() == old(self).spec_name(),
    {
        let actual_goal = goal.get_goal();
        let entry = GoalWrapper { rank: location, goal };
        let ghost q0 = self@.queues;
        match self.satisfactions.get(&actual_goal) {
            Some(items) => {
                let mut k: usize = 0;
                while k < items.len()
                    invariant
                        k <= items.len(),
                        items@ == old(self)@.capable_items(actual_goal),
                        self.name == old(self).name,
                        self.satisfactions == old(self).satisfactions,
                        self.recurring_goals == old(self).recurring_goals,
                        self.goal_hierarchy == old(self).goal_hierarchy,
                        self.preference_list@.map_values(|q: Vec<GoalWrapper>| q@) == queues_with(
                            q0,
                            items@.subrange(0, k as int),
                            entry,
                        ),
                    decreases items.len() - k,
                {
                    let item = items[k];
                    let ghost before = self.preference_list@.map_values(
                        |q: Vec<GoalWrapper>| q@,
                    );
                    let mut goals = match self.preference_list.remove(&item) {
                        Some(goals) => goals,
                        None => Vec::new(),
                    };
                    assert(goals@ == queue_in(before, item));
                    goals.push(entry);
                    self.preference_list.insert(item, goals);
                    proof {
                        lemma_queues_with_step(q0, items@, k as int, entry);
                        assert(self.preference_list@.map_values(|q: Vec<GoalWrapper>| q@)
                            =~= before.insert(item, queue_in(before, item).push(entry)));
                    }
                    k += 1;
                }
                proof {
                    assert(items@.subrange(0, items.len() as int) =~= items@);
                }
            },
            None => {
                proof {
                    lemma_queues_with_none(q0, entry);
                }
            },
        }
        if goal.is_recurring() {
            self.recurring_goals.insert(actual_goal, goal);
        }
        self.goal_hierarchy.insert(actual_goal, location);
        proof {
            lemma_add_wf(old(self)@, goal, location);
            assert(self@ =~= old(self)@.add(goal, location));
        }
    }

    /// Removes a goal from the queue of every item that can satisfy it, from
    /// the recurrence cache and from the hierarchy. Each affected queue is
    /// rebuilt in full, so this is the expensive path.
    pub fn remove_goal(&mut self, actual_goal: Goal)
        requires
            old(self)@.wf(),
        ensures
            final(self)@ == old(self)@.remove(actual_goal),
            final(self)@.wf(),
            final(self).spec_name() == old(self).spec_name(),
    {
        let ghost q0 = self@.queues;
        match self.satisfactions.get(&actual_goal) {
            Some(items) => {
                let mut k: usize = 0;
                while k < items.len()
                    invariant
                        k <= items.len(),
                        items@ == old(self)@.capable_items(actual_goal),
                        self.name == old(self).name,
                        self.satisfactions == old(self).satisfactions,
                        self.recurring_goals == old(self).recurring_goals,
                        self.goal_hierarchy == old(self).goal_hierarchy,
                        self.preference_list@.map_values(|q: Vec<GoalWrapper>| q@)
                            == queues_without(q0, items@.subrange(0, k as int), actual_goal),
                    decreases items.len() - k,
                {
                    let item = items[k];
                    let ghost before = self.preference_list@.map_values(
                        |q: Vec<GoalWrapper>| q@,
                    );
                    proof {
                        lemma_queues_without_step(q0, items@, k as int, actual_goal);
                    }
                    match self.preference_list.remove(&item) {
                        Some(goals) => {
                            let rebuilt = without_goal_of(&goals, actual_goal);
                            self.preference_list.insert(item, rebuilt);
                            proof {
                                assert(self.preference_list@.map_values(
                                    |q: Vec<GoalWrapper>| q@,
                                ) =~= before.insert(item, without_goal(before[item], actual_goal)));
                            }
                        },
                        None => {
                            proof {
                                assert(self.preference_list@.map_values(
                                    |q: Vec<GoalWrapper>| q@,
                                ) =~= before);
                            }
                        },
                    }
                    k += 1;
                }
                proof {
                    assert(items@.subrange(0, items.len() as int) =~= items@);
                }
            },
            None => {
                proof {
                    lemma_queues_without_none(q0, actual_goal);
                }
            },
        }
        self.recurring_goals.remove(&actual_goal);
        self.goal_hierarchy.remove(&actual_goal);
        proof {
            lemma_remove_wf(old(self)@, actual_goal);
            assert(self@ =~= old(self)@.remove(actual_goal));
        }
    }

    /// Uses an item toward the most valued goal it can satisfy: one more unit
    /// goes to the record at the head of its queue. Where that satisfies the
    /// goal, the goal is removed everywhere and its record, as it stood before
    /// this unit, is returned; otherwise the unit is kept on the queued entry.
    /// An item with no queued goal changes nothing.
    pub fn use_item(&mut self, item: Item) -> (r: Option<GoalData>)
        requires
            old(self)@.wf(),
        ensures
            r == old(self)@.consumed(item),
            final(self)@ == old(self)@.consume(item),
            final(self)@.wf(),
            final(self).spec_name() == old(self).spec_name(),
            old(self)@.queue(item).len() == 0 ==> *final(self) == *old(self),
    {
        let (t, head) = match self.preference_list.get(&item) {
            None => {
                return None;
            },
            Some(goals) => {
                if goals.len() == 0 {
                    return None;
                }
                let t = top_position(goals);
                (t, goals[t])
            },
        };
        let highest_valued_goal = head.goal;
        if highest_valued_goal.is_satisfied_by_one_more() {
            self.remove_goal(highest_valued_goal.get_goal());
            Some(highest_valued_goal)
        } else {
            let ghost before = self.preference_list@.map_values(|q: Vec<GoalWrapper>| q@);
            let progressed = GoalWrapper {
                rank: head.rank,
                goal: highest_valued_goal.with_one_more_unit(),
            };
            match self.preference_list.remove(&item) {
                Some(mut goals) => {
                    goals.set(t, progressed);
                    self.preference_list.insert(item, goals);
                },
                None => {},
            }
            proof {
                lemma_consume_wf(old(self)@, item);
                assert(self.preference_list@.map_values(|q: Vec<GoalWrapper>| q@) =~= before.insert(
                    item,
                    before[item].update(t as int, progressed),
                ));
                assert(self@ =~= old(self)@.consume(item));
            }
            None
        }
    }

    /// Add an item to the list of items that can satisfy a given goal. No queue
    /// changes: the goal reaches the item's queue only by a later `add_goal`.
    pub fn add_satisfaction_entry(&mut self, goal: Goal, item: Item)
        requires
            old(self)@.wf(),
        ensures
            final(self)@ == old(self)@.register(goal, item),
            final(self)@.wf(),
            final(self).spec_name() == old(self).spec_name(),
    {
        let mut items = match self.satisfactions.remove(&goal) {
            Some(items) => items,
            None => Vec::new(),
        };
        items.push(item);
        self.satisfactions.insert(goal, items);
        proof {
            lemma_register_wf(old(self)@, goal, item);
            assert(self@ =~= old(self)@.register(goal, item));
        }
    }

    /// Get the highest-valued goal which can be satisfied with this item
    pub fn get_best_goal(&self, item: Item) -> (r: Option<Goal>)
        ensures
            r == self@.best(item),
    {
        match self.preference_list.get(&item) {
            None => None,
            Some(goals) => {
                if goals.len() == 0 {
                    None
                } else {
                    let t = top_position(goals);
                    Some(goals[t].goal.get_goal())
                }
            },
        }
    }

    /// Compare two items by the goals they are earmarked for, in the goals' own
    /// order; absent where either item has no queued goal.
    pub fn compare_item_values(&self, a: Item, b: Item) -> (r: Option<std::cmp::Ordering>)
        ensures
            r == match (self@.best(a), self@.best(b)) {
                (Some(x), Some(y)) => Some(goal_order(x, y)),
                _ => None,
            },
    {
        match self.get_best_goal(a) {
            None => None,
            Some(a_g) => match self.get_best_goal(b) {
                None => None,
                Some(b_g) => {
                    if a_g < b_g {
                        Some(std::cmp::Ordering::Less)
                    } else if a_g > b_g {
                        Some(std::cmp::Ordering::Greater)
                    } else {
                        Some(std::cmp::Ordering::Equal)
                    }
                },
            },
        }
    }

    /// The queue of goals of each item that has one.
    pub fn preference_list(&self) -> (r: &PreferenceList)
        ensures
            r@.map_values(|q: Vec<GoalWrapper>| q@) == self@.queues,
    {
        &self.preference_list
    }

    /// The rank of each goal in the hierarchy; lower is more preferred.
    pub fn goal_hierarchy(&self) -> (r: &HashMap<Goal, usize>)
        ensures
            r@ == self@.ranks,
    {
        &self.goal_hierarchy
    }

    /// The record of each periodic goal, for whatever advances their timers.
    pub fn recurring_goals(&self) -> (r: &HashMap<Goal, GoalData>)
        ensures
            r@ == self@.recurring,
    {
        &self.recurring_goals
    }
}

} // verus!
