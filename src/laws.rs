//! Laws of the actor's operations, stated over its model and proved.
use vstd::prelude::*;

use crate::goal::{Goal, GoalData, GoalWrapper, Item};
use crate::model::{
    count_of, free_of, goal_count, lemma_count_of_contains, lemma_top_index, lemma_without_goal,
    top_index, ActorModel,
};

verus! {

/// The state after adding each (record, rank) pair of `steps` in order.
pub open spec fn after_adds(m: ActorModel, steps: Seq<(GoalData, usize)>) -> ActorModel
    decreases steps.len(),
{
    if steps.len() == 0 {
        m
    } else {
        after_adds(m, steps.drop_last()).add(steps.last().0, steps.last().1)
    }
}

/// An item is earmarked for a goal exactly when the first of the entries with
/// the most preferred (lowest) rank in its queue holds that goal; an item with
/// an empty queue is earmarked for none.
pub proof fn law_best_is_most_preferred(m: ActorModel, i: Item, g: Goal)
    ensures
        m.best(i) is None <==> m.queue(i).len() == 0,
        m.best(i) == Some(g) <==> exists|k: int|
            0 <= k < m.queue(i).len() && (#[trigger] m.queue(i)[k]).goal.goal_of() == g && (forall|
                j: int,
            |
                0 <= j < m.queue(i).len() ==> m.queue(i)[k].rank <= #[trigger] m.queue(i)[j].rank)
                && (forall|j: int| 0 <= j < k ==> m.queue(i)[k].rank < #[trigger] m.queue(i)[j].rank),
{
    let q = m.queue(i);
    if q.len() > 0 {
        lemma_top_index(q);
        let t = top_index(q);
        if m.best(i) == Some(g) {
            assert(q[t].goal.goal_of() == g);
        }
        if exists|k: int|
            0 <= k < q.len() && (#[trigger] q[k]).goal.goal_of() == g && (forall|j: int|
                0 <= j < q.len() ==> q[k].rank <= #[trigger] q[j].rank) && (forall|j: int|
                0 <= j < k ==> q[k].rank < #[trigger] q[j].rank) {
            let k = choose|k: int|
                0 <= k < q.len() && (#[trigger] q[k]).goal.goal_of() == g && (forall|j: int|
                    0 <= j < q.len() ==> q[k].rank <= #[trigger] q[j].rank) && (forall|j: int|
                    0 <= j < k ==> q[k].rank < #[trigger] q[j].rank);
            if k < t {
                assert(q[t].rank < q[k].rank);
                assert(q[k].rank <= q[t].rank);
            } else if t < k {
                assert(q[k].rank < q[t].rank);
                assert(q[t].rank <= q[k].rank);
            }
        }
    }
}

/// Over any sequence of adds, the entries an item had before keep their place
/// and their ranks, and every entry queued since carries the rank passed with
/// the add that queued it: ranks are those known when each entry was queued.
pub proof fn law_adds_rank_at_insertion(m: ActorModel, steps: Seq<(GoalData, usize)>, i: Item)
    ensures
        ({
            let q0 = m.queue(i);
            let q = after_adds(m, steps).queue(i);
            &&& q0.len() <= q.len()
            &&& q.subrange(0, q0.len() as int) == q0
            &&& forall|k: int|
                q0.len() <= k < q.len() ==> exists|s: int|
                    0 <= s < steps.len() && #[trigger] q[k] == (GoalWrapper {
                        rank: steps[s].1,
                        goal: steps[s].0,
                    })
        }),
    decreases steps.len(),
{
    if steps.len() > 0 {
        let p = steps.drop_last();
        law_adds_rank_at_insertion(m, p, i);
        let q0 = m.queue(i);
        let prev = after_adds(m, p).queue(i);
        let q = after_adds(m, steps).queue(i);
        let e = GoalWrapper { rank: steps.last().1, goal: steps.last().0 };
        lemma_count_of_contains(after_adds(m, p).capable_items(steps.last().0.goal_of()), i);
        assert(q =~= prev + Seq::new(
            count_of(after_adds(m, p).capable_items(steps.last().0.goal_of()), i),
            |k: int| e,
        ));
        assert(q.subrange(0, q0.len() as int) =~= q0) by {
            assert forall|k: int| 0 <= k < q0.len() implies q[k] == q0[k] by {
                assert(prev.subrange(0, q0.len() as int)[k] == q0[k]);
            }
        }
        assert forall|k: int| q0.len() <= k < q.len() implies exists|s: int|
            0 <= s < steps.len() && #[trigger] q[k] == (GoalWrapper {
                rank: steps[s].1,
                goal: steps[s].0,
            }) by {
            if k < prev.len() {
                let s = choose|s: int|
                    0 <= s < p.len() && #[trigger] prev[k] == (GoalWrapper {
                        rank: p[s].1,
                        goal: p[s].0,
                    });
                assert(steps[s] == p[s]);
                assert(q[k] == prev[k]);
            } else {
                assert(q[k] == e);
                assert(steps[steps.len() - 1] == steps.last());
            }
        }
    }
}

/// After a goal is removed, no queue holds an entry for it.
proof fn lemma_removed_everywhere(m: ActorModel, g: Goal, j: Item)
    requires
        m.wf(),
    ensures
        free_of(m.remove(g).queue(j), g),
{
    if m.queues.contains_key(j) {
        if m.capable_items(g).contains(j) {
            lemma_without_goal(m.queues[j], g);
        } else {
            assert forall|k: int| 0 <= k < m.queues[j].len() implies (#[trigger] m.queues[j][
                k
            ]).goal.goal_of() != g by {
                assert(m.capable_items(m.queues[j][k].goal.goal_of()).contains(j));
            }
        }
    }
}

/// Removing a goal drops it from the queue of every item that could satisfy
/// it, so that none of them is earmarked for it, and each such queue shrinks by
/// exactly the number of entries it held for the goal. No other queue holds it
/// either.
pub proof fn law_remove_purges(m: ActorModel, g: Goal, i: Item)
    requires
        m.wf(),
    ensures
        free_of(m.remove(g).queue(i), g),
        m.remove(g).best(i) != Some(g),
        m.capable_items(g).contains(i) ==> m.remove(g).queue(i).len() == m.queue(i).len()
            - goal_count(m.queue(i), g),
{
    lemma_removed_everywhere(m, g, i);
    let q = m.remove(g).queue(i);
    if q.len() > 0 {
        lemma_top_index(q);
        assert(q[top_index(q)].goal.goal_of() != g);
    }
    if m.queues.contains_key(i) {
        lemma_without_goal(m.queues[i], g);
    }
}

/// Using an item whose queue is empty returns nothing and changes nothing.
pub proof fn law_consume_empty_is_noop(m: ActorModel, i: Item)
    requires
        m.queue(i).len() == 0,
    ensures
        m.consumed(i) is None,
        m.consume(i) == m,
{
}

/// Using an item that satisfies a goal removes that goal from the queue of
/// every item, not only from the queue of the item used.
pub proof fn law_consume_purges_everywhere(m: ActorModel, i: Item, rec: GoalData, j: Item)
    requires
        m.wf(),
        m.consumed(i) == Some(rec),
    ensures
        free_of(m.consume(i).queue(j), rec.goal_of()),
        m.consume(i).best(j) != Some(rec.goal_of()),
{
    law_remove_purges(m, rec.goal_of(), j);
}

/// Registering an item for a goal leaves every queue as it was; only an add of
/// a record for that goal afterwards queues it for the item.
pub proof fn law_register_then_add(m: ActorModel, g: Goal, i: Item, rec: GoalData, rank: usize)
    requires
        rec.goal_of() == g,
    ensures
        m.register(g, i).queues == m.queues,
        m.register(g, i).add(rec, rank).queue(i).contains(GoalWrapper { rank, goal: rec }),
{
    let r = m.register(g, i);
    let items = r.capable_items(g);
    assert(items[items.len() - 1] == i);
    lemma_count_of_contains(items, i);
    let q = r.add(rec, rank).queue(i);
    assert(q[m.queue(i).len() as int] == GoalWrapper { rank, goal: rec });
}

} // verus!
