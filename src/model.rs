//! The mathematical model of an actor: per-item queues, the rank table, the
//! satisfaction index and the recurrence cache, with each operation stated as a
//! function from one model to the next.
use vstd::prelude::*;

use crate::goal::{Goal, GoalData, GoalWrapper, Item};

verus! {

/// Position of the entry that heads a queue: the first of the entries with the
/// lowest rank.
pub open spec fn top_index(q: Seq<GoalWrapper>) -> int
    decreases q.len(),
{
    if q.len() <= 1 {
        0
    } else {
        let t = top_index(q.drop_last());
        if q.last().rank < q[t].rank {
            q.len() - 1
        } else {
            t
        }
    }
}

/// How many times `i` occurs in `items`.
pub open spec fn count_of(items: Seq<Item>, i: Item) -> nat
    decreases items.len(),
{
    if items.len() == 0 {
        0
    } else {
        count_of(items.drop_last(), i) + if items.last() == i {
            1nat
        } else {
            0nat
        }
    }
}

/// How many entries of `q` hold a record for goal `g`.
pub open spec fn goal_count(q: Seq<GoalWrapper>, g: Goal) -> nat
    decreases q.len(),
{
    if q.len() == 0 {
        0
    } else {
        goal_count(q.drop_last(), g) + if q.last().goal.goal_of() == g {
            1nat
        } else {
            0nat
        }
    }
}

/// `q` with every entry for goal `g` left out, the others in their order.
pub open spec fn without_goal(q: Seq<GoalWrapper>, g: Goal) -> Seq<GoalWrapper>
    decreases q.len(),
{
    if q.len() == 0 {
        q
    } else {
        let rest = without_goal(q.drop_last(), g);
        if q.last().goal.goal_of() == g {
            rest
        } else {
            rest.push(q.last())
        }
    }
}

/// No entry of `q` holds a record for goal `g`.
pub open spec fn free_of(q: Seq<GoalWrapper>, g: Goal) -> bool {
    forall|k: int| 0 <= k < q.len() ==> (#[trigger] q[k]).goal.goal_of() != g
}

/// The queue of item `i`, empty where the item has none.
pub open spec fn queue_in(queues: Map<Item, Seq<GoalWrapper>>, i: Item) -> Seq<GoalWrapper> {
    if queues.contains_key(i) {
        queues[i]
    } else {
        Seq::empty()
    }
}

/// The items registered for goal `g`, none where the goal is not indexed.
pub open spec fn items_in(capable: Map<Goal, Seq<Item>>, g: Goal) -> Seq<Item> {
    if capable.contains_key(g) {
        capable[g]
    } else {
        Seq::empty()
    }
}

/// `queues` after `e` is appended to the queue of an item once for each time
/// the item occurs in `items`; an item without a queue gets one.
pub open spec fn queues_with(
    queues: Map<Item, Seq<GoalWrapper>>,
    items: Seq<Item>,
    e: GoalWrapper,
) -> Map<Item, Seq<GoalWrapper>> {
    Map::new(
        |i: Item| queues.contains_key(i) || items.contains(i),
        |i: Item| queue_in(queues, i) + Seq::new(count_of(items, i), |k: int| e),
    )
}

/// `queues` after the entries for goal `g` are dropped from the queue of each
/// item in `items`.
pub open spec fn queues_without(
    queues: Map<Item, Seq<GoalWrapper>>,
    items: Seq<Item>,
    g: Goal,
) -> Map<Item, Seq<GoalWrapper>> {
    Map::new(
        |i: Item| queues.contains_key(i),
        |i: Item|
            if items.contains(i) {
                without_goal(queues[i], g)
            } else {
                queues[i]
            },
    )
}

/// The satisfaction index built from (goal, items) pairs in order: a later pair
/// for the same goal appends its items to those already listed.
pub open spec fn index_of(pairs: Seq<(Goal, Seq<Item>)>) -> Map<Goal, Seq<Item>>
    decreases pairs.len(),
{
    if pairs.len() == 0 {
        Map::empty()
    } else {
        let m = index_of(pairs.drop_last());
        let g = pairs.last().0;
        m.insert(g, items_in(m, g) + pairs.last().1)
    }
}

/// The state of an actor.
#[verifier::ext_equal]
pub struct ActorModel {
    /// Each item's queue of entries, in the order they were queued
    pub queues: Map<Item, Seq<GoalWrapper>>,
    /// The goal hierarchy: each known goal's rank, lower is more preferred
    pub ranks: Map<Goal, usize>,
    /// The satisfaction index: for each goal, the items that can satisfy it
    pub capable: Map<Goal, Seq<Item>>,
    /// The recurrence cache: the record of each periodic goal
    pub recurring: Map<Goal, GoalData>,
}

impl ActorModel {
    /// An actor with the satisfaction index `capable` and nothing else.
    pub open spec fn fresh(capable: Map<Goal, Seq<Item>>) -> ActorModel {
        ActorModel {
            queues: Map::empty(),
            ranks: Map::empty(),
            capable,
            recurring: Map::empty(),
        }
    }

    /// The queue of item `i`.
    pub open spec fn queue(self, i: Item) -> Seq<GoalWrapper> {
        queue_in(self.queues, i)
    }

    /// The items registered as able to satisfy goal `g`.
    pub open spec fn capable_items(self, g: Goal) -> Seq<Item> {
        items_in(self.capable, g)
    }

    /// The goal that item `i` is currently earmarked for: the goal of the head
    /// of its queue.
    pub open spec fn best(self, i: Item) -> Option<Goal> {
        let q = self.queue(i);
        if q.len() == 0 {
            None
        } else {
            Some(q[top_index(q)].goal.goal_of())
        }
    }

    /// Every queued entry stands in the queue of an item registered for its goal.
    pub open spec fn wf(self) -> bool {
        forall|i: Item, k: int|
            #![trigger self.queues[i][k]]
            self.queues.contains_key(i) && 0 <= k < self.queues[i].len()
                ==> self.capable_items(self.queues[i][k].goal.goal_of()).contains(i)
    }

    /// Queue `rec` at rank `rank` for every item registered for its goal, cache
    /// it if it is periodic, and give its goal that rank in the hierarchy.
    pub open spec fn add(self, rec: GoalData, rank: usize) -> ActorModel {
        let g = rec.goal_of();
        ActorModel {
            queues: queues_with(
                self.queues,
                self.capable_items(g),
                GoalWrapper { rank, goal: rec },
            ),
            ranks: self.ranks.insert(g, rank),
            capable: self.capable,
            recurring: if rec is RegularSatisfaction {
                self.recurring.insert(g, rec)
            } else {
                self.recurring
            },
        }
    }

    /// Drop goal `g` from the queue of every item registered for it, from the
    /// recurrence cache and from the hierarchy.
    pub open spec fn remove(self, g: Goal) -> ActorModel {
        ActorModel {
            queues: queues_without(self.queues, self.capable_items(g), g),
            ranks: self.ranks.remove(g),
            capable: self.capable,
            recurring: self.recurring.remove(g),
        }
    }

    /// Append item `i` to the items registered for goal `g`.
    pub open spec fn register(self, g: Goal, i: Item) -> ActorModel {
        ActorModel {
            queues: self.queues,
            ranks: self.ranks,
            capable: self.capable.insert(g, self.capable_items(g).push(i)),
            recurring: self.recurring,
        }
    }

    /// What using item `i` returns: the record at the head of its queue, as it
    /// stood before the call, where one more unit satisfies it.
    pub open spec fn consumed(self, i: Item) -> Option<GoalData> {
        let q = self.queue(i);
        if q.len() == 0 {
            None
        } else {
            let rec = q[top_index(q)].goal;
            if rec.satisfied_by_one_more() {
                Some(rec)
            } else {
                None
            }
        }
    }

    /// The state after using item `i`: one more unit goes to the record at the
    /// head of its queue; where that satisfies the goal, the goal is removed.
    pub open spec fn consume(self, i: Item) -> ActorModel {
        let q = self.queue(i);
        if q.len() == 0 {
            self
        } else {
            let t = top_index(q);
            let rec = q[t].goal;
            if rec.satisfied_by_one_more() {
                self.remove(rec.goal_of())
            } else {
                ActorModel {
                    queues: self.queues.insert(
                        i,
                        q.update(
                            t,
                            GoalWrapper {
                                rank: q[t].rank,
                                goal: rec.with_units((rec.units_of() + 1) as i32),
                            },
                        ),
                    ),
                    ranks: self.ranks,
                    capable: self.capable,
                    recurring: self.recurring,
                }
            }
        }
    }

    /// Add each record of `h` in order, at the rank of its position.
    pub open spec fn with_hierarchy(self, h: Seq<GoalData>) -> ActorModel
        decreases h.len(),
    {
        if h.len() == 0 {
            self
        } else {
            self.with_hierarchy(h.drop_last()).add(h.last(), (h.len() - 1) as usize)
        }
    }
}

/// The head of a non-empty queue has the lowest rank in it, and every entry
/// before it has a higher one.
pub proof fn lemma_top_index(q: Seq<GoalWrapper>)
    requires
        q.len() > 0,
    ensures
        0 <= top_index(q) < q.len(),
        forall|k: int| 0 <= k < q.len() ==> q[top_index(q)].rank <= #[trigger] q[k].rank,
        forall|k: int| 0 <= k < top_index(q) ==> q[top_index(q)].rank < #[trigger] q[k].rank,
    decreases q.len(),
{
    if q.len() > 1 {
        let p = q.drop_last();
        lemma_top_index(p);
        let t = top_index(q);
        let s = top_index(p);
        assert forall|k: int| 0 <= k < q.len() implies q[t].rank <= #[trigger] q[k].rank by {
            if k < p.len() {
                assert(p[k] == q[k]);
            }
        }
        assert forall|k: int| 0 <= k < t implies q[t].rank < #[trigger] q[k].rank by {
            assert(p[k] == q[k]);
            if t == s {
                assert(p[s] == q[s]);
            } else {
                assert(p[s].rank <= p[k].rank);
            }
        }
    }
}

/// `count_of` over one more item of a sequence.
pub proof fn lemma_count_of_step(items: Seq<Item>, n: int, i: Item)
    requires
        0 <= n < items.len(),
    ensures
        count_of(items.subrange(0, n + 1), i) == count_of(items.subrange(0, n), i) + if items[n]
            == i {
            1nat
        } else {
            0nat
        },
{
    assert(items.subrange(0, n + 1).drop_last() =~= items.subrange(0, n));
}

/// An item that occurs in a sequence is counted there.
pub proof fn lemma_count_of_contains(items: Seq<Item>, i: Item)
    ensures
        count_of(items, i) > 0 <==> items.contains(i),
    decreases items.len(),
{
    if items.len() > 0 {
        lemma_count_of_contains(items.drop_last(), i);
        if items.drop_last().contains(i) {
            let k = choose|k: int| 0 <= k < items.drop_last().len() && items.drop_last()[k] == i;
            assert(items[k] == i);
        }
        if items.contains(i) && items.last() != i {
            let k = choose|k: int| 0 <= k < items.len() && items[k] == i;
            assert(items.drop_last()[k] == i);
        }
    }
}

/// Leaving out goal `g` keeps the other entries, drops exactly the entries for
/// `g`, and changes nothing in a queue that holds none.
pub proof fn lemma_without_goal(q: Seq<GoalWrapper>, g: Goal)
    ensures
        free_of(without_goal(q, g), g),
        without_goal(q, g).len() + goal_count(q, g) == q.len(),
        forall|k: int|
            0 <= k < without_goal(q, g).len() ==> q.contains(#[trigger] without_goal(q, g)[k]),
        free_of(q, g) ==> without_goal(q, g) == q,
    decreases q.len(),
{
    if q.len() > 0 {
        let p = q.drop_last();
        lemma_without_goal(p, g);
        let w = without_goal(q, g);
        assert forall|k: int| 0 <= k < w.len() implies q.contains(#[trigger] w[k]) by {
            if k < without_goal(p, g).len() {
                let j = choose|j: int| 0 <= j < p.len() && p[j] == without_goal(p, g)[k];
                assert(q[j] == w[k]);
            } else {
                assert(q[q.len() - 1] == w[k]);
            }
        }
        if free_of(q, g) {
            assert forall|k: int| 0 <= k < p.len() implies (#[trigger] p[k]).goal.goal_of() != g by {
                assert(p[k] == q[k]);
            }
            assert(q.last() == q[q.len() - 1]);
            assert(p.push(q.last()) =~= q);
        }
    }
}

/// Leaving out the entries of a goal twice is leaving them out once.
pub proof fn lemma_without_goal_idempotent(q: Seq<GoalWrapper>, g: Goal)
    ensures
        without_goal(without_goal(q, g), g) == without_goal(q, g),
{
    lemma_without_goal(q, g);
    lemma_without_goal(without_goal(q, g), g);
}

/// Queueing an entry for one more item of a sequence.
pub proof fn lemma_queues_with_step(
    queues: Map<Item, Seq<GoalWrapper>>,
    items: Seq<Item>,
    n: int,
    e: GoalWrapper,
)
    requires
        0 <= n < items.len(),
    ensures
        ({
            let m = queues_with(queues, items.subrange(0, n), e);
            queues_with(queues, items.subrange(0, n + 1), e) == m.insert(
                items[n],
                queue_in(m, items[n]).push(e),
            )
        }),
{
    let a = items.subrange(0, n);
    let b = items.subrange(0, n + 1);
    assert(b =~= a.push(items[n]));
    let m = queues_with(queues, a, e);
    let lhs = queues_with(queues, b, e);
    let rhs = m.insert(items[n], queue_in(m, items[n]).push(e));
    assert forall|i: Item| lhs.contains_key(i) <==> rhs.contains_key(i) by {
        if b.contains(i) && i != items[n] {
            let k = choose|k: int| 0 <= k < b.len() && b[k] == i;
            assert(a[k] == i);
        }
        if a.contains(i) {
            let k = choose|k: int| 0 <= k < a.len() && a[k] == i;
            assert(b[k] == i);
        }
        if i == items[n] {
            assert(b[n] == i);
        }
    }
    assert forall|i: Item| #[trigger] lhs.contains_key(i) implies lhs[i] == rhs[i] by {
        lemma_count_of_step(items, n, i);
        lemma_count_of_contains(a, i);
        if i == items[n] {
            assert(lhs[i] =~= rhs[i]);
        } else {
            assert(lhs[i] =~= rhs[i]);
        }
    }
    assert(lhs =~= rhs);
}

/// Queueing an entry for no item changes nothing.
pub proof fn lemma_queues_with_none(queues: Map<Item, Seq<GoalWrapper>>, e: GoalWrapper)
    ensures
        queues_with(queues, Seq::empty(), e) == queues,
{
    let m = queues_with(queues, Seq::empty(), e);
    assert forall|i: Item| #[trigger] m.contains_key(i) implies m[i] == queues[i] by {
        assert(m[i] =~= queues[i]);
    }
    assert(m =~= queues);
}

/// Dropping a goal from the queue of one more item of a sequence.
pub proof fn lemma_queues_without_step(
    queues: Map<Item, Seq<GoalWrapper>>,
    items: Seq<Item>,
    n: int,
    g: Goal,
)
    requires
        0 <= n < items.len(),
    ensures
        ({
            let m = queues_without(queues, items.subrange(0, n), g);
            queues_without(queues, items.subrange(0, n + 1), g) == if m.contains_key(items[n]) {
                m.insert(items[n], without_goal(m[items[n]], g))
            } else {
                m
            }
        }),
{
    let a = items.subrange(0, n);
    let b = items.subrange(0, n + 1);
    assert(b =~= a.push(items[n]));
    let m = queues_without(queues, a, g);
    let lhs = queues_without(queues, b, g);
    let rhs = if m.contains_key(items[n]) {
        m.insert(items[n], without_goal(m[items[n]], g))
    } else {
        m
    };
    assert forall|i: Item| #[trigger] lhs.contains_key(i) implies lhs[i] == rhs[i] by {
        if b.contains(i) && i != items[n] {
            let k = choose|k: int| 0 <= k < b.len() && b[k] == i;
            assert(a[k] == i);
        }
        if a.contains(i) {
            let k = choose|k: int| 0 <= k < a.len() && a[k] == i;
            assert(b[k] == i);
            lemma_without_goal_idempotent(queues[i], g);
        }
        if i == items[n] {
            assert(b[n] == i);
        }
    }
    assert(lhs =~= rhs);
}

/// Dropping a goal from the queues of no item changes nothing.
pub proof fn lemma_queues_without_none(queues: Map<Item, Seq<GoalWrapper>>, g: Goal)
    ensures
        queues_without(queues, Seq::empty(), g) == queues,
{
    assert(queues_without(queues, Seq::empty(), g) =~= queues);
}

/// Adding a record keeps every queued entry with an item registered for its goal.
pub proof fn lemma_add_wf(m: ActorModel, rec: GoalData, rank: usize)
    requires
        m.wf(),
    ensures
        m.add(rec, rank).wf(),
{
    let n = m.add(rec, rank);
    let items = m.capable_items(rec.goal_of());
    assert forall|i: Item, k: int|
        #![trigger n.queues[i][k]]
        n.queues.contains_key(i) && 0 <= k < n.queues[i].len() implies n.capable_items(
        n.queues[i][k].goal.goal_of(),
    ).contains(i) by {
        let old_q = m.queue(i);
        if k < old_q.len() {
            assert(n.queues[i][k] == m.queues[i][k]);
        } else {
            lemma_count_of_contains(items, i);
        }
    }
}

/// Removing a goal keeps every queued entry with an item registered for its goal.
pub proof fn lemma_remove_wf(m: ActorModel, g: Goal)
    requires
        m.wf(),
    ensures
        m.remove(g).wf(),
{
    let n = m.remove(g);
    assert forall|i: Item, k: int|
        #![trigger n.queues[i][k]]
        n.queues.contains_key(i) && 0 <= k < n.queues[i].len() implies n.capable_items(
        n.queues[i][k].goal.goal_of(),
    ).contains(i) by {
        if m.capable_items(g).contains(i) {
            lemma_without_goal(m.queues[i], g);
            let j = choose|j: int|
                0 <= j < m.queues[i].len() && m.queues[i][j] == without_goal(m.queues[i], g)[k];
            assert(m.queues[i][j] == n.queues[i][k]);
        }
    }
}

/// Registering an item keeps every queued entry with an item registered for its goal.
pub proof fn lemma_register_wf(m: ActorModel, g: Goal, i: Item)
    requires
        m.wf(),
    ensures
        m.register(g, i).wf(),
{
    let n = m.register(g, i);
    assert forall|j: Item, k: int|
        #![trigger n.queues[j][k]]
        n.queues.contains_key(j) && 0 <= k < n.queues[j].len() implies n.capable_items(
        n.queues[j][k].goal.goal_of(),
    ).contains(j) by {
        let h = n.queues[j][k].goal.goal_of();
        assert(m.capable_items(h).contains(j));
        if h == g {
            let p = choose|p: int| 0 <= p < m.capable_items(g).len() && m.capable_items(g)[p] == j;
            assert(n.capable_items(g)[p] == j);
        }
    }
}

/// Using an item keeps every queued entry with an item registered for its goal.
pub proof fn lemma_consume_wf(m: ActorModel, i: Item)
    requires
        m.wf(),
    ensures
        m.consume(i).wf(),
{
    let q = m.queue(i);
    if q.len() > 0 {
        lemma_top_index(q);
        let rec = q[top_index(q)].goal;
        if rec.satisfied_by_one_more() {
            lemma_remove_wf(m, rec.goal_of());
        } else {
            let n = m.consume(i);
            assert forall|j: Item, k: int|
                #![trigger n.queues[j][k]]
                n.queues.contains_key(j) && 0 <= k < n.queues[j].len() implies n.capable_items(
                n.queues[j][k].goal.goal_of(),
            ).contains(j) by {
                if j == i {
                    assert(m.queues[i][top_index(q)].goal == rec);
                    assert(m.queues[i][k].goal.goal_of() == n.queues[i][k].goal.goal_of());
                }
            }
        }
    }
}

} // verus!
