//! Goal records and the ranked entries that the per-item queues hold.
use vstd::prelude::*;

verus! {

/// An end the actor wants satisfied: an opaque, totally ordered token.
pub type Goal = u64;

/// A means the actor can apply toward its goals: an opaque token.
pub type Item = u64;

/// Everything needed to satisfy a goal: the goal itself, the units it takes,
/// the units applied so far, and, for a goal that comes back regularly, its
/// recurrence timer.
#[derive(PartialEq, Eq, Structural, Clone, Copy, Debug)]
pub enum GoalData {
    /// A goal that either occurs at random times or only once.
    Satisfaction {
        /// The goal to be satisfied
        goal: Goal,
        /// Amount of acceptable units needed to satisfy this goal
        units_required: i32,
        /// Current units diverted to this goal
        units: i32,
        /// Unique id
        id: i32,
    },
    /// A regularly recurring goal.
    RegularSatisfaction {
        /// The goal to be satisfied
        goal: Goal,
        /// Time required for this goal to reoccur
        time_required: i32,
        /// Time since this goal was dismissed
        time: i32,
        /// Amount of acceptable units needed to satisfy this goal
        units_required: i32,
        /// Current units diverted to this goal
        units: i32,
        /// Unique id
        id: i32,
    },
}

impl GoalData {
    /// The goal that this record is a claim on.
    pub open spec fn goal_of(self) -> Goal {
        match self {
            GoalData::Satisfaction { goal, .. } => goal,
            GoalData::RegularSatisfaction { goal, .. } => goal,
        }
    }

    /// Units applied to the goal so far.
    pub open spec fn units_of(self) -> i32 {
        match self {
            GoalData::Satisfaction { units, .. } => units,
            GoalData::RegularSatisfaction { units, .. } => units,
        }
    }

    /// Units the goal takes to be satisfied.
    pub open spec fn units_required_of(self) -> i32 {
        match self {
            GoalData::Satisfaction { units_required, .. } => units_required,
            GoalData::RegularSatisfaction { units_required, .. } => units_required,
        }
    }

    /// One more unit applied to the goal would satisfy it.
    pub open spec fn satisfied_by_one_more(self) -> bool {
        self.units_of() + 1 >= self.units_required_of()
    }

    /// The same record with its applied units set to `n`.
    pub open spec fn with_units(self, n: i32) -> GoalData {
        match self {
            GoalData::Satisfaction { goal, units_required, id, .. } => GoalData::Satisfaction {
                goal,
                units_required,
                units: n,
                id,
            },
            GoalData::RegularSatisfaction { goal, time_required, time, units_required, id, .. } =>
                GoalData::RegularSatisfaction { goal, time_required, time, units_required, units: n, id },
        }
    }

    /// Get the goal this metadata might satisfy
    pub fn get_goal(&self) -> (r: Goal)
        ensures
            r == self.goal_of(),
    {
        match self {
            GoalData::Satisfaction { goal, .. } => *goal,
            GoalData::RegularSatisfaction { goal, .. } => *goal,
        }
    }

    /// Whether this goal belongs in the recurrence cache
    pub fn is_recurring(&self) -> (r: bool)
        ensures
            r == (self is RegularSatisfaction),
    {
        match self {
            GoalData::Satisfaction { .. } => false,
            _ => true,
        }
    }

    /// Whether applying one more unit satisfies the goal.
    pub(crate) fn is_satisfied_by_one_more(&self) -> (r: bool)
        ensures
            r == self.satisfied_by_one_more(),
    {
        match self {
            GoalData::Satisfaction { units_required, units, .. } => *units as i64 + 1
                >= *units_required as i64,
            GoalData::RegularSatisfaction { units_required, units, .. } => *units as i64 + 1
                >= *units_required as i64,
        }
    }

    /// The record with one more unit applied, for a goal that this does not satisfy.
    pub(crate) fn with_one_more_unit(&self) -> (r: GoalData)
        requires
            !self.satisfied_by_one_more(),
        ensures
            r == self.with_units((self.units_of() + 1) as i32),
    {
        match *self {
            GoalData::Satisfaction { goal, units_required, units, id } => GoalData::Satisfaction {
                goal,
                units_required,
                units: units + 1,
                id,
            },
            GoalData::RegularSatisfaction { goal, time_required, time, units_required, units, id } =>
                GoalData::RegularSatisfaction {
                goal,
                time_required,
                time,
                units_required,
                units: units + 1,
                id,
            },
        }
    }
}

/// A goal record as it stands in an item's queue, together with the rank that
/// the goal had in the actor's hierarchy when the entry was queued. Entries are
/// ordered by that rank alone: a lower rank is more preferred, and a later
/// change to the hierarchy does not re-rank an entry already queued.
#[derive(Clone, Copy, Debug)]
pub struct GoalWrapper {
    /// Rank of the goal in the hierarchy at the moment this entry was queued
    pub rank: usize,
    /// The actual interesting data that the queue orders
    pub goal: GoalData,
}

/// Two entries are equal when they hold the same goal record, whatever their ranks.
impl PartialEq for GoalWrapper {
    fn eq(&self, other: &GoalWrapper) -> (r: bool) {
        self.goal == other.goal
    }
}

impl Eq for GoalWrapper {

}

impl vstd::std_specs::cmp::PartialEqSpecImpl for GoalWrapper {
    open spec fn obeys_eq_spec() -> bool {
        true
    }

    open spec fn eq_spec(&self, other: &GoalWrapper) -> bool {
        self.goal == other.goal
    }
}

} // verus!
