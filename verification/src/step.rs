//! One step of a state machine, as a function of the graph, the current
//! state and what the conditions answer.
//!
//! A step looks at the exits of the current state in the order in which they
//! were added and takes the first whose condition holds. At most one
//! transition is taken per step, and the exits of the state entered are not
//! looked at in the same step. The actions handed back are those of the
//! transition taken; the entry actions of the state entered are not among
//! them: they stay with the state, for the caller to read.
use crate::graph::{
    may_answer, Condition, State, StateGraph, StateId, StateTransition, StateView, TransitionView,
};
use vstd::prelude::*;

verus! {

/// Why a step could not be made.
#[derive(Clone, Copy, Debug, PartialEq, Eq, Structural)]
pub enum AdvanceError {
    /// The current state is not a state of the graph.
    UnknownState,
    /// The transition to take leads to a state that the graph does not hold.
    DanglingTransition,
}

/// What a step returns: the state to move to, if a transition is taken, and
/// the actions of that transition, in order.
pub type Step<'g, A> = Result<(Option<StateId>, &'g [A]), AdvanceError>;

/// What a step returns, as a mathematical value.
pub type StepView<A> = Result<(Option<nat>, Seq<A>), AdvanceError>;

/// The mathematical value of what a step returns.
pub open spec fn step_view<A>(step: Step<A>) -> StepView<A> {
    match step {
        Ok((Some(next), actions)) => Ok((Some(next@), actions@)),
        Ok((None, actions)) => Ok((None, actions@)),
        Err(e) => Err(e),
    }
}

/// The step that takes no transition: no new state, no actions.
pub open spec fn stays<A>() -> StepView<A> {
    Ok((None, Seq::empty()))
}

/// The step that is refused with `error`.
pub open spec fn refused<A>(error: AdvanceError) -> StepView<A> {
    Err(error)
}

/// What the condition of exit `k` gave: `outcomes[k]`, and false where
/// `outcomes` holds no value for it.
pub open spec fn outcome_at(outcomes: Seq<bool>, k: int) -> bool {
    0 <= k < outcomes.len() && outcomes[k]
}

/// Exit `i` is the one to take: its outcome is true and no earlier one is.
/// Outcomes past the last of the `exits` exits are ignored.
pub open spec fn fires(exits: nat, outcomes: Seq<bool>, i: int) -> bool {
    &&& 0 <= i < exits
    &&& outcome_at(outcomes, i)
    &&& forall|j: int| 0 <= j < i ==> !outcome_at(outcomes, j)
}

/// The exit to take under `outcomes`, if any: the one that fires.
pub open spec fn taken_exit(exits: nat, outcomes: Seq<bool>) -> Option<int> {
    if exists|i: int| fires(exits, outcomes, i) {
        Some(choose|i: int| fires(exits, outcomes, i))
    } else {
        None
    }
}

/// What a step gives once the exit to take is known: nothing where none is
/// taken, else the target and the actions of that exit, provided the graph
/// holds the target.
pub open spec fn followed<C, A>(
    graph: Seq<StateView<C, A>>,
    state: StateView<C, A>,
    exit: Option<int>,
) -> StepView<A> {
    match exit {
        None => stays(),
        Some(i) => if state.exits[i].target < graph.len() {
            Ok((Some(state.exits[i].target), state.exits[i].actions))
        } else {
            refused(AdvanceError::DanglingTransition)
        },
    }
}

/// The step from `current` in `graph` when the conditions of its exits give
/// `outcomes`.
pub open spec fn advanced<C, A>(
    graph: Seq<StateView<C, A>>,
    current: nat,
    outcomes: Seq<bool>,
) -> StepView<A> {
    if current < graph.len() {
        followed(
            graph,
            graph[current as int],
            taken_exit(graph[current as int].exits.len(), outcomes),
        )
    } else {
        refused(AdvanceError::UnknownState)
    }
}

/// `outcomes` is what the conditions of `exits` can have answered to a step
/// that asks them in order and stops at the first that holds. It holds one
/// answer for each exit asked, each an answer that the exit's condition can
/// give; none but the last is true; and where an exit was not asked, the
/// last is true.
pub open spec fn asked<C: Condition, A>(
    exits: Seq<TransitionView<C, A>>,
    outcomes: Seq<bool>,
) -> bool {
    &&& outcomes.len() <= exits.len()
    &&& forall|k: int|
        0 <= k < outcomes.len() ==> may_answer(&exits[k].condition, #[trigger] outcomes[k])
    &&& forall|k: int| 0 <= k < outcomes.len() - 1 ==> !#[trigger] outcomes[k]
    &&& outcomes.len() < exits.len() ==> outcomes.len() > 0 && outcomes.last()
}

/// At most one exit fires.
pub proof fn lemma_fires_unique(exits: nat, outcomes: Seq<bool>, i: int, j: int)
    requires
        fires(exits, outcomes, i),
        fires(exits, outcomes, j),
    ensures
        i == j,
{
}

/// The exit that fires is the exit taken.
pub proof fn lemma_taken_is_firing(exits: nat, outcomes: Seq<bool>, i: int)
    requires
        fires(exits, outcomes, i),
    ensures
        taken_exit(exits, outcomes) == Some(i),
{
    let k = choose|k: int| fires(exits, outcomes, k);
    lemma_fires_unique(exits, outcomes, i, k);
}

/// Where no outcome is true, no exit is taken.
pub proof fn lemma_none_taken(exits: nat, outcomes: Seq<bool>)
    requires
        forall|k: int| 0 <= k < exits ==> !outcome_at(outcomes, k),
    ensures
        taken_exit(exits, outcomes) == None::<int>,
{
}

/// The first of `outcomes` that is true, among those that stand for one of
/// `exits` exits.
pub fn first_true(outcomes: &[bool], exits: usize) -> (found: Option<usize>)
    ensures
        match found {
            Some(i) => taken_exit(exits as nat, outcomes@) == Some(i as int),
            None => taken_exit(exits as nat, outcomes@) == None::<int>,
        },
{
    let mut i: usize = 0;
    while i < exits && i < outcomes.len()
        invariant
            forall|j: int| 0 <= j < i ==> !outcome_at(outcomes@, j),
        decreases outcomes.len() - i,
    {
        if outcomes[i] {
            proof {
                lemma_taken_is_firing(exits as nat, outcomes@, i as int);
            }
            return Some(i);
        }
        i += 1;
    }
    proof {
        lemma_none_taken(exits as nat, outcomes@);
    }
    None
}

/// Asks the conditions of `exits` in order and stops at the first that
/// holds. The exit found is one whose condition answered true after all
/// before it had answered false; none is found where all answered false.
pub fn first_holding<C: Condition, A>(exits: &[StateTransition<C, A>]) -> (found: Option<usize>)
    ensures
        match found {
            Some(i) => i < exits@.len() && may_answer(&exits@[i as int]@.condition, true)
                && forall|j: int|
                0 <= j < i ==> may_answer(&(#[trigger] exits@[j])@.condition, false),
            None => forall|j: int|
                0 <= j < exits@.len() ==> may_answer(&(#[trigger] exits@[j])@.condition, false),
        },
{
    let mut i: usize = 0;
    while i < exits.len()
        invariant
            forall|j: int| 0 <= j < i ==> may_answer(&(#[trigger] exits@[j])@.condition, false),
        decreases exits.len() - i,
    {
        if exits[i].condition().evaluate() {
            return Some(i);
        }
        i += 1;
    }
    None
}

impl<C, A> StateGraph<C, A> {
    /// Takes exit `exit` of `state`, or none: looks the target up and hands
    /// back the exit's actions.
    fn follow<'g>(&'g self, state: &'g State<C, A>, exit: Option<usize>) -> (step: Step<'g, A>)
        requires
            exit matches Some(i) ==> i < state@.exits.len(),
        ensures
            step_view(step) == followed(
                self@,
                state@,
                match exit {
                    Some(i) => Some(i as int),
                    None => None,
                },
            ),
    {
        match exit {
            None => {
                let none: &[A] = &[];
                assert(none@ =~= Seq::<A>::empty());
                Ok((None, none))
            },
            Some(i) => {
                let exits = state.exits();
                let target = exits[i].target();
                if target.index() < self.state_count() {
                    Ok((Some(target), exits[i].actions()))
                } else {
                    Err(AdvanceError::DanglingTransition)
                }
            },
        }
    }

    /// The step from `current` when the conditions of its exits give
    /// `outcomes`: the first exit whose outcome is true is taken. No
    /// condition is asked and nothing changes; the result says where to go
    /// and which actions to run.
    pub fn advance_with<'g>(&'g self, current: StateId, outcomes: &[bool]) -> (step: Step<'g, A>)
        ensures
            step_view(step) == advanced(self@, current@, outcomes@),
    {
        match self.get_state(current) {
            None => Err(AdvanceError::UnknownState),
            Some(state) => {
                let exit = first_true(outcomes, state.exits().len());
                self.follow(state, exit)
            },
        }
    }

    /// The step from `current`: asks the conditions of its exits in order,
    /// stops at the first that holds and takes that exit. What comes back
    /// is what `advance_with` gives for the answers of the conditions asked.
    /// With an unknown state or a state without exits no condition is asked
    /// and the result is fixed.
    pub fn advance<'g>(&'g self, current: StateId) -> (step: Step<'g, A>) where C: Condition
        ensures
            current@ < self@.len() ==> exists|outcomes: Seq<bool>|
                #[trigger] asked(self@[current@ as int].exits, outcomes) && step_view(step)
                    == advanced(self@, current@, outcomes),
            current@ >= self@.len() ==> step_view(step) == refused::<A>(
                AdvanceError::UnknownState,
            ),
            current@ < self@.len() && self@[current@ as int].exits.len() == 0 ==> step_view(step)
                == stays::<A>(),
    {
        match self.get_state(current) {
            None => Err(AdvanceError::UnknownState),
            Some(state) => {
                let exits = state.exits();
                let exit = first_holding(exits);
                let step = self.follow(state, exit);
                proof {
                    let count = state@.exits.len();
                    let outcomes = match exit {
                        Some(i) => Seq::new((i + 1) as nat, |j: int| j == i as int),
                        None => Seq::new(count, |j: int| false),
                    };
                    match exit {
                        Some(i) => {
                            lemma_taken_is_firing(count, outcomes, i as int);
                        },
                        None => {
                            lemma_none_taken(count, outcomes);
                        },
                    }
                    assert(asked(state@.exits, outcomes));
                }
                step
            },
        }
    }
}

} // verus!
