//! What holds of every step.
use crate::entity::{moved, EntityView};
use crate::graph::{may_answer, Condition, StateView, TransitionView};
use crate::step::{
    advanced, asked, fires, followed, lemma_none_taken, lemma_taken_is_firing, outcome_at,
    refused, stays, taken_exit, AdvanceError,
};
use vstd::prelude::*;

verus! {

/// Where an outcome is true, an exit at or before it is taken.
pub proof fn lemma_some_exit_taken(exits: nat, outcomes: Seq<bool>, i: int)
    requires
        0 <= i < exits,
        outcome_at(outcomes, i),
    ensures
        taken_exit(exits, outcomes) is Some,
        0 <= taken_exit(exits, outcomes).unwrap() <= i,
        fires(exits, outcomes, taken_exit(exits, outcomes).unwrap()),
    decreases i,
{
    if exists|j: int| 0 <= j < i && outcome_at(outcomes, j) {
        let j = choose|j: int| 0 <= j < i && outcome_at(outcomes, j);
        lemma_some_exit_taken(exits, outcomes, j);
    } else {
        lemma_taken_is_firing(exits, outcomes, i);
    }
}

/// `first` and `second` give the same answer for every exit that is asked:
/// for each of the `exits` exits that no true outcome of `first` precedes.
pub open spec fn agree_where_asked(exits: nat, first: Seq<bool>, second: Seq<bool>) -> bool {
    forall|k: int|
        0 <= k < exits && (forall|j: int| 0 <= j < k ==> !outcome_at(first, j)) ==> (
        #[trigger] outcome_at(first, k)) == outcome_at(second, k)
}

/// Outcomes that agree where a condition is asked select the same exit.
pub proof fn lemma_taken_exit_deterministic(exits: nat, first: Seq<bool>, second: Seq<bool>)
    requires
        agree_where_asked(exits, first, second),
    ensures
        taken_exit(exits, first) == taken_exit(exits, second),
{
    if exists|i: int| fires(exits, first, i) {
        let i = choose|i: int| fires(exits, first, i);
        assert forall|j: int| 0 <= j < i implies !outcome_at(second, j) by {
            assert(!outcome_at(first, j));
        }
        lemma_taken_is_firing(exits, second, i);
    } else {
        assert forall|k: int| 0 <= k < exits implies !outcome_at(second, k) by {
            lemma_none_fire(exits, first, k);
            assert(!outcome_at(first, k));
        }
        lemma_none_taken(exits, second);
    }
}

/// Where no exit fires, no outcome among the first `k + 1` is true.
proof fn lemma_none_fire(exits: nat, outcomes: Seq<bool>, k: int)
    requires
        forall|i: int| !fires(exits, outcomes, i),
        0 <= k < exits,
    ensures
        forall|j: int| 0 <= j <= k ==> !outcome_at(outcomes, j),
    decreases k,
{
    if k > 0 {
        lemma_none_fire(exits, outcomes, k - 1);
    }
    if outcome_at(outcomes, k) {
        assert(fires(exits, outcomes, k));
    }
}

/// A step is decided by the graph, the current state and what the
/// conditions answer where they are asked: outcomes that agree there give
/// the same step.
pub proof fn lemma_advance_deterministic<C, A>(
    graph: Seq<StateView<C, A>>,
    current: nat,
    first: Seq<bool>,
    second: Seq<bool>,
)
    requires
        current < graph.len() ==> agree_where_asked(
            graph[current as int].exits.len(),
            first,
            second,
        ),
    ensures
        advanced(graph, current, first) == advanced(graph, current, second),
{
    if current < graph.len() {
        lemma_taken_exit_deterministic(graph[current as int].exits.len(), first, second);
    }
}

/// Each condition of `exits` can give one answer only: that of `answers`
/// at its place.
pub open spec fn fixed_answers<C: Condition, A>(
    exits: Seq<TransitionView<C, A>>,
    answers: Seq<bool>,
) -> bool {
    &&& answers.len() == exits.len()
    &&& forall|k: int, answer: bool|
        0 <= k < exits.len() && #[trigger] may_answer(&exits[k].condition, answer) ==> answer
            == answers[k]
}

/// What was asked of conditions with fixed answers agrees with those
/// answers wherever a condition was asked.
proof fn lemma_asked_agrees_with_fixed<C: Condition, A>(
    exits: Seq<TransitionView<C, A>>,
    answers: Seq<bool>,
    outcomes: Seq<bool>,
)
    requires
        fixed_answers(exits, answers),
        asked(exits, outcomes),
    ensures
        agree_where_asked(exits.len(), outcomes, answers),
{
    assert forall|k: int|
        0 <= k < exits.len() && (forall|j: int| 0 <= j < k ==> !outcome_at(outcomes, j)) implies (
    #[trigger] outcome_at(outcomes, k)) == outcome_at(answers, k) by {
        if k >= outcomes.len() {
            assert(outcome_at(outcomes, outcomes.len() - 1));
        }
    }
}

/// Stepping is deterministic. Where the conditions of the current state's
/// exits have fixed answers, a step that asks them gives what those answers
/// give, whatever it asked; so two steps from the same state of the same
/// graph give the same.
pub proof fn lemma_fixed_answers_fix_the_step<C: Condition, A>(
    graph: Seq<StateView<C, A>>,
    current: nat,
    answers: Seq<bool>,
    first: Seq<bool>,
    second: Seq<bool>,
)
    requires
        current < graph.len(),
        fixed_answers(graph[current as int].exits, answers),
        asked(graph[current as int].exits, first),
        asked(graph[current as int].exits, second),
    ensures
        advanced(graph, current, first) == advanced(graph, current, answers),
        advanced(graph, current, second) == advanced(graph, current, first),
{
    lemma_asked_agrees_with_fixed(graph[current as int].exits, answers, first);
    lemma_asked_agrees_with_fixed(graph[current as int].exits, answers, second);
    lemma_advance_deterministic(graph, current, first, answers);
    lemma_advance_deterministic(graph, current, second, answers);
}

/// First match wins. Where the outcomes of two exits of the current state
/// are both true, the step takes an exit no later than the earlier of them,
/// so never the later one; and it takes the earlier one where no outcome
/// before it is true.
pub proof fn lemma_first_match_wins<C, A>(
    graph: Seq<StateView<C, A>>,
    current: nat,
    outcomes: Seq<bool>,
    earlier: int,
    later: int,
)
    requires
        current < graph.len(),
        0 <= earlier < later < graph[current as int].exits.len(),
        outcome_at(outcomes, earlier),
        outcome_at(outcomes, later),
    ensures
        taken_exit(graph[current as int].exits.len(), outcomes) matches Some(taken) && 0 <= taken
            <= earlier && advanced(graph, current, outcomes) == followed(
            graph,
            graph[current as int],
            Some(taken),
        ),
        (forall|j: int| 0 <= j < earlier ==> !outcome_at(outcomes, j)) ==> advanced(
            graph,
            current,
            outcomes,
        ) == followed(graph, graph[current as int], Some(earlier)),
{
    let exits = graph[current as int].exits.len();
    lemma_some_exit_taken(exits, outcomes, earlier);
    if forall|j: int| 0 <= j < earlier ==> !outcome_at(outcomes, j) {
        lemma_taken_is_firing(exits, outcomes, earlier);
    }
}

/// `condition` holds: asked, it can only answer true.
pub open spec fn holds<C: Condition>(condition: C) -> bool {
    forall|answer: bool| #[trigger] may_answer(&condition, answer) ==> answer
}

/// A step that asks the conditions does not pass an exit whose condition
/// holds: it takes that exit or an earlier one. So of two exits whose
/// conditions both hold, the one added later is never taken.
pub proof fn lemma_holding_exit_is_not_passed<C: Condition, A>(
    graph: Seq<StateView<C, A>>,
    current: nat,
    outcomes: Seq<bool>,
    exit: int,
)
    requires
        current < graph.len(),
        0 <= exit < graph[current as int].exits.len(),
        holds(graph[current as int].exits[exit].condition),
        asked(graph[current as int].exits, outcomes),
    ensures
        taken_exit(graph[current as int].exits.len(), outcomes) matches Some(taken) && 0 <= taken
            <= exit && advanced(graph, current, outcomes) == followed(
            graph,
            graph[current as int],
            Some(taken),
        ),
{
    let exits = graph[current as int].exits;
    if exit < outcomes.len() {
        lemma_some_exit_taken(exits.len(), outcomes, exit);
    } else {
        lemma_some_exit_taken(exits.len(), outcomes, outcomes.len() - 1);
    }
}

/// A state without exits is terminal: whatever the outcomes, a step from it
/// takes no transition, gives no actions and leaves the instance as it was.
pub proof fn lemma_terminal_state_stays<H, C, A>(
    graph: Seq<StateView<C, A>>,
    entity: EntityView<H>,
    outcomes: Seq<bool>,
)
    requires
        entity.current_state < graph.len(),
        graph[entity.current_state as int].exits.len() == 0,
    ensures
        advanced(graph, entity.current_state, outcomes) == stays::<A>(),
        moved(entity, advanced(graph, entity.current_state, outcomes)) == entity,
{
    lemma_none_taken(0, outcomes);
}

/// A transition to a state that the graph does not hold cannot be taken:
/// where it is the first whose outcome is true, the step is refused as
/// dangling and the instance stays as it was.
pub proof fn lemma_dangling_target_is_refused<H, C, A>(
    graph: Seq<StateView<C, A>>,
    entity: EntityView<H>,
    outcomes: Seq<bool>,
    exit: int,
)
    requires
        entity.current_state < graph.len(),
        fires(graph[entity.current_state as int].exits.len(), outcomes, exit),
        graph[entity.current_state as int].exits[exit].target >= graph.len(),
    ensures
        advanced(graph, entity.current_state, outcomes) == refused::<A>(
            AdvanceError::DanglingTransition,
        ),
        moved(entity, advanced(graph, entity.current_state, outcomes)) == entity,
{
    lemma_taken_is_firing(graph[entity.current_state as int].exits.len(), outcomes, exit);
}

/// A step never takes an instance out of its graph: an instance at a state
/// of the graph is at a state of the graph afterwards. A step that is
/// refused moves nothing, and no step changes the graph handle.
pub proof fn lemma_step_stays_in_graph<H, C, A>(
    graph: Seq<StateView<C, A>>,
    entity: EntityView<H>,
    outcomes: Seq<bool>,
)
    ensures
        entity.current_state < graph.len() ==> moved(
            entity,
            advanced(graph, entity.current_state, outcomes),
        ).current_state < graph.len(),
        advanced(graph, entity.current_state, outcomes) is Err ==> moved(
            entity,
            advanced(graph, entity.current_state, outcomes),
        ) == entity,
        moved(entity, advanced(graph, entity.current_state, outcomes)).state_graph_handle
            == entity.state_graph_handle,
{
}

} // verus!
