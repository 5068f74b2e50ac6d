use state_graph::entity::EntityState;
use state_graph::graph::{Condition, StateGraph, StateId};
use state_graph::step::{first_holding, first_true, AdvanceError};
use std::sync::atomic::{AtomicUsize, Ordering};
use std::sync::Arc;

struct Fixed(bool);

impl Condition for Fixed {
    fn evaluate(&self) -> bool {
        self.0
    }
}

/// Answers `answer` and counts how often it was asked.
struct Counted {
    answer: bool,
    asked: Arc<AtomicUsize>,
}

impl Condition for Counted {
    fn evaluate(&self) -> bool {
        self.asked.fetch_add(1, Ordering::SeqCst);
        self.answer
    }
}

type Step<'g> = state_graph::step::Step<'g, &'static str>;

const NONE: &[&str] = &[];

#[test]
fn a_true_exit_is_taken_and_its_actions_come_back() {
    let mut graph: StateGraph<Fixed, &str> = StateGraph::new();
    let a = graph.add_state("A", vec![]);
    let b = graph.add_state("B", vec![]);
    assert_eq!((a.index(), b.index()), (0, 1));
    graph.add_transition(a, b, Fixed(true), vec!["Act1"]).unwrap();

    let mut instance = EntityState::new((), a);
    let first: Step = instance.advance(&graph);
    assert_eq!(first, Ok((Some(b), &["Act1"][..])));
    assert_eq!(instance.current_state(), b);

    let second: Step = instance.advance(&graph);
    assert_eq!(second, Ok((None, NONE)));
    assert_eq!(instance.current_state(), b);
}

#[test]
fn a_false_exit_is_skipped_for_a_later_true_one() {
    let mut graph: StateGraph<Fixed, &str> = StateGraph::new();
    let a = graph.add_state("A", vec![]);
    let b = graph.add_state("B", vec![]);
    let c = graph.add_state("C", vec![]);
    assert_eq!(c.index(), 2);
    graph.add_transition(a, b, Fixed(false), vec!["to B"]).unwrap();
    graph.add_transition(a, c, Fixed(true), vec!["to C", "then"]).unwrap();

    let mut instance = EntityState::new((), a);
    let step: Step = instance.advance(&graph);
    assert_eq!(step, Ok((Some(c), &["to C", "then"][..])));
    assert_eq!(instance.current_state(), c);
}

#[test]
fn the_earlier_of_two_true_exits_wins() {
    let mut graph: StateGraph<Fixed, &str> = StateGraph::new();
    let a = graph.add_state("A", vec![]);
    let b = graph.add_state("B", vec![]);
    let c = graph.add_state("C", vec![]);
    graph.add_transition(a, c, Fixed(true), vec!["first"]).unwrap();
    graph.add_transition(a, b, Fixed(true), vec!["second"]).unwrap();

    let step: Step = graph.advance(a);
    assert_eq!(step, Ok((Some(c), &["first"][..])));
    let with: Step = graph.advance_with(a, &[true, true]);
    assert_eq!(with, Ok((Some(c), &["first"][..])));
}

#[test]
fn no_true_exit_means_no_change() {
    let mut graph: StateGraph<Fixed, &str> = StateGraph::new();
    let a = graph.add_state("A", vec![]);
    let b = graph.add_state("B", vec![]);
    graph.add_transition(a, b, Fixed(false), vec!["never"]).unwrap();
    graph.add_transition(a, a, Fixed(false), vec!["never"]).unwrap();

    let mut instance = EntityState::new((), a);
    let step: Step = instance.advance(&graph);
    assert_eq!(step, Ok((None, NONE)));
    assert_eq!(instance.current_state(), a);
}

#[test]
fn a_state_without_exits_never_changes() {
    let mut graph: StateGraph<Fixed, &str> = StateGraph::new();
    let end = graph.add_state("end", vec!["entered"]);
    let mut instance = EntityState::new((), end);
    for _ in 0..3 {
        let step: Step = instance.advance(&graph);
        assert_eq!(step, Ok((None, NONE)));
        assert_eq!(instance.current_state(), end);
    }
    let with: Step = graph.advance_with(end, &[true, true, true]);
    assert_eq!(with, Ok((None, NONE)));
}

#[test]
fn a_transition_to_a_missing_state_is_reported_and_nothing_moves() {
    let mut graph: StateGraph<Fixed, &str> = StateGraph::new();
    let a = graph.add_state("A", vec![]);
    let missing = StateId::new(7);
    graph.add_transition(a, missing, Fixed(true), vec!["lost"]).unwrap();

    let mut instance = EntityState::new((), a);
    let step: Step = instance.advance(&graph);
    assert_eq!(step, Err(AdvanceError::DanglingTransition));
    assert_eq!(instance.current_state(), a);

    let mut other = EntityState::new((), a);
    let with: Step = other.advance_with(&graph, &[true]);
    assert_eq!(with, Err(AdvanceError::DanglingTransition));
    assert_eq!(other.current_state(), a);
}

#[test]
fn a_dangling_exit_that_does_not_fire_does_no_harm() {
    let mut graph: StateGraph<Fixed, &str> = StateGraph::new();
    let a = graph.add_state("A", vec![]);
    let b = graph.add_state("B", vec![]);
    graph.add_transition(a, StateId::new(9), Fixed(false), vec![]).unwrap();
    graph.add_transition(a, b, Fixed(true), vec!["ok"]).unwrap();
    let step: Step = graph.advance(a);
    assert_eq!(step, Ok((Some(b), &["ok"][..])));
}

#[test]
fn an_instance_outside_the_graph_is_reported_and_nothing_moves() {
    let mut graph: StateGraph<Fixed, &str> = StateGraph::new();
    graph.add_state("A", vec![]);
    let outside = StateId::new(1);

    let mut instance = EntityState::new((), outside);
    let step: Step = instance.advance(&graph);
    assert_eq!(step, Err(AdvanceError::UnknownState));
    assert_eq!(instance.current_state(), outside);

    let with: Step = instance.advance_with(&graph, &[true]);
    assert_eq!(with, Err(AdvanceError::UnknownState));
    assert_eq!(instance.current_state(), outside);

    let empty: StateGraph<Fixed, &str> = StateGraph::new();
    let on_empty: Step = empty.advance(StateId::new(0));
    assert_eq!(on_empty, Err(AdvanceError::UnknownState));
}

#[test]
fn repeated_steps_from_the_same_state_agree() {
    let mut graph: StateGraph<Fixed, &str> = StateGraph::new();
    let a = graph.add_state("A", vec![]);
    let b = graph.add_state("B", vec![]);
    graph.add_transition(a, b, Fixed(false), vec!["x"]).unwrap();
    graph.add_transition(a, b, Fixed(true), vec!["y", "z"]).unwrap();
    let first: Step = graph.advance(a);
    let second: Step = graph.advance(a);
    let third: Step = graph.advance_with(a, &[false, true]);
    assert_eq!(first, Ok((Some(b), &["y", "z"][..])));
    assert_eq!(first, second);
    assert_eq!(first, third);
}

#[test]
fn only_one_transition_is_taken_per_step() {
    let mut graph: StateGraph<Fixed, &str> = StateGraph::new();
    let a = graph.add_state("A", vec![]);
    let b = graph.add_state("B", vec![]);
    let c = graph.add_state("C", vec![]);
    graph.add_transition(a, b, Fixed(true), vec!["a to b"]).unwrap();
    graph.add_transition(b, c, Fixed(true), vec!["b to c"]).unwrap();

    let mut instance = EntityState::new((), a);
    let first: Step = instance.advance(&graph);
    assert_eq!(first, Ok((Some(b), &["a to b"][..])));
    assert_eq!(instance.current_state(), b);
    let second: Step = instance.advance(&graph);
    assert_eq!(second, Ok((Some(c), &["b to c"][..])));
    assert_eq!(instance.current_state(), c);
}

#[test]
fn entry_actions_are_not_among_the_actions_of_a_step() {
    let mut graph: StateGraph<Fixed, &str> = StateGraph::new();
    let a = graph.add_state("A", vec!["enter A"]);
    let b = graph.add_state("B", vec!["enter B"]);
    graph.add_transition(a, b, Fixed(true), vec!["move"]).unwrap();
    let step: Step = graph.advance(a);
    assert_eq!(step, Ok((Some(b), &["move"][..])));
    assert_eq!(graph.get_state(b).unwrap().entry_actions(), &["enter B"][..]);
}

#[test]
fn conditions_are_asked_in_order_up_to_the_first_that_holds() {
    let asked: Vec<Arc<AtomicUsize>> = (0..4).map(|_| Arc::new(AtomicUsize::new(0))).collect();
    let answers = [false, false, true, true];
    let mut graph: StateGraph<Counted, &str> = StateGraph::new();
    let a = graph.add_state("A", vec![]);
    let b = graph.add_state("B", vec![]);
    for k in 0..4 {
        let condition = Counted { answer: answers[k], asked: asked[k].clone() };
        graph.add_transition(a, b, condition, vec![]).unwrap();
    }
    let mut instance = EntityState::new((), a);
    assert!(instance.advance(&graph).is_ok());
    let counts: Vec<usize> = asked.iter().map(|n| n.load(Ordering::SeqCst)).collect();
    assert_eq!(counts, vec![1, 1, 1, 0]);
}

#[test]
fn no_condition_is_asked_when_the_state_is_unknown() {
    let asked = Arc::new(AtomicUsize::new(0));
    let mut graph: StateGraph<Counted, &str> = StateGraph::new();
    let a = graph.add_state("A", vec![]);
    graph.add_transition(a, a, Counted { answer: true, asked: asked.clone() }, vec![]).unwrap();
    assert_eq!(graph.advance(StateId::new(5)), Err(AdvanceError::UnknownState));
    assert_eq!(asked.load(Ordering::SeqCst), 0);
}

#[test]
fn advance_with_evaluates_nothing() {
    let asked = Arc::new(AtomicUsize::new(0));
    let mut graph: StateGraph<Counted, &str> = StateGraph::new();
    let a = graph.add_state("A", vec![]);
    let condition = Counted { answer: false, asked: asked.clone() };
    graph.add_transition(a, a, condition, vec!["loop"]).unwrap();
    assert_eq!(graph.advance_with(a, &[true]), Ok((Some(a), &["loop"][..])));
    assert_eq!(asked.load(Ordering::SeqCst), 0);
}

#[test]
fn missing_outcomes_count_as_false_and_extra_ones_are_ignored() {
    let mut graph: StateGraph<Fixed, &str> = StateGraph::new();
    let a = graph.add_state("A", vec![]);
    let b = graph.add_state("B", vec![]);
    graph.add_transition(a, a, Fixed(false), vec!["stay"]).unwrap();
    graph.add_transition(a, b, Fixed(false), vec!["go"]).unwrap();
    assert_eq!(graph.advance_with(a, &[]), Ok((None, NONE)));
    assert_eq!(graph.advance_with(a, &[false]), Ok((None, NONE)));
    assert_eq!(graph.advance_with(a, &[false, true]), Ok((Some(b), &["go"][..])));
    assert_eq!(graph.advance_with(a, &[false, false, true]), Ok((None, NONE)));
    assert_eq!(graph.advance_with(a, &[true, false, true]), Ok((Some(a), &["stay"][..])));
}

#[test]
fn first_true_finds_the_first_true_outcome_among_the_exits() {
    assert_eq!(first_true(&[], 3), None);
    assert_eq!(first_true(&[false, false], 2), None);
    assert_eq!(first_true(&[true], 1), Some(0));
    assert_eq!(first_true(&[false, true, true], 3), Some(1));
    assert_eq!(first_true(&[false, false, true], 2), None);
    assert_eq!(first_true(&[true], 0), None);
}

#[test]
fn first_holding_finds_the_first_condition_that_holds() {
    let mut graph: StateGraph<Fixed, &str> = StateGraph::new();
    let a = graph.add_state("A", vec![]);
    assert_eq!(first_holding(graph.get_state(a).unwrap().exits()), None);
    graph.add_transition(a, a, Fixed(false), vec![]).unwrap();
    assert_eq!(first_holding(graph.get_state(a).unwrap().exits()), None);
    graph.add_transition(a, a, Fixed(true), vec![]).unwrap();
    graph.add_transition(a, a, Fixed(true), vec![]).unwrap();
    assert_eq!(first_holding(graph.get_state(a).unwrap().exits()), Some(1));
}

#[test]
fn an_instance_keeps_its_graph_handle() {
    let mut graph: StateGraph<Fixed, &str> = StateGraph::new();
    let a = graph.add_state("A", vec![]);
    let b = graph.add_state("B", vec![]);
    graph.add_transition(a, b, Fixed(true), vec![]).unwrap();
    let mut instance = EntityState::new("graph 17", a);
    assert_eq!(*instance.state_graph_handle(), "graph 17");
    assert_eq!(instance.current_state(), a);
    instance.advance(&graph).unwrap();
    assert_eq!(*instance.state_graph_handle(), "graph 17");
    assert_eq!(instance.current_state(), b);
}

#[test]
fn many_instances_share_one_graph() {
    let mut graph: StateGraph<Fixed, &str> = StateGraph::new();
    let a = graph.add_state("A", vec![]);
    let b = graph.add_state("B", vec![]);
    graph.add_transition(a, b, Fixed(true), vec!["go"]).unwrap();
    let mut first = EntityState::new(0u8, a);
    let mut second = EntityState::new(0u8, a);
    first.advance(&graph).unwrap();
    assert_eq!(first.current_state(), b);
    assert_eq!(second.current_state(), a);
    second.advance(&graph).unwrap();
    assert_eq!(second.current_state(), b);
}

#[test]
fn conditions_of_several_types_share_a_graph() {
    let asked = Arc::new(AtomicUsize::new(0));
    let mut graph: StateGraph<Box<dyn Condition>, &str> = StateGraph::new();
    let a = graph.add_state("A", vec![]);
    let b = graph.add_state("B", vec![]);
    graph.add_transition(a, a, Box::new(Fixed(false)), vec!["fixed"]).unwrap();
    let counted = Counted { answer: true, asked: asked.clone() };
    graph.add_transition(a, b, Box::new(counted), vec!["counted"]).unwrap();
    let mut instance = EntityState::new((), a);
    let step: Step = instance.advance(&graph);
    assert_eq!(step, Ok((Some(b), &["counted"][..])));
    assert_eq!(instance.current_state(), b);
    assert_eq!(asked.load(Ordering::SeqCst), 1);
}

#[test]
fn a_transition_may_lead_back_to_its_own_state() {
    let mut graph: StateGraph<Fixed, &str> = StateGraph::new();
    let a = graph.add_state("A", vec![]);
    graph.add_transition(a, a, Fixed(true), vec!["again"]).unwrap();
    let mut instance = EntityState::new((), a);
    for _ in 0..3 {
        let step: Step = instance.advance(&graph);
        assert_eq!(step, Ok((Some(a), &["again"][..])));
        assert_eq!(instance.current_state(), a);
    }
}

#[test]
fn a_target_added_after_its_transition_is_found() {
    let mut graph: StateGraph<Fixed, &str> = StateGraph::new();
    let a = graph.add_state("A", vec![]);
    let later = StateId::new(1);
    graph.add_transition(a, later, Fixed(true), vec!["on"]).unwrap();
    assert_eq!(graph.advance(a), Err(AdvanceError::DanglingTransition));
    let b = graph.add_state("B", vec![]);
    assert_eq!(b, later);
    assert_eq!(graph.advance(a), Ok((Some(b), &["on"][..])));
}
