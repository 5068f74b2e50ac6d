use state_graph::export::Edge;
use state_graph::graph::{Condition, StateGraph, StateId};

struct Fixed(bool);

impl Condition for Fixed {
    fn evaluate(&self) -> bool {
        self.0
    }
}

fn sample() -> StateGraph<Fixed, &'static str> {
    let mut graph = StateGraph::new();
    let idle = graph.add_state("idle", vec![]);
    let walk = graph.add_state("walk", vec![]);
    let run = graph.add_state("run", vec![]);
    graph.add_transition(idle, walk, Fixed(true), vec![]).unwrap();
    graph.add_transition(idle, run, Fixed(false), vec![]).unwrap();
    graph.add_transition(run, idle, Fixed(true), vec![]).unwrap();
    graph
}

/// The number of lines of `text` that declare a state and the number that
/// stand for a transition, told apart by what follows the first number.
fn counts_in(text: &str) -> (usize, usize) {
    let mut nodes = 0;
    let mut edges = 0;
    for line in text.lines() {
        if let Some(rest) = line.strip_prefix("    ") {
            let rest = rest.trim_start_matches(|c: char| c.is_ascii_digit());
            if rest.len() < line.len() - 4 {
                if rest.starts_with(' ') {
                    nodes += 1;
                } else if rest.starts_with("->") {
                    edges += 1;
                }
            }
        }
    }
    (nodes, edges)
}

#[test]
fn edges_come_state_by_state_in_exit_order() {
    let graph = sample();
    let id = StateId::new;
    assert_eq!(
        graph.export_edges(),
        vec![
            Edge { source: id(0), name: "idle", target: id(1) },
            Edge { source: id(0), name: "idle", target: id(2) },
            Edge { source: id(2), name: "run", target: id(0) },
        ]
    );
}

#[test]
fn exporting_twice_gives_the_same_edges() {
    let graph = sample();
    assert_eq!(graph.export_edges(), graph.export_edges());
}

#[test]
fn a_graph_without_transitions_has_no_edges() {
    let mut graph: StateGraph<Fixed, &str> = StateGraph::new();
    assert!(graph.export_edges().is_empty());
    graph.add_state("alone", vec![]);
    assert!(graph.export_edges().is_empty());
}

#[test]
fn an_edge_to_a_missing_state_is_exported_too() {
    let mut graph: StateGraph<Fixed, &str> = StateGraph::new();
    let a = graph.add_state("a", vec![]);
    graph.add_transition(a, StateId::new(4), Fixed(true), vec![]).unwrap();
    assert_eq!(
        graph.export_edges(),
        vec![Edge { source: a, name: "a", target: StateId::new(4) }]
    );
}

#[test]
fn the_empty_graph_as_text() {
    let graph: StateGraph<Fixed, &str> = StateGraph::new();
    assert_eq!(graph.to_dot(), "digraph state_graph {\n}\n");
}

#[test]
fn a_graph_as_text() {
    let expected = "digraph state_graph {\n\
                    \x20   0 [label=\"idle\"]\n\
                    \x20   0->1 [label=\"idle\"]\n\
                    \x20   0->2 [label=\"idle\"]\n\
                    \x20   1 [label=\"walk\"]\n\
                    \x20   2 [label=\"run\"]\n\
                    \x20   2->0 [label=\"run\"]\n\
                    }\n";
    assert_eq!(sample().to_dot(), expected);
}

#[test]
fn ids_are_written_in_decimal() {
    let mut graph: StateGraph<Fixed, &str> = StateGraph::new();
    for _ in 0..11 {
        graph.add_state("s", vec![]);
    }
    graph.add_transition(StateId::new(10), StateId::new(9), Fixed(true), vec![]).unwrap();
    graph.add_transition(StateId::new(10), StateId::new(12345), Fixed(true), vec![]).unwrap();
    graph.add_transition(StateId::new(10), StateId::new(usize::MAX), Fixed(true), vec![]).unwrap();
    let text = graph.to_dot();
    let lines: Vec<&str> = text.lines().collect();
    assert_eq!(lines.len(), 16);
    assert_eq!(lines[1], "    0 [label=\"s\"]");
    assert_eq!(lines[10], "    9 [label=\"s\"]");
    assert_eq!(lines[11], "    10 [label=\"s\"]");
    assert_eq!(lines[12], "    10->9 [label=\"s\"]");
    assert_eq!(lines[13], "    10->12345 [label=\"s\"]");
    assert_eq!(lines[14], format!("    10->{} [label=\"s\"]", usize::MAX));
    assert_eq!(lines[15], "}");
}

#[test]
fn names_are_written_as_they_are() {
    let mut graph: StateGraph<Fixed, &str> = StateGraph::new();
    let a = graph.add_state("a \"b\" -> \u{e9}", vec![]);
    graph.add_transition(a, a, Fixed(true), vec![]).unwrap();
    assert_eq!(
        graph.to_dot(),
        "digraph state_graph {\n\
         \x20   0 [label=\"a \"b\" -> \u{e9}\"]\n\
         \x20   0->0 [label=\"a \"b\" -> \u{e9}\"]\n\
         }\n"
    );
}

#[test]
fn the_text_has_a_line_for_each_state_and_each_transition() {
    let graph = sample();
    assert_eq!(counts_in(&graph.to_dot()), (graph.state_count(), graph.export_edges().len()));
    assert_eq!(counts_in(&graph.to_dot()), (3, 3));

    let mut tricky: StateGraph<Fixed, &str> = StateGraph::new();
    let a = tricky.add_state("    7 [label=", vec![]);
    let b = tricky.add_state("1->2", vec![]);
    tricky.add_transition(a, b, Fixed(true), vec![]).unwrap();
    tricky.add_transition(b, a, Fixed(true), vec![]).unwrap();
    tricky.add_transition(b, b, Fixed(true), vec![]).unwrap();
    assert_eq!(counts_in(&tricky.to_dot()), (2, 3));

    let empty: StateGraph<Fixed, &str> = StateGraph::new();
    assert_eq!(counts_in(&empty.to_dot()), (0, 0));
}

#[test]
fn a_line_break_in_a_name_splits_its_line() {
    let mut graph: StateGraph<Fixed, &str> = StateGraph::new();
    graph.add_state("x\n    1 y", vec![]);
    assert_eq!(
        graph.to_dot(),
        "digraph state_graph {\n    0 [label=\"x\n    1 y\"]\n}\n"
    );
    assert_eq!(graph.state_count(), 1);
    assert_eq!(counts_in(&graph.to_dot()), (2, 0));
}
