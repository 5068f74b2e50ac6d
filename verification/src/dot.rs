//! The graph as text in the DOT language, for tools that draw it.
//!
//! The text opens with `digraph state_graph {` and closes with `}`. Between
//! the two, each state gives one line that declares its label, followed by
//! one line for each of its exits:
//!
//! ```text
//! digraph state_graph {
//!     0 [label="idle"]
//!     0->1 [label="idle"]
//!     1 [label="busy"]
//! }
//! ```
//!
//! Names are written as they are. A name that holds a quote or a line break
//! gives text that a DOT reader may refuse.
use crate::graph::{State, StateGraph, StateView};
use vstd::prelude::*;
use vstd::string::StringExecFns;

verus! {

/// The character that writes the digit `d`.
pub open spec fn digit(d: nat) -> char
    recommends
        d < 10,
{
    if d == 0 {
        '0'
    } else if d == 1 {
        '1'
    } else if d == 2 {
        '2'
    } else if d == 3 {
        '3'
    } else if d == 4 {
        '4'
    } else if d == 5 {
        '5'
    } else if d == 6 {
        '6'
    } else if d == 7 {
        '7'
    } else if d == 8 {
        '8'
    } else {
        '9'
    }
}

/// `n` in decimal, without leading zeros.
pub open spec fn decimal(n: nat) -> Seq<char>
    decreases n,
{
    if n < 10 {
        seq![digit(n)]
    } else {
        decimal(n / 10).push(digit(n % 10))
    }
}

/// `text` as a line: `text` and the line break that ends it.
pub open spec fn line(text: Seq<char>) -> Seq<char> {
    text.push('\n')
}

/// The declaration of the state `id` with its label.
pub open spec fn node_text(id: nat, name: Seq<char>) -> Seq<char> {
    "    "@ + decimal(id) + " [label=\""@ + name + "\"]"@
}

/// The transition from `id` to `target`, labelled with the name of the
/// state it leaves.
pub open spec fn edge_text(id: nat, target: nat, name: Seq<char>) -> Seq<char> {
    "    "@ + decimal(id) + "->"@ + decimal(target) + " [label=\""@ + name + "\"]"@
}

/// The lines for the first `count` exits of `state`.
pub open spec fn edge_lines<C, A>(state: StateView<C, A>, count: nat) -> Seq<char>
    decreases count,
{
    if count == 0 {
        Seq::empty()
    } else {
        edge_lines(state, (count - 1) as nat) + line(
            edge_text(state.id, state.exits[count - 1].target, state.name),
        )
    }
}

/// The lines for `state`: its declaration, then its exits.
pub open spec fn state_lines<C, A>(state: StateView<C, A>) -> Seq<char> {
    line(node_text(state.id, state.name)) + edge_lines(state, state.exits.len())
}

/// The lines for the first `count` states of `graph`.
pub open spec fn graph_lines<C, A>(graph: Seq<StateView<C, A>>, count: nat) -> Seq<char>
    decreases count,
{
    if count == 0 {
        Seq::empty()
    } else {
        graph_lines(graph, (count - 1) as nat) + state_lines(graph[count - 1])
    }
}

/// The whole text for `graph`: the opening line, the lines for its states
/// and the closing line.
pub open spec fn dot_text<C, A>(graph: Seq<StateView<C, A>>) -> Seq<char> {
    line("digraph state_graph {"@) + graph_lines(graph, graph.len()) + line("}"@)
}

/// The text that writes one digit.
fn digit_str(d: usize) -> (text: &'static str)
    requires
        d < 10,
    ensures
        text@ == seq![digit(d as nat)],
{
    proof {
        reveal_strlit("0");
        reveal_strlit("1");
        reveal_strlit("2");
        reveal_strlit("3");
        reveal_strlit("4");
        reveal_strlit("5");
        reveal_strlit("6");
        reveal_strlit("7");
        reveal_strlit("8");
        reveal_strlit("9");
    }
    let text = if d == 0 {
        "0"
    } else if d == 1 {
        "1"
    } else if d == 2 {
        "2"
    } else if d == 3 {
        "3"
    } else if d == 4 {
        "4"
    } else if d == 5 {
        "5"
    } else if d == 6 {
        "6"
    } else if d == 7 {
        "7"
    } else if d == 8 {
        "8"
    } else {
        "9"
    };
    text
}

/// Appends `n` in decimal to `text`.
fn push_decimal(text: &mut String, n: usize)
    ensures
        final(text)@ == old(text)@ + decimal(n as nat),
    decreases n,
{
    if n >= 10 {
        push_decimal(text, n / 10);
    }
    text.append(digit_str(n % 10));
}

/// Ends the line that `text` is in.
fn end_line(text: &mut String)
    ensures
        final(text)@ == line(old(text)@),
{
    proof {
        reveal_strlit("\n");
    }
    text.append("\n");
}

/// Appends the line that declares `state`.
fn push_node_line<C, A>(text: &mut String, state: &State<C, A>)
    ensures
        final(text)@ == old(text)@ + line(node_text(state@.id, state@.name)),
{
    text.append("    ");
    push_decimal(text, state.id().index());
    text.append(" [label=\"");
    text.append(state.name());
    text.append("\"]");
    end_line(text);
}

/// Appends the line for a transition from `state` to `target`.
fn push_edge_line<C, A>(text: &mut String, state: &State<C, A>, target: usize)
    ensures
        final(text)@ == old(text)@ + line(edge_text(state@.id, target as nat, state@.name)),
{
    text.append("    ");
    push_decimal(text, state.id().index());
    text.append("->");
    push_decimal(text, target);
    text.append(" [label=\"");
    text.append(state.name());
    text.append("\"]");
    end_line(text);
}

/// Appends the lines for `state`.
fn push_state_lines<C, A>(text: &mut String, state: &State<C, A>)
    ensures
        final(text)@ == old(text)@ + state_lines(state@),
{
    push_node_line(text, state);
    let exits = state.exits();
    let ghost start = text@;
    let mut j: usize = 0;
    while j < exits.len()
        invariant
            j <= exits@.len(),
            exits@.len() == state@.exits.len(),
            forall|k: int| 0 <= k < exits@.len() ==> (#[trigger] exits@[k])@ == state@.exits[k],
            text@ == start + edge_lines(state@, j as nat),
        decreases exits.len() - j,
    {
        push_edge_line(text, state, exits[j].target().index());
        j += 1;
    }
}

impl<C, A> StateGraph<C, A> {
    /// The graph in the DOT language: one line for each state and one for
    /// each transition, between an opening and a closing line.
    pub fn to_dot(&self) -> (text: String)
        ensures
            text@ == dot_text(self@),
    {
        let states = self.states();
        let mut text = String::new();
        text.append("digraph state_graph {");
        end_line(&mut text);
        let ghost start = text@;
        let mut i: usize = 0;
        while i < states.len()
            invariant
                i <= states@.len(),
                states@.len() == self@.len(),
                forall|k: int| 0 <= k < states@.len() ==> (#[trigger] states@[k])@ == self@[k],
                text@ == start + graph_lines(self@, i as nat),
            decreases states.len() - i,
        {
            push_state_lines(&mut text, &states[i]);
            i += 1;
        }
        text.append("}");
        end_line(&mut text);
        text
    }
}

} // verus!
