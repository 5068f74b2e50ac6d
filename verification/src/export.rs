//! The graph's edges as records, for tools that draw it.
use crate::graph::{StateGraph, StateId, StateView};
use vstd::prelude::*;

verus! {

/// What an edge record is, as a mathematical value.
pub struct EdgeView {
    pub source: nat,
    pub name: Seq<char>,
    pub target: nat,
}

/// One transition of a graph: the id and the name of the state it leaves,
/// and the id of the state it leads to.
#[derive(Clone, Copy, Debug, PartialEq, Eq)]
pub struct Edge<'g> {
    pub source: StateId,
    pub name: &'g str,
    pub target: StateId,
}

impl<'g> View for Edge<'g> {
    type V = EdgeView;

    open spec fn view(&self) -> EdgeView {
        EdgeView { source: self.source@, name: self.name@, target: self.target@ }
    }
}

/// The views of a run of edge records, in order.
pub open spec fn edge_views(edges: Seq<Edge>) -> Seq<EdgeView> {
    Seq::new(edges.len(), |i: int| edges[i]@)
}

/// The edges that leave `state`, in the order of its exits.
pub open spec fn state_edges<C, A>(state: StateView<C, A>) -> Seq<EdgeView> {
    Seq::new(
        state.exits.len(),
        |j: int| EdgeView { source: state.id, name: state.name, target: state.exits[j].target },
    )
}

/// The edges of `graph`: those of its first state, then those of its second,
/// and so on.
pub open spec fn edges<C, A>(graph: Seq<StateView<C, A>>) -> Seq<EdgeView>
    decreases graph.len(),
{
    if graph.len() == 0 {
        Seq::empty()
    } else {
        edges(graph.drop_last()) + state_edges(graph.last())
    }
}

/// The number of transitions in `graph`.
pub open spec fn transition_count<C, A>(graph: Seq<StateView<C, A>>) -> nat
    decreases graph.len(),
{
    if graph.len() == 0 {
        0
    } else {
        transition_count(graph.drop_last()) + graph.last().exits.len()
    }
}

/// There is one edge for each transition.
pub proof fn lemma_edges_len<C, A>(graph: Seq<StateView<C, A>>)
    ensures
        edges(graph).len() == transition_count(graph),
    decreases graph.len(),
{
    if graph.len() > 0 {
        lemma_edges_len(graph.drop_last());
    }
}

impl<C, A> StateGraph<C, A> {
    /// One record for each transition, state by state in the order of their
    /// ids and, within a state, in the order of its exits. The graph is not
    /// changed, so asking again gives the same records.
    pub fn export_edges<'g>(&'g self) -> (out: Vec<Edge<'g>>)
        ensures
            edge_views(out@) == edges(self@),
            out@.len() == transition_count(self@),
    {
        let states = self.states();
        let mut out: Vec<Edge<'g>> = Vec::new();
        let mut i: usize = 0;
        while i < states.len()
            invariant
                i <= states@.len(),
                states@.len() == self@.len(),
                forall|k: int| 0 <= k < states@.len() ==> (#[trigger] states@[k])@ == self@[k],
                edge_views(out@) =~= edges(self@.take(i as int)),
            decreases states.len() - i,
        {
            let state = &states[i];
            let exits = state.exits();
            let ghost before = edges(self@.take(i as int));
            let mut j: usize = 0;
            while j < exits.len()
                invariant
                    j <= exits@.len(),
                    exits@.len() == state@.exits.len(),
                    forall|k: int|
                        0 <= k < exits@.len() ==> (#[trigger] exits@[k])@ == state@.exits[k],
                    edge_views(out@) =~= before + state_edges(state@).take(j as int),
                decreases exits.len() - j,
            {
                let edge = Edge {
                    source: state.id(),
                    name: state.name(),
                    target: exits[j].target(),
                };
                let ghost prior = out@;
                out.push(edge);
                assert(edge_views(out@) =~= edge_views(prior).push(edge@));
                assert(state_edges(state@).take(j + 1) =~= state_edges(state@).take(j as int).push(
                    edge@,
                ));
                j += 1;
            }
            proof {
                let next = self@.take(i + 1);
                assert(next.drop_last() =~= self@.take(i as int));
            }
            i += 1;
        }
        proof {
            assert(self@.take(i as int) =~= self@);
            lemma_edges_len(self@);
        }
        out
    }
}

} // verus!
