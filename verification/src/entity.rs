//! Running instances of a graph.
//!
//! An instance is a cursor into a graph: the handle of the graph, which the
//! host resolves to a graph before each step, and the id of the state the
//! instance is in. Only a step changes it, and only where a transition is
//! taken.
use crate::graph::{Condition, StateGraph, StateId};
use crate::step::{advanced, asked, refused, stays, step_view, AdvanceError, Step, StepView};
use vstd::prelude::*;

verus! {

/// What an instance is, as a mathematical value.
pub struct EntityView<H> {
    pub state_graph_handle: H,
    pub current_state: nat,
}

/// One running instance: the handle of the graph it runs on and the state it
/// is in.
pub struct EntityState<H> {
    state_graph_handle: H,
    current_state: StateId,
}

impl<H> View for EntityState<H> {
    type V = EntityView<H>;

    closed spec fn view(&self) -> EntityView<H> {
        EntityView {
            state_graph_handle: self.state_graph_handle,
            current_state: self.current_state@,
        }
    }
}

/// The instance after a step: at the new state where the step names one,
/// else where it was.
pub open spec fn moved<H, A>(entity: EntityView<H>, step: StepView<A>) -> EntityView<H> {
    match step {
        Ok((Some(next), _)) => EntityView {
            state_graph_handle: entity.state_graph_handle,
            current_state: next,
        },
        _ => entity,
    }
}

impl<H> EntityState<H> {
    /// An instance on the graph behind `state_graph_handle`, in state
    /// `initial`.
    pub fn new(state_graph_handle: H, initial: StateId) -> (entity: Self)
        ensures
            entity@ == (EntityView { state_graph_handle, current_state: initial@ }),
    {
        EntityState { state_graph_handle, current_state: initial }
    }

    /// The handle of the graph this instance runs on.
    pub fn state_graph_handle(&self) -> (handle: &H)
        ensures
            *handle == self@.state_graph_handle,
    {
        &self.state_graph_handle
    }

    /// The state this instance is in.
    pub fn current_state(&self) -> (current: StateId)
        ensures
            current@ == self@.current_state,
    {
        self.current_state
    }

    /// Records the step in the instance.
    fn settle<'g, A>(&mut self, step: &Step<'g, A>)
        ensures
            final(self)@ == moved(old(self)@, step_view(*step)),
    {
        match step {
            Ok((Some(next), _)) => {
                self.current_state = *next;
            },
            _ => {},
        }
    }

    /// Makes the step that `graph` gives for `outcomes` and moves the
    /// instance to the new state, if there is one. On an error the instance
    /// stays where it was.
    pub fn advance_with<'g, C, A>(
        &mut self,
        graph: &'g StateGraph<C, A>,
        outcomes: &[bool],
    ) -> (step: Step<'g, A>)
        ensures
            step_view(step) == advanced(graph@, old(self)@.current_state, outcomes@),
            final(self)@ == moved(old(self)@, step_view(step)),
    {
        let step = graph.advance_with(self.current_state, outcomes);
        self.settle(&step);
        step
    }

    /// Makes one step on `graph`: asks the conditions of the current state's
    /// exits in order, takes the first that holds and moves the instance to
    /// its target. With no exit to take the instance stays; on an error it
    /// stays too.
    pub fn advance<'g, C: Condition, A>(&mut self, graph: &'g StateGraph<C, A>) -> (step: Step<
        'g,
        A,
    >)
        ensures
            old(self)@.current_state < graph@.len() ==> exists|outcomes: Seq<bool>|
                #[trigger] asked(graph@[old(self)@.current_state as int].exits, outcomes)
                    && step_view(step) == advanced(graph@, old(self)@.current_state, outcomes),
            old(self)@.current_state >= graph@.len() ==> step_view(step) == refused::<A>(
                AdvanceError::UnknownState,
            ),
            old(self)@.current_state < graph@.len() && graph@[old(
                self,
            )@.current_state as int].exits.len() == 0 ==> step_view(step) == stays::<A>(),
            final(self)@ == moved(old(self)@, step_view(step)),
    {
        let step = graph.advance(self.current_state);
        self.settle(&step);
        step
    }
}

} // verus!
