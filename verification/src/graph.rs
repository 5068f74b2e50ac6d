//! The graph of states and guarded transitions, its builder and its queries.
use vstd::prelude::*;

verus! {

/// Handle of a state within one graph: the position at which the state was
/// added. It means nothing in another graph.
#[derive(Clone, Copy, Debug, Hash, Ord, PartialOrd, Eq, PartialEq, Structural)]
pub struct StateId(usize);

impl View for StateId {
    type V = nat;

    closed spec fn view(&self) -> nat {
        self.0 as nat
    }
}

impl StateId {
    /// The handle of the state at position `index`. The graph need not hold
    /// such a state yet: a transition may name a state that is added later.
    pub fn new(index: usize) -> (id: StateId)
        ensures
            id@ == index,
    {
        StateId(index)
    }

    /// The position this handle stands for.
    pub fn index(&self) -> (index: usize)
        ensures
            index == self@,
    {
        self.0
    }

    /// Two handles with the same position are the same handle.
    pub proof fn lemma_view_injective(a: StateId, b: StateId)
        ensures
            a@ == b@ <==> a == b,
    {
    }
}

/// A guard on a transition. The engine asks it whether the transition may be
/// taken, and knows nothing else about it. A condition should answer without
/// side effects, and must not count on how often or whether it is asked: a
/// step stops asking at the first condition that holds.
///
/// `evaluate` promises nothing about its answer, so a condition may look at
/// whatever it was made with. An implementation that does promise
/// something, with an `ensures` of its own, lets its callers prove which
/// transition a step takes.
pub trait Condition: Send + Sync {
    fn evaluate(&self) -> bool;
}

/// `answer` is an answer that `condition` can give when it is asked:
/// `evaluate` can return it.
pub open spec fn may_answer<C: Condition + ?Sized>(condition: &C, answer: bool) -> bool {
    call_ensures(C::evaluate, (condition,), answer)
}

/// A boxed condition is a condition, so a graph can mix guards of several
/// types behind `Box<dyn Condition>`. It answers what the condition in the
/// box answers.
impl<T: Condition + ?Sized> Condition for Box<T> {
    fn evaluate(&self) -> (answer: bool)
        ensures
            may_answer::<T>(&**self, answer),
    {
        (**self).evaluate()
    }
}

/// Why a graph refused an edit.
#[derive(Clone, Copy, Debug, PartialEq, Eq, Structural)]
pub enum GraphError {
    /// The source of the edit is not a state of this graph.
    InvalidState,
}

/// What a transition is, as a mathematical value.
pub struct TransitionView<C, A> {
    pub target: nat,
    pub condition: C,
    pub actions: Seq<A>,
}

/// A guarded edge to another state, with the actions to run when it is taken.
pub struct StateTransition<C, A> {
    target: StateId,
    actions: Vec<A>,
    condition: C,
}

impl<C, A> View for StateTransition<C, A> {
    type V = TransitionView<C, A>;

    closed spec fn view(&self) -> TransitionView<C, A> {
        TransitionView { target: self.target@, condition: self.condition, actions: self.actions@ }
    }
}

/// The views of a run of transitions, in order.
pub open spec fn transition_views<C, A>(transitions: Seq<StateTransition<C, A>>) -> Seq<
    TransitionView<C, A>,
> {
    Seq::new(transitions.len(), |i: int| transitions[i]@)
}

impl<C, A> StateTransition<C, A> {
    /// The state this transition leads to.
    pub fn target(&self) -> (target: StateId)
        ensures
            target@ == self@.target,
    {
        self.target
    }

    /// The guard of this transition.
    pub fn condition(&self) -> (condition: &C)
        ensures
            *condition == self@.condition,
    {
        &self.condition
    }

    /// The actions to run when this transition is taken, in order.
    pub fn actions(&self) -> (actions: &[A])
        ensures
            actions@ == self@.actions,
    {
        self.actions.as_slice()
    }
}

/// What a state is, as a mathematical value.
pub struct StateView<C, A> {
    pub id: nat,
    pub name: Seq<char>,
    pub entry_actions: Seq<A>,
    pub exits: Seq<TransitionView<C, A>>,
}

/// A named state, the actions to run on entering it, and its exits in the
/// order in which they are tried.
pub struct State<C, A> {
    id: StateId,
    name: String,
    entry_actions: Vec<A>,
    exits: Vec<StateTransition<C, A>>,
}

impl<C, A> View for State<C, A> {
    type V = StateView<C, A>;

    closed spec fn view(&self) -> StateView<C, A> {
        StateView {
            id: self.id@,
            name: self.name@,
            entry_actions: self.entry_actions@,
            exits: transition_views(self.exits@),
        }
    }
}

/// `state` with one more exit, tried after those it has.
pub open spec fn with_exit<C, A>(
    state: StateView<C, A>,
    target: nat,
    condition: C,
    actions: Seq<A>,
) -> StateView<C, A> {
    StateView {
        id: state.id,
        name: state.name,
        entry_actions: state.entry_actions,
        exits: state.exits.push(TransitionView { target, condition, actions }),
    }
}

impl<C, A> State<C, A> {
    /// The handle under which the graph holds this state.
    pub fn id(&self) -> (id: StateId)
        ensures
            id@ == self@.id,
    {
        self.id
    }

    /// The name given to this state when it was added.
    pub fn name(&self) -> (name: &str)
        ensures
            name@ == self@.name,
    {
        self.name.as_str()
    }

    /// The actions to run when this state is entered, in order.
    pub fn entry_actions(&self) -> (actions: &[A])
        ensures
            actions@ == self@.entry_actions,
    {
        self.entry_actions.as_slice()
    }

    /// The exits of this state, in the order in which they are tried.
    pub fn exits(&self) -> (exits: &[StateTransition<C, A>])
        ensures
            transition_views(exits@) == self@.exits,
    {
        self.exits.as_slice()
    }

    /// Appends an exit. It is tried after every exit the state already has.
    pub fn add_exit(&mut self, target: StateId, condition: C, actions: Vec<A>)
        ensures
            final(self)@ == with_exit(old(self)@, target@, condition, actions@),
    {
        self.exits.push(StateTransition { target, actions, condition });
        assert(transition_views(self.exits@) =~= transition_views(old(self).exits@).push(
            TransitionView { target: target@, condition, actions: actions@ },
        ));
    }
}

/// The definition of a state machine: its states, each with its exits. It is
/// built once and then only read, by any number of running instances.
pub struct StateGraph<C, A> {
    states: Vec<State<C, A>>,
}

/// The views of a run of states, in order.
pub open spec fn state_views<C, A>(states: Seq<State<C, A>>) -> Seq<StateView<C, A>> {
    Seq::new(states.len(), |i: int| states[i]@)
}

impl<C, A> View for StateGraph<C, A> {
    type V = Seq<StateView<C, A>>;

    closed spec fn view(&self) -> Seq<StateView<C, A>> {
        state_views(self.states@)
    }
}

/// Every state sits at the position that its id names.
pub open spec fn dense_ids<C, A>(states: Seq<StateView<C, A>>) -> bool {
    forall|i: int| 0 <= i < states.len() ==> (#[trigger] states[i]).id == i
}

/// A state without exits, as `add_state` makes it.
pub open spec fn fresh_state<C, A>(id: nat, name: Seq<char>, entry_actions: Seq<A>) -> StateView<
    C,
    A,
> {
    StateView { id, name, entry_actions, exits: Seq::empty() }
}

/// `states` with a fresh state appended under the next free id.
pub open spec fn with_state<C, A>(
    states: Seq<StateView<C, A>>,
    name: Seq<char>,
    entry_actions: Seq<A>,
) -> Seq<StateView<C, A>> {
    states.push(fresh_state(states.len(), name, entry_actions))
}

/// `states` with one more exit on the state at `from`, which must exist.
pub open spec fn with_transition<C, A>(
    states: Seq<StateView<C, A>>,
    from: nat,
    to: nat,
    condition: C,
    actions: Seq<A>,
) -> Seq<StateView<C, A>>
    recommends
        from < states.len(),
{
    states.update(from as int, with_exit(states[from as int], to, condition, actions))
}

/// The id that the next state added to `states` gets.
pub open spec fn next_id<C, A>(states: Seq<StateView<C, A>>) -> nat {
    states.len()
}

/// Ids count up from 0 in the order in which states are added: the graph
/// without states hands out 0; a state added gets the id that was next and
/// moves the next id up by one; a transition added changes no id. Dense ids
/// stay dense under both.
pub proof fn lemma_ids_count_up<C, A>(
    states: Seq<StateView<C, A>>,
    name: Seq<char>,
    entry_actions: Seq<A>,
    from: nat,
    to: nat,
    condition: C,
    actions: Seq<A>,
)
    ensures
        next_id(Seq::<StateView<C, A>>::empty()) == 0,
        with_state(states, name, entry_actions).last().id == next_id(states),
        next_id(with_state(states, name, entry_actions)) == next_id(states) + 1,
        from < states.len() ==> next_id(with_transition(states, from, to, condition, actions))
            == next_id(states),
        dense_ids(states) ==> dense_ids(with_state(states, name, entry_actions)),
        dense_ids(states) && from < states.len() ==> dense_ids(
            with_transition(states, from, to, condition, actions),
        ),
{
}

impl<C, A> StateGraph<C, A> {
    /// The graph's invariant: ids are dense and assigned in order of creation.
    /// `new` establishes it and the builder keeps it.
    pub open spec fn wf(&self) -> bool {
        dense_ids(self@)
    }

    /// A graph without states.
    pub fn new() -> (graph: Self)
        ensures
            graph@ == Seq::<StateView<C, A>>::empty(),
            graph.wf(),
    {
        let graph = StateGraph { states: Vec::new() };
        graph
    }

    /// The number of states.
    pub fn state_count(&self) -> (count: usize)
        ensures
            count == self@.len(),
    {
        self.states.len()
    }

    /// The states, in the order in which they were added.
    pub fn states(&self) -> (states: &[State<C, A>])
        ensures
            state_views(states@) == self@,
    {
        self.states.as_slice()
    }

    /// Appends a state without exits and returns its id: the number of
    /// states the graph held before.
    pub fn add_state(&mut self, name: &str, entry_actions: Vec<A>) -> (id: StateId)
        ensures
            id@ == old(self)@.len(),
            final(self)@ == with_state(old(self)@, name@, entry_actions@),
            old(self).wf() ==> final(self).wf(),
    {
        let id = StateId(self.states.len());
        let state = State { id, name: name.to_owned(), entry_actions, exits: Vec::new() };
        assert(state@ == fresh_state::<C, A>(id@, name@, entry_actions@)) by {
            assert(state@.exits =~= Seq::empty());
        }
        self.states.push(state);
        assert(self@ =~= with_state(old(self)@, name@, entry_actions@));
        id
    }

    /// The state with this id, or `None` where the graph has no such state.
    pub fn get_state(&self, id: StateId) -> (state: Option<&State<C, A>>)
        ensures
            id@ < self@.len() ==> state.is_some() && state.unwrap()@ == self@[id@ as int],
            id@ >= self@.len() ==> state.is_none(),
            self.wf() && state.is_some() ==> state.unwrap()@.id == id@,
    {
        if id.0 < self.states.len() {
            assert(self.wf() ==> self@[id@ as int].id == id@);
            Some(&self.states[id.0])
        } else {
            None
        }
    }

    /// The state with this id, for editing, or `None` where the graph has no
    /// such state. What the caller leaves in the state is what the graph
    /// holds afterwards.
    pub fn get_state_mut(&mut self, id: StateId) -> (state: Option<&mut State<C, A>>)
        ensures
            id@ < old(self)@.len() ==> state.is_some() && state.unwrap()@ == old(self)@[id@ as int]
                && final(self)@ == old(self)@.update(id@ as int, final(state.unwrap())@),
            id@ >= old(self)@.len() ==> state.is_none() && final(self)@ == old(self)@,
    {
        if id.0 < self.states.len() {
            let state = &mut self.states[id.0];
            Some(state)
        } else {
            None
        }
    }

    /// Appends a transition to the exits of `from`; it is tried after those
    /// added before it. `to` is not looked up: it may name a state that is
    /// added later.
    pub fn add_transition(
        &mut self,
        from: StateId,
        to: StateId,
        condition: C,
        actions: Vec<A>,
    ) -> (r: Result<(), GraphError>)
        ensures
            from@ < old(self)@.len() ==> r == Ok::<(), GraphError>(()) && final(self)@
                == with_transition(old(self)@, from@, to@, condition, actions@),
            from@ >= old(self)@.len() ==> r == Err::<(), GraphError>(GraphError::InvalidState)
                && final(self)@ == old(self)@,
            old(self).wf() ==> final(self).wf(),
    {
        match self.get_state_mut(from) {
            Some(state) => {
                state.add_exit(to, condition, actions);
                Ok(())
            },
            None => Err(GraphError::InvalidState),
        }
    }
}

impl<C, A> Default for StateGraph<C, A> {
    /// The graph without states.
    fn default() -> (graph: Self)
        ensures
            graph@ == Seq::<StateView<C, A>>::empty(),
            graph.wf(),
    {
        StateGraph::new()
    }
}

} // verus!
