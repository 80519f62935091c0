//! Finite automata that map controller button events to outputs.
//!
//! An [`AutomataBuilder`] collects states, inputs (a button pressed or
//! released) and outputs, and the transitions between states.  An
//! [`Automata`] is compiled from a builder: its states are numbered from 0 in
//! the order in which the builder's state table is walked, the state numbered 0
//! is active, and each button event moves it along the builder's transitions.
use vstd::prelude::*;

use crate::tables::{
    lists_inputs, lists_transitions, ButtonTable, IdTable, InputTable, StateTable, TransitionTable,
};

pub mod dsl;

verus! {

/// Identifies a state of an automaton under construction.
#[derive(Debug, Default, Clone, Copy, PartialEq, Eq, Structural, PartialOrd, Ord, Hash)]
pub struct StateId(pub usize);

/// Identifies an output of an automaton.
#[derive(Debug, Default, Clone, Copy, PartialEq, Eq, Structural, PartialOrd, Ord, Hash)]
pub struct OutputId(pub usize);

/// Identifies an input of an automaton.
#[derive(Debug, Default, Clone, Copy, PartialEq, Eq, Structural, PartialOrd, Ord, Hash)]
pub struct InputId(pub usize);

/// A controller button, by its code.
#[derive(Debug, Default, Clone, Copy, PartialEq, Eq, Structural, PartialOrd, Ord, Hash)]
pub struct Button(pub i32);

/// What an automaton does when an output is reached: `F` is the callback type
/// that the program chooses (a boxed closure, for instance).
pub enum Output<F> {
    Callback(F),
}

/// A transition: the state it leads to, and the output it reports, if any.
#[derive(Debug, Default, Clone, Copy, PartialEq, Eq, Structural)]
pub struct TransitionDef {
    pub tgt: StateId,
    pub output: Option<OutputId>,
}

/// A state of an automaton under construction.  Its transitions are kept by
/// the builder that made it.
#[derive(Debug, Clone, Copy, PartialEq, Eq, Structural)]
pub struct StateDef {
    pub id: StateId,
}

/// An output of an automaton under construction.
#[derive(Debug, Clone, Copy, PartialEq, Eq, Structural)]
pub struct OutputDef {
    pub id: OutputId,
}

/// An input: a button, pressed (`down`) or released.
#[derive(Debug, Clone, Copy, PartialEq, Eq, Structural)]
pub struct InputDef {
    pub id: InputId,
    pub button: Button,
    pub down: bool,
}

/// A state of a compiled automaton: where each input leads (by state index)
/// and what it reports.
pub struct State {
    transitions: TransitionTable,
}

/// The plain value of an optional output.
pub open spec fn output_number(o: Option<OutputId>) -> Option<usize> {
    match o {
        Some(x) => Some(x.0),
        None => None,
    }
}

/// The optional output of a plain value.
pub open spec fn output_of(o: Option<usize>) -> Option<OutputId> {
    match o {
        Some(x) => Some(OutputId(x)),
        None => None,
    }
}

/// The transitions of a state: input -> (target, output).
pub type Transitions = Map<usize, (usize, Option<usize>)>;

/// True when the keys of `m` are exactly the numbers below its size.
pub open spec fn dense<V>(m: Map<usize, V>) -> bool {
    &&& m.dom().finite()
    &&& forall|k: usize| #[trigger] m.contains_key(k) <==> (k as int) < m.len()
}

/// Adding the next number to a dense table keeps it dense, and one larger.
proof fn lemma_dense_insert<V>(m: Map<usize, V>, n: usize, v: V)
    requires
        dense(m),
        n == m.len(),
    ensures
        dense(m.insert(n, v)),
        m.insert(n, v).len() == m.len() + 1,
{
    assert(!m.contains_key(n));
    assert(m.insert(n, v).dom() == m.dom().insert(n));
}

/// The contents of an [`AutomataBuilder`].
pub struct BuilderView {
    /// Each state, with its transitions: input -> (target state, output).
    pub states: Map<usize, Transitions>,
    /// Each input, with its button code and whether it is the press.
    pub inputs: Map<usize, (i32, bool)>,
    /// Each output (by its number).
    pub outputs: Map<usize, usize>,
}

impl BuilderView {
    /// States, inputs and outputs are numbered from 0 without gaps.
    pub open spec fn wf(self) -> bool {
        &&& dense(self.states)
        &&& dense(self.inputs)
        &&& dense(self.outputs)
    }

    /// Every transition leads to a state of the builder.
    pub open spec fn targets_known(self) -> bool {
        forall|s: usize, x: usize|
            #![trigger self.states[s][x]]
            self.states.contains_key(s) && self.states[s].contains_key(x) ==> self.states.contains_key(
                self.states[s][x].0,
            )
    }
}

/// True when `order` lists the states of `states`, each exactly once.
pub open spec fn is_state_order(order: Seq<StateId>, states: Map<usize, Transitions>) -> bool {
    &&& order.len() <= usize::MAX
    &&& forall|i: int, j: int| 0 <= i < j < order.len() ==> order[i].0 != order[j].0
    &&& forall|i: int| 0 <= i < order.len() ==> #[trigger] states.contains_key(order[i].0)
    &&& forall|k: usize|
        states.contains_key(k) ==> exists|i: int| 0 <= i < order.len() && #[trigger] order[i].0 == k
}

/// Where state `id` stands in `order`.
pub open spec fn position(order: Seq<StateId>, id: usize) -> int {
    choose|i: int| 0 <= i < order.len() && order[i].0 == id
}

/// The transition `d` with its target replaced by its position in `order`.
pub open spec fn relabel_one(order: Seq<StateId>, d: (usize, Option<usize>)) -> (usize, Option<usize>) {
    (position(order, d.0) as usize, d.1)
}

/// The transitions `t` with each target replaced by its position in `order`.
pub open spec fn relabel(t: Transitions, order: Seq<StateId>) -> Transitions {
    t.map_values(|v: (usize, Option<usize>)| relabel_one(order, v))
}

/// The states of the automaton compiled from `b` when its states are walked in
/// `order`: state `i` has the transitions of builder state `order[i]`.
pub open spec fn compiled_states(b: BuilderView, order: Seq<StateId>) -> Seq<Transitions> {
    Seq::new(order.len(), |i: int| relabel(b.states[order[i].0], order))
}

/// The button table built by registering `defs` in turn: a later input for the
/// same button and direction replaces an earlier one.
pub open spec fn button_map(defs: Seq<InputDef>) -> Map<(i32, bool), usize>
    decreases defs.len(),
{
    if defs.len() == 0 {
        Map::empty()
    } else {
        button_map(defs.drop_last()).insert(
            (defs.last().button.0, defs.last().down),
            defs.last().id.0,
        )
    }
}

/// The contents of an [`Automata`].
pub struct AutomataView {
    /// The index of the active state.
    pub active: usize,
    /// Each state (by index), with its transitions: input -> (target index, output).
    pub states: Seq<Transitions>,
    /// The input of each button event.
    pub inputs: Map<(i32, bool), usize>,
}

/// The automaton compiled from `b`, its states walked in `order` and its
/// inputs in `defs`.
pub open spec fn compiled(b: BuilderView, order: Seq<StateId>, defs: Seq<InputDef>) -> AutomataView {
    AutomataView { active: 0, states: compiled_states(b, order), inputs: button_map(defs) }
}

/// True when `a` is the automaton compiled from `b` for some order of its
/// states that starts with its first state (`StateId(0)`), and some order of
/// its inputs.
pub open spec fn compiles_to(b: BuilderView, a: AutomataView) -> bool {
    exists|order: Seq<StateId>, defs: Seq<InputDef>|
        #![trigger compiled(b, order, defs)]
        is_state_order(order, b.states) && (b.states.contains_key(0) ==> order[0].0 == 0)
            && lists_inputs(defs, b.inputs) && a == compiled(b, order, defs)
}

/// The transition that the event `(button, down)` takes in `a`, if any.
pub open spec fn next(a: AutomataView, button: i32, down: bool) -> Option<(usize, Option<usize>)> {
    if a.inputs.contains_key((button, down)) && a.active < a.states.len() && a.states[a.active as int].contains_key(
        a.inputs[(button, down)],
    ) {
        Some(a.states[a.active as int][a.inputs[(button, down)]])
    } else {
        None
    }
}

/// `a` after the event `(button, down)`.
pub open spec fn after_step(a: AutomataView, button: i32, down: bool) -> AutomataView {
    match next(a, button, down) {
        Some(t) => AutomataView { active: t.0, ..a },
        None => a,
    }
}

/// What the event `(button, down)` reports in `a`.
pub open spec fn step_output(a: AutomataView, button: i32, down: bool) -> Option<usize> {
    match next(a, button, down) {
        Some(t) => t.1,
        None => None,
    }
}

impl View for State {
    type V = Transitions;

    closed spec fn view(&self) -> Transitions {
        self.transitions@
    }
}

/// An automaton under construction.
pub struct AutomataBuilder {
    states: StateTable,
    inputs: InputTable,
    outputs: IdTable,
}

impl View for AutomataBuilder {
    type V = BuilderView;

    closed spec fn view(&self) -> BuilderView {
        BuilderView { states: self.states@, inputs: self.inputs@, outputs: self.outputs@ }
    }
}

/// A compiled automaton: its states, the active one, and the input of each
/// button event.
pub struct Automata {
    active: usize,
    states: Vec<State>,
    inputs: ButtonTable,
}

impl View for Automata {
    type V = AutomataView;

    closed spec fn view(&self) -> AutomataView {
        AutomataView {
            active: self.active,
            states: self.states@.map_values(|s: State| s@),
            inputs: self.inputs@,
        }
    }
}

impl Default for AutomataBuilder {
    /// A builder with no states, inputs or outputs.
    fn default() -> (b: Self)
        ensures
            b@.wf(),
            b@.states.is_empty(),
            b@.inputs.is_empty(),
            b@.outputs.is_empty(),
    {
        let b = AutomataBuilder { states: StateTable::new(), inputs: InputTable::new(), outputs: IdTable::new() };
        proof {
            assert(b@.states.dom() =~= Set::empty());
            assert(b@.inputs.dom() =~= Set::empty());
            assert(b@.outputs.dom() =~= Set::empty());
        }
        b
    }
}

impl StateDef {
    /// Adds to `builder` the transition from this state on `input` to `tgt`,
    /// reporting `output`; it replaces any transition of this state on `input`.
    pub fn transition(&self, builder: &mut AutomataBuilder, input: InputId, tgt: StateId, output: OutputId)
        requires
            old(builder)@.wf(),
            old(builder)@.states.contains_key(self.id.0),
        ensures
            final(builder)@.wf(),
            final(builder)@.states == old(builder)@.states.insert(
                self.id.0,
                old(builder)@.states[self.id.0].insert(input.0, (tgt.0, Some(output.0))),
            ),
            final(builder)@.inputs == old(builder)@.inputs,
            final(builder)@.outputs == old(builder)@.outputs,
    {
        builder.states.set_transition(self.id.0, input.0, tgt.0, Some(output.0));
        proof {
            assert(builder@.states.dom() =~= old(builder)@.states.dom());
        }
    }

    /// Adds to `builder` the transition from this state on `input` to `tgt`,
    /// reporting nothing; it replaces any transition of this state on `input`.
    pub fn silent(&self, builder: &mut AutomataBuilder, input: InputId, tgt: StateId)
        requires
            old(builder)@.wf(),
            old(builder)@.states.contains_key(self.id.0),
        ensures
            final(builder)@.wf(),
            final(builder)@.states == old(builder)@.states.insert(
                self.id.0,
                old(builder)@.states[self.id.0].insert(input.0, (tgt.0, None)),
            ),
            final(builder)@.inputs == old(builder)@.inputs,
            final(builder)@.outputs == old(builder)@.outputs,
    {
        builder.states.set_transition(self.id.0, input.0, tgt.0, None);
        proof {
            assert(builder@.states.dom() =~= old(builder)@.states.dom());
        }
    }
}

impl AutomataBuilder {
    /// Adds a state with no transitions; its id is the number of states before.
    pub fn new_state(&mut self) -> (def: StateDef)
        requires
            old(self)@.wf(),
        ensures
            final(self)@.wf(),
            def.id.0 == old(self)@.states.len(),
            !old(self)@.states.contains_key(def.id.0),
            final(self)@.states == old(self)@.states.insert(def.id.0, Map::empty()),
            final(self)@.inputs == old(self)@.inputs,
            final(self)@.outputs == old(self)@.outputs,
    {
        let id = self.states.len();
        self.states.add_state(id);
        proof {
            lemma_dense_insert(old(self)@.states, id, Map::empty());
        }
        StateDef { id: StateId(id) }
    }

    /// Adds the two inputs of `button`: first its press, then its release.
    /// Their ids are the number of inputs before, and the next number.
    pub fn new_input(&mut self, button: Button) -> (ids: (InputId, InputId))
        requires
            old(self)@.wf(),
        ensures
            final(self)@.wf(),
            ids.0.0 == old(self)@.inputs.len(),
            ids.1.0 == old(self)@.inputs.len() + 1,
            final(self)@.inputs == old(self)@.inputs.insert(ids.0.0, (button.0, true)).insert(
                ids.1.0,
                (button.0, false),
            ),
            final(self)@.states == old(self)@.states,
            final(self)@.outputs == old(self)@.outputs,
    {
        let id_down = self.inputs.len();
        self.inputs.insert(id_down, button.0, true);
        proof {
            lemma_dense_insert(old(self)@.inputs, id_down, (button.0, true));
        }
        let ghost mid = self.inputs@;
        let id_up = self.inputs.len();
        self.inputs.insert(id_up, button.0, false);
        proof {
            lemma_dense_insert(mid, id_up, (button.0, false));
        }
        (InputId(id_down), InputId(id_up))
    }

    /// Adds an output; its id is the number of outputs before.
    pub fn new_output(&mut self) -> (def: OutputDef)
        requires
            old(self)@.wf(),
        ensures
            final(self)@.wf(),
            def.id.0 == old(self)@.outputs.len(),
            !old(self)@.outputs.contains_key(def.id.0),
            final(self)@.outputs == old(self)@.outputs.insert(def.id.0, def.id.0),
            final(self)@.states == old(self)@.states,
            final(self)@.inputs == old(self)@.inputs,
    {
        let id = self.outputs.len();
        self.outputs.insert(id, id);
        proof {
            lemma_dense_insert(old(self)@.outputs, id, id);
        }
        OutputDef { id: OutputId(id) }
    }

    /// Whether every transition leads to a state of this builder, which
    /// [`Automata::from_builder`] needs.
    pub fn targets_defined(&self) -> (r: bool)
        requires
            self@.wf(),
        ensures
            r == self@.targets_known(),
    {
        let n = self.states.len();
        let ids = self.states.state_ids();
        let mut i: usize = 0;
        while i < ids.len()
            invariant
                self@.wf(),
                n == self@.states.len(),
                is_state_order(ids@, self@.states),
                0 <= i <= ids.len(),
                forall|k: int, x: usize|
                    #![trigger self@.states[ids@[k].0][x]]
                    0 <= k < i && self@.states[ids@[k].0].contains_key(x) ==> self@.states.contains_key(
                        self@.states[ids@[k].0][x].0,
                    ),
            decreases ids.len() - i,
        {
            let s = ids[i].0;
            assert(self@.states.contains_key(ids@[i as int].0));
            let ts = self.states.transitions_of(s);
            let mut j: usize = 0;
            while j < ts.len()
                invariant
                    self@.wf(),
                    n == self@.states.len(),
                    self@.states.contains_key(s),
                    lists_transitions(ts@, self@.states[s]),
                    0 <= j <= ts.len(),
                    forall|m: int|
                        0 <= m < j ==> self@.states.contains_key(#[trigger] ts@[m].1.tgt.0),
                decreases ts.len() - j,
            {
                if ts[j].1.tgt.0 >= n {
                    proof {
                        let x = ts@[j as int].0.0;
                        assert(self@.states[s].contains_key(x));
                        assert(!self@.states.contains_key(self@.states[s][x].0));
                    }
                    return false;
                }
                assert(self@.states.contains_key(ts@[j as int].1.tgt.0));
                j = j + 1;
            }
            proof {
                assert forall|x: usize| #[trigger]
                    self@.states[s].contains_key(x) implies self@.states.contains_key(
                    self@.states[s][x].0,
                ) by {
                    let m = choose|m: int| 0 <= m < ts@.len() && #[trigger] ts@[m].0.0 == x;
                    assert(self@.states.contains_key(ts@[m].1.tgt.0));
                }
            }
            i = i + 1;
        }
        proof {
            assert forall|s: usize, x: usize|
                #![trigger self@.states[s][x]]
                self@.states.contains_key(s) && self@.states[s].contains_key(x) implies self@.states.contains_key(
                self@.states[s][x].0,
            ) by {
                let k = choose|k: int| 0 <= k < ids@.len() && #[trigger] ids@[k].0 == s;
                assert(self@.states[ids@[k].0].contains_key(x));
            }
        }
        true
    }
}

/// In an order without repeats, the state at position `k` stands at position `k`.
proof fn lemma_position(order: Seq<StateId>, k: int)
    requires
        forall|i: int, j: int| 0 <= i < j < order.len() ==> order[i].0 != order[j].0,
        0 <= k < order.len(),
    ensures
        position(order, order[k].0) == k,
{
    let p = position(order, order[k].0);
    assert(0 <= p < order.len() && order[p].0 == order[k].0);
}

/// Every input registered in `defs` has an entry in `button_map(defs)`.
proof fn lemma_button_map_has(defs: Seq<InputDef>, i: int)
    requires
        0 <= i < defs.len(),
    ensures
        button_map(defs).contains_key((defs[i].button.0, defs[i].down)),
    decreases defs.len(),
{
    if i < defs.len() - 1 {
        lemma_button_map_has(defs.drop_last(), i);
    }
}

/// Each entry of `button_map(defs)` is the id of an input registered in
/// `defs` for that button and direction.
proof fn lemma_button_map_from(defs: Seq<InputDef>, key: (i32, bool))
    requires
        button_map(defs).contains_key(key),
    ensures
        exists|i: int|
            0 <= i < defs.len() && #[trigger] defs[i].id.0 == button_map(defs)[key] && (
                defs[i].button.0,
                defs[i].down,
            ) == key,
    decreases defs.len(),
{
    let n = defs.len() - 1;
    if (defs[n].button.0, defs[n].down) == key {
        assert(defs[n].id.0 == button_map(defs)[key]);
    } else {
        lemma_button_map_from(defs.drop_last(), key);
        let i = choose|i: int|
            0 <= i < defs.drop_last().len() && #[trigger] defs.drop_last()[i].id.0 == button_map(
                defs.drop_last(),
            )[key] && (defs.drop_last()[i].button.0, defs.drop_last()[i].down) == key;
        assert(defs[i].id.0 == button_map(defs)[key]);
    }
}

/// The compiled button table holds the builder's inputs: a button event has
/// an entry exactly when some input of the builder is that event, and the
/// entry is such an input.
pub proof fn law_compiled_inputs(b: BuilderView, defs: Seq<InputDef>, key: (i32, bool))
    requires
        lists_inputs(defs, b.inputs),
    ensures
        button_map(defs).contains_key(key) <==> exists|x: usize|
            #[trigger] b.inputs.contains_key(x) && b.inputs[x] == key,
        button_map(defs).contains_key(key) ==> b.inputs.contains_key(button_map(defs)[key])
            && b.inputs[button_map(defs)[key]] == key,
{
    if button_map(defs).contains_key(key) {
        lemma_button_map_from(defs, key);
        let i = choose|i: int|
            0 <= i < defs.len() && #[trigger] defs[i].id.0 == button_map(defs)[key] && (
                defs[i].button.0,
                defs[i].down,
            ) == key;
        assert(b.inputs.contains_key(defs[i].id.0));
    }
    if exists|x: usize| #[trigger] b.inputs.contains_key(x) && b.inputs[x] == key {
        let x = choose|x: usize| #[trigger] b.inputs.contains_key(x) && b.inputs[x] == key;
        let i = choose|i: int| 0 <= i < defs.len() && #[trigger] defs[i].id.0 == x;
        assert(b.inputs.contains_key(defs[i].id.0));
        lemma_button_map_has(defs, i);
    }
}

/// When no other input of the builder is the same button event as input `x`,
/// the compiled button table sends that event to `x`.
pub proof fn law_compiled_input_unique(b: BuilderView, defs: Seq<InputDef>, x: usize)
    requires
        lists_inputs(defs, b.inputs),
        b.inputs.contains_key(x),
        forall|y: usize| #[trigger] b.inputs.contains_key(y) && b.inputs[y] == b.inputs[x] ==> y == x,
    ensures
        button_map(defs).contains_key(b.inputs[x]),
        button_map(defs)[b.inputs[x]] == x,
{
    law_compiled_inputs(b, defs, b.inputs[x]);
    assert(b.inputs.contains_key(x) && b.inputs[x] == b.inputs[x]);
}

/// A compiled state has the transitions of the builder state it stands for:
/// the same inputs, each leading to the state that stands for the builder's
/// target, with the builder's output.
pub proof fn law_compiled_transitions(b: BuilderView, order: Seq<StateId>, i: int, x: usize)
    requires
        b.targets_known(),
        is_state_order(order, b.states),
        0 <= i < order.len(),
    ensures
        compiled_states(b, order)[i].contains_key(x) == b.states[order[i].0].contains_key(x),
        b.states[order[i].0].contains_key(x) ==> ({
            let t = compiled_states(b, order)[i][x];
            &&& t.0 < order.len()
            &&& order[t.0 as int].0 == b.states[order[i].0][x].0
            &&& t.1 == b.states[order[i].0][x].1
        }),
{
    let s = order[i].0;
    assert(b.states.contains_key(order[i].0));
    if b.states[s].contains_key(x) {
        let tgt = b.states[s][x].0;
        assert(b.states.contains_key(tgt));
        let k = choose|k: int| 0 <= k < order.len() && #[trigger] order[k].0 == tgt;
        lemma_position(order, k);
    }
}

/// Stepping a compiled automaton follows the builder.  When the active state
/// stands for builder state `s`, the event takes a transition exactly when it
/// is registered for an input on which `s` has a transition; then the state
/// that stands for the builder's target becomes active and the builder's
/// output is reported.
pub proof fn law_step_follows_builder(
    b: BuilderView,
    order: Seq<StateId>,
    defs: Seq<InputDef>,
    a: AutomataView,
    button: i32,
    down: bool,
)
    requires
        b.targets_known(),
        is_state_order(order, b.states),
        lists_inputs(defs, b.inputs),
        a.states == compiled_states(b, order),
        a.inputs == button_map(defs),
        a.active < order.len(),
    ensures
        next(a, button, down) is Some <==> ({
            let s = order[a.active as int].0;
            &&& button_map(defs).contains_key((button, down))
            &&& b.states[s].contains_key(button_map(defs)[(button, down)])
        }),
        next(a, button, down) is Some ==> ({
            let s = order[a.active as int].0;
            let t = b.states[s][button_map(defs)[(button, down)]];
            &&& after_step(a, button, down).active < order.len()
            &&& order[after_step(a, button, down).active as int].0 == t.0
            &&& step_output(a, button, down) == t.1
        }),
{
    if button_map(defs).contains_key((button, down)) {
        law_compiled_transitions(b, order, a.active as int, button_map(defs)[(button, down)]);
    }
}

/// A step that takes no transition changes nothing and reports nothing: when
/// the event is not a registered input, or the active state has no transition
/// on its input, the automaton is left exactly as it was.
pub proof fn law_step_without_transition_changes_nothing(a: AutomataView, button: i32, down: bool)
    requires
        !(a.inputs.contains_key((button, down)) && a.active < a.states.len() && a.states[a.active as int].contains_key(
            a.inputs[(button, down)],
        )),
    ensures
        after_step(a, button, down) == a,
        step_output(a, button, down) is None,
{
}

/// A step that takes a transition makes its target active, reports its
/// output, and keeps the states and the button table as they were.
pub proof fn law_step_with_transition(a: AutomataView, button: i32, down: bool)
    requires
        a.inputs.contains_key((button, down)),
        a.active < a.states.len(),
        a.states[a.active as int].contains_key(a.inputs[(button, down)]),
    ensures
        after_step(a, button, down).active == a.states[a.active as int][a.inputs[(button, down)]].0,
        after_step(a, button, down).states == a.states,
        after_step(a, button, down).inputs == a.inputs,
        step_output(a, button, down) == a.states[a.active as int][a.inputs[(button, down)]].1,
{
}

/// A compiled automaton starts in the state that stands for the first state
/// of the order: that state is active, and it has the inputs and outputs of
/// the builder's state `order[0]`.
pub proof fn law_assemble_starts_in_first_state(b: BuilderView, order: Seq<StateId>, defs: Seq<InputDef>, x: usize)
    requires
        b.targets_known(),
        is_state_order(order, b.states),
        order.len() > 0,
    ensures
        compiled(b, order, defs).active == 0,
        compiled(b, order, defs).states.len() == order.len(),
        compiled(b, order, defs).states[compiled(b, order, defs).active as int].contains_key(x)
            == b.states[order[0].0].contains_key(x),
        b.states[order[0].0].contains_key(x) ==> compiled(b, order, defs).states[compiled(
            b,
            order,
            defs,
        ).active as int][x].1 == b.states[order[0].0][x].1,
{
    law_compiled_transitions(b, order, 0, x);
}

/// The automaton compiled from a builder with at least one state starts in
/// the builder's first state (`StateId(0)`): the active state has exactly the
/// inputs of that state, with the same outputs.
pub proof fn law_from_builder_starts_in_first_state(b: BuilderView, a: AutomataView, x: usize)
    requires
        b.wf(),
        b.targets_known(),
        b.states.len() > 0,
        compiles_to(b, a),
    ensures
        a.active < a.states.len(),
        a.states[a.active as int].contains_key(x) == b.states[0].contains_key(x),
        b.states[0].contains_key(x) ==> a.states[a.active as int][x].1 == b.states[0][x].1,
{
    assert(b.states.contains_key(0));
    let (order, defs) = choose|order: Seq<StateId>, defs: Seq<InputDef>|
        #![trigger compiled(b, order, defs)]
        is_state_order(order, b.states) && (b.states.contains_key(0) ==> order[0].0 == 0)
            && lists_inputs(defs, b.inputs) && a == compiled(b, order, defs);
    let k = choose|k: int| 0 <= k < order.len() && #[trigger] order[k].0 == 0usize;
    law_assemble_starts_in_first_state(b, order, defs, x);
}

/// Whether every transition leads to a state depends only on where the
/// transitions lead: two builders with the same states, the same inputs in
/// each state and the same targets agree on it, whatever outputs their
/// transitions report and whatever outputs they have made.
pub proof fn law_targets_known_ignores_outputs(b: BuilderView, c: BuilderView)
    requires
        b.states.dom() == c.states.dom(),
        forall|s: usize| #[trigger] b.states.contains_key(s) ==> b.states[s].dom() == c.states[s].dom(),
        forall|s: usize, x: usize|
            #![trigger b.states[s][x]]
            b.states.contains_key(s) && b.states[s].contains_key(x) ==> b.states[s][x].0 == c.states[s][x].0,
    ensures
        b.targets_known() == c.targets_known(),
{
    if b.targets_known() {
        assert forall|s: usize, x: usize|
            #![trigger c.states[s][x]]
            c.states.contains_key(s) && c.states[s].contains_key(x) implies c.states.contains_key(c.states[s][x].0) by {
            assert(b.states.contains_key(s));
            assert(b.states[s].contains_key(x));
            assert(b.states.contains_key(b.states[s][x].0));
        }
    }
    if c.targets_known() {
        assert forall|s: usize, x: usize|
            #![trigger b.states[s][x]]
            b.states.contains_key(s) && b.states[s].contains_key(x) implies b.states.contains_key(b.states[s][x].0) by {
            assert(c.states.contains_key(s));
            assert(c.states[s].contains_key(x));
            assert(c.states.contains_key(c.states[s][x].0));
        }
    }
}

/// A transition from a state of the builder to a state of the builder keeps
/// every transition leading to a state, whatever it reports.
pub proof fn law_transition_keeps_targets_known(b: BuilderView, s: usize, x: usize, t: usize, o: Option<usize>)
    requires
        b.targets_known(),
        b.states.contains_key(s),
        b.states.contains_key(t),
    ensures
        (BuilderView { states: b.states.insert(s, b.states[s].insert(x, (t, o))), ..b }).targets_known(),
{
    let c = BuilderView { states: b.states.insert(s, b.states[s].insert(x, (t, o))), ..b };
    assert forall|s2: usize, x2: usize|
        #![trigger c.states[s2][x2]]
        c.states.contains_key(s2) && c.states[s2].contains_key(x2) implies c.states.contains_key(c.states[s2][x2].0) by {
        if s2 != s || x2 != x {
            assert(b.states.contains_key(s2));
            assert(b.states[s2].contains_key(x2));
            assert(b.states.contains_key(b.states[s2][x2].0));
        }
    }
}

impl Automata {
    /// The input of the event `(input, down)`, if one was defined.
    pub fn map_input(&self, input: Button, down: bool) -> (r: Option<InputId>)
        ensures
            r == (match self@.inputs.get((input.0, down)) {
                Some(x) => Some(InputId(x)),
                None => None,
            }),
    {
        match self.inputs.get(input.0, down) {
            Some(x) => Some(InputId(x)),
            None => None,
        }
    }

    /// Feeds the event `(input, down)` to the automaton.  When the event is an
    /// input and the active state has a transition on it, the transition's
    /// target becomes active and its output (if any) is returned; otherwise
    /// nothing changes and nothing is returned.
    pub fn step(&mut self, input: Button, down: bool) -> (r: Option<OutputId>)
        ensures
            final(self)@ == after_step(old(self)@, input.0, down),
            r == output_of(step_output(old(self)@, input.0, down)),
    {
        let ghost a = self@;
        let x = match self.inputs.get(input.0, down) {
            Some(x) => x,
            None => return None,
        };
        if self.active >= self.states.len() {
            return None;
        }
        let t = self.states[self.active].transitions.get(x);
        proof {
            assert(a.states[a.active as int] == self.states@[self.active as int]@);
        }
        match t {
            Some(t) => {
                self.active = t.0;
                proof {
                    assert(self@.states =~= a.states);
                    assert(self@ == after_step(a, input.0, down));
                }
                match t.1 {
                    Some(o) => Some(OutputId(o)),
                    None => None,
                }
            },
            None => None,
        }
    }

    /// Compiles `builder`, its states walked in `state_order` and its inputs in
    /// `input_defs`: state `i` of the result stands for builder state
    /// `state_order[i]`, each target is replaced by its position, state 0 is
    /// active, and each input's button event is registered in turn.
    pub fn assemble(builder: &AutomataBuilder, state_order: &Vec<StateId>, input_defs: &Vec<InputDef>) -> (a: Automata)
        requires
            builder@.wf(),
            builder@.targets_known(),
            is_state_order(state_order@, builder@.states),
            lists_inputs(input_defs@, builder@.inputs),
        ensures
            a@ == compiled(builder@, state_order@, input_defs@),
    {
        let ghost b = builder@;
        let ghost order = state_order@;
        // The button table.
        let mut inputs = ButtonTable::new();
        proof {
            assert(inputs@ =~= button_map(input_defs@.take(0)));
        }
        let mut j: usize = 0;
        while j < input_defs.len()
            invariant
                0 <= j <= input_defs.len(),
                inputs@ == button_map(input_defs@.take(j as int)),
            decreases input_defs.len() - j,
        {
            let d = input_defs[j];
            inputs.insert(d.button.0, d.down, d.id.0);
            proof {
                assert(input_defs@.take(j + 1).drop_last() =~= input_defs@.take(j as int));
            }
            j = j + 1;
        }
        proof {
            assert(input_defs@.take(input_defs@.len() as int) =~= input_defs@);
        }
        // The index of each state.
        let mut index = IdTable::new();
        let mut i: usize = 0;
        while i < state_order.len()
            invariant
                order == state_order@,
                is_state_order(order, b.states),
                0 <= i <= state_order.len(),
                forall|k: int|
                    0 <= k < i ==> #[trigger] index@.get(order[k].0) == Some(k as usize),
            decreases state_order.len() - i,
        {
            let ghost before = index@;
            index.insert(state_order[i].0, i);
            proof {
                assert forall|k: int| 0 <= k < i + 1 implies #[trigger] index@.get(order[k].0) == Some(
                    k as usize,
                ) by {
                    if k < i {
                        assert(order[k].0 != order[i as int].0);
                        assert(before.get(order[k].0) == Some(k as usize));
                    }
                }
            }
            i = i + 1;
        }
        // The states, in order.
        let mut states: Vec<State> = Vec::new();
        let mut i: usize = 0;
        while i < state_order.len()
            invariant
                b == builder@,
                b.wf(),
                b.targets_known(),
                order == state_order@,
                is_state_order(order, b.states),
                forall|k: int|
                    0 <= k < order.len() ==> #[trigger] index@.get(order[k].0) == Some(k as usize),
                0 <= i <= state_order.len(),
                states@.len() == i,
                forall|k: int|
                    0 <= k < i ==> #[trigger] states@[k]@ == relabel(b.states[order[k].0], order),
            decreases state_order.len() - i,
        {
            let s = state_order[i].0;
            assert(b.states.contains_key(order[i as int].0));
            let ts = builder.states.transitions_of(s);
            let mut table = TransitionTable::new();
            let mut j: usize = 0;
            while j < ts.len()
                invariant
                    b == builder@,
                    b.targets_known(),
                    is_state_order(order, b.states),
                    forall|k: int|
                        0 <= k < order.len() ==> #[trigger] index@.get(order[k].0) == Some(k as usize),
                    b.states.contains_key(s),
                    lists_transitions(ts@, b.states[s]),
                    0 <= j <= ts.len(),
                    forall|m: int| 0 <= m < j ==> #[trigger] table@.contains_key(ts@[m].0.0),
                    forall|m: int|
                        0 <= m < j ==> table@[#[trigger] ts@[m].0.0] == relabel_one(
                            order,
                            (ts@[m].1.tgt.0, output_number(ts@[m].1.output)),
                        ),
                    forall|x: usize|
                        #[trigger] table@.contains_key(x) ==> exists|m: int| 0 <= m < j && ts@[m].0.0 == x,
                decreases ts.len() - j,
            {
                let e = ts[j];
                let ghost tgt = e.1.tgt.0;
                let ghost before = table@;
                proof {
                    assert(b.states[s].contains_key(ts@[j as int].0.0));
                    assert(b.states.contains_key(b.states[s][e.0.0].0));
                }
                let ghost k = choose|k: int| 0 <= k < order.len() && #[trigger] order[k].0 == tgt;
                proof {
                    assert(index@.get(order[k].0) == Some(k as usize));
                    lemma_position(order, k);
                }
                let ix = index.get(e.1.tgt.0).unwrap();
                let out = match e.1.output {
                    Some(o) => Some(o.0),
                    None => None,
                };
                table.insert(e.0.0, ix, out);
                proof {
                    assert forall|m: int| 0 <= m < j + 1 implies table@.contains_key(#[trigger] ts@[m].0.0)
                        && table@[ts@[m].0.0] == relabel_one(order, (ts@[m].1.tgt.0, output_number(ts@[m].1.output))) by {
                        if m < j {
                            assert(ts@[m].0.0 != ts@[j as int].0.0);
                            assert(before.contains_key(ts@[m].0.0));
                        }
                    }
                    assert forall|x: usize| #[trigger] table@.contains_key(x) implies exists|m: int|
                        0 <= m < j + 1 && ts@[m].0.0 == x by {
                        if x != e.0.0 {
                            assert(before.contains_key(x));
                        }
                    }
                }
                j = j + 1;
            }
            proof {
                let want = relabel(b.states[s], order);
                assert forall|x: usize| #[trigger] table@.contains_key(x) <==> want.contains_key(x) by {
                    if table@.contains_key(x) {
                        let m = choose|m: int| 0 <= m < j && ts@[m].0.0 == x;
                        assert(b.states[s].contains_key(ts@[m].0.0));
                    }
                    if want.contains_key(x) {
                        let m = choose|m: int| 0 <= m < ts@.len() && #[trigger] ts@[m].0.0 == x;
                        assert(table@.contains_key(ts@[m].0.0));
                    }
                }
                assert forall|x: usize| #[trigger] table@.contains_key(x) implies table@[x] == want[x] by {
                    let m = choose|m: int| 0 <= m < j && ts@[m].0.0 == x;
                    assert(b.states[s].contains_key(ts@[m].0.0));
                }
                assert(table@ =~= want);
            }
            states.push(State { transitions: table });
            i = i + 1;
        }
        let a = Automata { active: 0, states, inputs };
        proof {
            assert(a@.states =~= compiled_states(b, order));
        }
        a
    }

    /// Compiles `builder`: its states are numbered from 0 in the order in
    /// which its state table is walked, except that the builder's first state
    /// (`StateId(0)`) comes first; each transition's target is replaced by its
    /// number, state 0 is active, and each input's button event is registered
    /// in the order in which its input table is walked.  The walk order is the
    /// hash table's own and is not stated: the result is the compilation for
    /// some order of the states that starts with the first state and some
    /// order of the inputs.
    pub fn from_builder(builder: AutomataBuilder) -> (a: Automata)
        requires
            builder@.wf(),
            builder@.targets_known(),
        ensures
            compiles_to(builder@, a@),
    {
        let ids = builder.states.state_ids();
        let order = first_state_first(&ids, Ghost(builder@.states));
        let defs = builder.inputs.defs();
        let a = Automata::assemble(&builder, &order, &defs);
        proof {
            assert(is_state_order(order@, builder@.states) && (builder@.states.contains_key(0)
                ==> order@[0].0 == 0) && lists_inputs(defs@, builder@.inputs) && a@ == compiled(
                builder@,
                order@,
                defs@,
            ));
        }
        a
    }
}

/// Where position `p` goes when positions 0 and `z` trade places.
spec fn swapped_index(p: int, z: int) -> int {
    if p == 0 {
        z
    } else if p == z {
        0
    } else {
        p
    }
}

/// Trading the places of two states keeps a listing of the states.
proof fn lemma_swap_keeps_order(ids: Seq<StateId>, states: Map<usize, Transitions>, z: int)
    requires
        is_state_order(ids, states),
        0 <= z < ids.len(),
    ensures
        is_state_order(ids.update(0, ids[z]).update(z, ids[0]), states),
        forall|p: int| 0 <= p < ids.len() ==> #[trigger] ids.update(0, ids[z]).update(z, ids[0])[p] == ids[swapped_index(p, z)],
{
    let o = ids.update(0, ids[z]).update(z, ids[0]);
    assert forall|p: int| 0 <= p < ids.len() implies #[trigger] o[p] == ids[swapped_index(p, z)] by {}
    assert forall|p: int, q: int| 0 <= p < q < o.len() implies o[p].0 != o[q].0 by {
        assert(o[p] == ids[swapped_index(p, z)]);
        assert(o[q] == ids[swapped_index(q, z)]);
        let (a, c) = if swapped_index(p, z) < swapped_index(q, z) {
            (swapped_index(p, z), swapped_index(q, z))
        } else {
            (swapped_index(q, z), swapped_index(p, z))
        };
        assert(ids[a].0 != ids[c].0);
    }
    assert forall|p: int| 0 <= p < o.len() implies #[trigger] states.contains_key(o[p].0) by {
        assert(o[p] == ids[swapped_index(p, z)]);
        assert(states.contains_key(ids[swapped_index(p, z)].0));
    }
    assert forall|k: usize| states.contains_key(k) implies exists|p: int| 0 <= p < o.len() && #[trigger] o[p].0 == k by {
        let m = choose|m: int| 0 <= m < ids.len() && #[trigger] ids[m].0 == k;
        let p = swapped_index(m, z);
        assert(o[p] == ids[swapped_index(p, z)]);
    }
}

/// `ids` with the state numbered 0, if it is there, traded into the front.
fn first_state_first(ids: &Vec<StateId>, Ghost(states): Ghost<Map<usize, Transitions>>) -> (order: Vec<StateId>)
    requires
        is_state_order(ids@, states),
    ensures
        is_state_order(order@, states),
        states.contains_key(0) ==> order@.len() > 0 && order@[0].0 == 0,
{
    let mut order: Vec<StateId> = Vec::new();
    let mut z: usize = 0;
    let mut found = false;
    let mut i: usize = 0;
    while i < ids.len()
        invariant
            0 <= i <= ids.len(),
            order@ == ids@.take(i as int),
            found ==> z < i && ids@[z as int].0 == 0,
            !found ==> forall|m: int| 0 <= m < i ==> #[trigger] ids@[m].0 != 0,
        decreases ids.len() - i,
    {
        if ids[i].0 == 0 {
            z = i;
            found = true;
        }
        order.push(ids[i]);
        proof {
            assert(order@ =~= ids@.take(i + 1));
        }
        i = i + 1;
    }
    proof {
        assert(order@ =~= ids@);
    }
    if found {
        let first = order[0];
        let zero = order[z];
        order.set(0, zero);
        order.set(z, first);
        proof {
            lemma_swap_keeps_order(ids@, states, z as int);
            assert(order@ =~= ids@.update(0, ids@[z as int]).update(z as int, ids@[0]));
        }
    } else {
        proof {
            if states.contains_key(0) {
                let m = choose|m: int| 0 <= m < ids@.len() && #[trigger] ids@[m].0 == 0;
            }
        }
    }
    order
}

} // verus!
