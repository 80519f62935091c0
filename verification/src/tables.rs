//! The hash tables of the library.
//!
//! Every table is an `FxHashMap` of the `rustc_hash` crate, held in a private
//! field of a struct whose body Verus does not read.  Each struct has a name for
//! what it holds (a `Map` of plain values), and each operation that the library
//! performs on it is a small trusted function whose contract says, over that
//! name, what the standard `HashMap` operation does.  The order in which a table
//! is walked is not stated: a walk only promises that every entry comes out once.
use vstd::prelude::*;

use rustc_hash::FxHashMap;

use crate::automata::{is_state_order, output_number, Button, InputDef, InputId, OutputId, StateId, TransitionDef};

verus! {

/// True when `s` lists the transitions in `m`, each exactly once, in some order.
pub open spec fn lists_transitions(s: Seq<(InputId, TransitionDef)>, m: Map<usize, (usize, Option<usize>)>) -> bool {
    &&& forall|i: int, j: int| 0 <= i < j < s.len() ==> s[i].0.0 != s[j].0.0
    &&& forall|i: int|
        0 <= i < s.len() ==> #[trigger] m.contains_key(s[i].0.0) && m[s[i].0.0] == (
            s[i].1.tgt.0,
            output_number(s[i].1.output),
        )
    &&& forall|k: usize|
        m.contains_key(k) ==> exists|i: int| 0 <= i < s.len() && #[trigger] s[i].0.0 == k
}

// ---------------------------------------------------------------------------
// Transitions of one compiled state: input -> (target index, output)
// ---------------------------------------------------------------------------

/// The transitions of one state of a compiled automaton, keyed by input.
#[verifier::external_body]
pub struct TransitionTable {
    inner: FxHashMap<usize, (usize, Option<usize>)>,
}

/// What a `TransitionTable` holds.
pub uninterp spec fn transition_table_entries(t: TransitionTable) -> Map<usize, (usize, Option<usize>)>;

impl View for TransitionTable {
    type V = Map<usize, (usize, Option<usize>)>;

    open spec fn view(&self) -> Map<usize, (usize, Option<usize>)> {
        transition_table_entries(*self)
    }
}

impl TransitionTable {
    /// `FxHashMap::default`: the new table holds nothing.
    #[verifier::external_body]
    pub(crate) fn new() -> (t: TransitionTable)
        ensures
            transition_table_entries(t).is_empty(),
    {
        TransitionTable { inner: FxHashMap::default() }
    }

    /// `HashMap::insert`: the entry for `input` becomes `(tgt, output)`.
    #[verifier::external_body]
    pub(crate) fn insert(&mut self, input: usize, tgt: usize, output: Option<usize>)
        ensures
            transition_table_entries(*final(self)) == transition_table_entries(*old(self)).insert(input, (tgt, output)),
    {
        self.inner.insert(input, (tgt, output));
    }

    /// `HashMap::get`: the entry for `input`, if there is one.
    #[verifier::external_body]
    pub(crate) fn get(&self, input: usize) -> (r: Option<(usize, Option<usize>)>)
        ensures
            r == transition_table_entries(*self).get(input),
    {
        self.inner.get(&input).copied()
    }
}

// ---------------------------------------------------------------------------
// States of a builder: state -> (input -> (target state, output))
// ---------------------------------------------------------------------------

/// The states under construction, each with its transitions keyed by input.
#[verifier::external_body]
pub struct StateTable {
    inner: FxHashMap<usize, FxHashMap<usize, (usize, Option<usize>)>>,
}

/// What a `StateTable` holds.
pub uninterp spec fn state_table_entries(t: StateTable) -> Map<usize, Map<usize, (usize, Option<usize>)>>;

impl View for StateTable {
    type V = Map<usize, Map<usize, (usize, Option<usize>)>>;

    open spec fn view(&self) -> Map<usize, Map<usize, (usize, Option<usize>)>> {
        state_table_entries(*self)
    }
}

/// The transitions of state `s` in `m`, none where `m` has no such state.
pub open spec fn transitions_or_empty(
    m: Map<usize, Map<usize, (usize, Option<usize>)>>,
    s: usize,
) -> Map<usize, (usize, Option<usize>)> {
    if m.contains_key(s) {
        m[s]
    } else {
        Map::empty()
    }
}

impl StateTable {
    /// `FxHashMap::default`: the new table holds nothing.
    #[verifier::external_body]
    pub(crate) fn new() -> (t: StateTable)
        ensures
            state_table_entries(t).is_empty(),
    {
        StateTable { inner: FxHashMap::default() }
    }

    /// `HashMap::len`: the number of states.
    #[verifier::external_body]
    pub(crate) fn len(&self) -> (n: usize)
        ensures
            n == state_table_entries(*self).len(),
    {
        self.inner.len()
    }

    /// `HashMap::insert` of a state with no transitions.
    #[verifier::external_body]
    pub(crate) fn add_state(&mut self, s: usize)
        ensures
            state_table_entries(*final(self)) == state_table_entries(*old(self)).insert(s, Map::empty()),
    {
        self.inner.insert(s, FxHashMap::default());
    }

    /// `HashMap::entry(s).or_default()` then `HashMap::insert(input, (tgt, output))`
    /// on the transitions of `s`.
    #[verifier::external_body]
    pub(crate) fn set_transition(&mut self, s: usize, input: usize, tgt: usize, output: Option<usize>)
        ensures
            state_table_entries(*final(self)) == state_table_entries(*old(self)).insert(
                s,
                transitions_or_empty(state_table_entries(*old(self)), s).insert(input, (tgt, output)),
            ),
    {
        self.inner.entry(s).or_default().insert(input, (tgt, output));
    }

    /// `HashMap::keys`, collected: every state once, in the table's order.
    #[verifier::external_body]
    pub(crate) fn state_ids(&self) -> (r: Vec<StateId>)
        ensures
            is_state_order(r@, state_table_entries(*self)),
    {
        self.inner.keys().map(|k| StateId(*k)).collect()
    }

    /// `HashMap::iter` over the transitions of `s`, collected: every transition
    /// of `s` once, in the table's order.
    #[verifier::external_body]
    pub(crate) fn transitions_of(&self, s: usize) -> (r: Vec<(InputId, TransitionDef)>)
        requires
            state_table_entries(*self).contains_key(s),
        ensures
            lists_transitions(r@, state_table_entries(*self)[s]),
    {
        self.inner[&s].iter().map(|(k, v)| (InputId(*k), TransitionDef { tgt: StateId(v.0), output: v.1.map(OutputId) })).collect()
    }
}

// ---------------------------------------------------------------------------
// Inputs of a builder: input -> (button, down)
// ---------------------------------------------------------------------------

/// The inputs under construction: for each input, its button and whether it
/// stands for the press (`true`) or the release (`false`).
#[verifier::external_body]
pub struct InputTable {
    inner: FxHashMap<usize, (i32, bool)>,
}

/// What an `InputTable` holds.
pub uninterp spec fn input_table_entries(t: InputTable) -> Map<usize, (i32, bool)>;

impl View for InputTable {
    type V = Map<usize, (i32, bool)>;

    open spec fn view(&self) -> Map<usize, (i32, bool)> {
        input_table_entries(*self)
    }
}

/// True when `defs` lists the inputs of `m`, each exactly once, in some order.
pub open spec fn lists_inputs(defs: Seq<InputDef>, m: Map<usize, (i32, bool)>) -> bool {
    &&& forall|i: int, j: int| 0 <= i < j < defs.len() ==> defs[i].id.0 != defs[j].id.0
    &&& forall|i: int|
        0 <= i < defs.len() ==> #[trigger] m.contains_key(defs[i].id.0) && m[defs[i].id.0] == (
            defs[i].button.0,
            defs[i].down,
        )
    &&& forall|k: usize|
        m.contains_key(k) ==> exists|i: int| 0 <= i < defs.len() && #[trigger] defs[i].id.0 == k
}

impl InputTable {
    /// `FxHashMap::default`: the new table holds nothing.
    #[verifier::external_body]
    pub(crate) fn new() -> (t: InputTable)
        ensures
            input_table_entries(t).is_empty(),
    {
        InputTable { inner: FxHashMap::default() }
    }

    /// `HashMap::len`: the number of inputs.
    #[verifier::external_body]
    pub(crate) fn len(&self) -> (n: usize)
        ensures
            n == input_table_entries(*self).len(),
    {
        self.inner.len()
    }

    /// `HashMap::insert`: input `id` becomes `(button, down)`.
    #[verifier::external_body]
    pub(crate) fn insert(&mut self, id: usize, button: i32, down: bool)
        ensures
            input_table_entries(*final(self)) == input_table_entries(*old(self)).insert(id, (button, down)),
    {
        self.inner.insert(id, (button, down));
    }

    /// `HashMap::iter`, collected: every input once, in the table's order.
    #[verifier::external_body]
    pub(crate) fn defs(&self) -> (r: Vec<InputDef>)
        ensures
            lists_inputs(r@, input_table_entries(*self)),
    {
        self.inner.iter().map(|(k, v)| InputDef { id: InputId(*k), button: Button(v.0), down: v.1 }).collect()
    }
}

// ---------------------------------------------------------------------------
// Inputs of a compiled automaton: (button, down) -> input
// ---------------------------------------------------------------------------

/// The inputs of a compiled automaton, keyed by button and press/release.
#[verifier::external_body]
pub struct ButtonTable {
    inner: FxHashMap<(i32, bool), usize>,
}

/// What a `ButtonTable` holds.
pub uninterp spec fn button_table_entries(t: ButtonTable) -> Map<(i32, bool), usize>;

impl View for ButtonTable {
    type V = Map<(i32, bool), usize>;

    open spec fn view(&self) -> Map<(i32, bool), usize> {
        button_table_entries(*self)
    }
}

impl ButtonTable {
    /// `FxHashMap::default`: the new table holds nothing.
    #[verifier::external_body]
    pub(crate) fn new() -> (t: ButtonTable)
        ensures
            button_table_entries(t).is_empty(),
    {
        ButtonTable { inner: FxHashMap::default() }
    }

    /// `HashMap::insert`: `(button, down)` becomes input `id`.
    #[verifier::external_body]
    pub(crate) fn insert(&mut self, button: i32, down: bool, id: usize)
        ensures
            button_table_entries(*final(self)) == button_table_entries(*old(self)).insert((button, down), id),
    {
        self.inner.insert((button, down), id);
    }

    /// `HashMap::get`: the input for `(button, down)`, if there is one.
    #[verifier::external_body]
    pub(crate) fn get(&self, button: i32, down: bool) -> (r: Option<usize>)
        ensures
            r == button_table_entries(*self).get((button, down)),
    {
        self.inner.get(&(button, down)).copied()
    }
}

// ---------------------------------------------------------------------------
// Numbers to numbers: the index of each state, the outputs of a builder
// ---------------------------------------------------------------------------

/// A table from numbers to numbers.
#[verifier::external_body]
pub struct IdTable {
    inner: FxHashMap<usize, usize>,
}

/// What an `IdTable` holds.
pub uninterp spec fn id_table_entries(t: IdTable) -> Map<usize, usize>;

impl View for IdTable {
    type V = Map<usize, usize>;

    open spec fn view(&self) -> Map<usize, usize> {
        id_table_entries(*self)
    }
}

impl IdTable {
    /// `FxHashMap::default`: the new table holds nothing.
    #[verifier::external_body]
    pub(crate) fn new() -> (t: IdTable)
        ensures
            id_table_entries(t).is_empty(),
    {
        IdTable { inner: FxHashMap::default() }
    }

    /// `HashMap::len`: the number of entries.
    #[verifier::external_body]
    pub(crate) fn len(&self) -> (n: usize)
        ensures
            n == id_table_entries(*self).len(),
    {
        self.inner.len()
    }

    /// `HashMap::insert`: the entry for `k` becomes `v`.
    #[verifier::external_body]
    pub(crate) fn insert(&mut self, k: usize, v: usize)
        ensures
            id_table_entries(*final(self)) == id_table_entries(*old(self)).insert(k, v),
    {
        self.inner.insert(k, v);
    }

    /// `HashMap::get`: the entry for `k`, if there is one.
    #[verifier::external_body]
    pub(crate) fn get(&self, k: usize) -> (r: Option<usize>)
        ensures
            r == id_table_entries(*self).get(k),
    {
        self.inner.get(&k).copied()
    }
}

/// True when `s` lists the names of `m`, each exactly once with its number,
/// in some order.
pub open spec fn lists_names(s: Seq<(String, usize)>, m: Map<Seq<char>, usize>) -> bool {
    &&& forall|i: int, j: int| 0 <= i < j < s.len() ==> s[i].0@ != s[j].0@
    &&& forall|i: int| 0 <= i < s.len() ==> #[trigger] m.contains_key(s[i].0@) && m[s[i].0@] == s[i].1
    &&& forall|k: Seq<char>| m.contains_key(k) ==> exists|i: int| 0 <= i < s.len() && #[trigger] s[i].0@ == k
}

// ---------------------------------------------------------------------------
// Names of a script: name -> number
// ---------------------------------------------------------------------------

/// The names of a script, each with the number it was given.
#[verifier::external_body]
pub struct NameTable {
    inner: FxHashMap<String, usize>,
}

/// What a `NameTable` holds.
pub uninterp spec fn name_table_entries(t: NameTable) -> Map<Seq<char>, usize>;

impl View for NameTable {
    type V = Map<Seq<char>, usize>;

    open spec fn view(&self) -> Map<Seq<char>, usize> {
        name_table_entries(*self)
    }
}

impl NameTable {
    /// `FxHashMap::default`: the new table holds nothing.
    #[verifier::external_body]
    pub(crate) fn new() -> (t: NameTable)
        ensures
            name_table_entries(t).is_empty(),
    {
        NameTable { inner: FxHashMap::default() }
    }

    /// `HashMap::len`: the number of names.
    #[verifier::external_body]
    pub(crate) fn len(&self) -> (n: usize)
        ensures
            n == name_table_entries(*self).len(),
    {
        self.inner.len()
    }

    /// `HashMap::get`: the number of `name`, if it has one.
    #[verifier::external_body]
    pub(crate) fn get(&self, name: &str) -> (r: Option<usize>)
        ensures
            r == name_table_entries(*self).get(name@),
    {
        self.inner.get(name).copied()
    }

    /// `HashMap::insert` of an owned copy of `name`: `name` gets number `id`.
    #[verifier::external_body]
    pub(crate) fn insert(&mut self, name: &str, id: usize)
        ensures
            name_table_entries(*final(self)) == name_table_entries(*old(self)).insert(name@, id),
    {
        self.inner.insert(name.to_string(), id);
    }

    /// `HashMap::iter`, collected: every name once, with its number, in the
    /// table's order.
    #[verifier::external_body]
    pub(crate) fn entries(&self) -> (r: Vec<(String, usize)>)
        ensures
            lists_names(r@, name_table_entries(*self)),
    {
        self.inner.iter().map(|(k, v)| (k.clone(), *v)).collect()
    }
}

// ---------------------------------------------------------------------------
// Running tasks: id -> handle
// ---------------------------------------------------------------------------

/// The handle of a task spawned on a thread pool (`futures::future::RemoteHandle`).
#[verifier::external_type_specification]
#[verifier::external_body]
#[verifier::reject_recursive_types(T)]
pub struct ExRemoteHandle<T>(futures::future::RemoteHandle<T>);

/// The running tasks, each under its id.
#[verifier::external_body]
pub struct TaskTable {
    inner: FxHashMap<usize, futures::future::RemoteHandle<()>>,
}

/// The ids under which a `TaskTable` holds a task.
pub uninterp spec fn task_table_ids(t: TaskTable) -> Set<usize>;

impl View for TaskTable {
    type V = Set<usize>;

    open spec fn view(&self) -> Set<usize> {
        task_table_ids(*self)
    }
}

impl TaskTable {
    /// `FxHashMap::default`: the new table holds nothing.
    #[verifier::external_body]
    pub(crate) fn new() -> (t: TaskTable)
        ensures
            task_table_ids(t).is_empty(),
    {
        TaskTable { inner: FxHashMap::default() }
    }

    /// `HashMap::insert`: the task under `id` becomes `handle`.
    #[verifier::external_body]
    pub(crate) fn insert(&mut self, id: usize, handle: futures::future::RemoteHandle<()>)
        ensures
            task_table_ids(*final(self)) == task_table_ids(*old(self)).insert(id),
    {
        self.inner.insert(id, handle);
    }
}

} // verus!
