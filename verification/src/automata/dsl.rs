//! The state of a script that describes an automaton: the names it uses for
//! states, inputs and outputs, each numbered in the order of first use, and
//! the transitions it declares.
use vstd::prelude::*;
use vstd::string::StrSliceExecFns;

use crate::automata::{output_number, InputId, OutputId, StateId, Transitions};
use crate::tables::{lists_names, transitions_or_empty, NameTable, StateTable};

verus! {

/// The names and transitions of a script.
pub struct DslState {
    states: NameTable,
    inputs: NameTable,
    outputs: NameTable,
    state_transitions: StateTable,
}

/// The contents of a [`DslState`].
pub struct DslView {
    /// The number of each state name.
    pub states: Map<Seq<char>, usize>,
    /// The number of each input name.
    pub inputs: Map<Seq<char>, usize>,
    /// The number of each output name.
    pub outputs: Map<Seq<char>, usize>,
    /// The declared transitions: state -> (input -> (target state, output)).
    pub transitions: Map<usize, Transitions>,
}

/// True when `m` numbers its names from 0, each with a number of its own.
pub open spec fn numbered(m: Map<Seq<char>, usize>) -> bool {
    &&& m.dom().finite()
    &&& forall|n: Seq<char>| #[trigger] m.contains_key(n) ==> (m[n] as int) < m.len()
    &&& forall|a: Seq<char>, b: Seq<char>|
        #[trigger] m.contains_key(a) && #[trigger] m.contains_key(b) && m[a] == m[b] ==> a == b
}

/// The number of `name` once it has been looked up in `m`: its own, or the
/// next one when it is new.
pub open spec fn interned_id(m: Map<Seq<char>, usize>, name: Seq<char>) -> usize {
    if m.contains_key(name) {
        m[name]
    } else {
        m.len() as usize
    }
}

/// `m` once `name` has been looked up in it.
pub open spec fn interned_table(m: Map<Seq<char>, usize>, name: Seq<char>) -> Map<Seq<char>, usize> {
    if m.contains_key(name) {
        m
    } else {
        m.insert(name, m.len() as usize)
    }
}

/// True when `s` begins with `p`.
pub open spec fn starts_with(s: Seq<char>, p: Seq<char>) -> bool {
    p.len() <= s.len() && s.subrange(0, p.len() as int) == p
}

/// What a variable of a script stands for, told by its prefix: `S_` for a
/// state, `In_` for an input, `Out_` for an output.
#[derive(Debug, Clone, Copy, PartialEq, Eq, Structural)]
pub enum DslVar {
    State(StateId),
    Input(InputId),
    Output(OutputId),
}

impl DslView {
    /// Each of the three name tables numbers its names from 0, one number each.
    pub open spec fn wf(self) -> bool {
        &&& numbered(self.states)
        &&& numbered(self.inputs)
        &&& numbered(self.outputs)
    }
}

/// `v` once the variable `name` has been resolved, and what it stands for.
pub open spec fn resolved(v: DslView, name: Seq<char>) -> (DslView, Option<DslVar>) {
    if starts_with(name, seq!['S', '_']) {
        (
            DslView { states: interned_table(v.states, name), ..v },
            Some(DslVar::State(StateId(interned_id(v.states, name)))),
        )
    } else if starts_with(name, seq!['I', 'n', '_']) {
        (
            DslView { inputs: interned_table(v.inputs, name), ..v },
            Some(DslVar::Input(InputId(interned_id(v.inputs, name)))),
        )
    } else if starts_with(name, seq!['O', 'u', 't', '_']) {
        (
            DslView { outputs: interned_table(v.outputs, name), ..v },
            Some(DslVar::Output(OutputId(interned_id(v.outputs, name)))),
        )
    } else {
        (v, None)
    }
}

/// Looking a name up keeps a table numbered.
proof fn lemma_intern_numbered(m: Map<Seq<char>, usize>, name: Seq<char>)
    requires
        numbered(m),
        m.len() <= usize::MAX,
    ensures
        numbered(interned_table(m, name)),
        interned_table(m, name).contains_key(name),
        interned_table(m, name)[name] == interned_id(m, name),
{
    if !m.contains_key(name) {
        let m2 = m.insert(name, m.len() as usize);
        assert(m2.dom() == m.dom().insert(name));
        assert(m2.len() == m.len() + 1);
        assert forall|a: Seq<char>, b: Seq<char>|
            #[trigger] m2.contains_key(a) && #[trigger] m2.contains_key(b) && m2[a] == m2[b] implies a == b by {
            if a != name && b != name {
                assert(m.contains_key(a) && m.contains_key(b));
            } else if a != name {
                assert(m.contains_key(a));
            } else if b != name {
                assert(m.contains_key(b));
            }
        }
    }
}

/// A table from names to numbers, looked up and filled on first use.
fn intern(table: &mut NameTable, name: &str) -> (id: usize)
    requires
        numbered(old(table)@),
    ensures
        numbered(final(table)@),
        id == interned_id(old(table)@, name@),
        final(table)@ == interned_table(old(table)@, name@),
{
    match table.get(name) {
        Some(id) => id,
        None => {
            let id = table.len();
            table.insert(name, id);
            proof {
                lemma_intern_numbered(old(table)@, name@);
            }
            id
        },
    }
}

/// Whether `name` begins with `prefix`.
fn has_prefix(name: &str, prefix: &str) -> (r: bool)
    ensures
        r == starts_with(name@, prefix@),
{
    let n = name.unicode_len();
    let m = prefix.unicode_len();
    if m > n {
        return false;
    }
    let mut i: usize = 0;
    while i < m
        invariant
            m == prefix@.len(),
            n == name@.len(),
            m <= n,
            0 <= i <= m,
            forall|j: int| 0 <= j < i ==> name@[j] == prefix@[j],
        decreases m - i,
    {
        if name.get_char(i) != prefix.get_char(i) {
            proof {
                assert(name@.subrange(0, m as int)[i as int] != prefix@[i as int]);
            }
            return false;
        }
        i = i + 1;
    }
    proof {
        assert(name@.subrange(0, m as int) =~= prefix@);
    }
    true
}

impl View for DslState {
    type V = DslView;

    closed spec fn view(&self) -> DslView {
        DslView {
            states: self.states@,
            inputs: self.inputs@,
            outputs: self.outputs@,
            transitions: self.state_transitions@,
        }
    }
}

impl Default for DslState {
    /// A script with no names and no transitions.
    fn default() -> (d: Self)
        ensures
            d@.wf(),
            d@.states.is_empty(),
            d@.inputs.is_empty(),
            d@.outputs.is_empty(),
            d@.transitions.is_empty(),
    {
        let d = DslState {
            states: NameTable::new(),
            inputs: NameTable::new(),
            outputs: NameTable::new(),
            state_transitions: StateTable::new(),
        };
        proof {
            assert(d@.states.dom() =~= Set::empty());
            assert(d@.inputs.dom() =~= Set::empty());
            assert(d@.outputs.dom() =~= Set::empty());
        }
        d
    }
}

impl DslState {
    /// Declares the transition from `src` on `input` to `tgt`, reporting `out`;
    /// it replaces any transition of `src` on `input`.
    pub fn transition(&mut self, src: StateId, input: InputId, tgt: StateId, out: Option<OutputId>)
        requires
            old(self)@.wf(),
        ensures
            final(self)@ == (DslView {
                transitions: old(self)@.transitions.insert(
                    src.0,
                    transitions_or_empty(old(self)@.transitions, src.0).insert(
                        input.0,
                        (tgt.0, output_number(out)),
                    ),
                ),
                ..old(self)@
            }),
            final(self)@.wf(),
    {
        let o = match out {
            Some(x) => Some(x.0),
            None => None,
        };
        self.state_transitions.set_transition(src.0, input.0, tgt.0, o);
    }

    /// The number of the state called `name`: its own, or the next number
    /// when the name is new.
    pub fn get_state(&mut self, name: &str) -> (id: StateId)
        requires
            old(self)@.wf(),
        ensures
            final(self)@.wf(),
            id.0 == interned_id(old(self)@.states, name@),
            final(self)@ == (DslView { states: interned_table(old(self)@.states, name@), ..old(self)@ }),
    {
        StateId(intern(&mut self.states, name))
    }

    /// The number of the input called `name`: its own, or the next number
    /// when the name is new.
    pub fn get_input(&mut self, name: &str) -> (id: InputId)
        requires
            old(self)@.wf(),
        ensures
            final(self)@.wf(),
            id.0 == interned_id(old(self)@.inputs, name@),
            final(self)@ == (DslView { inputs: interned_table(old(self)@.inputs, name@), ..old(self)@ }),
    {
        InputId(intern(&mut self.inputs, name))
    }

    /// The number of the output called `name`: its own, or the next number
    /// when the name is new.
    pub fn get_output(&mut self, name: &str) -> (id: OutputId)
        requires
            old(self)@.wf(),
        ensures
            final(self)@.wf(),
            id.0 == interned_id(old(self)@.outputs, name@),
            final(self)@ == (DslView { outputs: interned_table(old(self)@.outputs, name@), ..old(self)@ }),
    {
        OutputId(intern(&mut self.outputs, name))
    }

    /// What the script variable `name` stands for, by its prefix (`S_` a
    /// state, `In_` an input, `Out_` an output, looked up by its whole name),
    /// or nothing for any other name.
    pub fn resolve_var(&mut self, name: &str) -> (r: Option<DslVar>)
        requires
            old(self)@.wf(),
        ensures
            final(self)@.wf(),
            (final(self)@, r) == resolved(old(self)@, name@),
    {
        proof {
            reveal_strlit("S_");
            reveal_strlit("In_");
            reveal_strlit("Out_");
            assert("S_"@ =~= seq!['S', '_']);
            assert("In_"@ =~= seq!['I', 'n', '_']);
            assert("Out_"@ =~= seq!['O', 'u', 't', '_']);
        }
        if has_prefix(name, "S_") {
            Some(DslVar::State(self.get_state(name)))
        } else if has_prefix(name, "In_") {
            Some(DslVar::Input(self.get_input(name)))
        } else if has_prefix(name, "Out_") {
            Some(DslVar::Output(self.get_output(name)))
        } else {
            None
        }
    }

    /// Every state name with its number, once each, in the table's order.
    pub fn state_names(&self) -> (r: Vec<(String, usize)>)
        ensures
            lists_names(r@, self@.states),
    {
        self.states.entries()
    }

    /// Every input name with its number, once each, in the table's order.
    pub fn input_names(&self) -> (r: Vec<(String, usize)>)
        ensures
            lists_names(r@, self@.inputs),
    {
        self.inputs.entries()
    }

    /// Every output name with its number, once each, in the table's order.
    pub fn output_names(&self) -> (r: Vec<(String, usize)>)
        ensures
            lists_names(r@, self@.outputs),
    {
        self.outputs.entries()
    }
}

/// Looking a name up a second time gives the number it got the first time
/// and leaves the table as it is.
pub proof fn law_intern_stable(m: Map<Seq<char>, usize>, name: Seq<char>)
    requires
        numbered(m),
        m.len() <= usize::MAX,
    ensures
        interned_id(interned_table(m, name), name) == interned_id(m, name),
        interned_table(interned_table(m, name), name) == interned_table(m, name),
{
    lemma_intern_numbered(m, name);
}

/// Different names have different numbers, also once a name has been looked
/// up: a new name gets a number that no other name has.
pub proof fn law_intern_distinct(m: Map<Seq<char>, usize>, name: Seq<char>, other: Seq<char>)
    requires
        numbered(m),
        m.len() <= usize::MAX,
        interned_table(m, name).contains_key(other),
        other != name,
    ensures
        interned_table(m, name)[other] != interned_id(m, name),
{
    lemma_intern_numbered(m, name);
}

/// A script variable is resolved only when its name begins with a whole
/// prefix, `S_`, `In_` or `Out_`, and then as a state, an input or an output
/// under its whole name; a name with none of these prefixes is left to the
/// script: nothing changes and nothing is returned.
pub proof fn law_resolve_needs_whole_prefix(v: DslView, name: Seq<char>)
    ensures
        resolved(v, name).1 is Some ==> (name.len() >= 2 && name[0] == 'S' && name[1] == '_') || (
        name.len() >= 3 && name[0] == 'I' && name[1] == 'n' && name[2] == '_') || (name.len() >= 4
            && name[0] == 'O' && name[1] == 'u' && name[2] == 't' && name[3] == '_'),
        !((name.len() >= 2 && name[0] == 'S' && name[1] == '_') || (name.len() >= 3 && name[0] == 'I'
            && name[1] == 'n' && name[2] == '_') || (name.len() >= 4 && name[0] == 'O' && name[1] == 'u'
            && name[2] == 't' && name[3] == '_')) ==> resolved(v, name) == (v, None::<DslVar>),
        (name.len() >= 2 && name[0] == 'S' && name[1] == '_') ==> resolved(v, name).1 == Some(
            DslVar::State(StateId(interned_id(v.states, name))),
        ),
        (name.len() >= 3 && name[0] == 'I' && name[1] == 'n' && name[2] == '_') ==> resolved(v, name).1
            == Some(DslVar::Input(InputId(interned_id(v.inputs, name)))),
        (name.len() >= 4 && name[0] == 'O' && name[1] == 'u' && name[2] == 't' && name[3] == '_')
            ==> resolved(v, name).1 == Some(DslVar::Output(OutputId(interned_id(v.outputs, name)))),
{
    let s = seq!['S', '_'];
    let i = seq!['I', 'n', '_'];
    let o = seq!['O', 'u', 't', '_'];
    if starts_with(name, s) {
        assert(name.subrange(0, 2)[0] == 'S' && name.subrange(0, 2)[1] == '_');
    }
    if starts_with(name, i) {
        assert(name.subrange(0, 3)[0] == 'I' && name.subrange(0, 3)[1] == 'n' && name.subrange(0, 3)[2] == '_');
    }
    if starts_with(name, o) {
        assert(name.subrange(0, 4)[0] == 'O' && name.subrange(0, 4)[1] == 'u' && name.subrange(0, 4)[2] == 't'
            && name.subrange(0, 4)[3] == '_');
    }
    if name.len() >= 2 && name[0] == 'S' && name[1] == '_' {
        assert(name.subrange(0, 2) =~= s);
    }
    if name.len() >= 3 && name[0] == 'I' && name[1] == 'n' && name[2] == '_' {
        assert(name.subrange(0, 3) =~= i);
    }
    if name.len() >= 4 && name[0] == 'O' && name[1] == 'u' && name[2] == 't' && name[3] == '_' {
        assert(name.subrange(0, 4) =~= o);
    }
}

} // verus!
