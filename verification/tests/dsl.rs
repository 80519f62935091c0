use rmap::automata::dsl::{DslState, DslVar};
use rmap::automata::{InputId, OutputId, StateId};

#[test]
fn names_are_numbered_on_first_use() {
    let mut d = DslState::default();
    assert_eq!(d.get_state("S_idle"), StateId(0));
    assert_eq!(d.get_state("S_held"), StateId(1));
    assert_eq!(d.get_state("S_idle"), StateId(0));
    assert_eq!(d.get_input("In_a"), InputId(0));
    assert_eq!(d.get_output("Out_x"), OutputId(0));
    assert_eq!(d.get_input("In_b"), InputId(1));
    assert_eq!(d.get_input("In_a"), InputId(0));
    assert_eq!(d.get_state("S_third"), StateId(2));
}

#[test]
fn variables_resolve_by_prefix() {
    let mut d = DslState::default();
    assert_eq!(d.resolve_var("S_a"), Some(DslVar::State(StateId(0))));
    assert_eq!(d.resolve_var("In_a"), Some(DslVar::Input(InputId(0))));
    assert_eq!(d.resolve_var("Out_a"), Some(DslVar::Output(OutputId(0))));
    assert_eq!(d.resolve_var("S_b"), Some(DslVar::State(StateId(1))));
    assert_eq!(d.resolve_var("S_a"), Some(DslVar::State(StateId(0))));
    assert_eq!(d.resolve_var("a"), None);
    assert_eq!(d.resolve_var("S"), None);
    assert_eq!(d.resolve_var("In"), None);
    assert_eq!(d.resolve_var("s_a"), None);
    assert_eq!(d.resolve_var(""), None);
    // the whole name is what gets numbered
    assert_eq!(d.get_state("S_b"), StateId(1));
    assert_eq!(d.get_state("b"), StateId(2));
}

#[test]
fn name_listings_hold_every_name_once() {
    let mut d = DslState::default();
    d.get_state("S_one");
    d.get_state("S_two");
    d.get_state("S_one");
    d.get_output("Out_x");
    let mut states = d.state_names();
    states.sort();
    assert_eq!(states, vec![("S_one".to_string(), 0), ("S_two".to_string(), 1)]);
    assert_eq!(d.input_names(), vec![]);
    assert_eq!(d.output_names(), vec![("Out_x".to_string(), 0)]);
}

#[test]
fn transitions_are_recorded() {
    let mut d = DslState::default();
    let s0 = d.get_state("S_0");
    let s1 = d.get_state("S_1");
    let i = d.get_input("In_a");
    let o = d.get_output("Out_x");
    d.transition(s0, i, s1, Some(o));
    d.transition(s1, i, s0, None);
    d.transition(s0, i, s0, None);
    // the tables are unchanged by transitions
    assert_eq!(d.get_state("S_1"), StateId(1));
    assert_eq!(d.get_state("S_2"), StateId(2));
}
