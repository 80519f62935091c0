use rmap::automata::{Automata, AutomataBuilder, Button, InputDef, InputId, OutputId, StateId};

const A: Button = Button(0);
const B: Button = Button(1);

#[test]
fn builder_numbers_states_inputs_and_outputs_in_turn() {
    let mut b = AutomataBuilder::default();
    assert_eq!(b.new_state().id, StateId(0));
    assert_eq!(b.new_state().id, StateId(1));
    assert_eq!(b.new_input(A), (InputId(0), InputId(1)));
    assert_eq!(b.new_input(B), (InputId(2), InputId(3)));
    assert_eq!(b.new_output().id, OutputId(0));
    assert_eq!(b.new_output().id, OutputId(1));
    assert_eq!(b.new_state().id, StateId(2));
}

#[test]
fn single_state_reports_output_on_press() {
    let mut b = AutomataBuilder::default();
    let s = b.new_state();
    let (a_down, _a_up) = b.new_input(A);
    let out = b.new_output();
    s.transition(&mut b, a_down, s.id, out.id);
    assert!(b.targets_defined());
    let mut auto = Automata::from_builder(b);
    assert_eq!(auto.map_input(A, true), Some(InputId(0)));
    assert_eq!(auto.map_input(A, false), Some(InputId(1)));
    assert_eq!(auto.map_input(B, true), None);
    assert_eq!(auto.step(A, true), Some(OutputId(0)));
    assert_eq!(auto.step(A, true), Some(OutputId(0)));
    // no transition on the release, and no input for B
    assert_eq!(auto.step(A, false), None);
    assert_eq!(auto.step(B, true), None);
    assert_eq!(auto.step(A, true), Some(OutputId(0)));
}

fn two_state_builder() -> AutomataBuilder {
    // s0 --A down / out0--> s1 --A up (silent)--> s0, s1 --B down / out1--> s1
    let mut b = AutomataBuilder::default();
    let s0 = b.new_state();
    let s1 = b.new_state();
    let (a_down, a_up) = b.new_input(A);
    let (b_down, _b_up) = b.new_input(B);
    let o0 = b.new_output();
    let o1 = b.new_output();
    s0.transition(&mut b, a_down, s1.id, o0.id);
    s1.silent(&mut b, a_up, s0.id);
    s1.transition(&mut b, b_down, s1.id, o1.id);
    b
}

fn defs() -> Vec<InputDef> {
    vec![
        InputDef { id: InputId(0), button: A, down: true },
        InputDef { id: InputId(1), button: A, down: false },
        InputDef { id: InputId(2), button: B, down: true },
        InputDef { id: InputId(3), button: B, down: false },
    ]
}

#[test]
fn assemble_in_builder_order_starts_in_first_state() {
    let b = two_state_builder();
    let mut auto = Automata::assemble(&b, &vec![StateId(0), StateId(1)], &defs());
    // active: s0; B does nothing there
    assert_eq!(auto.step(B, true), None);
    assert_eq!(auto.step(A, true), Some(OutputId(0)));
    // now in s1: B reports out1 and stays
    assert_eq!(auto.step(B, true), Some(OutputId(1)));
    assert_eq!(auto.step(B, true), Some(OutputId(1)));
    // silent release back to s0
    assert_eq!(auto.step(A, false), None);
    assert_eq!(auto.step(B, true), None);
    assert_eq!(auto.step(A, true), Some(OutputId(0)));
}

#[test]
fn assemble_in_reverse_order_starts_in_last_state() {
    let b = two_state_builder();
    let mut auto = Automata::assemble(&b, &vec![StateId(1), StateId(0)], &defs());
    // active: s1
    assert_eq!(auto.step(B, true), Some(OutputId(1)));
    assert_eq!(auto.step(A, false), None);
    // now in s0
    assert_eq!(auto.step(B, true), None);
    assert_eq!(auto.step(A, true), Some(OutputId(0)));
    assert_eq!(auto.step(B, true), Some(OutputId(1)));
}

#[test]
fn later_input_for_same_event_wins() {
    let mut b = AutomataBuilder::default();
    let s = b.new_state();
    let (d0, _) = b.new_input(A);
    let (d1, _) = b.new_input(A);
    let o0 = b.new_output();
    let o1 = b.new_output();
    s.transition(&mut b, d0, s.id, o0.id);
    s.transition(&mut b, d1, s.id, o1.id);
    let order = vec![
        InputDef { id: InputId(0), button: A, down: true },
        InputDef { id: InputId(1), button: A, down: false },
        InputDef { id: InputId(2), button: A, down: true },
        InputDef { id: InputId(3), button: A, down: false },
    ];
    let mut auto = Automata::assemble(&b, &vec![StateId(0)], &order);
    assert_eq!(auto.map_input(A, true), Some(InputId(2)));
    assert_eq!(auto.step(A, true), Some(OutputId(1)));
    let mut rev: Vec<InputDef> = order.clone();
    rev.reverse();
    let mut auto = Automata::assemble(&b, &vec![StateId(0)], &rev);
    assert_eq!(auto.map_input(A, true), Some(InputId(0)));
    assert_eq!(auto.step(A, true), Some(OutputId(0)));
}

#[test]
fn from_builder_follows_the_builder_in_either_state_order() {
    let b = two_state_builder();
    let mut auto = Automata::from_builder(b);
    // Whichever state is first, pressing A then B behaves as the builder says.
    match auto.step(A, true) {
        Some(OutputId(0)) => {
            // started in s0, now in s1
            assert_eq!(auto.step(B, true), Some(OutputId(1)));
        }
        None => {
            // started in s1 (no transition on A down there)
            assert_eq!(auto.step(B, true), Some(OutputId(1)));
            assert_eq!(auto.step(A, false), None);
            assert_eq!(auto.step(A, true), Some(OutputId(0)));
        }
        other => panic!("unexpected output {:?}", other),
    }
}

#[test]
fn later_transition_replaces_earlier() {
    let mut b = AutomataBuilder::default();
    let s = b.new_state();
    let (d, _) = b.new_input(A);
    let o0 = b.new_output();
    let o1 = b.new_output();
    s.transition(&mut b, d, s.id, o0.id);
    s.transition(&mut b, d, s.id, o1.id);
    let mut auto = Automata::from_builder(b);
    assert_eq!(auto.step(A, true), Some(OutputId(1)));
    let mut b = AutomataBuilder::default();
    let s = b.new_state();
    let (d, _) = b.new_input(A);
    let o0 = b.new_output();
    s.transition(&mut b, d, s.id, o0.id);
    s.silent(&mut b, d, s.id);
    let mut auto = Automata::from_builder(b);
    assert_eq!(auto.step(A, true), None);
}

#[test]
fn unknown_target_is_detected() {
    let mut b = AutomataBuilder::default();
    let s = b.new_state();
    let (d, _) = b.new_input(A);
    assert!(b.targets_defined());
    s.silent(&mut b, d, StateId(7));
    assert!(!b.targets_defined());
    s.silent(&mut b, d, StateId(0));
    assert!(b.targets_defined());
}

#[test]
fn empty_automaton_never_steps() {
    let mut b = AutomataBuilder::default();
    b.new_input(A);
    let mut auto = Automata::from_builder(b);
    assert_eq!(auto.map_input(A, true), Some(InputId(0)));
    assert_eq!(auto.step(A, true), None);
    assert_eq!(auto.step(B, false), None);
}
