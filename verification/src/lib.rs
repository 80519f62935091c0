//! Automata that turn controller button events into outputs, the script
//! state that names their states, inputs and outputs, and the bookkeeping of
//! the tasks that carry the outputs out.
pub mod automata;
pub mod binds;
pub mod tables;
