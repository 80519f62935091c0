# rmap

Automata that turn game controller button events into outputs.

- `src/automata.rs`: states, inputs and outputs are collected in an
  `AutomataBuilder`; `Automata::from_builder` compiles it, and `Automata::step`
  feeds it button events. The contracts state what each step does and how the
  compiled automaton follows the builder's transitions (`law_*` proof functions).
- `src/automata/dsl.rs`: the names a script gives to states, inputs and
  outputs, numbered on first use, and the transitions it declares.
- `src/binds.rs`: ids for the tasks that carry out outputs.
- `src/tables.rs`: the `rustc_hash` hash tables the library keeps its data in,
  each behind a few trusted functions.
- `app/`: the program: SDL2 event loop, the `rhai` script engine, the thread
  pool that runs output tasks, and synthetic Windows input.
