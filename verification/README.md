# web_games

The integer logic of a small collection of browser games, written in Verus and proved
against its contracts: a factory game whose machines pass flows of material to each other,
a tower-defence card game on a square grid, and a sound editor with undo and redo.

## Layout

- `src/` is the verified library.
  - Flows of material: `flow_math`, `flow_pattern`, `flow_laws` (rates, when items are
    handed over, and the laws that tie these together).
  - Machines: `machine_data`, `primitive_machines`, `modules`, `graph_algorithms`
    (machine types and their inputs and outputs, what a distributor, an assembler or a
    module does with its inputs, how the machines of a region connect and in which order
    they can be simulated), and `region_future` (the future of a region: each machine's
    future in topological order, flows passed on to the inputs they lead to or dumped, and
    modules' insides computed once per canonical inputs; where a value would leave `i64` or
    modules hold each other, the result is a failure that names the machine where it
    stopped), and `canonical` (the canonical form of a game's modules: deduplicated, the
    unused ones dropped, ordered breadth first from the world and renumbered).
  - Simulation of machine graphs over time: `simulation`, `sim_laws`, `graph_simulation`.
  - Grid geometry of the factory: `geometry`, `geometry_laws`.
  - The card game's grid, movers and mechanisms: `deck_geometry`, `deck_laws`,
    `deck_movers`, `deck_mechanisms`, `deck_conveyors` (where the player may build a
    conveyor, and what building one changes), `terrain`.
  - The sound editor's undo history and sound data: `undo_redo`, `sound_data`.
  - Small helpers: `arith`, `misc`.
- `tests/` runs the library on concrete values.
- `app/` is the command-line front end: it reads a saved game as JSON, puts it in canonical
  form, reports how its machines connect and what their futures are, and prints the future of
  an example machine graph.

Functions whose names start with `law_` are proof functions that state properties that hold
across several operations; each has a doc comment that says the law in words.
