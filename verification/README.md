# mopso-cli

Multi-objective particle swarm optimisation (MOPSO) from the command line and in a
terminal interface: built-in benchmark problems (ZDT1-3, welded beam, pressure
vessel) or problems written as expressions in a TOML file, a Pareto archive with
grid-based leader selection and crowding-distance pruning, hypervolume / IGD /
spacing metrics, multi-run statistics and benchmark reports.

## Layout

- `src/` is the verified library (Verus):
  - `expr` - tokenizer and recursive-descent parser of objective and constraint
    expressions, variable binding, with a grammar stated as spec functions;
  - `archive` - Pareto dominance with constraints, the archive's insertion,
    pruning and leader selection, the merge of several fronts;
  - `problem` - built-in problem names and the compilation of written problems;
  - `mopso` - early stopping, the adaptive inertia step, progress reporting;
  - `report`, `settings`, `paths`, `text` - report ordering, defaults and
    overrides, file names, text helpers;
  - `tui::app` - the state machine of the terminal interface.
- `app/` is the program around it: command line, configuration files, real-valued
  arithmetic (particles, metrics, expression evaluation), terminal drawing,
  threads and file output.
- `tests/` exercises the library.

Real numbers never enter the library: where a decision depends on them, the
program compares them and hands the library the outcome.
