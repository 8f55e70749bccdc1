//! Multi-objective particle swarm optimisation: the expression language in which
//! problems are written, the rules that keep a Pareto archive non-dominated, and the
//! state machine of the terminal front end.

pub mod archive;
pub mod expr;
pub mod mopso;
pub mod paths;
pub mod problem;
pub mod report;
pub mod settings;
pub mod text;
pub mod tui;
