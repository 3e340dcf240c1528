//! Reconciles the state of a _ChRIS_ backend with a manifest.
//!
//! A manifest lists the users and plugins that a backend should hold. The
//! planner ([`plan`]) turns it into an acyclic graph of steps; the scheduler
//! ([`exec_tree`]) works the graph off in topological order, handing values
//! from finished steps to the steps that wait for them; each step
//! ([`exec_step`]) searches the backend for its resource and creates or
//! changes it where needed; the summary ([`fully_exec_tree`]) keeps, for each
//! resource, the most important thing that happened to it.
//!
//! A run ([`runner`]) keeps the scheduler together with the steps that are
//! under way, so that only steps of the plan hand in values.
//!
//! Nothing here sends a request: the scheduler and the steps say what is to
//! be sent, and take what came back.
pub mod address;
pub mod canonicalize;
pub mod container;
pub mod dag;
pub mod dependency;
pub mod dependency_spy;
pub mod dependency_tree;
pub mod effect;
pub mod exec_step;
pub mod exec_tree;
pub mod fully_exec_tree;
pub mod plan;
pub mod plugin_spec;
pub mod provided;
pub mod request_builder;
pub mod runner;
pub mod schedule;
pub mod share_target;
pub mod spec;
pub mod state;
pub mod step;
pub mod steps;
pub mod text;
pub mod types;
