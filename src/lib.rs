//! Core of a task runner: configuration files declare named tasks that
//! extend one another, and files that extend one another. The library
//! models tasks and files, resolves inheritance in dependency order with
//! cycle detection, and takes the decisions of the execution engine; the
//! program around it reads files, renders templates and starts processes.

/// Errors and their messages.
pub mod errors;
/// Maps with text keys that keep insertion order.
pub mod keyed_map;
/// Text helpers.
pub mod text;
/// Fields shared by configuration files and tasks.
pub mod common;
/// Tasks, their commands, and task-level inheritance.
pub mod tasks;
/// Directed graphs of task dependencies.
pub mod graph;
/// Dependency graphs and topological resolution of task inheritance.
pub mod resolve;
/// Configuration files: flattening, lookups and file-level inheritance.
pub mod mom_files;
/// Loaded files and reading a file with its bases.
pub mod container;
/// Paths and the discovery walk.
pub mod paths;
/// Decisions of the execution engine.
pub mod engine;
/// Values handed to template filters.
pub mod value;
/// Template filters and command-line quoting.
pub mod filters;
/// Conditions, command splitting and cached script names.
pub mod render;
/// Laws that hold across the library's functions.
pub mod laws;
