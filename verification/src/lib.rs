//! Data composed from module graphs.
pub mod addition;
pub mod addition_laws;
pub mod check;
pub mod check_laws;
pub mod creation;
pub mod data_laws;
pub mod dependency;
pub mod graph_data;
pub mod laws;
pub mod lock;
pub mod module_graph;
pub mod npm;
pub mod resolution;
pub mod specifier;
pub mod specifier_map;
pub mod stored_laws;
pub mod text;
pub mod view_laws;
pub mod walk;
pub mod walk_laws;
