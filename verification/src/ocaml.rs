//! What is known of OCaml programs: their functions and calls, and the
//! functions that flow through them as values.
pub mod words;
pub mod patterns;
pub mod bindings;
pub mod labels;
pub mod syntax;
pub mod node_laws;
pub mod expressions;
pub mod call_laws;
pub mod extract;
pub mod declarations;
pub mod structure;
pub mod function_laws;
pub mod fact_laws;
pub mod symbols;
pub mod scopes;
pub mod parameters;
pub mod aliases;
pub mod callable;
pub mod flow;
pub mod branch_laws;
pub mod specialize;
pub mod value_laws;
pub mod name_laws;
pub mod expansion;
pub mod instance_laws;
pub mod functors;
pub mod functor_laws;
pub mod calls;
pub mod local;
pub mod groups;
pub mod group_laws;
pub mod keep_laws;
pub mod events;
pub mod analyze;
