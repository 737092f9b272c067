//! What is known of Rust programs: how rustc names things, and how its
//! findings are merged with what the source says.
pub mod labels;
pub mod markers;
pub mod semantic;
pub mod closures;
pub mod calls;
pub mod merge;
pub mod merge_laws;
pub mod generics;
pub mod generic_laws;
pub mod contexts;
pub mod flows;
pub mod respecialize;
pub mod mir;
pub mod provenance;
pub mod dataflow;
pub mod analysis;
pub mod join_laws;
pub mod settle_laws;
pub mod transfer_laws;
pub mod dispatch_laws;
pub mod raw;
pub mod specialize;
pub mod instances;
pub mod collect;
pub mod once_laws;
pub mod project;
pub mod remap;
pub mod remap_laws;
pub mod items;
pub mod syntax;
pub mod lambdas;
pub mod signatures;
pub mod extract;
pub mod extract_laws;
pub mod item_laws;
pub mod fingerprint;
pub mod session;
pub mod worklist;
pub mod coercions;
pub mod coercion_laws;
pub mod stable;
pub mod flow_laws;
pub mod instance_laws;
