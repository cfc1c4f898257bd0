//! Self-healing runtime support and compiler-side checks for the Codira
//! language, with machine-checked contracts.
pub mod algebraic_repair;
pub mod cast;
pub mod collector;
pub mod comptime_fold;
pub mod const_cycles;
pub mod contract;
pub mod data_derive;
pub mod deficiency;
pub mod diagnostic_messages;
pub mod engine;
pub mod fingerprint;
pub mod function_data;
pub mod hardware;
pub mod heal_attributes;
pub mod heal_contract;
pub mod hir;
pub mod item_tree;
pub mod language_server;
pub mod libloader;
pub mod lld;
pub mod mir;
pub mod mir_lower;
pub mod memory;
pub mod patcher;
pub mod recovery_graph;
pub mod refinement_check;
pub mod resolve;
pub mod reversible;
pub mod supervisor;
pub mod supervisor_validator;
pub mod synthesis;
mod text;
pub mod trap;
pub mod type_ref;
pub mod validators;
