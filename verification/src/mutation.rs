//! Mutation engine: walking a Python syntax tree and producing mutants.
//!
//! Operators propose mutations for the nodes of a tree, and the engine turns
//! these into mutants with a place in a file.
pub mod builtin;
pub mod diff;
pub mod diff_laws;
pub mod discover;
pub mod files;
pub mod filter;
pub mod generate;
pub mod main_guard;
pub mod mutant;
pub mod mutator;
pub mod occurs;
pub mod position;
pub mod propose;
pub mod registry;
pub mod seed;
pub mod walk;
pub mod wire;

pub use diff::MutationDiff;
pub use discover::discover_files;
pub use files::{generate_mutants_for_files, GenerationOptions};
pub use mutant::{Mutant, MutantResult, MutantStatus, SkipReason};
pub use mutator::{Mutation, MutationContext};
pub use registry::{build_registry, MutatorRegistry};
