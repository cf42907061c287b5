//! Built-in mutation operators.
pub mod arithmetic;
pub mod augmented_assign;
pub mod bitwise;
pub mod boolean;
pub mod break_continue;
pub mod comparison;
pub mod constant;
pub mod exception;
pub mod name_sites;
pub mod negate_condition;
pub mod remove_decorator;
pub mod remove_super;
pub mod return_value;
pub mod statement_deletion;
pub mod unary;
pub mod variable_insert;
pub mod variable_replace;
pub mod zero_iteration;

pub use crate::mutation::registry::all_builtins;
