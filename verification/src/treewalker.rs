//! The tree-walking VM: values, types, bytecode and the executor's decisions.

pub mod assembler;
pub mod bytecode;
pub mod exec;
pub mod fire_rules;
pub mod node;
pub mod order;
pub mod runs;
pub mod schedule;
pub mod shared;
pub mod slots;
pub mod store_model;
pub mod vm;
pub mod vm_value;
pub mod writes;
