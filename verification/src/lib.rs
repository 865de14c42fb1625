//! Execution core of a schema-driven transactional database layered over an
//! ordered key-value store: the storage planner, the path walker that derives
//! concrete keys, the VM value model, and the decision logic of the query
//! script executor.

pub mod bytes;
pub mod decimal;
pub mod pathwalker;
pub mod query;
pub mod schema;
pub mod seqs;
pub mod storage_plan;
pub mod strmap;
pub mod sysquery;
pub mod treewalker;
pub mod value;
