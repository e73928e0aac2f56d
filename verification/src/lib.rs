//! An incremental, memoized task-execution engine.
//!
//! Strongly typed task arguments and results are converted to and from a
//! tagged, type-erased representation (`erased`, `task_input`); a task is
//! identified by a function identifier plus its erased argument sequence, and
//! its results live in ordered cells owned by the task record (`engine`).
//! Handles (`Vc`) locate cached values without owning them, reads record
//! dependency edges, and invalidation marks dependents stale so that they are
//! recomputed on the next demand.
//!
//! Around the engine stand the value types and decision procedures of its
//! collaborators: package identifiers of lockfile entries (`identifiers`),
//! asset identifiers and their canonical text (`ident`), glob-walk filtering
//! (`globs`), chunk-group bookkeeping (`chunk`), compile-time defines
//! (`compile_time`), and the watch daemon's lifecycle decisions (`daemon`).

pub mod chunk;
pub mod compile_time;
pub mod daemon;
pub mod engine;
pub mod erased;
pub mod errors;
pub mod globs;
pub mod ident;
pub mod identifiers;
pub mod task_input;
