//! Merging of static archives into one, with control over which symbols
//! stay globally visible.
//!
//! The library holds the decisions of the merge: which tool runs with which
//! arguments, how its outcome becomes a result, which symbols are localized,
//! and in which order the members are packed. Running processes and touching
//! files is left to the caller.

mod arbuilder;
mod archive;
mod classify;
mod error;
mod merge;
mod order;
mod session;
mod symbols;
mod tools;

pub use arbuilder::common::CommonArBuilder;
pub use arbuilder::mac::MacArBuilder;
pub use error::MergeError;
pub use tools::{tool_result, resolve_tool, ToolConfig, ToolInvocation, ToolOutcome};
pub use classify::{ArmergeKeepOrRemove, Binding, Symbol, SymbolPattern, SymbolPolicy};
pub use order::{is_order_entry, merge_order, order_entries};
pub use merge::{gather_members, InputArchive, ObjectMember};
pub use merge::{compile_policy, plan_merge, MergePlan};
pub use symbols::parse_nm_output;
pub use archive::read_archive;
pub use session::{ArMerger, Phase, Step};
