pub mod cli;
pub mod context;
pub mod diff;
pub mod log;
pub mod numbering;
pub mod order;
pub mod patch_laws;
pub mod scope;
pub mod worktree;
