pub mod apply;
pub mod errors;
pub mod model;
pub mod paths;
pub mod plan;
pub mod record;
pub mod worktree;
pub mod review;
pub mod state;

pub use errors::SplitError;
pub use model::{SplitBranchPlan, SplitBranchRequest, SplitBranchResult};
