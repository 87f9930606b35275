pub mod errors;
pub mod materialize;
pub mod materialize_steps;
pub mod model;
pub mod objects;
pub mod planner;
pub mod preflight;

pub use errors::{ApplyError, RewriteError};
pub use model::{
    ApplyResult, CommitMetadata, CommitRewrite, EditMessageRequest, ObjectId, RefName, RepoPath,
    RewriteAction, RewriteOperation, RewritePlan, Signature, TreeEntry, UncommitRequest,
};
