pub mod apply;
pub mod errors;
pub mod model;
pub mod plan;

pub use errors::SubmoduleCleanupError;
pub use model::{SubmoduleCleanupPlan, SubmoduleCleanupRequest, SubmoduleCleanupResult};
