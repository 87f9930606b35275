pub mod apply;
pub mod errors;
pub mod model;
pub mod paths;
pub mod plan;

pub use errors::RevertError;
pub use model::{RevertPlan, RevertRequest, RevertResult, RevertTarget};
