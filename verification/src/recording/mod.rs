pub mod oplog;
pub mod recovery;

pub use oplog::{OperationRecord, Oplog, RecordingError};
pub use recovery::{RecoveryEntry, RecoveryError};
