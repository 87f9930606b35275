pub mod apply;
pub mod carry;
pub mod checkout;
pub mod errors;
pub mod history_apply;
pub mod history_model;
pub mod history_plan;
pub mod history_record;
pub mod keep;
pub mod model;
pub mod plan;
pub mod preflight;
pub mod prep;
pub mod preview;
pub mod present;
pub mod pull;
pub mod record;
pub mod record_commands;
pub mod resolve;
pub mod restore_apply;
pub mod saved;
pub mod source;
pub mod stash;
pub mod untracked;
pub mod state;

pub use errors::SwitchError;
pub use history_model::{HistorySwitchPlan, HistorySwitchRequest, HistorySwitchResult};
pub use model::{
    DeleteSavedWorkResult, PullResolution, QuickSwitchPhase, QuickSwitchPlan, QuickSwitchRequest,
    QuickSwitchResult, QuickSwitchStatus, RestoreSavedWorkResult, SavedWork, SavedWorkApplyPreview,
};
