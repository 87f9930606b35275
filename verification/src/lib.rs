pub mod git;
pub mod host;
pub mod inspection;
pub mod map;
pub mod order;
pub mod recording;
pub mod repository;
pub mod rewrite;
pub mod text;
pub mod revert;
pub mod split;
pub mod submodule_cleanup;
pub mod switch;
