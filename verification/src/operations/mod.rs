pub mod compress;
pub mod copy;
pub mod diff;
pub mod move_many;
pub mod move_path;
pub mod pipeline;
pub mod remove;
pub mod remove_filter;
pub mod sync;
pub mod watch;
