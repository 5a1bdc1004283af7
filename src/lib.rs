//! Focus-session enforcement: the timer state machine with wall-clock drift correction
//! and restart recovery, the rules that decide which processes to terminate, and the
//! text that blocking writes into the hosts file and the packet filter.

pub mod app_blocker;
pub mod config;
pub mod coordination;
pub mod errors;
pub mod focus;
pub mod local_server;
pub mod scheduler;
pub mod session;
pub mod site_blocker;
pub mod text;
pub mod timer;

pub use errors::AppError;
