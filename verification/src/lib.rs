//! Hotkey dispatch engine: encodes configured key bindings into canonical
//! hotkey codes, plans their registration with the OS hotkey subsystem,
//! dispatches delivered hotkey events to shell commands, guards against a
//! second daemon instance, and classifies file-change polls for config reload.

pub mod config;
pub mod dispatch;
pub mod error;
pub mod guard;
pub mod text;
pub mod watcher;

pub use error::AlreadyRunning;
pub use error::AppError;
pub use error::InvalidBinding;
