//! Script construction and result interpretation for a console that manages
//! the local Windows Task Scheduler through PowerShell.

pub mod text;
pub mod tasks;
pub mod server;
