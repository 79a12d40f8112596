//! User processes.

pub mod args;
pub mod children;
pub mod exec;
pub mod files;
pub mod laws;

pub use self::children::{bury, exit, wait, WaitTable};
pub use self::exec::execute;
pub use self::files::{File, UserProc};
