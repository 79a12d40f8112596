//! Synchronisation between threads.

pub mod condvar;
pub mod laws;
pub mod sema;
pub mod sleep;

pub use self::condvar::Condvar;
pub use self::sema::Semaphore;
pub use self::sleep::Sleep;
