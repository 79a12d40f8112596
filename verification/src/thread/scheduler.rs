//! Schedulers: who runs next.

pub mod priority;
