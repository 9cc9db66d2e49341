//! Human output: sizes, numbers, timestamps and the per-command renderers.
pub mod diff;
pub mod history;
pub mod human;
pub mod inspect;
pub mod prune;
pub mod size;
pub mod snapshot;
pub mod status;
pub mod top;
