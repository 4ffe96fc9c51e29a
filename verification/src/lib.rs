//! Resource model of a distributed task scheduler.
//!
//! The crate describes what a worker offers (CPU sockets and named generic
//! resources), what a task asks for (resource requests with allocation
//! policies), how a job definition is checked before it is expanded into
//! tasks, and how the history of workers is indexed by time.

pub mod array;
pub mod defs;
pub mod descriptor;
pub mod descriptor_lemmas;
pub mod document;
pub mod error;
pub mod human_time;
pub mod ids;
pub mod messages;
pub mod request;
pub mod schema;
pub mod sequences;
pub mod text;
pub mod time_based_vec;
pub mod worker_timeline;
