//! Job scheduling core of an embeddable script runtime: two FIFO queues of
//! deferred jobs and the driver that decides in which order they execute.

pub mod task;
pub mod queues;
pub mod model;
pub mod driver;
pub mod laws;
pub mod engine;
