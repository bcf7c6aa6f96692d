//! A verified day-planning library: scoring, ranking and placement of tasks
//! on a single day's timeline.

pub mod api;
pub mod models;
pub mod plan;
pub mod scoring;
pub mod select;
pub mod time;
