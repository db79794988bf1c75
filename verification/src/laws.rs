//! What holds of every read, binding, merge, and document.

pub mod binding;
pub mod blocks;
pub mod clock;
pub mod cutting;
pub mod edge;
pub mod events;
pub mod figures;
pub mod jobs;
pub mod lines;
pub mod markers;
pub mod merging;
pub mod naming;
pub mod nodes;
pub mod pairing;
pub mod persisting;
pub mod phases;
pub mod pipeline;
pub mod results;
pub mod rows;
pub mod spans;
pub mod stages;
pub mod summary;
pub mod texts;
pub mod timeline;
pub mod wiring;
pub mod work;
