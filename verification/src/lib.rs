//! Coordination core of a staged video-analytics pipeline: the stage
//! scheduler, the keyed attribute store and the lifecycle controller.

pub mod error;
pub mod id_sets;
pub mod match_query;
pub mod pipeline;
pub mod primitives;
pub mod telemetry;
pub mod test;
pub mod webserver;
