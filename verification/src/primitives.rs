//! The values that the pipeline carries and the attribute store keeps.

pub mod attribute;
pub mod attribute_list;
pub mod frame;
pub mod frame_batch;
pub mod frame_update;
pub mod object;
