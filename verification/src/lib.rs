//! Streaming write adapter between a display-controller driver and a
//! single serial transfer engine with DMA.

pub mod encoder;
pub mod error;
pub mod interface;
pub mod payload;
pub mod pipeline;
pub mod planner;
pub mod pool;
pub mod slot;
