//! A staged multi-result supercompilation kernel: graphs and lazy graphs of
//! configurations, the drivers that build them from a world of
//! supercompilation, cleaners that prune them, and statistics computed
//! without unrolling.
pub mod big_step_sc;
pub mod big_step_sc8;
pub mod counters;
pub mod graph;
pub mod misc;
pub mod mock_sc_world;
pub mod statistics;
