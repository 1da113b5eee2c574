//! Preparation and realization of lazily built tensors: scheduling caches,
//! execution-plan assembly, kernel autotuning workers and the layers on top.

pub mod batch;
pub mod beam;
pub mod beam_laws;
pub mod cache_laws;
pub mod compile;
pub mod compile_laws;
pub mod config;
pub mod device;
pub mod error;
pub mod error_laws;
pub mod form_laws;
pub mod frame;
pub mod graph;
pub mod graph_laws;
pub mod helper;
pub mod kernels;
pub mod layers;
pub mod opt;
pub mod opt_cache;
pub mod plan;
pub mod plan_laws;
pub mod pool;
pub mod pool_laws;
pub mod pre_schedule;
pub mod program;
pub mod realize;
pub mod realize_laws;
pub mod renderer;
pub mod renderer_laws;
pub mod request_laws;
pub mod schedule;
pub mod schedule_cache;
pub mod schedule_laws;
pub mod serve;
pub mod serve_laws;
pub mod shared_map;
pub mod slots;
pub mod text;
pub mod vars;
pub mod worker;
