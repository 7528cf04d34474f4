//! Concurrent execution core of a bucketed record-transform pipeline:
//! bounded object pools with ownership-transferring packets, chunked
//! append-only arenas, bucket hand-off and the per-worker transform loop,
//! all stated as verified state transitions.

pub mod lines_reader;
pub mod chunked_arena;
pub mod record;
pub mod kmers_transform;
pub mod bucket_coordinator;
pub mod packet;
pub mod queue_data;
pub mod debug_functions;
