//! An aggregation tree over a mutable graph of nodes: aggregating nodes keep
//! a counted set of followers and the summed info of those followers, so
//! that what changed below a node can be read from one place. Edge insertion
//! and removal keep the followers of each node and the uppers of each
//! follower in step, raise aggregation numbers through a balance queue, and
//! restructure follower sets that grew too large to notify.
//!
//! Alongside it: `/`-separated path handling, a code builder that tracks
//! source-map sections, and a few small value types.

pub mod count_hash_set;
pub mod info;
pub mod node;
pub mod graph;
pub mod balance_queue;
pub mod new_edge;
pub mod notify_new_follower;
pub mod notify_lost_follower;
pub mod aggregation_tree;
pub mod laws;
pub mod code_builder;
mod text;
pub mod util;
pub mod path_model;
pub mod paths;
pub mod context;
pub mod cli;
pub mod module_id;
pub mod task_error;
