//! Distributed SQL query fabric: a planner that splits a query's scan stage
//! along its single table-scan leaf into per-file plans and distributes them
//! across zones, a scanner-side byte-range cache and scan runtime, and a
//! combiner-side rendezvous that correlates partial results from many
//! scanners with one merging plan.
//!
//! SQL parsing, object-store transfers, the columnar decoder and the RPC
//! transport are external collaborators: the host drives them and exchanges
//! plain values with this library.
//!
//! The modules, leaves first: [`schema`] and [`models`] hold the plain data
//! the tiers exchange; [`range_cache`] is the scanner's byte-range cache and
//! [`object_file`] its per-object handle; [`plan`] is the logical-plan tree
//! and its table sources; [`parquet_exec`] the columnar scan node;
//! [`scanner`] the scanner-side runtime (hbee); [`hcomb`] the combiner-side
//! rendezvous and its RPC core; [`planner`] the coordinator (fuse) that
//! splits and distributes; [`empty`] a data-less placeholder table.

pub mod empty;
pub mod error;
pub mod hcomb;
pub mod models;
pub mod object_file;
pub mod parquet_exec;
pub mod plan;
pub mod planner;
pub mod range_cache;
pub mod scanner;
pub mod schema;
