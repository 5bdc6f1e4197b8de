//! Median transactions per second over a window of finalized blocks.
//!
//! A run has three stages. A [`source::BlockSource`] gathers the blocks of the window,
//! newest first from the finalized head or as the node announces them, and makes one
//! [`record::BlockRecord`] of each with [`extract::extract`]. The records, in ascending
//! order of height, are the series. [`tps::compute_median_tps`] turns the series into
//! samples, one for each pair of neighbouring timestamped records, and takes their
//! median.
//!
//! Nothing here talks to a node. The source says which call to make next and takes the
//! answer as a value; see [`source`].
//!
//! Throughput is never rounded on the way. A sample keeps the transaction count and
//! the two timestamps it was measured from, and samples are ordered by exact
//! fractions; see [`rate`] and [`sample`].

pub mod endpoint;
pub mod extract;
pub mod rate;
pub mod record;
pub mod sample;
pub mod source;
pub mod stream;
pub mod tps;
pub mod walk;
