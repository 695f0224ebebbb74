//! Histograms that count occurrences of `u64` values in buckets of bounded
//! relative error, and report on their distribution.
//!
//! All histograms share one layout of buckets, which covers a wide range of
//! values with little loss of precision: buckets of one width for the
//! smaller values, and for the larger ones buckets that double in width
//! with every power of two.
//!
//! * [`Histogram`] counts for a single writer
//! * [`atomic::Histogram`] counts for many writers at once
//! * [`compact::Histogram`] holds only the buckets that are not empty
//! * [`sliding_window`] reports on a bounded range of time, from which old
//!   values drop out
//!
//! The percentile queries are written once, in [`percentile`], against what
//! every histogram can be asked. Percentiles are whole numbers of
//! millionths of a percent.

pub mod atomic;
pub mod bucket;
pub mod coarse;
pub mod compact;
pub mod config;
pub mod counts;
pub mod errors;
pub mod exposition;
pub mod layout;
pub mod percentile;
pub mod precise;
pub mod sliding_window;
pub mod standard;

pub use bucket::Bucket;
pub use errors::{BuildError, Error};
pub use percentile::Histograms;
pub use precise::{Instant, UnixInstant};
pub use standard::Histogram;
