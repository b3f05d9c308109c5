//! Verified core of a t-digest and of its amortized recorder.
//!
//! [`amortize`]: single observations are collected in a small fixed-capacity
//! buffer and handed out in batches, so that the expensive digest merge runs
//! once per batch instead of once per observation. Observations are carried
//! as the bit patterns of their double-precision values; the recorder never
//! reads them, it only decides when and which of them are merged.
//!
//! [`merge_order`]: the order in which a digest merge walks its existing
//! centroids and a sorted batch, decided on integer sort keys of the values.

use vstd::prelude::*;

pub mod amortize;
pub mod merge_order;

pub use amortize::{Amortizer, BUFFER_CAPACITY};
