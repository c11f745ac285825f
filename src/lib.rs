//! Deterministic pivot selection for order statistics: the median of
//! five by a fixed comparison network, and the median-of-medians pivot
//! whose rank is guaranteed to fall between the 30th and 70th percentile.

pub mod rank;
pub mod mom;
pub mod select;

pub use mom::{median5, median_of_medians};
pub use select::select_nth;
