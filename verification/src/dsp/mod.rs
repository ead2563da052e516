//! Cutting streams of samples into chunks, overlapping them, and arranging the bins
//! of a Fourier transform.

pub mod bins;
pub mod overlap;
pub mod owner;
pub mod rechunk;

pub use bins::{Fft, Ifft};
pub use overlap::{OverlapExpand, OverlapReduce};
pub use owner::Owner;
pub use rechunk::Rechunker;
