//! Trend Micro Locality Sensitive Hash: a streaming digest builder, the
//! distance between two digests, and the digest's raw and hex forms.
use vstd::prelude::*;

pub mod builder;
pub mod diff;
pub mod digest;
pub mod dispatch;
pub mod hash;
pub mod length;
pub mod pearson;
pub mod quartile;

pub use crate::builder::{ColoredTLSHBuilder, TLSHBuilder, TLSHError};
pub use crate::diff::{tlsh_diff_codes, tlsh_diff_codes_64, tlsh_diff_codes_lut, tlsh_diff_f3_64};
pub use crate::digest::TLSHDigestError;
pub use crate::dispatch::{select_backend, CpuFeatures, DiffBackend, DiffOverrides};
pub use crate::hash::{ColoredTLSH, TLSH};
pub use crate::length::calc_lvalue;
pub use crate::quartile::find_quartile;

verus! {

} // verus!
