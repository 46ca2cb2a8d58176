//! Extraction core for LHA archives produced on the Amiga: header
//! interpretation, host-safe name transcoding, case-folding path resolution,
//! and the emulator metadata sidecar encoders.
use vstd::prelude::*;

pub mod amiberry;
pub mod dircache;
pub mod emutrait;
pub mod fileinfo;
pub mod fsuae;
pub mod noemu;
pub mod transcode;

verus! {

/// What can go wrong inside the core: an unknown header level, or a
/// metadata field that would not fit its fixed-size slot. I/O failures
/// belong to the extraction driver around the core.
#[derive(Clone, Copy, PartialEq, Eq, Structural, Debug)]
pub enum UnlhaError {
    /// The header's format level is not one of the three known values.
    UnsupportedFormat,
    /// A metadata value would overflow its fixed-size record slot.
    EncodingOverflow,
}

} // verus!
