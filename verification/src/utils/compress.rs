//! The content codings a stream can be compressed with.

use vstd::prelude::*;

verus! {

/// Stream compressors.
#[derive(Debug, Clone, Copy, PartialEq, Eq, Structural)]
pub enum CompressType {
    Zstd,
    Gzip,
    Deflate,
    Brotli,
}

} // verus!
