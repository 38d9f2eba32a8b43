//! How far a reader has come in a file.

use vstd::prelude::*;

verus! {

/// Nothing was read yet.
pub struct Start;

/// The header was read; the seek tables come next.
pub struct HeaderRead;

/// The seek tables were read; the packets come next.
pub struct SeektablesRead;

} // verus!
