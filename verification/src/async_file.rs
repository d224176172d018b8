//! Streams that can be read and moved back to their start.

use vstd::prelude::*;

verus! {

/// `tokio::fs::File`, an open file of the tokio runtime. Nothing is claimed
/// of it: it is named only so that it can be marked as an [`AsyncFile`].
#[verifier::external_type_specification]
#[verifier::external_body]
pub struct ExFile(tokio::fs::File);

/// Marks a byte stream that can be asked to go back to its start, so that it
/// can be read a second time from its first byte. The reading and the moving
/// are the caller's, and so are the bounds that they need.
pub trait AsyncFile: Send {
}

impl<T: AsyncFile> AsyncFile for &mut T {
}

impl AsyncFile for tokio::fs::File {
}

} // verus!
