use vstd::prelude::*;

verus! {

/// The ways a read from the store, or a decode of what it holds, can fail.
#[derive(Debug, Clone, Copy, PartialEq, Eq, Structural)]
pub enum StoreError {
    /// A file, index entry or sector that is not there.
    NotFound,
    /// Bytes that do not have the expected shape.
    InvalidData,
    /// A compression codec refused its input.
    CompressionFailure,
}

} // verus!

verus! {

/// The bytes of a byte-vector result.
pub open spec fn bytes_result(r: Result<Vec<u8>, StoreError>) -> Result<Seq<u8>, StoreError> {
    match r {
        Ok(v) => Ok(v@),
        Err(e) => Err(e),
    }
}

} // verus!
