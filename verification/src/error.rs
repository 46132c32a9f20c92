use vstd::prelude::*;

verus! {

/// Why an operation of the cache did not complete.
#[derive(Clone, Copy, Debug, PartialEq, Eq, Structural)]
pub enum CacheError {
    /// The backing store could not hand out a connection.
    StoreUnavailable,
    /// The backing store rejected a command or failed while running it.
    StoreOperationFailed,
    /// Stored bytes do not have the shape of the value that was asked for.
    CorruptRecord,
    /// A key or member could not be serialised.
    EncodeError,
}

impl CacheError {
    /// A short description for logs.
    pub fn message(&self) -> (r: &'static str)
        ensures
            r@ == (match *self {
                CacheError::StoreUnavailable => "was not able to get a store connection"@,
                CacheError::StoreOperationFailed => "store command error"@,
                CacheError::CorruptRecord => "decode error"@,
                CacheError::EncodeError => "encode error"@,
            }),
    {
        match self {
            CacheError::StoreUnavailable => "was not able to get a store connection",
            CacheError::StoreOperationFailed => "store command error",
            CacheError::CorruptRecord => "decode error",
            CacheError::EncodeError => "encode error",
        }
    }
}

} // verus!
