//! Header descriptors.
use vstd::prelude::*;

verus! {

/// Describes where a protocol header ends and how large its payload is.
pub trait EndOffset: Sized {
    /// Offset (in bytes) of the end of this header from its start.
    fn offset(&self) -> (res: usize);

    /// Size of this header in bytes.
    fn size() -> (res: usize);

    /// Size of the payload that follows this header, given the number of bytes
    /// that remain in the packet after it.
    fn payload_size(&self, hint: usize) -> (res: usize);

    /// Whether this header may follow `prev`.
    fn check_correct(&self, prev: &Self) -> (res: bool);
}

/// The empty header: it occupies no bytes, and everything after it is payload.
#[derive(Default)]
pub struct NullHeader;

impl NullHeader {
    /// The textual name of this header.
    pub fn to_string(&self) -> (res: String)
        ensures
            res@ == "null"@,
    {
        "null".to_owned()
    }
}

impl EndOffset for NullHeader {
    fn offset(&self) -> (res: usize)
        ensures
            res == 0,
    {
        0
    }

    fn size() -> (res: usize)
        ensures
            res == 0,
    {
        0
    }

    fn payload_size(&self, hint: usize) -> (res: usize)
        ensures
            res == hint,
    {
        hint
    }

    fn check_correct(&self, prev: &NullHeader) -> (res: bool)
        ensures
            res,
    {
        true
    }
}

} // verus!
