//! Item Data Box implementation.

use vstd::prelude::*;
use vstd::slice::slice_to_vec;
use crate::error::Result;

verus! {

/// Item Data Box.
///
/// This box contains data referenced by one or more items.
#[derive(Debug)]
pub struct ItemDataBox {
    /// Data.
    pub data: Vec<u8>,
}

impl ItemDataBox {
    /// Parse the box from a buffer: it keeps a copy of the data.
    pub fn parse(data: &[u8]) -> (r: Result<Self>)
        ensures
            r matches Ok(b) && b.data@ == data@,
    {
        Ok(Self { data: slice_to_vec(data) })
    }
}

} // verus!
