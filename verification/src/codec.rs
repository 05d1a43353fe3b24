//! The untyped value tree that the wire codec hands over.

use vstd::prelude::*;

verus! {

/// One decoded wire message, before any meaning is given to it.
#[derive(Debug, PartialEq, Eq)]
pub enum RespValue {
    SimpleString(String),
    Error(String),
    Integer(i64),
    BulkString(Option<Vec<u8>>),
    Array(Option<Vec<RespValue>>),
}

} // verus!
