//! From the untyped value of one request to its flat list of arguments.

use crate::codec::RespValue;
use vstd::prelude::*;

verus! {

/// The value did not have the shape of a request: an array, not null, of
/// bulk strings, none of them null.
#[derive(Debug, Clone, Copy, PartialEq, Eq)]
pub struct DecodeError;

/// What a list of buffers holds: the bytes of each, in order.
pub open spec fn contents(buffers: Seq<Vec<u8>>) -> Seq<Seq<u8>> {
    Seq::new(buffers.len(), |i: int| buffers[i]@)
}

/// The bytes of a bulk string that is not null; `None` for any other value.
pub open spec fn bulk_payload(value: RespValue) -> Option<Seq<u8>> {
    match value {
        RespValue::BulkString(Some(buffer)) => Some(buffer@),
        _ => None,
    }
}

/// The elements of an array that is not null; `None` for any other value.
pub open spec fn array_items(value: RespValue) -> Option<Seq<RespValue>> {
    match value {
        RespValue::Array(Some(items)) => Some(items@),
        _ => None,
    }
}

/// Every one of `items` is a bulk string that is not null.
pub open spec fn all_bulk(items: Seq<RespValue>) -> bool {
    forall|i: int| 0 <= i < items.len() ==> bulk_payload(#[trigger] items[i]) is Some
}

/// The arguments that a value carries: the payloads of its elements in order,
/// where the value is an array of bulk strings. `None` for any other shape.
pub open spec fn arguments_of(value: RespValue) -> Option<Seq<Seq<u8>>> {
    match array_items(value) {
        Some(items) => if all_bulk(items) {
            Some(Seq::new(items.len(), |i: int| bulk_payload(items[i]).unwrap()))
        } else {
            None
        },
        None => None,
    }
}

/// Takes the arguments out of a request value.
///
/// Succeeds exactly on an array that is not null and whose elements are all
/// bulk strings that are not null, and then returns their buffers in order.
/// Every other shape is a `DecodeError`; nothing partial is returned.
pub fn arguments_from_resp_value(value: RespValue) -> (r: Result<Vec<Vec<u8>>, DecodeError>)
    ensures
        match r {
            Ok(args) => arguments_of(value) == Some(contents(args@)),
            Err(_) => arguments_of(value) is None,
        },
{
    match value {
        RespValue::Array(Some(array)) => {
            let mut args: Vec<Vec<u8>> = Vec::new();
            let ghost items = array@;
            for element in it: array
                invariant
                    it.seq() == items,
                    array_items(value) == Some(items),
                    args@.len() == it.index(),
                    forall|j: int|
                        0 <= j < args@.len() ==> bulk_payload(items[j]) == Some(
                            #[trigger] args@[j]@,
                        ),
            {
                match element {
                    RespValue::BulkString(Some(buffer)) => {
                        args.push(buffer);
                    },
                    _ => {
                        assert(bulk_payload(items[it.index() as int]) is None);
                        return Err(DecodeError);
                    },
                }
            }
            proof {
                assert(args@.len() == items.len());
                assert forall|i: int| 0 <= i < items.len() implies bulk_payload(
                    #[trigger] items[i],
                ) is Some by {
                    assert(bulk_payload(items[i]) == Some(args@[i]@));
                }
                assert(contents(args@) =~= arguments_of(value).unwrap());
            }
            Ok(args)
        },
        _ => Err(DecodeError),
    }
}

} // verus!
