//! Request guards.

use vstd::prelude::*;

use crate::text::bytes_eq;

verus! {

/// The bytes of `true`, the value that marks a request sent by datastar.
pub open spec fn datastar_marker() -> Seq<u8> {
    seq![116u8, 114u8, 117u8, 101u8]
}

/// Whether a `datastar-request` header value marks a datastar request: it
/// must be present and read `true`.
pub open spec fn is_datastar_value(value: Option<Seq<u8>>) -> bool {
    value == Some(datastar_marker())
}

/// Whether the request was sent by datastar.
pub struct DatastarRequest(pub bool);

impl DatastarRequest {
    /// Reads the `datastar-request` header value, where the request has one.
    pub fn from_header_value(value: Option<&[u8]>) -> (r: Self)
        ensures
            r.0 == is_datastar_value(match value { Some(v) => Some(v@), None => None }),
    {
        let marker: [u8; 4] = [116u8, 114u8, 117u8, 101u8];
        match value {
            Some(v) => {
                let m = marker.as_slice();
                assert(m@ == datastar_marker());
                DatastarRequest(bytes_eq(v, m))
            },
            None => DatastarRequest(false),
        }
    }
}

/// A request is a datastar request exactly when its `datastar-request`
/// header is present and reads `true`, byte for byte.
pub proof fn lemma_datastar_request_law(value: Option<Seq<u8>>)
    ensures
        is_datastar_value(value) <==> value == Some(seq![116u8, 114u8, 117u8, 101u8]),
        is_datastar_value(None) == false,
{
}

} // verus!
