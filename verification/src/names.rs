//! The field names the viewer treats specially: `DateTime` carries the
//! date filter, `Level` the level filter and row color, `Data` the opaque
//! payload. Names are byte strings; each has a spec constant and an
//! executable copy.

use vstd::prelude::*;

verus! {

/// The bytes of `DateTime`.
pub open spec fn datetime_name() -> Seq<u8> {
    seq![68u8, 97u8, 116u8, 101u8, 84u8, 105u8, 109u8, 101u8]
}

/// The bytes of `Level`.
pub open spec fn level_name() -> Seq<u8> {
    seq![76u8, 101u8, 118u8, 101u8, 108u8]
}

/// The bytes of `Data`.
pub open spec fn data_name() -> Seq<u8> {
    seq![68u8, 97u8, 116u8, 97u8]
}

/// `DateTime`, as bytes.
pub fn datetime_bytes() -> (v: Vec<u8>)
    ensures
        v@ == datetime_name(),
{
    let a: [u8; 8] = [68, 97, 116, 101, 84, 105, 109, 101];
    let v = vstd::slice::slice_to_vec(a.as_slice());
    proof {
        assert(v@ =~= datetime_name());
    }
    v
}

/// `Level`, as bytes.
pub fn level_bytes() -> (v: Vec<u8>)
    ensures
        v@ == level_name(),
{
    let a: [u8; 5] = [76, 101, 118, 101, 108];
    let v = vstd::slice::slice_to_vec(a.as_slice());
    proof {
        assert(v@ =~= level_name());
    }
    v
}

/// `Data`, as bytes.
pub fn data_bytes() -> (v: Vec<u8>)
    ensures
        v@ == data_name(),
{
    let a: [u8; 4] = [68, 97, 116, 97];
    let v = vstd::slice::slice_to_vec(a.as_slice());
    proof {
        assert(v@ =~= data_name());
    }
    v
}

} // verus!
