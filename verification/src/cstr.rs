//! Building a `Path` from a borrowed C string, the form in which path
//! arguments arrive from user space.

use vstd::prelude::*;

use cstr_core::CStr;

use crate::path::{no_nul, Path};

verus! {

#[verifier::external_type_specification]
#[verifier::external_body]
pub struct ExCStr(CStr);

/// The bytes a C string holds before its trailing NUL.
pub uninterp spec fn cstr_bytes(c: &CStr) -> Seq<u8>;

/// Relies on cstr_core's `CStr::to_bytes`: it returns the bytes up to,
/// and not including, the trailing NUL, and a safely built `CStr` holds
/// no interior NUL, so the result is NUL-free.
#[verifier::external_body]
fn cstr_to_bytes(c: &CStr) -> (r: Vec<u8>)
    ensures
        r@ == cstr_bytes(c),
        no_nul(r@),
{
    c.to_bytes().to_vec()
}

impl Path {
    /// A path holding exactly the C string's bytes before its NUL.
    pub fn new(cstr: &CStr) -> (r: Path)
        ensures
            r@ == cstr_bytes(cstr),
    {
        let v = cstr_to_bytes(cstr);
        match Path::from_bytes(v.as_slice()) {
            Some(p) => p,
            None => vstd::pervasive::unreached(),
        }
    }
}

} // verus!
