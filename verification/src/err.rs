//! Classification of status codes returned by display-protocol requests.

use vstd::prelude::*;

verus! {

/// Error kinds reported by the display protocol for failed requests.
#[derive(Debug, Clone, Copy, PartialEq, Eq, Structural)]
pub enum XlibErr {
    Access,
    Value,
    Window,
    Other,
}

/// Protocol status code for a denied access.
pub const BAD_ACCESS: u8 = 10;
/// Protocol status code for an out-of-range value.
pub const BAD_VALUE: u8 = 2;
/// Protocol status code for an invalid window.
pub const BAD_WINDOW: u8 = 3;

/// What `x_expect` returns for a raw status `v` against the expected code `ok`.
pub open spec fn spec_x_expect(ok: u8, v: i32) -> Result<(), XlibErr> {
    let b = v as u8;
    if b == ok {
        Ok(())
    } else if b == BAD_ACCESS {
        Err(XlibErr::Access)
    } else if b == BAD_VALUE {
        Err(XlibErr::Value)
    } else if b == BAD_WINDOW {
        Err(XlibErr::Window)
    } else {
        Err(XlibErr::Other)
    }
}

/// Maps a raw status `v` to `Ok` when its low byte equals the expected
/// code `ok`, and to the matching error variant otherwise.
pub fn x_expect(ok: u8, v: i32) -> (r: Result<(), XlibErr>)
    ensures
        r == spec_x_expect(ok, v),
{
    let b: u8 = #[verifier::truncate] (v as u8);
    if b == ok {
        Ok(())
    } else if b == BAD_ACCESS {
        Err(XlibErr::Access)
    } else if b == BAD_VALUE {
        Err(XlibErr::Value)
    } else if b == BAD_WINDOW {
        Err(XlibErr::Window)
    } else {
        Err(XlibErr::Other)
    }
}

/// Status check for calls whose success code is 1.
pub fn x_err(v: i32) -> (r: Result<(), XlibErr>)
    ensures
        r == spec_x_expect(1, v),
{
    x_err_o(v, 1)
}

/// Status check for calls with an explicit success code.
pub fn x_err_o(v: i32, ok: u8) -> (r: Result<(), XlibErr>)
    ensures
        r == spec_x_expect(ok, v),
{
    x_expect(ok, v)
}

} // verus!
