//! The decisions of the WebAssembly entry points: what an output write
//! returns, the version text, and the smoke-test addition. The host shim
//! moves the bytes.
use vstd::prelude::*;

verus! {

/// The version text the module reports.
pub fn version() -> (r: &'static str)
    ensures
        r@ == "burrower-core 0.0.1"@,
{
    "burrower-core 0.0.1"
}

/// What writing `len` bytes into an output buffer of capacity `out_cap`
/// returns: `-2` for a null buffer, `-1` when the bytes do not fit, and
/// otherwise the number of bytes written, as an `i32` (wrapping).
pub fn write_status(out_is_null: bool, len: usize, out_cap: usize) -> (r: i32)
    ensures
        out_is_null ==> r == -2,
        !out_is_null && len > out_cap ==> r == -1,
        !out_is_null && len <= out_cap ==> r == len as i32,
{
    if out_is_null {
        -2
    } else if len > out_cap {
        -1
    } else {
        len as i32
    }
}

/// Whether the bytes are copied into the buffer: the buffer is not null
/// and they fit.
pub fn writes_output(out_is_null: bool, len: usize, out_cap: usize) -> (r: bool)
    ensures
        r == (!out_is_null && len <= out_cap),
{
    !out_is_null && len <= out_cap
}

/// `a + b`, wrapping on overflow.
pub fn add(a: u32, b: u32) -> (r: u32)
    ensures
        r == (a + b) % 0x1_0000_0000,
{
    a.wrapping_add(b)
}

} // verus!
