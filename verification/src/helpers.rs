//! Names of OpenGL error codes.
use vstd::prelude::*;

verus! {

pub const INVALID_ENUM: u32 = 0x0500;
pub const INVALID_VALUE: u32 = 0x0501;
pub const INVALID_OPERATION: u32 = 0x0502;
pub const STACK_OVERFLOW: u32 = 0x0503;
pub const STACK_UNDERFLOW: u32 = 0x0504;
pub const OUT_OF_MEMORY: u32 = 0x0505;
pub const INVALID_FRAMEBUFFER_OPERATION: u32 = 0x0506;

/// The name of OpenGL error code `err`.
pub open spec fn gl_error_name(err: u32) -> Seq<char> {
    if err == INVALID_ENUM {
        "INVALID_ENUM"@
    } else if err == INVALID_VALUE {
        "INVALID_VALUE"@
    } else if err == INVALID_OPERATION {
        "INVALID_OPERATION"@
    } else if err == INVALID_FRAMEBUFFER_OPERATION {
        "INVALID_FRAMEBUFFER_OPERATION"@
    } else if err == OUT_OF_MEMORY {
        "OUT_OF_MEMORY"@
    } else if err == STACK_UNDERFLOW {
        "STACK_UNDERFLOW"@
    } else if err == STACK_OVERFLOW {
        "STACK_OVERFLOW"@
    } else {
        "Unknown error"@
    }
}

/// The name of OpenGL error code `err`.
pub fn gl_err_to_str(err: u32) -> (r: &'static str)
    ensures
        r@ == gl_error_name(err),
{
    if err == INVALID_ENUM {
        "INVALID_ENUM"
    } else if err == INVALID_VALUE {
        "INVALID_VALUE"
    } else if err == INVALID_OPERATION {
        "INVALID_OPERATION"
    } else if err == INVALID_FRAMEBUFFER_OPERATION {
        "INVALID_FRAMEBUFFER_OPERATION"
    } else if err == OUT_OF_MEMORY {
        "OUT_OF_MEMORY"
    } else if err == STACK_UNDERFLOW {
        "STACK_UNDERFLOW"
    } else if err == STACK_OVERFLOW {
        "STACK_OVERFLOW"
    } else {
        "Unknown error"
    }
}

} // verus!
