//! The error probe: reads and clears the context's sticky error flag.
use vstd::prelude::*;

use crate::context::Context;

verus! {

/// The raw code for an invalid enumeration argument.
pub const INVALID_ENUM: u32 = 0x0500;

/// The raw code for an out-of-range value argument.
pub const INVALID_VALUE: u32 = 0x0501;

/// The raw code for an operation illegal in the current state.
pub const INVALID_OPERATION: u32 = 0x0502;

/// The raw code for an operation on an incomplete framebuffer.
pub const INVALID_FRAMEBUFFER_OPERATION: u32 = 0x0506;

/// The raw code for an invalid index argument.
pub const INVALID_INDEX: u32 = 0xFFFFFFFF;

/// The closed set of driver-reported error kinds, with a fallback for codes
/// this layer does not know.
#[derive(Clone, Copy, Debug, PartialEq, Eq, Structural)]
pub enum Error {
    InvalidEnum,
    InvalidFrameBufferOperation,
    InvalidIndex,
    InvalidOperation,
    InvalidValue,
    Unknown(u32),
}

/// The error kind a nonzero raw code converts to.
pub open spec fn spec_error_of(code: u32) -> Error {
    if code == INVALID_ENUM {
        Error::InvalidEnum
    } else if code == INVALID_FRAMEBUFFER_OPERATION {
        Error::InvalidFrameBufferOperation
    } else if code == INVALID_INDEX {
        Error::InvalidIndex
    } else if code == INVALID_OPERATION {
        Error::InvalidOperation
    } else if code == INVALID_VALUE {
        Error::InvalidValue
    } else {
        Error::Unknown(code)
    }
}

/// Polls the sticky error flag. Returns `Ok` exactly when the flag was clear,
/// and otherwise the typed kind of the recorded code; reading always clears
/// the flag, so a second check without an intervening failure returns `Ok`.
pub fn check(ctx: &mut Context) -> (r: Result<(), Error>)
    requires
        old(ctx).wf(),
    ensures
        final(ctx).wf(),
        final(ctx).error == 0,
        final(ctx).same_objects(*old(ctx)),
        final(ctx).same_slots(*old(ctx)),
        final(ctx).next_id == old(ctx).next_id,
        final(ctx).draws == old(ctx).draws,
        r is Ok <==> old(ctx).error == 0,
        old(ctx).error != 0 ==> r == Result::<(), Error>::Err(spec_error_of(old(ctx).error)),
{
    let code = ctx.error;
    ctx.error = 0;
    if code == 0 {
        Ok(())
    } else if code == INVALID_ENUM {
        Err(Error::InvalidEnum)
    } else if code == INVALID_FRAMEBUFFER_OPERATION {
        Err(Error::InvalidFrameBufferOperation)
    } else if code == INVALID_INDEX {
        Err(Error::InvalidIndex)
    } else if code == INVALID_OPERATION {
        Err(Error::InvalidOperation)
    } else if code == INVALID_VALUE {
        Err(Error::InvalidValue)
    } else {
        Err(Error::Unknown(code))
    }
}

} // verus!
