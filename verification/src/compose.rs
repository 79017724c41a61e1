use vstd::prelude::*;
use crate::errors::GraphicsError;

verus! {

/// A frame descriptor the compositor may write through: positive
/// dimensions, a stride of at least four bytes per pixel of width, and a
/// buffer long enough that every scanline - the last one included - lies
/// inside it.
pub open spec fn descriptor_ok(width: int, height: int, stride: int, data_len: int) -> bool {
    &&& width >= 1
    &&& height >= 1
    &&& stride >= 4 * width
    &&& (height - 1) * stride + 4 * width <= data_len
}

/// Per-frame guard of the plugin surface: a missing buffer or a
/// non-positive dimension makes the call a silent no-op, never an error.
pub fn frame_skippable(data_null: bool, width: i64, height: i64) -> (r: bool)
    ensures
        r == (data_null || width <= 0 || height <= 0),
{
    data_null || width <= 0 || height <= 0
}

proof fn lemma_descriptor_bound(height: int, stride: int)
    by (nonlinear_arith)
    requires
        1 <= height <= 0x7fff_ffff,
        0 <= stride <= 0x7fff_ffff,
    ensures
        0 <= (height - 1) * stride <= 0x3fff_ffff_0000_0000,
{
}

/// Validates the frame descriptor a drawing surface would be bound to,
/// reporting the graphics-backend error on any descriptor whose writes
/// could not all stay inside the buffer.
pub fn frame_descriptor_ok(width: i32, height: i32, stride: i32, data_len: u64) -> (r: Result<
    (),
    GraphicsError,
>)
    ensures
        r is Ok <==> descriptor_ok(width as int, height as int, stride as int, data_len as int),
        r is Err ==> r == Err::<(), GraphicsError>(GraphicsError::BadDescriptor),
{
    if width < 1 || height < 1 {
        return Err(GraphicsError::BadDescriptor);
    }
    if stride < 0 || (stride as i64) < 4 * (width as i64) {
        return Err(GraphicsError::BadDescriptor);
    }
    proof {
        lemma_descriptor_bound(height as int, stride as int);
    }
    let rows: u64 = (height - 1) as u64 * (stride as u64);
    let need: u64 = rows + 4 * (width as u64);
    if need <= data_len {
        Ok(())
    } else {
        Err(GraphicsError::BadDescriptor)
    }
}

} // verus!
