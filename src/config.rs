//! Checks on the render settings, made before any pixel is computed.
use vstd::prelude::*;

verus! {

/// Whether the bytes of a `width` by `height` RGB image can be counted in a
/// usize.
pub open spec fn fits_buffer(width: u32, height: u32) -> bool {
    width as nat * height as nat * 3 <= usize::MAX as nat
}

/// A setting that makes the render meaningless or impossible.
#[derive(Debug, Clone, Copy, PartialEq, Eq, Structural)]
pub enum ConfigError {
    /// The canvas has no columns or no rows.
    EmptyCanvas,
    /// The canvas needs more bytes than an address can count.
    CanvasTooLarge,
    /// The iteration cap is zero, so no escape time can be measured.
    ZeroIterations,
    /// The escape radius is zero, so every point escapes at once.
    ZeroBound,
}

/// The error, if any, that the canvas dimensions give.
pub open spec fn canvas_error(width: u32, height: u32) -> Option<ConfigError> {
    if width == 0 || height == 0 {
        Some(ConfigError::EmptyCanvas)
    } else if !fits_buffer(width, height) {
        Some(ConfigError::CanvasTooLarge)
    } else {
        None
    }
}

/// The error, if any, that the integer settings of a render give: the canvas
/// first, then the iteration cap, then the escape radius.
pub open spec fn settings_error(width: u32, height: u32, max_iter: u32, bound: u32) -> Option<
    ConfigError,
> {
    match canvas_error(width, height) {
        Some(e) => Some(e),
        None => if max_iter == 0 {
            Some(ConfigError::ZeroIterations)
        } else if bound == 0 {
            Some(ConfigError::ZeroBound)
        } else {
            None
        },
    }
}

/// Checks the canvas dimensions.
pub fn check_canvas(width: u32, height: u32) -> (r: Result<(), ConfigError>)
    ensures
        r is Ok <==> canvas_error(width, height) is None,
        r is Err ==> canvas_error(width, height) == Some(r->Err_0),
{
    if width == 0 || height == 0 {
        return Err(ConfigError::EmptyCanvas);
    }
    assert(width as u64 * height as u64 <= u64::MAX) by (nonlinear_arith)
        requires
            width <= u32::MAX,
            height <= u32::MAX,
    ;
    let cells: u64 = width as u64 * height as u64;
    let limit: u64 = (usize::MAX / 3) as u64;
    if cells > limit {
        return Err(ConfigError::CanvasTooLarge);
    }
    Ok(())
}

/// Checks the canvas dimensions, the iteration cap and the escape radius of a
/// render.
pub fn check_settings(width: u32, height: u32, max_iter: u32, bound: u32) -> (r: Result<
    (),
    ConfigError,
>)
    ensures
        r is Ok <==> settings_error(width, height, max_iter, bound) is None,
        r is Err ==> settings_error(width, height, max_iter, bound) == Some(r->Err_0),
{
    check_canvas(width, height)?;
    if max_iter == 0 {
        return Err(ConfigError::ZeroIterations);
    }
    if bound == 0 {
        return Err(ConfigError::ZeroBound);
    }
    Ok(())
}

} // verus!
