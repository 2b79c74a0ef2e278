//! Checks on the decoded image before any numeric work starts.
use vstd::prelude::*;

verus! {

/// `n` is a positive power of two.
pub open spec fn is_pow2(n: int) -> bool
    decreases n,
{
    if n <= 0 {
        false
    } else if n == 1 {
        true
    } else {
        n % 2 == 0 && is_pow2(n / 2)
    }
}

/// Why an image was refused.
#[derive(Debug, Clone, Copy, PartialEq, Eq, Structural)]
pub enum ImageError {
    /// The samples are not 8-bit RGB.
    WrongColorType,
    /// Width and height differ.
    NotSquare,
    /// The input holds more than one frame.
    MultiFrame,
    /// The sample buffer does not hold three bytes per pixel.
    WrongLength,
    /// The side length is not a power of two.
    NotPowerOfTwo,
    /// A grid does not hold `size * size` elements.
    WrongGridLength,
    /// The resampling coordinates do not cover the grid, or one lies past it.
    SampleOutsideGrid,
}

/// Whether `n` is a positive power of two.
pub fn is_power_of_two(n: usize) -> (r: bool)
    ensures
        r == is_pow2(n as int),
{
    if n == 0 {
        return false;
    }
    let mut m: usize = n;
    while m > 1 && m % 2 == 0
        invariant
            m >= 1,
            is_pow2(n as int) == is_pow2(m as int),
        decreases m,
    {
        m = m / 2;
    }
    m == 1
}

/// Accepts a side length for the transform, which only a power of two suits.
pub fn check_side(size: usize) -> (r: Result<(), ImageError>)
    ensures
        r is Ok <==> is_pow2(size as int),
        r is Err ==> r == Err::<(), ImageError>(ImageError::NotPowerOfTwo),
{
    if is_power_of_two(size) {
        Ok(())
    } else {
        Err(ImageError::NotPowerOfTwo)
    }
}

/// The error that a decoded image with these properties earns, if any,
/// in the order the checks are made.
pub open spec fn image_verdict(
    width: int,
    height: int,
    rgb8: bool,
    single_frame: bool,
    buf_len: int,
) -> Option<ImageError> {
    if !rgb8 {
        Some(ImageError::WrongColorType)
    } else if width != height {
        Some(ImageError::NotSquare)
    } else if buf_len != 3 * width * width {
        Some(ImageError::WrongLength)
    } else if !single_frame {
        Some(ImageError::MultiFrame)
    } else if !is_pow2(width) {
        Some(ImageError::NotPowerOfTwo)
    } else {
        None
    }
}

/// Validates a decoded image: 8-bit RGB, square, one frame, three bytes per
/// pixel and a power-of-two side. Returns the side length.
pub fn check_image(
    width: u32,
    height: u32,
    rgb8: bool,
    single_frame: bool,
    buf_len: usize,
) -> (r: Result<usize, ImageError>)
    ensures
        match image_verdict(width as int, height as int, rgb8, single_frame, buf_len as int) {
            Some(e) => r == Err::<usize, ImageError>(e),
            None => r == Ok::<usize, ImageError>(width as usize),
        },
{
    if !rgb8 {
        return Err(ImageError::WrongColorType);
    }
    if width != height {
        return Err(ImageError::NotSquare);
    }
    let w: u128 = width as u128;
    assert(w * w <= 0xffff_ffff_ffff_ffff && 3 * (w * w) == 3 * (width as int) * (width as int))
        by (nonlinear_arith)
        requires w <= 0xffff_ffff, w == width,
    ;
    if buf_len as u128 != 3 * (w * w) {
        return Err(ImageError::WrongLength);
    }
    if !single_frame {
        return Err(ImageError::MultiFrame);
    }
    let size = width as usize;
    match check_side(size) {
        Ok(()) => Ok(size),
        Err(e) => Err(e),
    }
}

} // verus!
