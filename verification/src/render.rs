//! The layout of the rendered image.

use vstd::prelude::*;

verus! {

/// The scanline of the image plane that the row `row` of the image holds,
/// counted from the top of an image of `image_height` rows: rows run from the
/// top down, scanlines from the bottom up.
pub open spec fn scanline_of(image_height: int, row: int) -> int {
    image_height - 1 - row
}

/// The scanline of the image plane that the row `row` of the image holds.
pub fn scanline(image_height: i32, row: usize) -> (j: i32)
    requires
        0 <= row < image_height,
    ensures
        j == scanline_of(image_height as int, row as int),
        0 <= j < image_height,
{
    image_height - 1 - (row as i32)
}

/// The number of pixels of an image, if it can be counted: none for a width
/// or height below zero, and none if the number is too great.
pub fn pixel_count(image_width: i32, image_height: i32) -> (count: Option<usize>)
    ensures
        match count {
            Some(n) => image_width >= 0 && image_height >= 0 && n == image_width * image_height,
            None => image_width < 0 || image_height < 0 || image_width * image_height
                > usize::MAX,
        },
{
    if image_width < 0 || image_height < 0 {
        return None;
    }
    let w: usize = image_width as usize;
    let h: usize = image_height as usize;
    w.checked_mul(h)
}

/// The top row holds the highest scanline and the bottom row the lowest, and
/// the row of the scanline of a row is that row again.
pub proof fn lemma_rows_are_reversed(image_height: int, row: int)
    requires
        0 <= row < image_height,
    ensures
        scanline_of(image_height, 0) == image_height - 1,
        scanline_of(image_height, image_height - 1) == 0,
        scanline_of(image_height, scanline_of(image_height, row)) == row,
{
}

} // verus!
