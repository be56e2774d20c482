//! Surface colours.

use vstd::prelude::*;
use crate::vec3::{Point3, Scalar, Vec3};

verus! {

/// A colour: red, green and blue.
pub type Color = Vec3;

/// Anything that gives a surface its colour.
pub trait Texture {
    /// The colour at the texture coordinates `(u, v)` and the point `p`.
    spec fn color_at(&self, u: Scalar, v: Scalar, p: Point3) -> Color;

    /// The colour at the texture coordinates `(u, v)` and the point `p`.
    fn value(&self, u: Scalar, v: Scalar, p: &Point3) -> (c: Color)
        ensures
            c == self.color_at(u, v, *p),
    ;
}

/// One colour everywhere.
#[derive(Clone, Copy, Debug, PartialEq, Eq, Structural)]
pub struct SolidColor {
    pub color_value: Color,
}

impl SolidColor {
    /// The texture that is `color` everywhere.
    pub fn new(color: Color) -> (t: SolidColor)
        ensures
            t.color_value == color,
    {
        SolidColor { color_value: color }
    }

    /// The texture that is the colour `(r, g, b)` everywhere.
    pub fn from_rgb(r: Scalar, g: Scalar, b: Scalar) -> (t: SolidColor)
        ensures
            t.color_value == (Vec3 { x: r, y: g, z: b }),
    {
        SolidColor { color_value: Vec3::new(r, g, b) }
    }
}

impl Texture for SolidColor {
    open spec fn color_at(&self, u: Scalar, v: Scalar, p: Point3) -> Color {
        self.color_value
    }

    fn value(&self, u: Scalar, v: Scalar, p: &Point3) -> (c: Color) {
        self.color_value
    }
}

/// Two textures in a chequered pattern.
pub struct CheckerTexture<E: Texture, O: Texture> {
    pub even: E,
    pub odd: O,
}

impl<E: Texture, O: Texture> CheckerTexture<E, O> {
    /// The pattern of `even` and `odd`.
    pub fn new(even: E, odd: O) -> (t: CheckerTexture<E, O>)
        ensures
            t.even == even,
            t.odd == odd,
    {
        CheckerTexture { even, odd }
    }

    /// The colour of the pattern at `(u, v)` and `p`, given on which kind of
    /// field `p` lies: that of the odd texture on an odd field, that of the
    /// even texture on an even one.
    pub fn value_on(&self, on_odd_field: bool, u: Scalar, v: Scalar, p: &Point3) -> (c: Color)
        ensures
            c == if on_odd_field {
                self.odd.color_at(u, v, *p)
            } else {
                self.even.color_at(u, v, *p)
            },
    {
        if on_odd_field {
            self.odd.value(u, v, p)
        } else {
            self.even.value(u, v, p)
        }
    }
}

impl CheckerTexture<SolidColor, SolidColor> {
    /// The pattern of the two colours `c1`, on the even fields, and `c2`.
    pub fn from_colors(c1: Color, c2: Color) -> (t: CheckerTexture<SolidColor, SolidColor>)
        ensures
            t.even.color_value == c1,
            t.odd.color_value == c2,
    {
        CheckerTexture { even: SolidColor::new(c1), odd: SolidColor::new(c2) }
    }
}

/// One pixel of an image: red, green and blue, each from 0 to 255.
#[derive(Clone, Copy, Debug, PartialEq, Eq, Structural)]
pub struct Rgb {
    pub r: u8,
    pub g: u8,
    pub b: u8,
}

/// An image laid over a surface: its pixels row by row from the top, or
/// nothing where no image could be had.
pub struct ImageTexture {
    pub pixels: Option<Vec<Rgb>>,
    pub width: usize,
    pub height: usize,
}

impl ImageTexture {
    /// The texture holds an image: it has at least one pixel, and as many as
    /// its width and height say.
    pub open spec fn has_image(&self) -> bool {
        &&& self.pixels.is_some()
        &&& self.width > 0
        &&& self.height > 0
        &&& self.pixels.unwrap()@.len() == self.width * self.height
    }

    /// The texture of the image with the given pixels, or the one without an
    /// image if the pixels are none or not `width` times `height` many.
    pub fn from_pixels(pixels: Vec<Rgb>, width: usize, height: usize) -> (t: ImageTexture)
        ensures
            if width > 0 && height > 0 && pixels@.len() == width * height {
                t.has_image() && t.pixels.unwrap()@ == pixels@ && t.width == width && t.height
                    == height
            } else {
                t.pixels.is_none() && t.width == 0 && t.height == 0
            },
    {
        let given = pixels.len();
        if width == 0 || height == 0 {
            return ImageTexture::missing();
        }
        match width.checked_mul(height) {
            Some(count) => {
                if given == count {
                    ImageTexture { pixels: Some(pixels), width, height }
                } else {
                    ImageTexture::missing()
                }
            },
            None => {
                ImageTexture::missing()
            },
        }
    }

    /// The texture without an image.
    pub fn missing() -> (t: ImageTexture)
        ensures
            t.pixels.is_none(),
            t.width == 0,
            t.height == 0,
    {
        ImageTexture { pixels: None, width: 0, height: 0 }
    }

    /// The pixel in column `i` of row `j`, each brought back into the image
    /// if it lies beyond the last column or row; none without an image.
    pub fn texel(&self, i: usize, j: usize) -> (px: Option<Rgb>)
        requires
            self.pixels.is_some() ==> self.has_image(),
        ensures
            self.pixels.is_none() ==> px.is_none(),
            self.pixels.is_some() ==> px == Some(
                self.pixels.unwrap()@[clamped(j as int, self.height as int) * self.width + clamped(
                    i as int,
                    self.width as int,
                )],
            ),
    {
        match &self.pixels {
            None => None,
            Some(data) => {
                let col = if i >= self.width {
                    self.width - 1
                } else {
                    i
                };
                let row = if j >= self.height {
                    self.height - 1
                } else {
                    j
                };
                let count = data.len();
                proof {
                    assert(0 <= row * self.width && row * self.width + col < self.width
                        * self.height) by (nonlinear_arith)
                        requires
                            0 <= row < self.height,
                            0 <= col < self.width,
                    ;
                }
                Some(data[row * self.width + col])
            },
        }
    }
}

/// The index `i` brought back below `size`: `i` itself, or `size - 1` if `i`
/// lies beyond.
pub open spec fn clamped(i: int, size: int) -> int {
    if i >= size {
        size - 1
    } else {
        i
    }
}

} // verus!
