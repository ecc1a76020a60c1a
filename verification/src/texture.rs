//! Textures: a solid colour, a checker of two textures, and noise.
//!
//! A checker picks one of its two textures by the sign of
//! `sin(10 x) sin(10 y) sin(10 z)` at the point looked up. The point is the
//! same all the way down a nest of checkers, so one number decides the whole
//! descent.
use crate::scalar::Scalar;
use crate::vec3::Vec3;
use vstd::prelude::*;

verus! {

#[derive(Clone, Copy, Debug, PartialEq, Eq, Structural)]
pub struct SolidColor {
    pub color_value: Vec3,
}

/// A marble pattern: a sine along `z`, stretched by `scale` and disturbed
/// by the noise generator numbered `noise`.
#[derive(Clone, Copy, Debug, PartialEq, Eq, Structural)]
pub struct NoiseTexture {
    pub noise: usize,
    pub scale: Scalar,
}

pub struct Checker {
    pub odd: Box<Texture>,
    pub even: Box<Texture>,
}

pub enum Texture {
    Solid(SolidColor),
    Checkered(Checker),
    Noise(NoiseTexture),
}

impl SolidColor {
    pub fn new(r: Scalar, g: Scalar, b: Scalar) -> (c: SolidColor)
        ensures
            c.color_value == (Vec3 { x: r, y: g, z: b }),
    {
        SolidColor { color_value: Vec3::new(r, g, b) }
    }

    pub fn get_color_value(&self) -> (c: Vec3)
        ensures
            c == self.color_value,
    {
        self.color_value
    }
}

impl Checker {
    /// The texture of the field the point lies on: `odd` where `sines` is
    /// negative, `even` elsewhere.
    pub fn get_color_value(&self, sines: Scalar) -> (field: &Texture)
        ensures
            *field == if sines.lt_spec(Scalar { bits: 0 }) {
                *self.odd
            } else {
                *self.even
            },
    {
        if sines.lt(Scalar::zero()) {
            &*self.odd
        } else {
            &*self.even
        }
    }
}

impl Texture {
    /// The texture that colours the point: the texture itself unless it is a
    /// checker, else the same of the checker's field.
    pub open spec fn leaf_spec(self, sines: Scalar) -> Texture
        decreases self,
    {
        match self {
            Texture::Checkered(c) => if sines.lt_spec(Scalar { bits: 0 }) {
                c.odd.leaf_spec(sines)
            } else {
                c.even.leaf_spec(sines)
            },
            _ => self,
        }
    }

    pub fn leaf(&self, sines: Scalar) -> (found: &Texture)
        ensures
            *found == self.leaf_spec(sines),
            !(*found is Checkered),
        decreases self,
    {
        match self {
            Texture::Checkered(c) => c.get_color_value(sines).leaf(sines),
            _ => self,
        }
    }
}

} // verus!
