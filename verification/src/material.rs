//! The branch each material takes when a ray hits it.
use crate::hittable::HitRecord;
use crate::ray::Ray;
use crate::scalar::Scalar;
use crate::utility::{fmin, fmin_spec};
use crate::vec3::Vec3;
use vstd::prelude::*;

verus! {

/// A scattered ray and how much of each colour it carries on.
#[derive(Clone, Copy, Debug, PartialEq, Eq, Structural)]
pub struct ScatterRecord {
    pub attenuation: Vec3,
    pub scattered: Ray,
}

/// A diffuse surface coloured by the texture numbered `albedo`.
#[derive(Clone, Copy, Debug, PartialEq, Eq, Structural)]
pub struct Lambertian {
    pub albedo: usize,
}

/// A mirror of colour `albedo`, blurred by `fuzz`.
#[derive(Clone, Copy, Debug, PartialEq, Eq, Structural)]
pub struct Metal {
    pub albedo: Vec3,
    pub fuzz: Scalar,
}

/// Glass of refractive index `ref_idx`.
#[derive(Clone, Copy, Debug, PartialEq, Eq, Structural)]
pub struct Dielectric {
    pub ref_idx: Scalar,
}

impl Lambertian {
    /// Always scatters: from the hit point in `direction` (the normal plus a
    /// random unit vector), at the incoming ray's time, carrying `color`,
    /// the texture's colour at the hit.
    pub fn scatter(&self, r_in: &Ray, rec: &HitRecord, direction: Vec3, color: Vec3) -> (out: Option<ScatterRecord>)
        ensures
            out == Some(
                ScatterRecord { attenuation: color, scattered: Ray { dir: direction, orig: rec.p, time: r_in.time } },
            ),
    {
        Some(ScatterRecord { scattered: Ray::new(rec.p, direction, r_in.time), attenuation: color })
    }
}

impl Metal {
    /// Scatters in `direction` (the mirror direction plus the blur) if that
    /// points away from the surface: `facing`, its dot product with the
    /// normal, must be positive. Otherwise the ray is absorbed.
    pub fn scatter(&self, r_in: &Ray, rec: &HitRecord, direction: Vec3, facing: Scalar) -> (out: Option<ScatterRecord>)
        ensures
            out == if (Scalar { bits: 0 }).lt_spec(facing) {
                Some(
                    ScatterRecord {
                        attenuation: self.albedo,
                        scattered: Ray { dir: direction, orig: rec.p, time: r_in.time },
                    },
                )
            } else {
                None
            },
    {
        let scattered = Ray::new(rec.p, direction, r_in.time);
        if Scalar::zero().lt(facing) {
            Some(ScatterRecord { scattered, attenuation: self.albedo })
        } else {
            None
        }
    }
}

impl Dielectric {
    /// The ratio of the refractive indices the ray passes between: the
    /// reciprocal of the index when it enters through the front face, the
    /// index itself when it leaves.
    pub fn refraction_ratio(&self, front_face: bool, reciprocal: Scalar) -> (ratio: Scalar)
        ensures
            ratio == if front_face {
                reciprocal
            } else {
                self.ref_idx
            },
    {
        if front_face {
            reciprocal
        } else {
            self.ref_idx
        }
    }

    /// The cosine of the angle of incidence, capped at one; `facing` is the
    /// dot product of the reversed unit direction with the normal.
    pub fn cos_theta(facing: Scalar) -> (cos: Scalar)
        ensures
            cos == fmin_spec(facing, Scalar { bits: crate::scalar::ONE_BITS }),
    {
        fmin(facing, Scalar::one())
    }

    /// Whether the ray is reflected: when it cannot be refracted at all,
    /// `ratio_sin` (the ratio times the sine of the angle of incidence)
    /// being above one, or when the reflectance is above the draw.
    pub open spec fn reflects_spec(ratio_sin: Scalar, reflectance: Scalar, draw: Scalar) -> bool {
        (Scalar { bits: crate::scalar::ONE_BITS }).lt_spec(ratio_sin) || draw.lt_spec(reflectance)
    }

    pub fn reflects(ratio_sin: Scalar, reflectance: Scalar, draw: Scalar) -> (reflect: bool)
        ensures
            reflect == Self::reflects_spec(ratio_sin, reflectance, draw),
    {
        let cannot_refract = Scalar::one().lt(ratio_sin);
        cannot_refract || draw.lt(reflectance)
    }

    /// Always scatters, and takes nothing away: from the hit point in
    /// `direction` (reflected or refracted as `reflects` said), at the
    /// incoming ray's time.
    pub fn scatter(&self, r_in: &Ray, rec: &HitRecord, direction: Vec3) -> (out: Option<ScatterRecord>)
        ensures
            out == Some(
                ScatterRecord {
                    attenuation: Vec3 {
                        x: Scalar { bits: crate::scalar::ONE_BITS },
                        y: Scalar { bits: crate::scalar::ONE_BITS },
                        z: Scalar { bits: crate::scalar::ONE_BITS },
                    },
                    scattered: Ray { dir: direction, orig: rec.p, time: r_in.time },
                },
            ),
    {
        Some(ScatterRecord { scattered: Ray::new(rec.p, direction, r_in.time), attenuation: Vec3::ones() })
    }
}

} // verus!
