//! Materials, and what they decide when a ray hits them.
//!
//! A material holds the numbers that describe it as keys, and its textures
//! by their index among the textures of the scene.

use vstd::prelude::*;
use crate::scalar::{Point3, Scalar, ONE, ZERO};
use crate::shapes::NEAR_ZERO;

verus! {

/// A diffuse surface.
#[derive(Debug, Clone, Copy, PartialEq, Eq, Structural)]
pub struct Lambertian {
    pub albedo: usize,
}

/// A mirror, blurred by `fuzz`.
#[derive(Debug, Clone, Copy, PartialEq, Eq, Structural)]
pub struct Metal {
    pub albedo: Point3,
    pub fuzz: Scalar,
}

/// A clear surface that refracts, with the refraction index `ir`.
#[derive(Debug, Clone, Copy, PartialEq, Eq, Structural)]
pub struct Dielectric {
    pub ir: Scalar,
}

/// A light.
#[derive(Debug, Clone, Copy, PartialEq, Eq, Structural)]
pub struct DiffuseLight {
    pub emit: usize,
}

/// A medium that scatters to all sides alike.
#[derive(Debug, Clone, Copy, PartialEq, Eq, Structural)]
pub struct Isotropic {
    pub albedo: usize,
}

#[derive(Debug, Clone, Copy, PartialEq, Eq, Structural)]
pub enum Material {
    Lambertian(Lambertian),
    Metal(Metal),
    Dielectric(Dielectric),
    DiffuseLight(DiffuseLight),
    Isotropic(Isotropic),
}

impl Lambertian {
    pub fn new(a: usize) -> (m: Material)
        ensures
            m == Material::Lambertian(Lambertian { albedo: a }),
    {
        Material::Lambertian(Lambertian { albedo: a })
    }
}

impl Metal {
    /// A metal of the given color. A fuzz above one counts as one.
    pub fn new(albedo: Point3, fuzz: Scalar) -> (m: Material)
        ensures
            m == Material::Metal(
                Metal { albedo, fuzz: if fuzz <= ONE {
                    fuzz
                } else {
                    ONE
                } },
            ),
    {
        Material::Metal(Metal { albedo, fuzz: if fuzz <= ONE {
            fuzz
        } else {
            ONE
        } })
    }
}

impl Dielectric {
    pub fn new(ir: Scalar) -> (m: Material)
        ensures
            m == Material::Dielectric(Dielectric { ir }),
    {
        Material::Dielectric(Dielectric { ir })
    }

    /// Whether a ray that meets the surface is reflected rather than
    /// refracted. It is where no refracted ray exists, which is where the
    /// refraction ratio times the sine of the angle of incidence is above
    /// one; and otherwise where the reflectance at that angle is above a
    /// number drawn at random between zero and one.
    pub fn reflects(ratio_times_sine: Scalar, reflectance: Scalar, draw: Scalar) -> (r: bool)
        ensures
            r == (ratio_times_sine > ONE || reflectance > draw),
    {
        ratio_times_sine > ONE || reflectance > draw
    }
}

impl DiffuseLight {
    pub fn new(texture: usize) -> (m: Material)
        ensures
            m == Material::DiffuseLight(DiffuseLight { emit: texture }),
    {
        Material::DiffuseLight(DiffuseLight { emit: texture })
    }
}

impl Isotropic {
    pub fn new(a: usize) -> (m: Material)
        ensures
            m == Material::Isotropic(Isotropic { albedo: a }),
    {
        Material::Isotropic(Isotropic { albedo: a })
    }
}

impl Material {
    /// Whether the material sends a ray on. `facing` is the dot product of
    /// the direction of the ray that would be sent on with the surface
    /// normal.
    pub open spec fn spec_scatter(self, facing: Scalar) -> bool {
        match self {
            Material::Lambertian(_) => true,
            Material::Metal(_) => facing > ZERO,
            Material::Dielectric(_) => true,
            Material::DiffuseLight(_) => false,
            Material::Isotropic(_) => true,
        }
    }

    /// The texture of the light that the material gives off, if it gives
    /// off any.
    pub open spec fn spec_emitted(self) -> Option<usize> {
        match self {
            Material::DiffuseLight(light) => Some(light.emit),
            _ => None,
        }
    }

    /// Whether a hit on the material sends a ray on: a light never does, a
    /// metal does where the new ray leaves the surface, every other
    /// material always does.
    pub fn scatter(&self, facing: Scalar) -> (r: bool)
        ensures
            r == self.spec_scatter(facing),
            self is Dielectric ==> r,
            self is DiffuseLight ==> !r,
    {
        match self {
            Material::Lambertian(_) => true,
            Material::Metal(_) => facing > ZERO,
            Material::Dielectric(_) => true,
            Material::DiffuseLight(_) => false,
            Material::Isotropic(_) => true,
        }
    }

    /// The texture from which the material's own light is read. Only a
    /// light has one; every other material gives off nothing.
    pub fn emitted(&self) -> (r: Option<usize>)
        ensures
            r == self.spec_emitted(),
            r.is_some() <==> self is DiffuseLight,
    {
        match self {
            Material::DiffuseLight(light) => Some(light.emit),
            _ => None,
        }
    }
}

/// Whether a vector is too short to give a direction: whether each of its
/// coordinates is within `1.0e-8` of zero.
pub fn vec3_a_near_zero(vec: &Point3) -> (r: bool)
    ensures
        r == (-NEAR_ZERO < vec.x < NEAR_ZERO && -NEAR_ZERO < vec.y < NEAR_ZERO && -NEAR_ZERO
            < vec.z < NEAR_ZERO),
{
    -NEAR_ZERO < vec.x && vec.x < NEAR_ZERO && -NEAR_ZERO < vec.y && vec.y < NEAR_ZERO && -NEAR_ZERO
        < vec.z && vec.z < NEAR_ZERO
}

} // verus!
