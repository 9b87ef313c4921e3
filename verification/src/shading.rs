use vstd::prelude::*;
use crate::intersection::Intersection;
use crate::material::get_material;
use crate::material::material_of;
use crate::material::Material;
use crate::refractive_indices::VACUUM;
use crate::refraction::is_crossing;
use crate::refraction::media_at;
use crate::refraction::media_of;
use crate::refraction::refractive_media;
use crate::refraction::Media;
use crate::scalar::close;
use crate::scalar::TICKS_PER_UNIT;

verus! {

/// What is fixed about a hit before any colour is computed: which shape
/// was hit and where along the ray, whether the ray met the surface from
/// inside the shape, and the media on the two sides of the surface.
#[derive(Clone, Copy, Debug, PartialEq, Eq, Structural)]
pub struct ShadeComputation {
    pub t: i64,
    pub obj: usize,
    pub inside: bool,
    pub media: Media,
    /// The refractive index of the medium that the ray leaves.
    pub n1: i64,
    /// The refractive index of the medium that the ray enters.
    pub n2: i64,
}

/// Which of the light's contributions reach a surface point besides the
/// ambient one.
#[derive(Clone, Copy, Debug, PartialEq, Eq, Structural)]
pub struct LightingTerms {
    pub diffuse: bool,
    pub specular: bool,
}

/// How the colours of the secondary rays are added to the surface colour.
#[derive(Clone, Copy, Debug, PartialEq, Eq, Structural)]
pub enum Blend {
    /// The three colours are summed.
    Sum,
    /// The reflected and the refracted colour are weighted by the
    /// reflectance and by what is left of it.
    Fresnel,
}

/// The secondary rays that a hit calls for, each with the number of
/// bounces left to it, and how their colours are combined.
#[derive(Clone, Copy, Debug, PartialEq, Eq, Structural)]
pub struct Transport {
    pub reflect: Option<usize>,
    pub refract: Option<usize>,
    pub blend: Blend,
}

/// The three ways in which the reflectance at a surface is found.
#[derive(Clone, Copy, Debug, PartialEq, Eq, Structural)]
pub enum Reflectance {
    /// Everything is reflected.
    Total,
    /// The approximation is taken at the angle of the refracted ray.
    AtRefractedAngle,
    /// The approximation is taken at the angle between eye and normal.
    AtEyeAngle,
}

/// Whether a ray is bent back into the medium that it comes from:
/// `sin2_t`, the squared sine of the refracted angle, is above one.
pub open spec fn totally_reflected(sin2_t: i64) -> bool {
    sin2_t > TICKS_PER_UNIT
}

/// The bounces left to a reflected ray: none where no bounce is left or
/// the material does not reflect.
pub open spec fn reflection_budget(remaining: usize, reflective: i64) -> Option<usize> {
    if remaining == 0 || reflective == 0 {
        None
    } else {
        Some((remaining - 1) as usize)
    }
}

/// The bounces left to a refracted ray: none where no bounce is left, the
/// material is opaque, or the ray is totally reflected.
pub open spec fn refraction_budget(remaining: usize, transparency: i64, sin2_t: i64) -> Option<
    usize,
> {
    if remaining == 0 || transparency == 0 || totally_reflected(sin2_t) {
        None
    } else {
        Some((remaining - 1) as usize)
    }
}

/// The refractive index of a medium: that of the material of the shape
/// that fills it, and that of empty space where no shape does.
pub open spec fn index_of(materials: Seq<Material>, medium: Option<usize>) -> i64 {
    match medium {
        None => VACUUM,
        Some(obj) => material_of(materials, obj).refractive_index,
    }
}

fn refractive_index(materials: &Vec<Material>, medium: Option<usize>) -> (r: i64)
    ensures
        r == index_of(materials@, medium),
{
    match medium {
        None => VACUUM,
        Some(obj) => get_material(materials, obj).refractive_index,
    }
}

/// Collects what is fixed about a hit. `xs` holds every intersection of
/// the ray, sorted by `t`, `materials` the material of each shape, by
/// handle, and `normal_dot_eye` the cosine between the surface normal and
/// the direction back along the ray: a negative one means that the ray is
/// inside the shape.
pub fn prepare_computations(
    hit: &Intersection,
    xs: &Vec<Intersection>,
    materials: &Vec<Material>,
    normal_dot_eye: i64,
) -> (r: ShadeComputation)
    ensures
        r.t == hit.t,
        r.obj == hit.obj,
        r.inside <==> normal_dot_eye < 0,
        r.media == media_of(xs@, hit.t),
        forall|k: int| is_crossing(xs@, hit.t, k) ==> r.media == media_at(xs@, k),
        (forall|j: int| 0 <= j < xs.len() ==> !close(hit.t, #[trigger] xs[j].t)) ==> r.media == (
        Media { leaving: None, entering: None }),
        r.n1 == index_of(materials@, r.media.leaving),
        r.n2 == index_of(materials@, r.media.entering),
{
    let media = refractive_media(xs, hit.t);
    ShadeComputation {
        t: hit.t,
        obj: hit.obj,
        inside: normal_dot_eye < 0,
        media,
        n1: refractive_index(materials, media.leaving),
        n2: refractive_index(materials, media.entering),
    }
}

/// Decides which contributions of the light reach a surface point. The
/// diffuse one does unless the point is in shadow or the light is behind
/// the surface; the specular one does if the diffuse one does and the
/// reflected light points towards the eye.
pub fn lighting_terms(in_shadow: bool, light_dot_normal: i64, reflect_dot_eye: i64) -> (r:
    LightingTerms)
    ensures
        r.diffuse <==> !in_shadow && light_dot_normal >= 0,
        r.specular <==> !in_shadow && light_dot_normal >= 0 && reflect_dot_eye > 0,
{
    let diffuse = !in_shadow && light_dot_normal >= 0;
    LightingTerms { diffuse, specular: diffuse && reflect_dot_eye > 0 }
}

/// Decides which secondary rays a hit calls for. `remaining` is the number
/// of bounces left, `material` is that of the shape hit, and `sin2_t` is
/// the squared sine of the refracted angle. A ray that is traced has one
/// bounce less left than the hit had, so that the depth of light transport
/// never exceeds the number of bounces it started with.
pub fn plan_transport(remaining: usize, material: &Material, sin2_t: i64) -> (r: Transport)
    ensures
        r.reflect == reflection_budget(remaining, material.reflective),
        r.refract == refraction_budget(remaining, material.transparency, sin2_t),
        r.blend == Blend::Fresnel <==> material.reflective > 0 && material.transparency > 0,
        r.reflect matches Some(left) ==> left < remaining,
        r.refract matches Some(left) ==> left < remaining,
        remaining == 0 ==> r.reflect is None && r.refract is None,
{
    let reflect = if remaining == 0 || material.reflective == 0 {
        None
    } else {
        Some(remaining - 1)
    };
    let refract = if remaining == 0 || material.transparency == 0 || sin2_t > TICKS_PER_UNIT {
        None
    } else {
        Some(remaining - 1)
    };
    let blend = if material.reflective > 0 && material.transparency > 0 {
        Blend::Fresnel
    } else {
        Blend::Sum
    };
    Transport { reflect, refract, blend }
}

/// Decides how the reflectance at a surface is found, from the refractive
/// indices of the media left and entered and from `sin2_t`, the squared
/// sine of the refracted angle.
pub fn schlick_case(sc: &ShadeComputation, sin2_t: i64) -> (r: Reflectance)
    ensures
        r == Reflectance::Total <==> sc.n1 > sc.n2 && totally_reflected(sin2_t),
        r == Reflectance::AtRefractedAngle <==> sc.n1 > sc.n2 && !totally_reflected(sin2_t),
        r == Reflectance::AtEyeAngle <==> sc.n1 <= sc.n2,
{
    if sc.n1 > sc.n2 {
        if sin2_t > TICKS_PER_UNIT {
            Reflectance::Total
        } else {
            Reflectance::AtRefractedAngle
        }
    } else {
        Reflectance::AtEyeAngle
    }
}

} // verus!
