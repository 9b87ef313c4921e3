use vstd::prelude::*;
use crate::patterns::Pattern;

verus! {

/// A colour: three channels, in ticks. One unit is full intensity.
#[derive(Clone, Copy, Debug, PartialEq, Eq, Structural)]
pub struct Color {
    pub red: i64,
    pub green: i64,
    pub blue: i64,
}

impl Color {
    pub fn new(red: i64, green: i64, blue: i64) -> (r: Color)
        ensures
            r == (Color { red, green, blue }),
    {
        Color { red, green, blue }
    }

    pub fn black() -> (r: Color)
        ensures
            r == (Color { red: 0, green: 0, blue: 0 }),
    {
        Color { red: 0, green: 0, blue: 0 }
    }

    pub fn white() -> (r: Color)
        ensures
            r == (Color { red: 1_000_000_000, green: 1_000_000_000, blue: 1_000_000_000 }),
    {
        Color { red: 1_000_000_000, green: 1_000_000_000, blue: 1_000_000_000 }
    }
}

/// How a surface answers to light. The surface colour comes from
/// `pattern` where there is one, else from `color`. All scalars are in
/// ticks.
#[derive(Clone, Copy, Debug, PartialEq, Eq, Structural)]
pub struct Material {
    pub color: Color,
    pub ambient: i64,
    pub diffuse: i64,
    pub specular: i64,
    pub shininess: i64,
    pub pattern: Option<Pattern>,
    pub no_cast_shadow: bool,
    pub reflective: i64,
    pub refractive_index: i64,
    pub transparency: i64,
}

/// The material of a shape that was given none: white, matt, opaque, and
/// with the refractive index of empty space.
pub open spec fn default_material() -> Material {
    Material {
        color: Color { red: 1_000_000_000, green: 1_000_000_000, blue: 1_000_000_000 },
        ambient: 100_000_000,
        diffuse: 900_000_000,
        specular: 900_000_000,
        shininess: 200_000_000_000,
        pattern: None,
        no_cast_shadow: false,
        reflective: 0,
        refractive_index: 1_000_000_000,
        transparency: 0,
    }
}

impl Material {
    /// The default material in another colour.
    pub fn new(color: Color) -> (r: Material)
        ensures
            r == (Material { color, ..default_material() }),
    {
        Material {
            color,
            ambient: 100_000_000,
            diffuse: 900_000_000,
            specular: 900_000_000,
            shininess: 200_000_000_000,
            pattern: None,
            no_cast_shadow: false,
            reflective: 0,
            refractive_index: crate::refractive_indices::DEFAULT,
            transparency: 0,
        }
    }
}

impl Default for Material {
    fn default() -> (r: Material)
        ensures
            r == default_material(),
    {
        Material::new(Color::white())
    }
}

/// The material of the shape with handle `obj`: the default one where
/// `materials` holds none for it.
pub open spec fn material_of(materials: Seq<Material>, obj: usize) -> Material {
    if obj < materials.len() {
        materials[obj as int]
    } else {
        default_material()
    }
}

/// Looks up the material of the shape with handle `obj`.
pub fn get_material(materials: &Vec<Material>, obj: usize) -> (r: Material)
    ensures
        r == material_of(materials@, obj),
{
    if obj < materials.len() {
        materials[obj]
    } else {
        Material::new(Color::white())
    }
}

} // verus!
