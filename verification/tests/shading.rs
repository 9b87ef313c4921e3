use raytrace_core::intersection::Intersection;
use raytrace_core::material::Color;
use raytrace_core::material::Material;
use raytrace_core::shading::lighting_terms;
use raytrace_core::shading::plan_transport;
use raytrace_core::shading::prepare_computations;
use raytrace_core::shading::schlick_case;
use raytrace_core::shading::Blend;
use raytrace_core::shading::LightingTerms;
use raytrace_core::shading::Reflectance;

fn ticks(units: f64) -> i64 {
    (units * 1e9).round() as i64
}

#[test]
fn test_sphere_has_default_material() {
    let m = Material::default();
    assert_eq!(m.color.red, ticks(1.0));
    assert_eq!(m.color.green, ticks(1.0));
    assert_eq!(m.color.blue, ticks(1.0));
    assert_eq!(m.ambient, ticks(0.1));
    assert_eq!(m.diffuse, ticks(0.9));
    assert_eq!(m.specular, ticks(0.9));
    assert_eq!(m.shininess, ticks(200.0));
    assert_eq!(m.pattern, None);
    assert_eq!(m.no_cast_shadow, false);
    assert_eq!(m.reflective, 0);
    assert_eq!(m.transparency, 0);
    assert_eq!(m.refractive_index, ticks(1.0));
}

#[test]
fn material_new_changes_the_colour_only() {
    let c = Color::new(ticks(0.8), ticks(1.0), ticks(0.6));
    let m = Material::new(c);
    assert_eq!(m.color, c);
    assert_eq!(Material { color: Color::white(), ..m }, Material::default());
    assert_eq!(Color::black(), Color::new(0, 0, 0));
}

#[test]
fn all_terms_with_the_eye_on_the_reflection() {
    // Light straight above the surface, eye on the reflection: all terms.
    let r = lighting_terms(false, ticks(1.0), ticks(1.0));
    assert_eq!(r, LightingTerms { diffuse: true, specular: true });
}

#[test]
fn no_highlight_when_the_reflection_points_away() {
    // The reflection points away from the eye: no highlight.
    let r = lighting_terms(false, ticks(0.7071), 0);
    assert_eq!(r, LightingTerms { diffuse: true, specular: false });
    let r = lighting_terms(false, ticks(0.7071), -1);
    assert_eq!(r, LightingTerms { diffuse: true, specular: false });
}

#[test]
fn ambient_only_with_the_light_behind_the_surface() {
    let r = lighting_terms(false, ticks(-1.0), ticks(1.0));
    assert_eq!(r, LightingTerms { diffuse: false, specular: false });
    // A light in the plane of the surface still counts as in front.
    assert!(lighting_terms(false, 0, 1).diffuse);
}

#[test]
fn lighting_in_shadow_is_ambient_only() {
    let r = lighting_terms(true, ticks(1.0), ticks(1.0));
    assert_eq!(r, LightingTerms { diffuse: false, specular: false });
}

#[test]
fn no_reflected_ray_from_a_matt_surface() {
    let m = Material::default();
    let plan = plan_transport(5, &m, 0);
    assert_eq!(plan.reflect, None);
    assert_eq!(plan.refract, None);
    assert_eq!(plan.blend, Blend::Sum);
}

#[test]
fn reflected_ray_has_one_bounce_less() {
    let mut m = Material::default();
    m.reflective = ticks(0.5);
    let plan = plan_transport(2, &m, 0);
    assert_eq!(plan.reflect, Some(1));
    assert_eq!(plan.refract, None);
    assert_eq!(plan.blend, Blend::Sum);
}

#[test]
fn reflection_ends_when_no_bounce_is_left() {
    let mut m = Material::default();
    m.reflective = ticks(1.0);
    m.transparency = ticks(1.0);
    let plan = plan_transport(0, &m, 0);
    assert_eq!(plan.reflect, None);
    assert_eq!(plan.refract, None);
    assert_eq!(plan_transport(1, &m, 0).reflect, Some(0));
    assert_eq!(plan_transport(1, &m, 0).refract, Some(0));
}

#[test]
fn no_refracted_ray_through_an_opaque_surface() {
    let m = Material::default();
    assert_eq!(plan_transport(5, &m, ticks(0.25)).refract, None);
}

#[test]
fn no_refracted_ray_under_total_internal_reflection() {
    let mut m = Material::default();
    m.transparency = ticks(1.0);
    m.refractive_index = ticks(1.5);
    // sin2_t = 1.5^2 * (1 - 0.5) = 1.125
    assert_eq!(plan_transport(5, &m, ticks(1.125)).refract, None);
    assert_eq!(plan_transport(5, &m, ticks(1.0)).refract, Some(4));
    assert_eq!(plan_transport(5, &m, ticks(1.0) + 1).refract, None);
}

#[test]
fn fresnel_blend_for_a_reflective_and_transparent_surface() {
    let mut m = Material::default();
    m.reflective = ticks(0.5);
    m.transparency = ticks(0.5);
    m.refractive_index = ticks(1.5);
    let plan = plan_transport(5, &m, ticks(0.2222));
    assert_eq!(plan.blend, Blend::Fresnel);
    assert_eq!(plan.reflect, Some(4));
    assert_eq!(plan.refract, Some(4));
    m.reflective = 0;
    assert_eq!(plan_transport(5, &m, ticks(0.2222)).blend, Blend::Sum);
}

fn computation(n1: f64, n2: f64) -> raytrace_core::shading::ShadeComputation {
    let mut inner = Material::default();
    inner.refractive_index = ticks(n1);
    let mut outer = Material::default();
    outer.refractive_index = ticks(n2);
    // The ray is inside shape 0 and enters shape 1.
    let xs = vec![Intersection::new(0, -5), Intersection::new(1, ticks(1.0))];
    let sc = prepare_computations(&xs[1], &xs, &vec![inner, outer], ticks(1.0));
    assert_eq!((sc.n1, sc.n2), (ticks(n1), ticks(n2)));
    sc
}

#[test]
fn reflectance_is_total_under_total_internal_reflection() {
    // Leaving glass at a grazing angle: sin2_t = 1.5^2 * (1 - 0.5).
    let sc = computation(1.5, 1.0);
    assert_eq!(schlick_case(&sc, ticks(1.125)), Reflectance::Total);
}

#[test]
fn reflectance_at_the_eye_angle_into_a_denser_medium() {
    let sc = computation(1.0, 1.5);
    assert_eq!(schlick_case(&sc, 0), Reflectance::AtEyeAngle);
}

#[test]
fn reflectance_cases_by_refractive_indices() {
    let sc = computation(1.0, 1.5);
    assert_eq!(schlick_case(&sc, ticks(0.4)), Reflectance::AtEyeAngle);
    let sc = computation(1.5, 1.5);
    assert_eq!(schlick_case(&sc, ticks(2.0)), Reflectance::AtEyeAngle);
    let sc = computation(1.5, 1.0);
    assert_eq!(schlick_case(&sc, ticks(1.0)), Reflectance::AtRefractedAngle);
}
