use vstd::prelude::*;
use crate::hierarchy::GroupRepository;
use crate::hierarchy::ShapeKind;
use crate::intersection::concat_all;
use crate::intersection::dedup_close;
use crate::intersection::ordered;
use crate::intersection::sorted_by_t;
use crate::intersection::Intersection;
use crate::material::default_material;
use crate::material::material_of;
use crate::material::Color;
use crate::material::Material;
use crate::scalar::close;

verus! {

/// A point light: its colour and its place, in ticks.
#[derive(Clone, Copy, Debug, PartialEq, Eq, Structural)]
pub struct LightSource {
    pub intensity: Color,
    pub x: i64,
    pub y: i64,
    pub z: i64,
}

impl LightSource {
    pub fn new(intensity: Color, x: i64, y: i64, z: i64) -> (r: LightSource)
        ensures
            r == (LightSource { intensity, x, y, z }),
    {
        LightSource { intensity, x, y, z }
    }
}

/// The light of a new world: white, up and to the left behind the eye.
pub open spec fn default_light() -> LightSource {
    LightSource {
        intensity: Color { red: 1_000_000_000, green: 1_000_000_000, blue: 1_000_000_000 },
        x: -10_000_000_000i64,
        y: 10_000_000_000,
        z: -10_000_000_000i64,
    }
}

/// The material of the larger sphere of the default scene.
pub open spec fn default_outer_material() -> Material {
    Material {
        color: Color { red: 800_000_000, green: 1_000_000_000, blue: 600_000_000 },
        diffuse: 700_000_000,
        specular: 200_000_000,
        ..default_material()
    }
}

/// A scene: one light, the registry of its shapes, the material of each
/// shape, and the shapes that stand at the top of the scene, in the order
/// in which a ray is put to them.
pub struct World {
    light_source: LightSource,
    shapes: GroupRepository,
    materials: Vec<Material>,
    objects: Vec<usize>,
}

impl World {
    /// The scene's light.
    pub closed spec fn light(&self) -> LightSource {
        self.light_source
    }

    /// The registry of the scene's shapes.
    pub closed spec fn registry(&self) -> GroupRepository {
        self.shapes
    }

    /// The material of each shape, by handle.
    pub closed spec fn materials(&self) -> Seq<Material> {
        self.materials@
    }

    /// The handles of the shapes at the top of the scene.
    pub closed spec fn objects(&self) -> Seq<usize> {
        self.objects@
    }

    /// The scene's invariant: the registry's own, a material for each
    /// shape, the default one for each group, and at the top the
    /// registered shapes that no group encloses, each once.
    pub closed spec fn wf(&self) -> bool {
        &&& self.shapes.wf()
        &&& self.materials@.len() == self.shapes.len()
        &&& forall|i: usize|
            i < self.shapes.len() && #[trigger] self.shapes.kind_of(i) == ShapeKind::Group
                ==> self.materials@[i as int] == default_material()
        &&& forall|k: int|
            0 <= k < self.objects@.len() ==> #[trigger] self.objects@[k] < self.shapes.len()
                && self.shapes.parent_of(self.objects@[k]) is None
        &&& self.objects@.no_duplicates()
        &&& forall|i: usize|
            i < self.shapes.len() && #[trigger] self.shapes.parent_of(i) is None
                ==> self.objects@.contains(i)
    }

    /// What the invariant says, for those outside.
    pub proof fn lemma_wf(&self)
        requires
            self.wf(),
        ensures
            self.registry().wf(),
            self.materials().len() == self.registry().len(),
            forall|i: usize|
                i < self.registry().len() && #[trigger] self.registry().kind_of(i)
                    == ShapeKind::Group ==> self.materials()[i as int] == default_material(),
            forall|k: int|
                0 <= k < self.objects().len() ==> #[trigger] self.objects()[k]
                    < self.registry().len() && self.registry().parent_of(self.objects()[k])
                    is None,
            self.objects().no_duplicates(),
            forall|i: usize|
                i < self.registry().len() && #[trigger] self.registry().parent_of(i) is None
                    ==> self.objects().contains(i),
    {
    }

    /// A world with the default light and no shapes.
    pub fn new() -> (r: World)
        ensures
            r.wf(),
            r.light() == default_light(),
            r.registry().len() == 0,
            r.materials() == Seq::<Material>::empty(),
            r.objects() == Seq::<usize>::empty(),
    {
        World {
            light_source: LightSource {
                intensity: Color::white(),
                x: -10_000_000_000,
                y: 10_000_000_000,
                z: -10_000_000_000,
            },
            shapes: GroupRepository::new(),
            materials: Vec::new(),
            objects: Vec::new(),
        }
    }

    /// Puts a shape of the given kind at the top of the scene and returns
    /// its handle. A group gets the default material, whatever is given.
    pub fn add(&mut self, kind: ShapeKind, material: Material) -> (id: usize)
        requires
            old(self).wf(),
        ensures
            final(self).wf(),
            final(self).light() == old(self).light(),
            id == old(self).registry().len(),
            final(self).registry().len() == id + 1,
            final(self).registry().kind_of(id) == kind,
            final(self).registry().parent_of(id) is None,
            final(self).registry().children_of(id) == Seq::<usize>::empty(),
            forall|i: usize|
                i < id ==> #[trigger] final(self).registry().kind_of(i) == old(
                    self,
                ).registry().kind_of(i),
            forall|i: usize|
                i < id ==> #[trigger] final(self).registry().parent_of(i) == old(
                    self,
                ).registry().parent_of(i),
            forall|i: usize|
                i < id ==> #[trigger] final(self).registry().children_of(i) == old(
                    self,
                ).registry().children_of(i),
            final(self).materials() == old(self).materials().push(
                if kind == ShapeKind::Group {
                    default_material()
                } else {
                    material
                },
            ),
            final(self).objects() == old(self).objects().push(id),
    {
        let id = self.shapes.new_shape(kind);
        let kept = match kind {
            ShapeKind::Group => Material::new(Color::white()),
            _ => material,
        };
        self.materials.push(kept);
        self.objects.push(id);
        proof {
            assert forall|i: usize|
                i < self.shapes.len() && #[trigger] self.shapes.kind_of(i)
                    == ShapeKind::Group implies self.materials@[i as int] == default_material() by {
                if i < id {
                    assert(old(self).shapes.kind_of(i) == ShapeKind::Group);
                }
            }
            assert forall|k: int| 0 <= k < self.objects@.len() implies #[trigger] self.objects@[k]
                < self.shapes.len() && self.shapes.parent_of(self.objects@[k]) is None by {
                if k < old(self).objects@.len() {
                    let o = old(self).objects@[k];
                    assert(o < old(self).shapes.len());
                    assert(self.shapes.parent_of(o) == old(self).shapes.parent_of(o));
                }
            }
            assert forall|a: int, b: int|
                0 <= a < self.objects@.len() && 0 <= b < self.objects@.len() && a
                    != b implies self.objects@[a] != self.objects@[b] by {
                if a < old(self).objects@.len() {
                    assert(old(self).objects@[a] < id);
                }
                if b < old(self).objects@.len() {
                    assert(old(self).objects@[b] < id);
                }
            }
            assert forall|i: usize|
                i < self.shapes.len() && #[trigger] self.shapes.parent_of(i)
                    is None implies self.objects@.contains(i) by {
                if i < id {
                    assert(old(self).shapes.parent_of(i) is None);
                    assert(old(self).objects@.contains(i));
                    let k = choose|k: int|
                        0 <= k < old(self).objects@.len() && old(self).objects@[k] == i;
                    assert(self.objects@[k] == i);
                } else {
                    assert(self.objects@[self.objects@.len() - 1] == i);
                }
            }
        }
        id
    }

    /// Moves a shape from the top of the scene into a group, where the
    /// registry allows it, and says whether it did.
    pub fn add_child(&mut self, group: usize, child: usize) -> (ok: bool)
        requires
            old(self).wf(),
        ensures
            final(self).wf(),
            final(self).light() == old(self).light(),
            final(self).materials() == old(self).materials(),
            ok <==> old(self).registry().can_adopt(group, child),
            ok ==> old(self).registry().adopted(final(self).registry(), group, child),
            ok ==> final(self).objects() == old(self).objects().filter(|o: usize| o != child),
            !ok ==> final(self).objects() == old(self).objects(),
            final(self).registry().len() == old(self).registry().len(),
            forall|i: usize|
                i < old(self).registry().len() ==> #[trigger] final(self).registry().kind_of(i)
                    == old(self).registry().kind_of(i),
            forall|i: usize|
                i < old(self).registry().len() ==> #[trigger] final(self).registry().parent_of(i)
                    == if ok && i == child {
                    Some(group)
                } else {
                    old(self).registry().parent_of(i)
                },
            forall|i: usize|
                i < old(self).registry().len() ==> #[trigger] final(self).registry().children_of(
                    i,
                ) == if ok && i == group {
                    old(self).registry().children_of(i).push(child)
                } else {
                    old(self).registry().children_of(i)
                },
    {
        let ok = self.shapes.add_child(group, child);
        proof {
            if !ok {
                assert forall|i: usize|
                    i < self.shapes.len() && #[trigger] self.shapes.parent_of(i)
                        is None implies self.objects@.contains(i) by {
                    assert(old(self).shapes.parent_of(i) is None);
                }
            }
            assert forall|j: int| 0 <= j < self.objects@.len() implies #[trigger] self.objects@[j]
                < self.shapes.len() && (self.objects@[j] != child || !ok ==> self.shapes.parent_of(
                self.objects@[j],
            ) is None) by {
                let o = old(self).objects@[j];
                assert(o < old(self).shapes.len());
                assert(old(self).shapes.parent_of(o) is None);
            }
            assert forall|i: usize|
                i < self.shapes.len() && #[trigger] self.shapes.kind_of(i)
                    == ShapeKind::Group implies self.materials@[i as int] == default_material() by {
                assert(old(self).shapes.kind_of(i) == ShapeKind::Group);
            }
        }
        if ok {
            let mut top: Vec<usize> = Vec::new();
            let mut k: usize = 0;
            proof {
                assert(self.objects@.take(0) =~= Seq::empty());
            }
            while k < self.objects.len()
                invariant
                    0 <= k <= self.objects.len(),
                    top@ == self.objects@.take(k as int).filter(|o: usize| o != child),
                    forall|j: int|
                        0 <= j < top@.len() ==> #[trigger] top@[j] < self.shapes.len()
                            && self.shapes.parent_of(top@[j]) is None,
                    forall|j: int|
                        0 <= j < top@.len() ==> exists|i: int|
                            0 <= i < k && self.objects@[i] == #[trigger] top@[j],
                    forall|i: int|
                        0 <= i < k && self.objects@[i] != child ==> top@.contains(
                            #[trigger] self.objects@[i],
                        ),
                    top@.no_duplicates(),
                    self.objects@.no_duplicates(),
                    forall|j: int|
                        0 <= j < self.objects@.len() ==> #[trigger] self.objects@[j]
                            < self.shapes.len() && (self.objects@[j] != child
                            ==> self.shapes.parent_of(self.objects@[j]) is None),
                decreases self.objects.len() - k,
            {
                proof {
                    assert(self.objects@.take(k + 1).drop_last() =~= self.objects@.take(k as int));
                    assert(self.objects@.take(k + 1).last() == self.objects@[k as int]);
                    reveal(Seq::filter);
                }
                let ghost before = top@;
                if self.objects[k] != child {
                    top.push(self.objects[k]);
                    proof {
                        assert forall|j: int| 0 <= j < before.len() implies before[j]
                            != self.objects@[k as int] by {
                            let i = choose|i: int| 0 <= i < k && self.objects@[i] == before[j];
                            assert(self.objects@[i] != self.objects@[k as int]);
                        }
                        assert(top@[before.len() as int] == self.objects@[k as int]);
                    }
                }
                proof {
                    assert forall|i: int|
                        0 <= i < k + 1 && self.objects@[i] != child implies top@.contains(
                        #[trigger] self.objects@[i],
                    ) by {
                        if i < k {
                            assert(before.contains(self.objects@[i]));
                            let j = choose|j: int|
                                0 <= j < before.len() && before[j] == self.objects@[i];
                            assert(top@[j] == self.objects@[i]);
                        }
                    }
                    assert forall|j: int| 0 <= j < top@.len() implies exists|i: int|
                        0 <= i < k + 1 && self.objects@[i] == #[trigger] top@[j] by {
                        if j < before.len() {
                            let i = choose|i: int| 0 <= i < k && self.objects@[i] == before[j];
                            assert(self.objects@[i] == top@[j]);
                        } else {
                            assert(self.objects@[k as int] == top@[j]);
                        }
                    }
                }
                k += 1;
            }
            proof {
                assert(self.objects@.take(self.objects.len() as int) =~= self.objects@);
                assert forall|i: usize|
                    i < self.shapes.len() && #[trigger] self.shapes.parent_of(i)
                        is None implies top@.contains(i) by {
                    assert(i != child);
                    assert(old(self).shapes.parent_of(i) is None);
                    assert(old(self).objects@.contains(i));
                    let k0 = choose|k0: int|
                        0 <= k0 < old(self).objects@.len() && old(self).objects@[k0] == i;
                    assert(self.objects@[k0] != child);
                }
            }
            self.objects = top;
        }
        ok
    }

    /// The material of a shape: the default one for a group, and for a
    /// handle that names no shape.
    pub fn get_material(&self, id: usize) -> (r: Material)
        requires
            self.wf(),
        ensures
            r == material_of(self.materials(), id),
            id < self.registry().len() && self.registry().kind_of(id) == ShapeKind::Group ==> r
                == default_material(),
    {
        crate::material::get_material(&self.materials, id)
    }

    /// Gives a shape another material. A group has none: it keeps the
    /// default one, as does the scene where the handle names no shape.
    pub fn set_material(&mut self, id: usize, material: &Material)
        requires
            old(self).wf(),
        ensures
            final(self).wf(),
            final(self).light() == old(self).light(),
            final(self).registry() == old(self).registry(),
            final(self).objects() == old(self).objects(),
            final(self).materials() == if id < old(self).registry().len() && old(
                self,
            ).registry().kind_of(id) != ShapeKind::Group {
                old(self).materials().update(id as int, *material)
            } else {
                old(self).materials()
            },
    {
        if id < self.materials.len() {
            match self.shapes.kind(id) {
                ShapeKind::Group => {},
                _ => {
                    self.materials.set(id, *material);
                },
            }
        }
    }

    /// The scene's light.
    pub fn light_source(&self) -> (r: LightSource)
        ensures
            r == self.light(),
    {
        self.light_source
    }

    /// Puts another light in place of the scene's.
    pub fn set_light_source(&mut self, light: LightSource)
        requires
            old(self).wf(),
        ensures
            final(self).wf(),
            final(self).light() == light,
            final(self).registry() == old(self).registry(),
            final(self).materials() == old(self).materials(),
            final(self).objects() == old(self).objects(),
    {
        self.light_source = light;
    }

    /// The registry of the scene's shapes.
    pub fn shapes(&self) -> (r: &GroupRepository)
        ensures
            *r == self.registry(),
    {
        &self.shapes
    }

    /// The material of each shape, by handle.
    pub fn all_materials(&self) -> (r: &Vec<Material>)
        ensures
            r@ == self.materials(),
    {
        &self.materials
    }

    /// The handles of the shapes at the top of the scene.
    pub fn top_level(&self) -> (r: &Vec<usize>)
        ensures
            r@ == self.objects(),
    {
        &self.objects
    }

    /// What the world answers to a ray, given what each shape at its top
    /// answers: all intersections sorted by `t`, those that share a `t` up
    /// to `EPSILON` reduced to the first of them.
    pub fn intersect(&self, per_object: &Vec<Vec<Intersection>>) -> (r: Vec<Intersection>)
        ensures
            r@ == dedup_close(sorted_by_t(concat_all(per_object@))),
            ordered(r@),
            forall|i: int| 0 <= i < r.len() - 1 ==> !close((#[trigger] r[i]).t, r[i + 1].t),
            forall|i: int| 0 <= i < r.len() ==> concat_all(per_object@).contains(#[trigger] r[i]),
    {
        crate::intersection::world_intersections(per_object)
    }

    /// Whether something stands between a point and the light, given the
    /// intersections of the ray from the point towards the light and the
    /// light's distance along it.
    pub fn is_shadowed(&self, xs: &Vec<Intersection>, light: i64) -> (r: bool)
        ensures
            r <==> exists|i: int|
                0 <= i < xs.len() && 0 <= (#[trigger] xs[i]).t < light && !material_of(
                    self.materials(),
                    xs[i].obj,
                ).no_cast_shadow,
    {
        crate::intersection::is_shadowed(xs, light, &self.materials)
    }
}

impl Default for World {
    /// The scene that shading is tried on: two spheres around the origin,
    /// the larger in a greenish material, under the default light.
    fn default() -> (r: World)
        ensures
            r.wf(),
            r.light() == default_light(),
            r.registry().len() == 2,
            r.registry().kind_of(0) == ShapeKind::Sphere,
            r.registry().kind_of(1) == ShapeKind::Sphere,
            r.registry().parent_of(0) is None,
            r.registry().parent_of(1) is None,
            r.materials() == seq![default_outer_material(), default_material()],
            r.objects() == seq![0usize, 1usize],
    {
        let mut w = World::new();
        let mut outer = Material::new(Color::new(800_000_000, 1_000_000_000, 600_000_000));
        outer.diffuse = 700_000_000;
        outer.specular = 200_000_000;
        w.add(ShapeKind::Sphere, outer);
        w.add(ShapeKind::Sphere, Material::new(Color::white()));
        proof {
            assert(w.materials() =~= seq![default_outer_material(), default_material()]);
            assert(w.objects() =~= seq![0usize, 1usize]);
        }
        w
    }
}

} // verus!
