use vstd::prelude::*;

verus! {

/// The kinds of shape that a scene is made of.
#[derive(Clone, Copy, Debug, PartialEq, Eq, Structural)]
pub enum ShapeKind {
    Sphere,
    TestShape,
    Plane,
    Cube,
    Cylinder,
    Cone,
    Group,
}

/// What the repository records of one group.
#[derive(Debug)]
pub struct Group {
    pub id: usize,
    pub parent: Option<usize>,
    pub children: Vec<usize>,
}

struct Node {
    kind: ShapeKind,
    parent: Option<usize>,
    children: Vec<usize>,
}

/// The registry of a scene's shapes. Every shape, group or not, has a
/// handle: its position in the registry. A shape names its enclosing group
/// by handle, and a group lists its children by handle, so that a group is
/// never held twice.
pub struct GroupRepository {
    nodes: Vec<Node>,
    rank: Ghost<Seq<nat>>,
}

/// What becomes of `p` when `step` is taken for each shape of `path`, the
/// first shape first.
pub open spec fn carried<P>(path: Seq<usize>, step: spec_fn(usize, P) -> P, p: P) -> P
    decreases path.len(),
{
    if path.len() == 0 {
        p
    } else {
        carried(path.drop_first(), step, step(path[0], p))
    }
}

/// Carrying along a path with one more shape at its end takes that
/// shape's step last.
pub proof fn lemma_carried_push<P>(path: Seq<usize>, last: usize, step: spec_fn(usize, P) -> P, p: P)
    ensures
        carried(path.push(last), step, p) == step(last, carried(path, step, p)),
    decreases path.len(),
{
    if path.len() == 0 {
        assert(path.push(last).drop_first() =~= Seq::<usize>::empty());
        assert(carried(path.push(last).drop_first(), step, step(last, p)) == step(last, p));
    } else {
        lemma_carried_push(path.drop_first(), last, step, step(path[0], p));
        assert(path.push(last).drop_first() =~= path.drop_first().push(last));
    }
}

/// Going down a path and back up leaves a value as it was, where each
/// step up undoes the step down of the same shape.
pub proof fn lemma_there_and_back<P>(
    path: Seq<usize>,
    down: spec_fn(usize, P) -> P,
    up: spec_fn(usize, P) -> P,
    p: P,
)
    requires
        forall|s: usize, q: P| #[trigger] up(s, down(s, q)) == q,
    ensures
        carried(path.reverse(), up, carried(path, down, p)) == p,
    decreases path.len(),
{
    if path.len() == 0 {
        assert(path.reverse() =~= path);
    } else {
        let rest = path.drop_first();
        lemma_there_and_back(rest, down, up, down(path[0], p));
        lemma_carried_push(rest.reverse(), path[0], up, carried(path, down, p));
        assert(rest.reverse().push(path[0]) =~= path.reverse());
    }
}

impl GroupRepository {
    /// The number of shapes registered.
    pub closed spec fn len(&self) -> nat {
        self.nodes@.len()
    }

    /// The kind of the shape with handle `id`.
    pub closed spec fn kind_of(&self, id: usize) -> ShapeKind {
        self.nodes@[id as int].kind
    }

    /// The group that encloses the shape with handle `id`, if any.
    pub closed spec fn parent_of(&self, id: usize) -> Option<usize> {
        self.nodes@[id as int].parent
    }

    /// The children of the shape with handle `id`, in the order in which
    /// they were added.
    pub closed spec fn children_of(&self, id: usize) -> Seq<usize> {
        self.nodes@[id as int].children@
    }

    /// The registry's invariant: a parent is a registered group, children
    /// and parents agree, and no shape is among its own ancestors.
    pub closed spec fn wf(&self) -> bool {
        &&& self.rank@.len() == self.nodes@.len()
        &&& forall|i: usize|
            i < self.len() ==> match #[trigger] self.parent_of(i) {
                Some(p) => p < self.len() && self.kind_of(p) == ShapeKind::Group && self.height(p)
                    < self.height(i),
                None => true,
            }
        &&& forall|i: usize, k: int|
            i < self.len() && 0 <= k < self.children_of(i).len() ==> (
            #[trigger] self.children_of(i)[k]) < self.len() && self.parent_of(
                self.children_of(i)[k],
            ) == Some(i)
    }

    /// A number that is smaller for a group than for each of its children:
    /// the measure by which walks towards the outermost group end.
    pub closed spec fn height(&self, id: usize) -> nat {
        self.rank@[id as int]
    }

    /// The groups that enclose the shape with handle `id`, the nearest
    /// first and the outermost last.
    pub closed spec fn ancestors_of(&self, id: usize) -> Seq<usize>
        decreases self.height(id),
        when self.wf() && id < self.len()
    {
        match self.parent_of(id) {
            None => Seq::empty(),
            Some(p) => seq![p] + self.ancestors_of(p),
        }
    }

    /// The outermost shape around the shape with handle `id`: the shape
    /// itself where no group encloses it.
    pub closed spec fn root_of(&self, id: usize) -> usize
        decreases self.height(id),
        when self.wf() && id < self.len()
    {
        match self.parent_of(id) {
            None => id,
            Some(p) => self.root_of(p),
        }
    }

    /// The handles in the order in which a world point is taken into the
    /// local space of the shape with handle `id`: the outermost group
    /// first, the shape itself last.
    pub open spec fn world_to_object_order(&self, id: usize) -> Seq<usize> {
        self.ancestors_of(id).reverse().push(id)
    }

    /// The handles in the order in which a local normal of the shape with
    /// handle `id` is taken out to world space: the shape itself first, the
    /// outermost group last.
    pub open spec fn normal_to_world_order(&self, id: usize) -> Seq<usize> {
        seq![id] + self.ancestors_of(id)
    }

    /// Whether `add_child` accepts `child` as a child of `group`: both are
    /// registered, `group` is a group, `child` has no parent yet, and
    /// `child` is not the outermost shape around `group`.
    pub open spec fn can_adopt(&self, group: usize, child: usize) -> bool {
        &&& group < self.len()
        &&& child < self.len()
        &&& self.kind_of(group) == ShapeKind::Group
        &&& self.parent_of(child) is None
        &&& self.root_of(group) != child
    }

    /// How `ancestors_of` and `root_of` follow the parent links.
    pub proof fn lemma_unfold(&self, id: usize)
        requires
            self.wf(),
            id < self.len(),
        ensures
            self.parent_of(id) is None ==> self.ancestors_of(id) == Seq::<usize>::empty()
                && self.root_of(id) == id,
            self.parent_of(id) matches Some(p) ==> p < self.len() && self.kind_of(p)
                == ShapeKind::Group && self.ancestors_of(id) == seq![p] + self.ancestors_of(p)
                && self.root_of(id) == self.root_of(p),
    {
    }

    /// Every ancestor of a registered shape is a registered group, and
    /// closer to the outermost group than the shape is.
    pub proof fn lemma_ancestors(&self, id: usize, k: int)
        requires
            self.wf(),
            id < self.len(),
            0 <= k < self.ancestors_of(id).len(),
        ensures
            self.ancestors_of(id)[k] < self.len(),
            self.kind_of(self.ancestors_of(id)[k]) == ShapeKind::Group,
            self.height(self.ancestors_of(id)[k]) < self.height(id),
        decreases self.height(id),
    {
        match self.parent_of(id) {
            None => {},
            Some(p) => {
                if k > 0 {
                    self.lemma_ancestors(p, k - 1);
                    assert(self.ancestors_of(id)[k] == self.ancestors_of(p)[k - 1]);
                }
            },
        }
    }

    /// The chain of parents never comes back: no shape is among its own
    /// ancestors.
    pub proof fn lemma_acyclic(&self, id: usize)
        requires
            self.wf(),
            id < self.len(),
        ensures
            !self.ancestors_of(id).contains(id),
    {
        if self.ancestors_of(id).contains(id) {
            let k = choose|k: int|
                0 <= k < self.ancestors_of(id).len() && self.ancestors_of(id)[k] == id;
            self.lemma_ancestors(id, k);
        }
    }

    /// The way into a shape's local space and the way out of it pass the
    /// same shapes in opposite order.
    pub proof fn lemma_paths_mirror(&self, id: usize)
        requires
            self.wf(),
            id < self.len(),
        ensures
            self.world_to_object_order(id) == self.normal_to_world_order(id).reverse(),
            self.normal_to_world_order(id) == self.world_to_object_order(id).reverse(),
    {
        let up = self.ancestors_of(id);
        assert(up.reverse().push(id) =~= (seq![id] + up).reverse());
        assert(seq![id] + up =~= up.reverse().push(id).reverse());
    }

    /// Taking a point from world space into the space of a shape and back
    /// out gives the point, however deep the shape is nested: `to_object`
    /// is the step into one shape's space, and `to_world` the step out of
    /// it, which undoes `to_object`.
    pub proof fn lemma_round_trip<P>(
        &self,
        id: usize,
        to_object: spec_fn(usize, P) -> P,
        to_world: spec_fn(usize, P) -> P,
        p: P,
    )
        requires
            self.wf(),
            id < self.len(),
            forall|s: usize, q: P| #[trigger] to_world(s, to_object(s, q)) == q,
        ensures
            carried(
                self.normal_to_world_order(id),
                to_world,
                carried(self.world_to_object_order(id), to_object, p),
            ) == p,
    {
        self.lemma_paths_mirror(id);
        lemma_there_and_back(self.world_to_object_order(id), to_object, to_world, p);
    }

    /// Whether `after` is `self` with `child` adopted by `group`: the same
    /// shapes, with the same parents but for `child`, whose parent is
    /// `group`.
    pub open spec fn adopted(&self, after: GroupRepository, group: usize, child: usize) -> bool {
        &&& self.wf()
        &&& after.wf()
        &&& after.len() == self.len()
        &&& self.can_adopt(group, child)
        &&& forall|i: usize|
            i < self.len() ==> #[trigger] after.parent_of(i) == if i == child {
                Some(group)
            } else {
                self.parent_of(i)
            }
    }

    /// Adopting a child changes the ancestors of no shape outside the
    /// child's subtree.
    pub proof fn lemma_adoption_outside(
        &self,
        after: GroupRepository,
        group: usize,
        child: usize,
        x: usize,
    )
        requires
            self.adopted(after, group, child),
            x < self.len(),
            self.root_of(x) != child,
        ensures
            after.ancestors_of(x) == self.ancestors_of(x),
            after.root_of(x) == self.root_of(x),
        decreases self.height(x),
    {
        assert(after.parent_of(x) == self.parent_of(x));
        match self.parent_of(x) {
            None => {},
            Some(p) => {
                self.lemma_adoption_outside(after, group, child, p);
            },
        }
    }

    /// Adopting a child puts the group and the group's ancestors behind
    /// the ancestors of every shape in the child's subtree.
    pub proof fn lemma_adoption_inside(
        &self,
        after: GroupRepository,
        group: usize,
        child: usize,
        x: usize,
    )
        requires
            self.adopted(after, group, child),
            x < self.len(),
            self.root_of(x) == child,
        ensures
            after.ancestors_of(x) == self.ancestors_of(x) + seq![group] + self.ancestors_of(group),
            after.root_of(x) == self.root_of(group),
        decreases self.height(x),
    {
        let tail = seq![group] + self.ancestors_of(group);
        match self.parent_of(x) {
            None => {
                assert(x == child);
                assert(after.parent_of(child) == Some(group));
                self.lemma_adoption_outside(after, group, child, group);
                assert(self.ancestors_of(x) + seq![group] + self.ancestors_of(group) =~= tail);
            },
            Some(p) => {
                assert(after.parent_of(x) == self.parent_of(x));
                self.lemma_adoption_inside(after, group, child, p);
                assert(seq![p] + (self.ancestors_of(p) + seq![group] + self.ancestors_of(group))
                    =~= (seq![p] + self.ancestors_of(p)) + seq![group] + self.ancestors_of(
                    group,
                ));
            },
        }
    }

    /// Every child of a registered shape is registered and names that shape
    /// as its parent; only groups have children.
    pub proof fn lemma_children(&self, id: usize, k: int)
        requires
            self.wf(),
            id < self.len(),
            0 <= k < self.children_of(id).len(),
        ensures
            self.children_of(id)[k] < self.len(),
            self.parent_of(self.children_of(id)[k]) == Some(id),
            self.kind_of(id) == ShapeKind::Group,
    {
        let c = self.children_of(id)[k];
        assert(c < self.len());
        assert(self.parent_of(c) == Some(id));
    }

    /// An empty registry.
    pub fn new() -> (r: GroupRepository)
        ensures
            r.wf(),
            r.len() == 0,
    {
        GroupRepository { nodes: Vec::new(), rank: Ghost(Seq::empty()) }
    }

    /// Registers a shape of the given kind, with no parent and no children,
    /// and returns its handle.
    pub fn new_shape(&mut self, kind: ShapeKind) -> (id: usize)
        requires
            old(self).wf(),
        ensures
            final(self).wf(),
            id == old(self).len(),
            final(self).len() == old(self).len() + 1,
            final(self).kind_of(id) == kind,
            final(self).parent_of(id) is None,
            final(self).children_of(id) == Seq::<usize>::empty(),
            forall|i: usize|
                i < old(self).len() ==> #[trigger] final(self).kind_of(i) == old(self).kind_of(i),
            forall|i: usize|
                i < old(self).len() ==> #[trigger] final(self).parent_of(i) == old(self).parent_of(
                    i,
                ),
            forall|i: usize|
                i < old(self).len() ==> #[trigger] final(self).children_of(i) == old(
                    self,
                ).children_of(i),
    {
        let id = self.nodes.len();
        self.nodes.push(Node { kind, parent: None, children: Vec::new() });
        self.rank = Ghost(self.rank@.push(0));
        proof {
            assert forall|i: usize| i < self.len() implies match #[trigger] self.parent_of(i) {
                Some(p) => p < self.len() && self.kind_of(p) == ShapeKind::Group && self.height(p)
                    < self.height(i),
                None => true,
            } by {
                if i < id {
                    assert(self.parent_of(i) == old(self).parent_of(i));
                }
            }
            assert forall|i: usize, k: int|
                i < self.len() && 0 <= k < self.children_of(i).len() implies (
            #[trigger] self.children_of(i)[k]) < self.len() && self.parent_of(
                self.children_of(i)[k],
            ) == Some(i) by {
                assert(self.children_of(i) == old(self).children_of(i));
                let c = old(self).children_of(i)[k];
                assert(c < old(self).len());
            }
        }
        id
    }

    /// Registers an empty group and returns its handle.
    pub fn new_group(&mut self) -> (id: usize)
        requires
            old(self).wf(),
        ensures
            final(self).wf(),
            id == old(self).len(),
            final(self).len() == old(self).len() + 1,
            final(self).kind_of(id) == ShapeKind::Group,
            final(self).parent_of(id) is None,
            final(self).children_of(id) == Seq::<usize>::empty(),
            forall|i: usize|
                i < old(self).len() ==> #[trigger] final(self).kind_of(i) == old(self).kind_of(i),
            forall|i: usize|
                i < old(self).len() ==> #[trigger] final(self).parent_of(i) == old(self).parent_of(
                    i,
                ),
            forall|i: usize|
                i < old(self).len() ==> #[trigger] final(self).children_of(i) == old(
                    self,
                ).children_of(i),
    {
        self.new_shape(ShapeKind::Group)
    }

    /// The number of shapes registered.
    pub fn count(&self) -> (r: usize)
        ensures
            r == self.len(),
    {
        self.nodes.len()
    }

    /// The kind of a registered shape.
    pub fn kind(&self, id: usize) -> (r: ShapeKind)
        requires
            id < self.len(),
        ensures
            r == self.kind_of(id),
    {
        self.nodes[id].kind
    }

    /// The group that encloses a registered shape, if any.
    pub fn get_parent(&self, id: usize) -> (r: Option<usize>)
        requires
            id < self.len(),
        ensures
            r == self.parent_of(id),
    {
        self.nodes[id].parent
    }

    /// Whether a registered shape has no children.
    pub fn is_empty(&self, id: usize) -> (r: bool)
        requires
            id < self.len(),
        ensures
            r <==> self.children_of(id).len() == 0,
    {
        self.nodes[id].children.len() == 0
    }

    /// What the registry records of the group with handle `id`; `None`
    /// where `id` is not the handle of a group.
    pub fn get_group(&self, id: usize) -> (r: Option<Group>)
        ensures
            r is Some <==> id < self.len() && self.kind_of(id) == ShapeKind::Group,
            r matches Some(g) ==> g.id == id && g.parent == self.parent_of(id) && g.children@
                == self.children_of(id),
    {
        if id >= self.nodes.len() {
            return None;
        }
        match self.nodes[id].kind {
            ShapeKind::Group => {},
            _ => {
                return None;
            },
        }
        let list = &self.nodes[id].children;
        let mut children: Vec<usize> = Vec::new();
        let mut k: usize = 0;
        while k < list.len()
            invariant
                0 <= k <= list.len(),
                children@ == list@.take(k as int),
            decreases list.len() - k,
        {
            children.push(list[k]);
            proof {
                assert(list@.take(k + 1) =~= list@.take(k as int).push(list@[k as int]));
            }
            k += 1;
        }
        proof {
            assert(list@.take(list.len() as int) =~= list@);
        }
        Some(Group { id, parent: self.nodes[id].parent, children })
    }

    /// The outermost shape around a registered shape.
    pub fn root(&self, id: usize) -> (r: usize)
        requires
            self.wf(),
            id < self.len(),
        ensures
            r == self.root_of(id),
            r < self.len(),
            self.parent_of(r) is None,
    {
        let mut cur = id;
        loop
            invariant
                self.wf(),
                cur < self.len(),
                self.root_of(cur) == self.root_of(id),
            decreases self.rank@[cur as int],
        {
            assert(self.parent_of(cur) == self.nodes@[cur as int].parent);
            match self.nodes[cur].parent {
                None => {
                    return cur;
                },
                Some(p) => {
                    cur = p;
                },
            }
        }
    }

    /// The groups that enclose a registered shape, the nearest first.
    pub fn ancestors(&self, id: usize) -> (r: Vec<usize>)
        requires
            self.wf(),
            id < self.len(),
        ensures
            r@ == self.ancestors_of(id),
    {
        let mut out: Vec<usize> = Vec::new();
        let mut cur = id;
        loop
            invariant
                self.wf(),
                cur < self.len(),
                id < self.len(),
                self.ancestors_of(id) == out@ + self.ancestors_of(cur),
            decreases self.rank@[cur as int],
        {
            assert(self.parent_of(cur) == self.nodes@[cur as int].parent);
            match self.nodes[cur].parent {
                None => {
                    proof {
                        assert(out@ + Seq::<usize>::empty() =~= out@);
                    }
                    return out;
                },
                Some(p) => {
                    proof {
                        assert(out@.push(p) + self.ancestors_of(p) =~= out@ + (seq![p]
                            + self.ancestors_of(p)));
                    }
                    out.push(p);
                    cur = p;
                },
            }
        }
    }

    /// Makes `child` the last child of `group`, where `can_adopt` allows
    /// it, and says whether it did. Otherwise the registry stays as it was.
    pub fn add_child(&mut self, group: usize, child: usize) -> (ok: bool)
        requires
            old(self).wf(),
        ensures
            final(self).wf(),
            final(self).len() == old(self).len(),
            ok <==> old(self).can_adopt(group, child),
            ok ==> old(self).adopted(*final(self), group, child),
            forall|i: usize|
                i < old(self).len() ==> #[trigger] final(self).kind_of(i) == old(self).kind_of(i),
            forall|i: usize|
                i < old(self).len() ==> #[trigger] final(self).parent_of(i) == if ok && i == child {
                    Some(group)
                } else {
                    old(self).parent_of(i)
                },
            forall|i: usize|
                i < old(self).len() ==> #[trigger] final(self).children_of(i) == if ok && i
                    == group {
                    old(self).children_of(i).push(child)
                } else {
                    old(self).children_of(i)
                },
    {
        if group >= self.nodes.len() || child >= self.nodes.len() {
            return false;
        }
        match self.nodes[group].kind {
            ShapeKind::Group => {},
            _ => {
                return false;
            },
        }
        if self.nodes[child].parent.is_some() {
            return false;
        }
        if self.root(group) == child {
            return false;
        }
        let ghost pre = *self;
        self.nodes[child].parent = Some(group);
        self.nodes[group].children.push(child);
        let ghost lift = pre.rank@[group as int] + 1;
        let ghost rank = Seq::new(
            pre.rank@.len(),
            |x: int|
                if pre.root_of(x as usize) == child {
                    pre.rank@[x] + lift
                } else {
                    pre.rank@[x]
                },
        );
        self.rank = Ghost(rank);
        proof {
            assert(self.len() == pre.len());
            assert forall|i: usize| i < self.len() implies match #[trigger] self.parent_of(i) {
                Some(p) => p < self.len() && self.kind_of(p) == ShapeKind::Group && self.height(p)
                    < self.height(i),
                None => true,
            } by {
                if i == child {
                    assert(pre.root_of(child) == child);
                } else {
                    assert(self.parent_of(i) == pre.parent_of(i));
                    match pre.parent_of(i) {
                        Some(p) => {
                            assert(pre.root_of(i) == pre.root_of(p));
                            assert(self.kind_of(p) == pre.kind_of(p));
                        },
                        None => {},
                    }
                }
            }
            assert forall|i: usize, k: int|
                i < self.len() && 0 <= k < self.children_of(i).len() implies (
            #[trigger] self.children_of(i)[k]) < self.len() && self.parent_of(
                self.children_of(i)[k],
            ) == Some(i) by {
                if i == group && k == pre.children_of(i).len() {
                } else {
                    let c = pre.children_of(i)[k];
                    assert(self.children_of(i)[k] == c);
                    assert(c < pre.len());
                    assert(pre.parent_of(c) == Some(i));
                }
            }
        }
        true
    }

    /// The handles in the order in which a world point is taken into the
    /// local space of a registered shape.
    pub fn world_to_object_path(&self, id: usize) -> (r: Vec<usize>)
        requires
            self.wf(),
            id < self.len(),
        ensures
            r@ == self.world_to_object_order(id),
    {
        let up = self.ancestors(id);
        let mut out: Vec<usize> = Vec::new();
        let mut k: usize = up.len();
        while k > 0
            invariant
                0 <= k <= up.len(),
                out@ == up@.reverse().take(up.len() - k),
            decreases k,
        {
            k -= 1;
            out.push(up[k]);
            proof {
                let rev = up@.reverse();
                assert(rev.take(up.len() - k) =~= rev.take(up.len() - k - 1).push(up@[k as int]));
            }
        }
        proof {
            assert(up@.reverse().take(up.len() as int) =~= up@.reverse());
        }
        out.push(id);
        out
    }

    /// The handles in the order in which a local normal of a registered
    /// shape is taken out to world space.
    pub fn normal_to_world_path(&self, id: usize) -> (r: Vec<usize>)
        requires
            self.wf(),
            id < self.len(),
        ensures
            r@ == self.normal_to_world_order(id),
    {
        let up = self.ancestors(id);
        let mut out: Vec<usize> = Vec::new();
        out.push(id);
        let mut k: usize = 0;
        while k < up.len()
            invariant
                0 <= k <= up.len(),
                out@ == seq![id] + up@.take(k as int),
            decreases up.len() - k,
        {
            out.push(up[k]);
            proof {
                assert(seq![id] + up@.take(k + 1) =~= (seq![id] + up@.take(k as int)).push(
                    up@[k as int],
                ));
            }
            k += 1;
        }
        proof {
            assert(up@.take(up.len() as int) =~= up@);
        }
        out
    }
}

} // verus!
