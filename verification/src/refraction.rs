use vstd::prelude::*;
use crate::intersection::Intersection;
use crate::scalar::close;
use crate::scalar::scalar_eq;

verus! {

/// The media on the two sides of a surface that a ray crosses. Each side
/// names the shape whose material fills it, by handle; `None` is empty
/// space.
#[derive(Clone, Copy, Debug, PartialEq, Eq, Structural)]
pub struct Media {
    /// The medium that the ray leaves.
    pub leaving: Option<usize>,
    /// The medium that the ray enters.
    pub entering: Option<usize>,
}

/// The shapes that enclose the ray once it has passed a surface of `obj`:
/// a shape that enclosed it no longer does, another one now does.
pub open spec fn toggle(containers: Seq<usize>, obj: usize) -> Seq<usize> {
    if containers.contains(obj) {
        containers.remove(containers.index_of(obj))
    } else {
        containers.push(obj)
    }
}

/// The shapes that enclose the ray after the first `n` intersections of
/// `xs`, the one entered last at the end.
pub open spec fn containers_after(xs: Seq<Intersection>, n: int) -> Seq<usize>
    decreases n,
{
    if n <= 0 {
        Seq::empty()
    } else {
        toggle(containers_after(xs, n - 1), xs[n - 1].obj)
    }
}

/// The shape entered last, if any.
pub open spec fn innermost(containers: Seq<usize>) -> Option<usize> {
    if containers.len() == 0 {
        None
    } else {
        Some(containers.last())
    }
}

/// Whether `k` is the first position of `xs` whose `t` is close to `t`.
pub open spec fn is_crossing(xs: Seq<Intersection>, t: i64, k: int) -> bool {
    &&& 0 <= k < xs.len()
    &&& close(t, xs[k].t)
    &&& forall|j: int| 0 <= j < k ==> !close(t, #[trigger] xs[j].t)
}

/// The media around the crossing at position `k` of `xs`.
pub open spec fn media_at(xs: Seq<Intersection>, k: int) -> Media {
    Media {
        leaving: innermost(containers_after(xs, k)),
        entering: innermost(containers_after(xs, k + 1)),
    }
}

/// The media around the crossing of `xs` whose parameter is close to `t`:
/// those at the first such position, and empty space on both sides where
/// there is none.
pub open spec fn media_of(xs: Seq<Intersection>, t: i64) -> Media {
    if exists|k: int| is_crossing(xs, t, k) {
        media_at(xs, choose|k: int| is_crossing(xs, t, k))
    } else {
        Media { leaving: None, entering: None }
    }
}

/// No shape is listed twice among those that enclose the ray.
pub proof fn lemma_containers_distinct(xs: Seq<Intersection>, n: int)
    requires
        0 <= n <= xs.len(),
    ensures
        containers_after(xs, n).no_duplicates(),
        containers_after(xs, n).len() <= n,
    decreases n,
{
    if n > 0 {
        lemma_containers_distinct(xs, n - 1);
        let c = containers_after(xs, n - 1);
        let obj = xs[n - 1].obj;
        if c.contains(obj) {
            let i = c.index_of(obj);
            let r = c.remove(i);
            assert forall|a: int, b: int| 0 <= a < r.len() && 0 <= b < r.len() && a != b implies r[a]
                != r[b] by {
                let a0 = if a < i { a } else { a + 1 };
                let b0 = if b < i { b } else { b + 1 };
                assert(r[a] == c[a0] && r[b] == c[b0]);
            }
        } else {
            let r = c.push(obj);
            assert forall|a: int, b: int| 0 <= a < r.len() && 0 <= b < r.len() && a != b implies r[a]
                != r[b] by {
                if a == c.len() {
                    assert(c[b] == r[b]);
                } else if b == c.len() {
                    assert(c[a] == r[a]);
                }
            }
        }
    }
}

/// How often the first `n` intersections of `xs` are with the shape `obj`.
pub open spec fn crossings(xs: Seq<Intersection>, n: int, obj: usize) -> nat
    decreases n,
{
    if n <= 0 {
        0
    } else if xs[n - 1].obj == obj {
        crossings(xs, n - 1, obj) + 1
    } else {
        crossings(xs, n - 1, obj)
    }
}

/// What `toggle` does to membership: it turns that of `obj` round and
/// leaves that of every other shape.
pub proof fn lemma_toggle_membership(containers: Seq<usize>, obj: usize, other: usize)
    requires
        containers.no_duplicates(),
    ensures
        toggle(containers, obj).contains(other) <==> if other == obj {
            !containers.contains(other)
        } else {
            containers.contains(other)
        },
{
    let after = toggle(containers, obj);
    if containers.contains(obj) {
        let i = containers.index_of(obj);
        assert forall|k: int| 0 <= k < after.len() implies after[k] == containers[if k < i {
            k
        } else {
            k + 1
        }] by {}
        if after.contains(other) {
            let k = choose|k: int| 0 <= k < after.len() && after[k] == other;
            let k0 = if k < i {
                k
            } else {
                k + 1
            };
            assert(containers[k0] == other);
            assert(k0 != i);
        }
        if other != obj && containers.contains(other) {
            let k0 = choose|k0: int| 0 <= k0 < containers.len() && containers[k0] == other;
            let k = if k0 < i {
                k0
            } else {
                k0 - 1
            };
            assert(after[k] == other);
        }
    } else {
        assert(after[containers.len() as int] == obj);
        if other != obj && containers.contains(other) {
            let k0 = choose|k0: int| 0 <= k0 < containers.len() && containers[k0] == other;
            assert(after[k0] == other);
        }
        if after.contains(other) && other != obj {
            let k = choose|k: int| 0 <= k < after.len() && after[k] == other;
            assert(containers[k] == other);
        }
    }
}

/// A shape encloses the ray exactly when the ray has crossed its surface
/// an odd number of times.
pub proof fn lemma_enclosed_when_odd(xs: Seq<Intersection>, n: int, obj: usize)
    requires
        0 <= n <= xs.len(),
    ensures
        containers_after(xs, n).contains(obj) <==> crossings(xs, n, obj) % 2 == 1,
    decreases n,
{
    if n > 0 {
        lemma_enclosed_when_odd(xs, n - 1, obj);
        lemma_containers_distinct(xs, n - 1);
        lemma_toggle_membership(containers_after(xs, n - 1), xs[n - 1].obj, obj);
    }
}

/// A shape that the ray has met an even number of times does not enclose
/// it: after entering and leaving `obj` the containers are as before.
pub proof fn lemma_toggle_twice(containers: Seq<usize>, obj: usize)
    requires
        !containers.contains(obj),
    ensures
        toggle(toggle(containers, obj), obj) == containers,
{
    let pushed = containers.push(obj);
    assert(pushed[containers.len() as int] == obj);
    assert(pushed.contains(obj));
    let i = pushed.index_of(obj);
    if i < containers.len() {
        assert(containers[i] == obj);
        assert(containers.contains(obj));
    }
    assert(pushed.remove(i) =~= containers);
}

/// Replays the intersections of a ray in order to find which media meet at
/// the crossing whose parameter is `hit_t`. `xs` holds every intersection
/// of the ray, sorted by `t`. The crossing is the first intersection whose
/// `t` is close to `hit_t`; where `xs` holds none, both sides are empty
/// space.
pub fn refractive_media(xs: &Vec<Intersection>, hit_t: i64) -> (r: Media)
    ensures
        r == media_of(xs@, hit_t),
        forall|k: int| is_crossing(xs@, hit_t, k) ==> r == media_at(xs@, k),
        (forall|j: int| 0 <= j < xs.len() ==> !close(hit_t, #[trigger] xs[j].t)) ==> r == (Media {
            leaving: None,
            entering: None,
        }),
{
    let mut containers: Vec<usize> = Vec::new();
    let mut i: usize = 0;
    while i < xs.len()
        invariant
            0 <= i <= xs.len(),
            containers@ == containers_after(xs@, i as int),
            forall|j: int| 0 <= j < i ==> !close(hit_t, #[trigger] xs[j].t),
        decreases xs.len() - i,
    {
        let x = xs[i];
        let at_hit = scalar_eq(hit_t, x.t);
        let leaving = last_of(&containers);
        proof {
            lemma_containers_distinct(xs@, i as int);
        }
        let ghost before = containers@;
        match position(&containers, x.obj) {
            Some(at) => {
                proof {
                    assert(before.contains(x.obj));
                    assert(before.index_of(x.obj) == at);
                }
                containers.remove(at);
            },
            None => {
                containers.push(x.obj);
            },
        }
        assert(containers@ == containers_after(xs@, i + 1));
        if at_hit {
            let entering = last_of(&containers);
            assert(is_crossing(xs@, hit_t, i as int));
            return Media { leaving, entering };
        }
        i += 1;
    }
    Media { leaving: None, entering: None }
}

/// The last element of `v`, if any.
fn last_of(v: &Vec<usize>) -> (r: Option<usize>)
    ensures
        r == innermost(v@),
{
    if v.len() == 0 {
        None
    } else {
        Some(v[v.len() - 1])
    }
}

/// The first position of `obj` in `v`, if any.
fn position(v: &Vec<usize>, obj: usize) -> (r: Option<usize>)
    ensures
        r is None <==> !v@.contains(obj),
        r matches Some(i) ==> i < v.len() && v[i as int] == obj && forall|j: int|
            0 <= j < i ==> v[j] != obj,
{
    let mut i: usize = 0;
    while i < v.len()
        invariant
            0 <= i <= v.len(),
            forall|j: int| 0 <= j < i ==> v[j] != obj,
        decreases v.len() - i,
    {
        if v[i] == obj {
            return Some(i);
        }
        i += 1;
    }
    None
}

} // verus!
