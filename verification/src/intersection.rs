use vstd::prelude::*;
use crate::material::get_material;
use crate::material::material_of;
use crate::material::Material;
use crate::scalar::close;
use crate::scalar::scalar_eq;

verus! {

/// One meeting of a ray with a shape: the shape's handle and the ray
/// parameter, in ticks, at which the ray meets it.
#[derive(Clone, Copy, Debug, PartialEq, Eq, Structural)]
pub struct Intersection {
    pub obj: usize,
    pub t: i64,
}

pub type Intersections = Vec<Intersection>;

impl Intersection {
    pub fn new(obj: usize, t: i64) -> (r: Intersection)
        ensures
            r.obj == obj,
            r.t == t,
    {
        Intersection { obj, t }
    }
}

/// `s` is in ascending order of `t`.
pub open spec fn ordered(s: Seq<Intersection>) -> bool {
    forall|i: int, j: int| 0 <= i < j < s.len() ==> s[i].t <= s[j].t
}

/// `x` placed into `s` behind every element whose `t` is not larger.
pub open spec fn insert_sorted(s: Seq<Intersection>, x: Intersection) -> Seq<Intersection>
    decreases s.len(),
{
    if s.len() == 0 {
        seq![x]
    } else if s.last().t <= x.t {
        s.push(x)
    } else {
        insert_sorted(s.drop_last(), x).push(s.last())
    }
}

/// `s` in ascending order of `t`; elements with the same `t` keep the order
/// they had in `s`.
pub open spec fn sorted_by_t(s: Seq<Intersection>) -> Seq<Intersection>
    decreases s.len(),
{
    if s.len() == 0 {
        s
    } else {
        insert_sorted(sorted_by_t(s.drop_last()), s.last())
    }
}

/// Placing `x` at a position with nothing larger before it and only larger
/// elements after it is what `insert_sorted` does.
pub proof fn lemma_insert_position(s: Seq<Intersection>, x: Intersection, j: int)
    requires
        0 <= j <= s.len(),
        j == 0 || s[j - 1].t <= x.t,
        forall|k: int| j <= k < s.len() ==> s[k].t > x.t,
    ensures
        insert_sorted(s, x) == s.insert(j, x),
    decreases s.len(),
{
    if s.len() == 0 {
        assert(s.insert(j, x) =~= seq![x]);
    } else if j == s.len() {
        assert(s.insert(j, x) =~= s.push(x));
    } else {
        lemma_insert_position(s.drop_last(), x, j);
        assert(s.drop_last().insert(j, x).push(s.last()) =~= s.insert(j, x));
    }
}

/// Inserting into an ordered sequence leaves it ordered, one longer, and
/// holding what it held and `x`.
pub proof fn lemma_insert_sorted(s: Seq<Intersection>, x: Intersection)
    requires
        ordered(s),
    ensures
        ordered(insert_sorted(s, x)),
        insert_sorted(s, x).len() == s.len() + 1,
        insert_sorted(s, x).to_multiset() == s.to_multiset().insert(x),
    decreases s.len(),
{
    broadcast use vstd::seq_lib::group_to_multiset_ensures;
    if s.len() == 0 {
        assert(s =~= Seq::empty());
        assert(seq![x] =~= Seq::<Intersection>::empty().push(x));
    } else if s.last().t <= x.t {
    } else {
        let front = s.drop_last();
        lemma_insert_sorted(front, x);
        let ins = insert_sorted(front, x);
        assert(s =~= front.push(s.last()));
        assert forall|i: int| 0 <= i < ins.len() implies (#[trigger] ins[i]).t <= s.last().t by {
            assert(ins.to_multiset().count(ins[i]) > 0);
            if ins[i] != x {
                assert(front.to_multiset().count(ins[i]) > 0);
                assert(front.contains(ins[i]));
            }
        }
        assert(ins.push(s.last()).to_multiset() =~= s.to_multiset().insert(x));
    }
}

/// Sorting gives an ordered sequence of the same elements.
pub proof fn lemma_sorted_by_t(s: Seq<Intersection>)
    ensures
        ordered(sorted_by_t(s)),
        sorted_by_t(s).len() == s.len(),
        sorted_by_t(s).to_multiset() == s.to_multiset(),
    decreases s.len(),
{
    broadcast use vstd::seq_lib::group_to_multiset_ensures;
    if s.len() > 0 {
        lemma_sorted_by_t(s.drop_last());
        lemma_insert_sorted(sorted_by_t(s.drop_last()), s.last());
        assert(s =~= s.drop_last().push(s.last()));
    }
}

/// The elements of `s` whose `t` is `t`, in their order.
pub open spec fn with_t(s: Seq<Intersection>, t: i64) -> Seq<Intersection> {
    s.filter(|x: Intersection| x.t == t)
}

/// Inserting puts `x` behind the elements that share its `t`, and leaves
/// the elements of every other `t` as they were.
pub proof fn lemma_insert_is_stable(s: Seq<Intersection>, x: Intersection, t: i64)
    ensures
        with_t(insert_sorted(s, x), t) == if x.t == t {
            with_t(s, t).push(x)
        } else {
            with_t(s, t)
        },
    decreases s.len(),
{
    reveal(Seq::filter);
    if s.len() == 0 {
        assert(seq![x].drop_last() =~= s);
        assert(seq![x].last() == x);
    } else if s.last().t <= x.t {
        assert(s.push(x).drop_last() =~= s);
    } else {
        let front = s.drop_last();
        lemma_insert_is_stable(front, x, t);
        let ins = insert_sorted(front, x);
        assert(ins.push(s.last()).drop_last() =~= ins);
    }
}

/// Sorting is stable: the elements that share a `t` stand in the order
/// they had before.
pub proof fn lemma_sorted_is_stable(s: Seq<Intersection>, t: i64)
    ensures
        with_t(sorted_by_t(s), t) == with_t(s, t),
    decreases s.len(),
{
    reveal(Seq::filter);
    if s.len() > 0 {
        lemma_sorted_is_stable(s.drop_last(), t);
        lemma_insert_is_stable(sorted_by_t(s.drop_last()), s.last(), t);
    }
}

/// Sorting changes nothing in a sequence that is in order already: what a
/// world or a group answers needs no further sorting.
pub proof fn lemma_sorted_stays(s: Seq<Intersection>)
    requires
        ordered(s),
    ensures
        sorted_by_t(s) == s,
    decreases s.len(),
{
    if s.len() > 0 {
        let front = s.drop_last();
        lemma_sorted_stays(front);
        if front.len() > 0 {
            assert(front.last() == s[s.len() - 2]);
            assert(s[s.len() - 2].t <= s[s.len() - 1].t);
        }
        assert(front.push(s.last()) =~= s);
    }
}

/// Sorts `xs` by `t`, keeping elements with the same `t` in their order.
pub fn sort_by_t(xs: &Vec<Intersection>) -> (r: Vec<Intersection>)
    ensures
        r@ == sorted_by_t(xs@),
        ordered(r@),
        r@.to_multiset() == xs@.to_multiset(),
{
    let mut out: Vec<Intersection> = Vec::new();
    let mut i: usize = 0;
    proof {
        assert(xs@.take(0) =~= Seq::empty());
    }
    while i < xs.len()
        invariant
            0 <= i <= xs.len(),
            out@ == sorted_by_t(xs@.take(i as int)),
        decreases xs.len() - i,
    {
        let x = xs[i];
        let mut j: usize = out.len();
        while j > 0 && out[j - 1].t > x.t
            invariant
                0 <= j <= out.len(),
                forall|k: int| j <= k < out.len() ==> out[k].t > x.t,
            decreases j,
        {
            j -= 1;
        }
        proof {
            lemma_insert_position(out@, x, j as int);
            assert(xs@.take(i + 1).drop_last() =~= xs@.take(i as int));
        }
        out.insert(j, x);
        i += 1;
    }
    proof {
        assert(xs@.take(xs.len() as int) =~= xs@);
        lemma_sorted_by_t(xs@);
    }
    out
}


/// The first element of `s` whose `t` is not negative.
pub open spec fn first_non_negative(s: Seq<Intersection>) -> Option<Intersection>
    decreases s.len(),
{
    if s.len() == 0 {
        None
    } else if s[0].t >= 0 {
        Some(s[0])
    } else {
        first_non_negative(s.skip(1))
    }
}

/// The elements of `s` whose `t` is not negative, in their order.
pub open spec fn non_negative(s: Seq<Intersection>) -> Seq<Intersection> {
    s.filter(|x: Intersection| x.t >= 0)
}

/// `first_non_negative` is `None` exactly when every `t` is negative, and
/// otherwise an element of `s` with nothing but negative `t` before it.
pub proof fn lemma_first_non_negative(s: Seq<Intersection>)
    ensures
        first_non_negative(s) is None <==> (forall|i: int| 0 <= i < s.len() ==> s[i].t < 0),
        first_non_negative(s) matches Some(h) ==> exists|k: int|
            0 <= k < s.len() && s[k] == h && h.t >= 0 && (forall|i: int|
                0 <= i < k ==> s[i].t < 0),
    decreases s.len(),
{
    if s.len() == 0 {
    } else if s[0].t >= 0 {
        assert(0 <= 0 < s.len() && s[0] == s[0] && (forall|i: int| 0 <= i < 0 ==> s[i].t < 0));
    } else {
        let rest = s.skip(1);
        lemma_first_non_negative(rest);
        assert(forall|i: int| 0 <= i < rest.len() ==> rest[i] == s[i + 1]);
        if first_non_negative(rest) is None {
            assert forall|i: int| 0 <= i < s.len() implies s[i].t < 0 by {
                if i > 0 {
                    assert(rest[i - 1].t < 0);
                }
            }
        } else {
            let h = first_non_negative(rest).unwrap();
            let k = choose|k: int|
                0 <= k < rest.len() && rest[k] == h && h.t >= 0 && (forall|i: int|
                    0 <= i < k ==> rest[i].t < 0);
            assert(s[k + 1] == h);
            assert forall|i: int| 0 <= i < k + 1 implies s[i].t < 0 by {
                if i > 0 {
                    assert(rest[i - 1].t < 0);
                }
            }
            assert(s[k + 1].t >= 0);
        }
    }
}

/// What `hit` selects is the nearest of the intersections that do not lie
/// behind the ray's origin: it is an element of `s`, its `t` is not
/// negative, and no element of `s` with a non-negative `t` has a smaller
/// one. There is none exactly when every `t` is negative.
pub proof fn lemma_hit_is_nearest(s: Seq<Intersection>)
    ensures
        first_non_negative(sorted_by_t(s)) is None <==> (forall|i: int|
            0 <= i < s.len() ==> s[i].t < 0),
        first_non_negative(sorted_by_t(s)) matches Some(h) ==> s.contains(h) && h.t >= 0 && (
        forall|i: int| 0 <= i < s.len() && s[i].t >= 0 ==> h.t <= s[i].t),
{
    broadcast use vstd::seq_lib::group_to_multiset_ensures;
    let r = sorted_by_t(s);
    lemma_sorted_by_t(s);
    lemma_first_non_negative(r);
    assert forall|i: int| 0 <= i < s.len() implies r.contains(s[i]) by {
        assert(s.to_multiset().count(s[i]) > 0);
    }
    assert forall|i: int| 0 <= i < r.len() implies s.contains(r[i]) by {
        assert(r.to_multiset().count(r[i]) > 0);
    }
    if first_non_negative(r) is None {
        assert forall|i: int| 0 <= i < s.len() implies s[i].t < 0 by {
            assert(r.contains(s[i]));
        }
    } else {
        let h = first_non_negative(r).unwrap();
        let k = choose|k: int|
            0 <= k < r.len() && r[k] == h && h.t >= 0 && (forall|i: int|
                0 <= i < k ==> r[i].t < 0);
        assert(s.contains(r[k]));
        assert forall|i: int| 0 <= i < s.len() && s[i].t >= 0 implies h.t <= s[i].t by {
            assert(r.contains(s[i]));
            let j = choose|j: int| 0 <= j < r.len() && r[j] == s[i];
            assert(j >= k);
        }
        if forall|i: int| 0 <= i < s.len() ==> s[i].t < 0 {
            let j = choose|j: int| 0 <= j < s.len() && s[j] == h;
            assert(s[j].t < 0);
        }
    }
}

/// What `first_non_negative` gives for a sequence with one more element
/// behind it.
pub proof fn lemma_first_non_negative_push(s: Seq<Intersection>, x: Intersection)
    ensures
        first_non_negative(s.push(x)) == match first_non_negative(s) {
            Some(h) => Some(h),
            None => if x.t >= 0 {
                Some(x)
            } else {
                None
            },
        },
    decreases s.len(),
{
    if s.len() == 0 {
        assert(s.push(x)[0] == x);
        assert(s.push(x).skip(1).len() == 0);
        assert(first_non_negative(s.push(x).skip(1)) is None);
    } else {
        assert(s.push(x)[0] == s[0]);
        if s[0].t < 0 {
            lemma_first_non_negative_push(s.skip(1), x);
            assert(s.push(x).skip(1) =~= s.skip(1).push(x));
        }
    }
}

/// The hit is the first of the positive hits: what `hit` selects heads
/// what `positive_hits` lists, and there is no hit exactly when that list
/// is empty.
pub proof fn lemma_hit_heads_positive_hits(s: Seq<Intersection>)
    ensures
        first_non_negative(s) == if non_negative(s).len() > 0 {
            Some(non_negative(s)[0])
        } else {
            None
        },
    decreases s.len(),
{
    reveal(Seq::filter);
    if s.len() > 0 {
        let front = s.drop_last();
        lemma_hit_heads_positive_hits(front);
        lemma_first_non_negative_push(front, s.last());
        assert(front.push(s.last()) =~= s);
    }
}

/// The visible intersection: after sorting by `t`, the first one whose `t`
/// is not negative; `None` when the ray meets nothing in front of it.
pub fn hit(xs: &Vec<Intersection>) -> (r: Option<Intersection>)
    ensures
        r == first_non_negative(sorted_by_t(xs@)),
        r is None <==> (forall|i: int| 0 <= i < xs.len() ==> xs[i].t < 0),
        r matches Some(h) ==> xs@.contains(h) && h.t >= 0 && (forall|i: int|
            0 <= i < xs.len() && xs[i].t >= 0 ==> h.t <= xs[i].t),
{
    let s = sort_by_t(xs);
    proof {
        lemma_hit_is_nearest(xs@);
        assert(s@.skip(0) =~= s@);
    }
    let mut i: usize = 0;
    while i < s.len()
        invariant
            0 <= i <= s.len(),
            s@ == sorted_by_t(xs@),
            first_non_negative(s@) == first_non_negative(s@.skip(i as int)),
        decreases s.len() - i,
    {
        if s[i].t >= 0 {
            proof {
                assert(s@.skip(i as int)[0] == s@[i as int]);
                lemma_hit_is_nearest(xs@);
            }
            return Some(s[i]);
        }
        proof {
            assert(s@.skip(i as int)[0] == s@[i as int]);
            assert(s@.skip(i as int).skip(1) =~= s@.skip(i + 1));
        }
        i += 1;
    }
    proof {
        assert(s@.skip(i as int).len() == 0);
        lemma_hit_is_nearest(xs@);
    }
    None
}

/// The intersections that do not lie behind the ray's origin, sorted by `t`.
pub fn positive_hits(xs: &Vec<Intersection>) -> (r: Vec<Intersection>)
    ensures
        r@ == non_negative(sorted_by_t(xs@)),
        ordered(r@),
        forall|i: int| 0 <= i < r.len() ==> r[i].t >= 0 && xs@.contains(#[trigger] r[i]),
{
    let s = sort_by_t(xs);
    let mut out: Vec<Intersection> = Vec::new();
    let mut i: usize = 0;
    proof {
        assert(s@.take(0) =~= Seq::empty());
        broadcast use vstd::seq_lib::group_filter_ensures;
    }
    while i < s.len()
        invariant
            0 <= i <= s.len(),
            out@ == non_negative(s@.take(i as int)),
        decreases s.len() - i,
    {
        proof {
            assert(s@.take(i + 1).drop_last() =~= s@.take(i as int));
            assert(s@.take(i + 1).last() == s@[i as int]);
            reveal(Seq::filter);
        }
        if s[i].t >= 0 {
            out.push(s[i]);
        }
        i += 1;
    }
    proof {
        assert(s@.take(s.len() as int) =~= s@);
        lemma_non_negative(s@);
        lemma_sorted_by_t(xs@);
        broadcast use vstd::seq_lib::group_to_multiset_ensures;
        assert forall|i: int| 0 <= i < out.len() implies xs@.contains(#[trigger] out[i]) by {
            assert(s@.contains(out[i]));
            assert(s@.to_multiset().count(out[i]) > 0);
        }
    }
    out
}

/// Filtering an ordered sequence keeps it ordered, and keeps only elements
/// of the sequence whose `t` is not negative.
pub proof fn lemma_non_negative(s: Seq<Intersection>)
    requires
        ordered(s),
    ensures
        ordered(non_negative(s)),
        forall|i: int|
            0 <= i < non_negative(s).len() ==> (#[trigger] non_negative(s)[i]).t >= 0
                && s.contains(non_negative(s)[i]),
        forall|i: int|
            0 <= i < s.len() && s[i].t >= 0 ==> non_negative(s).contains(#[trigger] s[i]),
    decreases s.len(),
{
    reveal(Seq::filter);
    if s.len() > 0 {
        let front = s.drop_last();
        lemma_non_negative(front);
        let f = non_negative(front);
        assert forall|i: int| 0 <= i < f.len() implies (#[trigger] f[i]).t <= s.last().t
            && s.contains(f[i]) by {
            let j = choose|j: int| 0 <= j < front.len() && front[j] == f[i];
            assert(s[j] == f[i]);
        }
        let g = non_negative(s);
        assert forall|i: int| 0 <= i < s.len() && s[i].t >= 0 implies g.contains(
            #[trigger] s[i],
        ) by {
            if i < s.len() - 1 {
                assert(front[i] == s[i]);
                let j = choose|j: int| 0 <= j < f.len() && f[j] == front[i];
                assert(g[j] == s[i]);
            } else {
                assert(g[g.len() - 1] == s[i]);
            }
        }
        assert forall|i: int| 0 <= i < g.len() implies s.contains(#[trigger] g[i]) by {
            if i < f.len() {
            } else {
                assert(s[s.len() - 1] == g[i]);
            }
        }
    }
}


/// `s` without each element whose `t` is close to that of the element kept
/// last before it.
pub open spec fn dedup_close(s: Seq<Intersection>) -> Seq<Intersection>
    decreases s.len(),
{
    if s.len() == 0 {
        s
    } else {
        let kept = dedup_close(s.drop_last());
        if kept.len() > 0 && close(s.last().t, kept.last().t) {
            kept
        } else {
            kept.push(s.last())
        }
    }
}

/// Whether some element of `kept` has a `t` close to `t`.
pub open spec fn covered(kept: Seq<Intersection>, t: i64) -> bool {
    exists|k: int| 0 <= k < kept.len() && close(t, #[trigger] kept[k].t)
}

/// `dedup_close` keeps the first element, and only elements of `s`.
pub proof fn lemma_dedup_close_keeps(s: Seq<Intersection>)
    ensures
        dedup_close(s).len() <= s.len(),
        s.len() > 0 ==> dedup_close(s).len() > 0 && dedup_close(s)[0] == s[0],
        forall|i: int| 0 <= i < dedup_close(s).len() ==> s.contains(#[trigger] dedup_close(s)[i]),
    decreases s.len(),
{
    if s.len() > 0 {
        let front = s.drop_last();
        lemma_dedup_close_keeps(front);
        let kept = dedup_close(front);
        let d = dedup_close(s);
        assert forall|i: int| 0 <= i < d.len() implies s.contains(#[trigger] d[i]) by {
            if i < kept.len() {
                assert(front.contains(kept[i]));
                let j = choose|j: int| 0 <= j < front.len() && front[j] == kept[i];
                assert(s[j] == d[i]);
            } else {
                assert(s[s.len() - 1] == d[i]);
            }
        }
    }
}

/// No two neighbours in `dedup_close` have close `t`.
pub proof fn lemma_dedup_close_apart(s: Seq<Intersection>)
    ensures
        forall|i: int|
            0 <= i < dedup_close(s).len() - 1 ==> !close(
                (#[trigger] dedup_close(s)[i]).t,
                dedup_close(s)[i + 1].t,
            ),
    decreases s.len(),
{
    if s.len() > 0 {
        lemma_dedup_close_apart(s.drop_last());
        let kept = dedup_close(s.drop_last());
        let d = dedup_close(s);
        assert forall|i: int| 0 <= i < d.len() - 1 implies !close((#[trigger] d[i]).t, d[i + 1].t) by {
            if i + 1 < kept.len() {
                assert(d[i] == kept[i] && d[i + 1] == kept[i + 1]);
            }
        }
    }
}

/// Every element of `s` has in `dedup_close` one with a close `t`.
pub proof fn lemma_dedup_close_covers(s: Seq<Intersection>, i: int)
    requires
        0 <= i < s.len(),
    ensures
        covered(dedup_close(s), s[i].t),
    decreases s.len(),
{
    let front = s.drop_last();
    let kept = dedup_close(front);
    let d = dedup_close(s);
    if i < s.len() - 1 {
        lemma_dedup_close_covers(front, i);
        let k = choose|k: int| 0 <= k < kept.len() && close(front[i].t, #[trigger] kept[k].t);
        assert(d[k] == kept[k]);
    } else if kept.len() > 0 && close(s.last().t, kept.last().t) {
        assert(d[kept.len() - 1] == kept.last());
    } else {
        assert(d[d.len() - 1] == s[i]);
        assert(close(s[i].t, d[d.len() - 1].t));
    }
}

/// An ordered sequence stays ordered under `dedup_close`.
pub proof fn lemma_dedup_close_ordered(s: Seq<Intersection>)
    requires
        ordered(s),
    ensures
        ordered(dedup_close(s)),
    decreases s.len(),
{
    if s.len() > 0 {
        let front = s.drop_last();
        lemma_dedup_close_ordered(front);
        lemma_dedup_close_keeps(front);
        let kept = dedup_close(front);
        let d = dedup_close(s);
        assert forall|i: int, j: int| 0 <= i < j < d.len() implies d[i].t <= d[j].t by {
            if j == kept.len() {
                assert(front.contains(kept[i]));
                let k = choose|k: int| 0 <= k < front.len() && front[k] == kept[i];
                assert(s[k].t <= s[s.len() - 1].t);
            } else {
                assert(d[i] == kept[i] && d[j] == kept[j]);
            }
        }
    }
}

/// Drops each element whose `t` is close to that of the element kept last
/// before it.
pub fn dedup_by_t(xs: &Vec<Intersection>) -> (r: Vec<Intersection>)
    ensures
        r@ == dedup_close(xs@),
{
    let mut out: Vec<Intersection> = Vec::new();
    let mut i: usize = 0;
    proof {
        assert(xs@.take(0) =~= Seq::empty());
    }
    while i < xs.len()
        invariant
            0 <= i <= xs.len(),
            out@ == dedup_close(xs@.take(i as int)),
        decreases xs.len() - i,
    {
        proof {
            assert(xs@.take(i + 1).drop_last() =~= xs@.take(i as int));
        }
        let n = out.len();
        if n > 0 && scalar_eq(xs[i].t, out[n - 1].t) {
        } else {
            out.push(xs[i]);
        }
        i += 1;
    }
    proof {
        assert(xs@.take(xs.len() as int) =~= xs@);
    }
    out
}

/// The lists of `lists` one after another.
pub open spec fn concat_all(lists: Seq<Vec<Intersection>>) -> Seq<Intersection>
    decreases lists.len(),
{
    if lists.len() == 0 {
        Seq::empty()
    } else {
        concat_all(lists.drop_last()) + lists.last()@
    }
}

/// Every element of every list is in `concat_all`.
pub proof fn lemma_concat_all(lists: Seq<Vec<Intersection>>, i: int, j: int)
    requires
        0 <= i < lists.len(),
        0 <= j < lists[i]@.len(),
    ensures
        concat_all(lists).contains(lists[i]@[j]),
    decreases lists.len(),
{
    let front = lists.drop_last();
    let c = concat_all(lists);
    let cf = concat_all(front);
    if i < lists.len() - 1 {
        lemma_concat_all(front, i, j);
        let k = choose|k: int| 0 <= k < cf.len() && cf[k] == front[i]@[j];
        assert(c[k] == lists[i]@[j]);
    } else {
        assert(c[cf.len() + j] == lists[i]@[j]);
    }
}

/// Joins the lists of `lists` into one, in their order.
pub fn gather(lists: &Vec<Vec<Intersection>>) -> (r: Vec<Intersection>)
    ensures
        r@ == concat_all(lists@),
{
    let mut out: Vec<Intersection> = Vec::new();
    let mut i: usize = 0;
    proof {
        assert(lists@.take(0) =~= Seq::empty());
    }
    while i < lists.len()
        invariant
            0 <= i <= lists.len(),
            out@ == concat_all(lists@.take(i as int)),
        decreases lists.len() - i,
    {
        let list = &lists[i];
        let ghost before = out@;
        let mut j: usize = 0;
        while j < list.len()
            invariant
                0 <= j <= list.len(),
                out@ == before + list@.take(j as int),
            decreases list.len() - j,
        {
            out.push(list[j]);
            proof {
                assert(list@.take(j + 1) =~= list@.take(j as int).push(list@[j as int]));
            }
            j += 1;
        }
        proof {
            assert(list@.take(list.len() as int) =~= list@);
            assert(lists@.take(i + 1).drop_last() =~= lists@.take(i as int));
        }
        i += 1;
    }
    proof {
        assert(lists@.take(lists.len() as int) =~= lists@);
    }
    out
}

/// What a group answers to a ray: the intersections of all its children,
/// sorted by `t`. The group adds none of its own.
pub fn group_intersections(children: &Vec<Vec<Intersection>>) -> (r: Vec<Intersection>)
    ensures
        r@ == sorted_by_t(concat_all(children@)),
        ordered(r@),
        r@.to_multiset() == concat_all(children@).to_multiset(),
{
    let all = gather(children);
    sort_by_t(&all)
}

/// What a world answers to a ray: the intersections of all its top-level
/// shapes, sorted by `t`, with those that share a `t` up to `EPSILON`
/// reduced to the first of them.
pub fn world_intersections(shapes: &Vec<Vec<Intersection>>) -> (r: Vec<Intersection>)
    ensures
        r@ == dedup_close(sorted_by_t(concat_all(shapes@))),
        ordered(r@),
        forall|i: int| 0 <= i < r.len() - 1 ==> !close((#[trigger] r[i]).t, r[i + 1].t),
        forall|i: int| 0 <= i < r.len() ==> concat_all(shapes@).contains(#[trigger] r[i]),
{
    let all = gather(shapes);
    let sorted = sort_by_t(&all);
    let r = dedup_by_t(&sorted);
    proof {
        lemma_dedup_close_keeps(sorted@);
        lemma_dedup_close_apart(sorted@);
        lemma_dedup_close_ordered(sorted@);
        broadcast use vstd::seq_lib::group_to_multiset_ensures;
        assert forall|i: int| 0 <= i < r.len() implies all@.contains(#[trigger] r[i]) by {
            assert(sorted@.contains(r[i]));
            assert(sorted@.to_multiset().count(r[i]) > 0);
        }
    }
    r
}

/// Whether something stands between a point and the light. `xs` holds the
/// intersections of the ray from the point towards the light, `light` the
/// light's distance along that ray, and `materials` the material of each
/// shape, by handle. An intersection counts where it is not behind the
/// point, nearer than the light, and of a shape whose material casts
/// shadows.
pub fn is_shadowed(xs: &Vec<Intersection>, light: i64, materials: &Vec<Material>) -> (r: bool)
    ensures
        r <==> exists|i: int|
            0 <= i < xs.len() && 0 <= (#[trigger] xs[i]).t < light && !material_of(
                materials@,
                xs[i].obj,
            ).no_cast_shadow,
{
    let mut i: usize = 0;
    while i < xs.len()
        invariant
            0 <= i <= xs.len(),
            forall|k: int|
                0 <= k < i ==> !(0 <= (#[trigger] xs[k]).t < light && !material_of(
                    materials@,
                    xs[k].obj,
                ).no_cast_shadow),
        decreases xs.len() - i,
    {
        let x = xs[i];
        if !get_material(materials, x.obj).no_cast_shadow && x.t >= 0 && x.t < light {
            return true;
        }
        i += 1;
    }
    false
}

} // verus!
