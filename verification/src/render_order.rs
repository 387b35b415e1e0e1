//! The order in which objects are drawn: opaque objects nearest first,
//! transparent ones farthest first.
//!
//! An object is given by its index in the caller's list and a sort key that
//! orders as its distance to the camera does (for non-negative distances,
//! the bits of the distance).

use vstd::prelude::*;

verus! {

broadcast use vstd::seq_lib::group_to_multiset_ensures;

/// A sort key with the index of the object it belongs to.
pub type Keyed = (u32, usize);

/// Whether the keys of `s` between `lo` and `hi` ascend.
pub open spec fn sorted_between(s: Seq<Keyed>, lo: int, hi: int) -> bool {
    forall|i: int, j: int| lo <= i <= j < hi ==> #[trigger] s[i].0 <= #[trigger] s[j].0
}

/// Whether the keys of `s` ascend.
pub open spec fn sorted_by_key(s: Seq<Keyed>) -> bool {
    sorted_between(s, 0, s.len() as int)
}

/// Whether the keys of `s` descend.
pub open spec fn sorted_by_key_desc(s: Seq<Keyed>) -> bool {
    forall|i: int, j: int| 0 <= i <= j < s.len() ==> #[trigger] s[i].0 >= #[trigger] s[j].0
}

/// `s` with the entries at `i` and `j` exchanged.
pub open spec fn swapped(s: Seq<Keyed>, i: int, j: int) -> Seq<Keyed> {
    s.update(i, s[j]).update(j, s[i])
}

proof fn lemma_swap_multiset(s: Seq<Keyed>, i: int, j: int)
    requires
        0 <= i < s.len(),
        0 <= j < s.len(),
    ensures
        swapped(s, i, j).to_multiset() == s.to_multiset(),
{
    broadcast use {
        vstd::seq_lib::to_multiset_update,
        vstd::multiset::group_multiset_axioms,
    };

    if i == j {
        assert(swapped(s, i, j) =~= s);
    } else {
        let t = s.update(i, s[j]);
        assert(t[j] == s[j]);
        assert(t.update(j, s[i]).to_multiset() =~= s.to_multiset());
    }
}

proof fn lemma_swap_subrange(s: Seq<Keyed>, lo: int, hi: int, i: int, j: int)
    requires
        0 <= lo <= i < hi <= s.len(),
        lo <= j < hi,
    ensures
        swapped(s, i, j).subrange(lo, hi).to_multiset() == s.subrange(lo, hi).to_multiset(),
{
    let r = s.subrange(lo, hi);
    assert(swapped(s, i, j).subrange(lo, hi) =~= swapped(r, i - lo, j - lo));
    lemma_swap_multiset(r, i - lo, j - lo);
}

proof fn lemma_split_multiset(s: Seq<Keyed>, lo: int, mid: int, hi: int)
    requires
        0 <= lo <= mid <= hi <= s.len(),
    ensures
        s.subrange(lo, hi).to_multiset() == s.subrange(lo, mid).to_multiset().add(
            s.subrange(mid, hi).to_multiset(),
        ),
{
    assert(s.subrange(lo, hi) =~= s.subrange(lo, mid) + s.subrange(mid, hi));
    vstd::seq_lib::lemma_multiset_commutative(s.subrange(lo, mid), s.subrange(mid, hi));
}

/// What holds of every entry of a range holds of every entry of a range
/// with the same entries.
proof fn lemma_bound_transfer(s: Seq<Keyed>, t: Seq<Keyed>, lo: int, hi: int, p: spec_fn(Keyed) -> bool)
    requires
        0 <= lo <= hi <= s.len(),
        hi <= t.len(),
        s.subrange(lo, hi).to_multiset() == t.subrange(lo, hi).to_multiset(),
        forall|k: int| lo <= k < hi ==> p(#[trigger] t[k]),
    ensures
        forall|k: int| lo <= k < hi ==> p(#[trigger] s[k]),
{
    assert forall|k: int| lo <= k < hi implies p(#[trigger] s[k]) by {
        let x = s[k];
        let rs = s.subrange(lo, hi);
        let rt = t.subrange(lo, hi);
        assert(rs[k - lo] == x);
        assert(rs.contains(x));
        assert(rs.to_multiset().count(x) > 0);
        assert(rt.to_multiset().count(x) > 0);
        assert(rt.contains(x));
        let m = choose|m: int| 0 <= m < rt.len() && rt[m] == x;
        assert(t[lo + m] == x);
    }
}

fn swap(a: &mut Vec<Keyed>, i: usize, j: usize)
    requires
        i < old(a)@.len(),
        j < old(a)@.len(),
    ensures
        final(a)@ == swapped(old(a)@, i as int, j as int),
{
    let x = a[i];
    let y = a[j];
    a.set(i, y);
    a.set(j, x);
}

/// Lomuto partition of `a[lo..hi]` around its last entry: the entries with
/// a key not above the pivot's come first, then the pivot, then the rest.
/// Gives the pivot's place.
fn partition(a: &mut Vec<Keyed>, lo: usize, hi: usize) -> (q: usize)
    requires
        lo + 1 < hi <= old(a)@.len(),
    ensures
        lo <= q < hi,
        final(a)@.len() == old(a)@.len(),
        forall|k: int| 0 <= k < lo || hi <= k < final(a)@.len() ==> final(a)@[k] == old(a)@[k],
        final(a)@.subrange(lo as int, hi as int).to_multiset() == old(a)@.subrange(
            lo as int,
            hi as int,
        ).to_multiset(),
        forall|k: int| lo <= k < q ==> (#[trigger] final(a)@[k]).0 <= final(a)@[q as int].0,
        forall|k: int| q < k < hi ==> (#[trigger] final(a)@[k]).0 > final(a)@[q as int].0,
{
    let right = hi - 1;
    let pivot = a[right].0;
    let mut i = lo;
    let mut j = lo;
    while j < right
        invariant
            lo <= i <= j <= right,
            right == hi - 1,
            hi <= a@.len(),
            a@.len() == old(a)@.len(),
            a@[right as int].0 == pivot,
            forall|k: int| 0 <= k < lo || hi <= k < a@.len() ==> a@[k] == old(a)@[k],
            a@.subrange(lo as int, hi as int).to_multiset() == old(a)@.subrange(
                lo as int,
                hi as int,
            ).to_multiset(),
            forall|k: int| lo <= k < i ==> (#[trigger] a@[k]).0 <= pivot,
            forall|k: int| i <= k < j ==> (#[trigger] a@[k]).0 > pivot,
        decreases right - j,
    {
        if a[j].0 <= pivot {
            proof {
                lemma_swap_subrange(a@, lo as int, hi as int, j as int, i as int);
            }
            swap(a, j, i);
            i = i + 1;
        }
        j = j + 1;
    }
    proof {
        lemma_swap_subrange(a@, lo as int, hi as int, i as int, right as int);
    }
    swap(a, i, right);
    i
}

/// Sorts `a[lo..hi]` by key; the rest of `a` stays as it is.
fn quicksort_range(a: &mut Vec<Keyed>, lo: usize, hi: usize)
    requires
        lo <= hi <= old(a)@.len(),
    ensures
        final(a)@.len() == old(a)@.len(),
        forall|k: int| 0 <= k < lo || hi <= k < final(a)@.len() ==> final(a)@[k] == old(a)@[k],
        final(a)@.subrange(lo as int, hi as int).to_multiset() == old(a)@.subrange(
            lo as int,
            hi as int,
        ).to_multiset(),
        sorted_between(final(a)@, lo as int, hi as int),
    decreases hi - lo,
{
    if hi - lo > 1 {
        let q = partition(a, lo, hi);
        let ghost s1 = a@;
        let ghost pivot = a@[q as int];
        quicksort_range(a, lo, q);
        let ghost s2 = a@;
        proof {
            lemma_bound_transfer(
                s2,
                s1,
                lo as int,
                q as int,
                |x: Keyed| x.0 <= pivot.0,
            );
            assert forall|k: int| q <= k < hi implies s2[k] == s1[k] by {}
            assert(s2.subrange(q as int, hi as int) =~= s1.subrange(q as int, hi as int));
            lemma_split_multiset(s1, lo as int, q as int, hi as int);
            lemma_split_multiset(s2, lo as int, q as int, hi as int);
        }
        quicksort_range(a, q + 1, hi);
        let ghost s3 = a@;
        proof {
            lemma_bound_transfer(
                s3,
                s2,
                q + 1,
                hi as int,
                |x: Keyed| x.0 > pivot.0,
            );
            assert forall|k: int| lo <= k <= q implies s3[k] == s2[k] by {}
            assert(s3.subrange(lo as int, q + 1) =~= s2.subrange(lo as int, q + 1));
            lemma_split_multiset(s2, lo as int, q + 1, hi as int);
            lemma_split_multiset(s3, lo as int, q + 1, hi as int);
            assert forall|k: int| lo <= k < q implies (#[trigger] s3[k]).0 <= pivot.0 by {
                assert(s3[k] == s2[k]);
            }
            assert(s3[q as int] == pivot);
            assert forall|i: int, j: int| lo <= i <= j < hi implies #[trigger] s3[i].0
                <= #[trigger] s3[j].0 by {
                if j < q {
                    assert(s3[i] == s2[i] && s3[j] == s2[j]);
                } else if i > q {
                } else if i == q {
                } else if j == q {
                } else {
                    assert(s3[i].0 <= pivot.0);
                    assert(s3[j].0 > pivot.0);
                }
            }
        }
    }
}

/// Sorts the entries by key, nearest first; entries with equal keys may
/// come in any order.
pub fn quicksort(a: &mut Vec<Keyed>)
    ensures
        sorted_by_key(final(a)@),
        final(a)@.to_multiset() == old(a)@.to_multiset(),
{
    let ghost before = a@;
    let n = a.len();
    quicksort_range(a, 0, n);
    proof {
        assert(a@.subrange(0, n as int) =~= a@);
        assert(before.subrange(0, n as int) =~= before);
    }
}

proof fn lemma_reverse_multiset(s: Seq<Keyed>)
    ensures
        s.reverse().to_multiset() == s.to_multiset(),
    decreases s.len(),
{
    broadcast use vstd::multiset::group_multiset_axioms;

    if s.len() == 0 {
        assert(s.reverse() =~= s);
    } else {
        let t = s.drop_last();
        let x = s.last();
        lemma_reverse_multiset(t);
        assert(s.reverse() =~= seq![x] + t.reverse());
        vstd::seq_lib::lemma_multiset_commutative(seq![x], t.reverse());
        assert(s =~= t.push(x));
        assert(seq![x] =~= Seq::<Keyed>::empty().push(x));
        assert(Seq::<Keyed>::empty().to_multiset() =~= vstd::multiset::Multiset::empty());
        assert(s.reverse().to_multiset() =~= s.to_multiset());
    }
}

/// The entries in reverse order.
pub fn reversed(a: &Vec<Keyed>) -> (r: Vec<Keyed>)
    ensures
        r@ == a@.reverse(),
{
    let mut r: Vec<Keyed> = Vec::new();
    let mut i = a.len();
    while i > 0
        invariant
            i <= a@.len(),
            r@ == a@.subrange(i as int, a@.len() as int).reverse(),
        decreases i,
    {
        i = i - 1;
        r.push(a[i]);
        assert(r@ =~= a@.subrange(i as int, a@.len() as int).reverse());
    }
    assert(a@.subrange(0, a@.len() as int) =~= a@);
    r
}

/// The draw order of a frame: from `(key, transparent)` per object, the
/// opaque objects nearest first and the transparent ones farthest first,
/// each entry with its object's index.
pub fn draw_order(objects: &Vec<(u32, bool)>) -> (r: (Vec<Keyed>, Vec<Keyed>))
    ensures
        sorted_by_key(r.0@),
        sorted_by_key_desc(r.1@),
        r.0@.to_multiset() == opaque_entries(objects@).to_multiset(),
        r.1@.to_multiset() == transparent_entries(objects@).to_multiset(),
{
    let mut opaque: Vec<Keyed> = Vec::new();
    let mut transparent: Vec<Keyed> = Vec::new();
    let mut i: usize = 0;
    while i < objects.len()
        invariant
            i <= objects@.len(),
            opaque@ == opaque_entries(objects@.take(i as int)),
            transparent@ == transparent_entries(objects@.take(i as int)),
        decreases objects@.len() - i,
    {
        let (key, is_transparent) = objects[i];
        proof {
            assert(objects@.take(i + 1).drop_last() =~= objects@.take(i as int));
            assert(objects@.take(i + 1).last() == objects@[i as int]);
            reveal_with_fuel(entries_where, 2);
        }
        if is_transparent {
            transparent.push((key, i));
        } else {
            opaque.push((key, i));
        }
        i = i + 1;
    }
    assert(objects@.take(objects@.len() as int) =~= objects@);
    quicksort(&mut opaque);
    quicksort(&mut transparent);
    let farthest_first = reversed(&transparent);
    proof {
        let t = transparent@;
        let d = farthest_first@;
        assert forall|a: int, b: int| 0 <= a <= b < d.len() implies #[trigger] d[a].0
            >= #[trigger] d[b].0 by {
            let n = t.len() as int;
            assert(d[a] == t[n - 1 - a]);
            assert(d[b] == t[n - 1 - b]);
            assert(t[n - 1 - b].0 <= t[n - 1 - a].0);
        }
        lemma_reverse_multiset(t);
    }
    (opaque, farthest_first)
}

/// The entries `(key, index)` of the objects whose transparency is
/// `transparent`, in list order.
pub open spec fn entries_where(objects: Seq<(u32, bool)>, transparent: bool) -> Seq<Keyed>
    decreases objects.len(),
{
    if objects.len() == 0 {
        Seq::empty()
    } else {
        let rest = entries_where(objects.drop_last(), transparent);
        if objects.last().1 == transparent {
            rest.push((objects.last().0, (objects.len() - 1) as usize))
        } else {
            rest
        }
    }
}

/// The entries of the opaque objects.
pub open spec fn opaque_entries(objects: Seq<(u32, bool)>) -> Seq<Keyed> {
    entries_where(objects, false)
}

/// The entries of the transparent objects.
pub open spec fn transparent_entries(objects: Seq<(u32, bool)>) -> Seq<Keyed> {
    entries_where(objects, true)
}

/// The framebuffer layer an object is drawn to.
#[derive(Clone, Copy, PartialEq, Eq, Structural, Debug)]
pub enum RenderLayer {
    Layer1,
    Layer2,
}

/// The layer that a script asks for by number: 0 and 1 are the first layer,
/// 2 the second, none the first. Any other number gives the first layer and
/// `false`, as not a layer.
pub fn render_layer_from_index(layer: Option<u8>) -> (r: (RenderLayer, bool))
    ensures
        r == match layer {
            Some(0u8) | Some(1u8) | None => (RenderLayer::Layer1, true),
            Some(2u8) => (RenderLayer::Layer2, true),
            Some(_) => (RenderLayer::Layer1, false),
        },
{
    match layer {
        Some(n) => {
            if n == 0 || n == 1 {
                (RenderLayer::Layer1, true)
            } else if n == 2 {
                (RenderLayer::Layer2, true)
            } else {
                (RenderLayer::Layer1, false)
            }
        },
        None => (RenderLayer::Layer1, true),
    }
}

/// The entries of the objects with a given transparency are exactly the
/// `(key, index)` pairs of those objects.
pub proof fn lemma_entries_where(objects: Seq<(u32, bool)>, transparent: bool, e: Keyed)
    requires
        objects.len() <= usize::MAX,
    ensures
        entries_where(objects, transparent).contains(e) <==> (e.1 < objects.len() && objects[e.1 as int]
            == (e.0, transparent)),
    decreases objects.len(),
{
    if objects.len() > 0 {
        let rest = objects.drop_last();
        let n = objects.len() - 1;
        lemma_entries_where(rest, transparent, e);
        let er = entries_where(rest, transparent);
        if e.1 < n {
            assert(rest[e.1 as int] == objects[e.1 as int]);
        }
        if objects.last().1 == transparent {
            let pushed = er.push((objects.last().0, n as usize));
            if pushed.contains(e) && !er.contains(e) {
                let k = choose|k: int| 0 <= k < pushed.len() && pushed[k] == e;
                assert(k == er.len());
            }
            if er.contains(e) {
                let k = choose|k: int| 0 <= k < er.len() && er[k] == e;
                assert(pushed[k] == e);
            }
            if e == (objects.last().0, n as usize) {
                assert(pushed[er.len() as int] == e);
            }
        }
    }
}

/// Every object is drawn once: the opaque list holds an object's entry
/// exactly when it is opaque, the transparent list exactly when it is
/// transparent, and neither holds anything else.
pub proof fn lemma_draw_order_complete(
    objects: Seq<(u32, bool)>,
    opaque: Seq<Keyed>,
    transparent: Seq<Keyed>,
    e: Keyed,
)
    requires
        objects.len() <= usize::MAX,
        opaque.to_multiset() == opaque_entries(objects).to_multiset(),
        transparent.to_multiset() == transparent_entries(objects).to_multiset(),
    ensures
        opaque.contains(e) <==> (e.1 < objects.len() && objects[e.1 as int] == (e.0, false)),
        transparent.contains(e) <==> (e.1 < objects.len() && objects[e.1 as int] == (e.0, true)),
{
    lemma_entries_where(objects, false, e);
    lemma_entries_where(objects, true, e);
    vstd::seq_lib::to_multiset_contains(opaque, e);
    vstd::seq_lib::to_multiset_contains(transparent, e);
    vstd::seq_lib::to_multiset_contains(opaque_entries(objects), e);
    vstd::seq_lib::to_multiset_contains(transparent_entries(objects), e);
}

} // verus!
