use crate::shape::{lemma_shape_size_prefix, shape_size};
use vstd::arithmetic::div_mod::{lemma_fundamental_div_mod, lemma_mod_pos_bound};
use vstd::prelude::*;

verus! {

/// Row-major flat index of `coords` in an array of shape `shape`: the last
/// axis varies fastest.
pub open spec fn flat_of(shape: Seq<usize>, coords: Seq<usize>) -> int
    decreases shape.len(),
{
    if shape.len() == 0 {
        0
    } else {
        flat_of(shape.drop_last(), coords.drop_last()) * (shape.last() as int) + coords.last() as int
    }
}

/// Coordinates of the flat index `flat` in an array of shape `shape`.
pub open spec fn coords_of(shape: Seq<usize>, flat: int) -> Seq<usize>
    decreases shape.len(),
{
    if shape.len() == 0 {
        Seq::<usize>::empty()
    } else {
        coords_of(shape.drop_last(), flat / (shape.last() as int)).push(
            (flat % (shape.last() as int)) as usize,
        )
    }
}

/// `coords` has one coordinate per axis, each below its extent.
pub open spec fn in_bounds(shape: Seq<usize>, coords: Seq<usize>) -> bool {
    &&& coords.len() == shape.len()
    &&& forall|i: int| 0 <= i < shape.len() ==> #[trigger] coords[i] < shape[i]
}

/// Coordinates within bounds give a flat index within the element count.
pub proof fn lemma_flat_in_range(shape: Seq<usize>, coords: Seq<usize>)
    requires
        in_bounds(shape, coords),
    ensures
        0 <= flat_of(shape, coords) < shape_size(shape),
    decreases shape.len(),
{
    if shape.len() > 0 {
        let n = shape.len() - 1;
        assert(coords[n] < shape[n]);
        assert(in_bounds(shape.drop_last(), coords.drop_last())) by {
            assert forall|i: int| 0 <= i < shape.drop_last().len() implies #[trigger] coords.drop_last()[i]
                < shape.drop_last()[i] by {
                assert(coords[i] < shape[i]);
            }
        }
        lemma_flat_in_range(shape.drop_last(), coords.drop_last());
        let f = flat_of(shape.drop_last(), coords.drop_last());
        let s = shape_size(shape.drop_last()) as int;
        let l = shape.last() as int;
        let c = coords.last() as int;
        assert(0 <= f * l + c < s * l) by (nonlinear_arith)
            requires
                0 <= f < s,
                0 <= c < l,
        ;
    }
}

/// Decoding a flat index within the element count gives coordinates within
/// bounds that encode back to it.
pub proof fn lemma_coords_round_trip(shape: Seq<usize>, flat: int)
    requires
        0 <= flat < shape_size(shape),
    ensures
        in_bounds(shape, coords_of(shape, flat)),
        flat_of(shape, coords_of(shape, flat)) == flat,
    decreases shape.len(),
{
    if shape.len() == 0 {
    } else {
        let l = shape.last() as int;
        let s = shape_size(shape.drop_last()) as int;
        assert(l > 0 && s > 0) by (nonlinear_arith)
            requires
                0 <= flat < s * l,
                s >= 0,
                l >= 0,
        ;
        lemma_fundamental_div_mod(flat, l);
        lemma_mod_pos_bound(flat, l);
        let q = flat / l;
        let r = flat % l;
        assert(0 <= q < s) by (nonlinear_arith)
            requires
                flat == l * q + r,
                0 <= r < l,
                0 <= flat < s * l,
        ;
        lemma_coords_round_trip(shape.drop_last(), q);
        let c = coords_of(shape, flat);
        assert(c.drop_last() =~= coords_of(shape.drop_last(), q));
        assert forall|i: int| 0 <= i < shape.len() implies #[trigger] c[i] < shape[i] by {
            if i < shape.len() - 1 {
                assert(c[i] == c.drop_last()[i]);
            }
        }
        assert(flat_of(shape, c) == q * l + r);
    }
}

/// Encoding coordinates within bounds and decoding the index gives them back.
pub proof fn lemma_flat_round_trip(shape: Seq<usize>, coords: Seq<usize>)
    requires
        in_bounds(shape, coords),
    ensures
        coords_of(shape, flat_of(shape, coords)) == coords,
    decreases shape.len(),
{
    if shape.len() > 0 {
        let n = shape.len() - 1;
        assert(coords[n] < shape[n]);
        assert(in_bounds(shape.drop_last(), coords.drop_last())) by {
            assert forall|i: int| 0 <= i < shape.drop_last().len() implies #[trigger] coords.drop_last()[i]
                < shape.drop_last()[i] by {
                assert(coords[i] < shape[i]);
            }
        }
        lemma_flat_round_trip(shape.drop_last(), coords.drop_last());
        lemma_flat_in_range(shape.drop_last(), coords.drop_last());
        let f = flat_of(shape.drop_last(), coords.drop_last());
        let l = shape.last() as int;
        let c = coords.last() as int;
        vstd::arithmetic::div_mod::lemma_fundamental_div_mod_converse(f * l + c, l, f, c);
        assert(coords_of(shape, flat_of(shape, coords)) =~= coords);
    }
}

/// Row-major flat index of `coords`.
pub fn coords_to_flat(shape: &Vec<usize>, coords: &Vec<usize>) -> (r: usize)
    requires
        in_bounds(shape@, coords@),
        shape_size(shape@) <= usize::MAX,
    ensures
        r == flat_of(shape@, coords@),
{
    let n = shape.len();
    let mut acc: usize = 0;
    let mut i: usize = 0;
    proof {
        assert forall|k: int| 0 <= k < shape@.len() implies #[trigger] shape@[k] >= 1 by {
            assert(coords@[k] < shape@[k]);
        }
    }
    while i < n
        invariant
            0 <= i <= n,
            n == shape@.len(),
            in_bounds(shape@, coords@),
            shape_size(shape@) <= usize::MAX,
            forall|k: int| 0 <= k < shape@.len() ==> #[trigger] shape@[k] >= 1,
            acc == flat_of(shape@.take(i as int), coords@.take(i as int)),
        decreases n - i,
    {
        proof {
            let s1 = shape@.take(i + 1);
            let c1 = coords@.take(i + 1);
            assert(s1.drop_last() =~= shape@.take(i as int));
            assert(c1.drop_last() =~= coords@.take(i as int));
            assert(in_bounds(s1, c1)) by {
                assert forall|k: int| 0 <= k < s1.len() implies #[trigger] c1[k] < s1[k] by {
                    assert(coords@[k] < shape@[k]);
                }
            }
            lemma_flat_in_range(s1, c1);
            lemma_shape_size_prefix(shape@, i + 1);
            assert(acc * shape@[i as int] <= acc * shape@[i as int] + coords@[i as int]);
        }
        acc = acc * shape[i] + coords[i];
        i = i + 1;
    }
    proof {
        assert(shape@.take(n as int) =~= shape@);
        assert(coords@.take(n as int) =~= coords@);
    }
    acc
}

/// Coordinates of the flat index `flat`, which lies below the element count.
pub fn flat_to_coords(shape: &Vec<usize>, flat: usize) -> (r: Vec<usize>)
    requires
        flat < shape_size(shape@),
    ensures
        r@ == coords_of(shape@, flat as int),
        in_bounds(shape@, r@),
{
    proof {
        lemma_coords_round_trip(shape@, flat as int);
        assert forall|k: int| 0 <= k < shape@.len() implies #[trigger] shape@[k] >= 1 by {
            if shape@[k] == 0 {
                crate::shape::lemma_shape_size_zero(shape@, k);
            }
        }
    }
    let n = shape.len();
    let mut coords: Vec<usize> = Vec::new();
    let mut k: usize = 0;
    while k < n
        invariant
            0 <= k <= n,
            coords@.len() == k,
        decreases n - k,
    {
        coords.push(0);
        k = k + 1;
    }
    let mut rem: usize = flat;
    let mut i: usize = n;
    proof {
        assert(shape@.take(n as int) =~= shape@);
        assert(coords@.skip(n as int) =~= Seq::<usize>::empty());
        assert(coords_of(shape@, flat as int) =~= coords_of(shape@.take(n as int), rem as int) + coords@.skip(n as int));
    }
    while i > 0
        invariant
            0 <= i <= n,
            n == shape@.len(),
            coords@.len() == n,
            rem <= flat,
            forall|k: int| 0 <= k < shape@.len() ==> #[trigger] shape@[k] >= 1,
            coords_of(shape@, flat as int) == coords_of(shape@.take(i as int), rem as int) + coords@.skip(i as int),
        decreases i,
    {
        let ghost before = coords@;
        let e = shape[i - 1];
        proof {
            assert(shape@[i - 1] >= 1);
        }
        let c: usize = rem % e;
        let q: usize = rem / e;
        proof {
            let t = shape@.take(i as int);
            assert(t.drop_last() =~= shape@.take(i - 1));
            assert(t.last() == e);
            assert(q <= rem) by (nonlinear_arith)
                requires
                    q == rem as int / e as int,
                    e >= 1,
                    rem >= 0,
            ;
        }
        coords.set(i - 1, c);
        proof {
            assert(coords@.skip(i - 1) =~= seq![c] + before.skip(i as int));
            let t = shape@.take(i as int);
            assert(coords_of(t, rem as int) =~= coords_of(shape@.take(i - 1), q as int).push(c));
            assert(coords_of(shape@, flat as int) =~= coords_of(shape@.take(i - 1), q as int) + coords@.skip(i - 1));
        }
        rem = q;
        i = i - 1;
    }
    proof {
        assert(shape@.take(0) =~= Seq::<usize>::empty());
        assert(coords@.skip(0) =~= coords@);
    }
    coords
}

/// Flat index over a concatenated shape: the outer part's index scaled by
/// the inner part's element count, plus the inner part's index.
pub proof fn lemma_flat_concat(a: Seq<usize>, b: Seq<usize>, ca: Seq<usize>, cb: Seq<usize>)
    requires
        ca.len() == a.len(),
        cb.len() == b.len(),
    ensures
        flat_of(a + b, ca + cb) == flat_of(a, ca) * shape_size(b) + flat_of(b, cb),
    decreases b.len(),
{
    if b.len() == 0 {
        assert(a + b =~= a);
        assert(ca + cb =~= ca);
        assert(shape_size(b) == 1);
        assert(flat_of(b, cb) == 0);
    } else {
        lemma_flat_concat(a, b.drop_last(), ca, cb.drop_last());
        assert((a + b).drop_last() =~= a + b.drop_last());
        assert((ca + cb).drop_last() =~= ca + cb.drop_last());
        assert((a + b).last() == b.last());
        assert((ca + cb).last() == cb.last());
        let big = flat_of(a, ca);
        let s1 = shape_size(b.drop_last()) as int;
        let f1 = flat_of(b.drop_last(), cb.drop_last());
        let l = b.last() as int;
        let c = cb.last() as int;
        assert((big * s1 + f1) * l + c == big * (s1 * l) + (f1 * l + c)) by (nonlinear_arith);
        assert(flat_of(a + b, ca + cb) == flat_of(a + b.drop_last(), ca + cb.drop_last()) * l + c);
        assert(shape_size(b) == s1 * l);
        assert(flat_of(b, cb) == f1 * l + c);
    }
}

/// Coordinates over a concatenated shape split into the outer part's
/// coordinates of the quotient and the inner part's of the remainder.
pub proof fn lemma_coords_split(a: Seq<usize>, b: Seq<usize>, f: int)
    requires
        shape_size(b) > 0,
        f >= 0,
    ensures
        coords_of(a + b, f) == coords_of(a, f / (shape_size(b) as int)) + coords_of(
            b,
            f % (shape_size(b) as int),
        ),
    decreases b.len(),
{
    if b.len() == 0 {
        assert(a + b =~= a);
        assert(f / 1 == f);
        assert(coords_of(a, f) + coords_of(b, f % 1) =~= coords_of(a, f));
    } else {
        let l = b.last() as int;
        let s1 = shape_size(b.drop_last()) as int;
        assert(l > 0 && s1 > 0) by (nonlinear_arith)
            requires
                s1 * l > 0,
                s1 >= 0,
                l >= 0,
        ;
        assert(f / l >= 0) by (nonlinear_arith)
            requires
                f >= 0,
                l > 0,
        ;
        lemma_coords_split(a, b.drop_last(), f / l);
        assert((a + b).drop_last() =~= a + b.drop_last());
        assert((a + b).last() == b.last());
        vstd::arithmetic::div_mod::lemma_div_denominator(f, l, s1);
        assert(l * s1 == s1 * l) by (nonlinear_arith);
        vstd::arithmetic::div_mod::lemma_mod_breakdown(f, l, s1);
        lemma_mod_pos_bound(f, l);
        lemma_mod_pos_bound(f / l, s1);
        let g = f % (s1 * l);
        vstd::arithmetic::div_mod::lemma_fundamental_div_mod_converse(g, l, (f / l) % s1, f % l);
        assert(coords_of(b, g) == coords_of(b.drop_last(), g / l).push((g % l) as usize));
        assert(coords_of(a + b, f) =~= coords_of(a, f / (s1 * l)) + coords_of(b, g));
    }
}

} // verus!
