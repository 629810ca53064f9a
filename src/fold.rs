use crate::codec::{coords_of, flat_of, in_bounds, lemma_coords_round_trip, lemma_coords_split, lemma_flat_concat};
use crate::errors::RuNeVisError;
use crate::shape::{checked_shape_size, lemma_shape_size_concat, shape_size, NDArray};
use vstd::arithmetic::div_mod::{lemma_fundamental_div_mod, lemma_mod_pos_bound};
use vstd::prelude::*;

verus! {

/// Number of positions before the axis: the product of the outer extents.
pub open spec fn outer_size(shape: Seq<usize>, axis: int) -> nat {
    shape_size(shape.take(axis))
}

/// Distance in the flat buffer between neighbours along the axis: the
/// product of the inner extents.
pub open spec fn inner_size(shape: Seq<usize>, axis: int) -> nat {
    shape_size(shape.skip(axis + 1))
}

/// Flat index of the first element of the lane of output cell `o`. The
/// output cell `o` decomposes as `o = a * inner + b` with `a` the position
/// among the outer axes and `b` among the inner ones.
pub open spec fn lane_start(shape: Seq<usize>, axis: int, o: int) -> int {
    let inner = inner_size(shape, axis) as int;
    (o / inner) * (shape[axis] * inner) + o % inner
}

/// Flat index of the `j`-th element along the axis of the lane of cell `o`.
pub open spec fn lane_index(shape: Seq<usize>, axis: int, o: int, j: int) -> int {
    lane_start(shape, axis, o) + j * (inner_size(shape, axis) as int)
}

/// The values that output cell `o` folds: those along `axis` at the fixed
/// coordinates of `o` on every other axis (see `lemma_lane_index_is_offset`).
pub open spec fn lane_values<T>(data: Seq<T>, shape: Seq<usize>, axis: int, o: int) -> Seq<T> {
    Seq::new(shape[axis] as nat, |j: int| data[lane_index(shape, axis, o, j)])
}

/// A read-only view of the values along one axis for one output cell.
pub struct Lane<'a, T> {
    data: &'a Vec<T>,
    start: usize,
    stride: usize,
    len: usize,
}

impl<'a, T> Lane<'a, T> {
    #[verifier::type_invariant]
    spec fn fits_buffer(&self) -> bool {
        self.len == 0 || self.start + (self.len - 1) * self.stride < self.data@.len()
    }

    /// Number of values in the lane.
    pub fn len(&self) -> (r: usize)
        ensures
            r == self@.len(),
    {
        self.len
    }

    /// The `j`-th value along the axis.
    pub fn get(&self, j: usize) -> (r: &T)
        requires
            j < self@.len(),
        ensures
            *r == self@[j as int],
    {
        proof {
            use_type_invariant(self);
            let s = self.stride as int;
            let l = self.len as int;
            assert(j * s <= (l - 1) * s) by (nonlinear_arith)
                requires
                    j <= l - 1,
                    s >= 0,
            ;
            assert(self.data@.len() == self.data.len());
        }
        let offset = j * self.stride;
        &self.data[self.start + offset]
    }
}

impl<'a, T> View for Lane<'a, T> {
    type V = Seq<T>;

    closed spec fn view(&self) -> Seq<T> {
        Seq::new(self.len as nat, |j: int| self.data@[self.start + j * self.stride])
    }
}

/// The lane handed to the kernel for output cell `o`.
pub closed spec fn lane_of<'a, T>(src: &'a NDArray<T>, axis: int, o: int) -> Lane<'a, T> {
    Lane {
        data: src.data_ref(),
        start: lane_start(src.shape_view(), axis, o) as usize,
        stride: inner_size(src.shape_view(), axis) as usize,
        len: src.shape_view()[axis],
    }
}

/// `out` is the fold of `src` along `axis` by `kernel`: one cell per
/// combination of the other axes' coordinates, in row-major order, each the
/// kernel's result on that cell's lane.
pub open spec fn is_fold_of<'a, T, U, F: Fn(Lane<'a, T>) -> U>(
    src: &'a NDArray<T>,
    axis: int,
    kernel: F,
    out: Seq<U>,
) -> bool {
    &&& out.len() == outer_size(src.shape_view(), axis) * inner_size(src.shape_view(), axis)
    &&& forall|o: int| 0 <= o < out.len() ==> kernel.ensures((lane_of(src, axis, o),), #[trigger] out[o])
    &&& forall|o: int|
        0 <= o < out.len() ==> (#[trigger] lane_of(src, axis, o))@ == lane_values(
            src.data_view(),
            src.shape_view(),
            axis,
            o,
        )
}

/// The shape with one axis taken out splits into the extents before and after it.
pub proof fn lemma_split_shape(shape: Seq<usize>, axis: int)
    requires
        0 <= axis < shape.len(),
    ensures
        shape_size(shape.remove(axis)) == outer_size(shape, axis) * inner_size(shape, axis),
        shape_size(shape) == outer_size(shape, axis) * shape[axis] * inner_size(shape, axis),
{
    assert(shape.remove(axis) =~= shape.take(axis) + shape.skip(axis + 1));
    lemma_shape_size_concat(shape.take(axis), shape.skip(axis + 1));
    assert(shape =~= (shape.take(axis) + seq![shape[axis]]) + shape.skip(axis + 1));
    lemma_shape_size_concat(shape.take(axis) + seq![shape[axis]], shape.skip(axis + 1));
    lemma_shape_size_concat(shape.take(axis), seq![shape[axis]]);
    assert(seq![shape[axis]].drop_last() =~= Seq::<usize>::empty());
    assert(shape_size(Seq::<usize>::empty()) == 1);
    assert(shape_size(seq![shape[axis]]) == shape_size(seq![shape[axis]].drop_last()) * (
    shape[axis] as nat));
    let x = shape[axis] as nat;
    assert(1 * x == x) by (nonlinear_arith);
    assert(shape_size(seq![shape[axis]]) == x);
}

/// Every index of every lane lies inside the buffer.
proof fn lemma_lane_index_bound(shape: Seq<usize>, axis: int, o: int, j: int)
    requires
        0 <= axis < shape.len(),
        0 <= o < outer_size(shape, axis) * inner_size(shape, axis),
        0 <= j < shape[axis],
    ensures
        0 <= lane_start(shape, axis, o),
        0 <= lane_index(shape, axis, o, j) < shape_size(shape),
{
    lemma_split_shape(shape, axis);
    let outer = outer_size(shape, axis) as int;
    let inner = inner_size(shape, axis) as int;
    let len = shape[axis] as int;
    assert(inner > 0) by (nonlinear_arith)
        requires
            0 <= o < outer * inner,
            outer >= 0,
            inner >= 0,
    ;
    lemma_fundamental_div_mod(o, inner);
    lemma_mod_pos_bound(o, inner);
    let a = o / inner;
    let b = o % inner;
    assert(0 <= a < outer) by (nonlinear_arith)
        requires
            o == inner * a + b,
            0 <= b < inner,
            0 <= o < outer * inner,
    ;
    assert(lane_index(shape, axis, o, j) == (a * len + j) * inner + b) by (nonlinear_arith)
        requires
            lane_index(shape, axis, o, j) == a * (len * inner) + b + j * inner,
    ;
    assert(0 <= (a * len + j) * inner + b < outer * len * inner) by (nonlinear_arith)
        requires
            0 <= a < outer,
            0 <= j < len,
            0 <= b < inner,
    ;
    assert(0 <= a * (len * inner)) by (nonlinear_arith)
        requires
            0 <= a,
            0 <= len,
            0 <= inner,
    ;
}

/// The values along `axis` of output cell `o`, as a lane of `src`.
fn make_lane<'a, T>(src: &'a NDArray<T>, axis: usize, inner: usize, o: usize) -> (r: Lane<'a, T>)
    requires
        axis < src.shape_view().len(),
        inner == inner_size(src.shape_view(), axis as int),
        o < outer_size(src.shape_view(), axis as int) * inner_size(src.shape_view(), axis as int),
    ensures
        r == lane_of(src, axis as int, o as int),
        r@ == lane_values(src.data_view(), src.shape_view(), axis as int, o as int),
{
    let shape = src.shape();
    let len = shape[axis];
    let _n = src.len();
    let data = src.data();
    proof {
        lemma_split_shape(src.shape_view(), axis as int);
        let outer = outer_size(src.shape_view(), axis as int) as int;
        assert(len * inner <= outer * len * inner) by (nonlinear_arith)
            requires
                o < outer * inner,
                len >= 0,
                inner >= 0,
        ;
        assert(inner > 0) by (nonlinear_arith)
            requires
                o < outer * inner,
                outer >= 0,
                inner >= 0,
        ;
        if len > 0 {
            lemma_lane_index_bound(src.shape_view(), axis as int, o as int, len - 1);
            assert((len - 1) * inner >= 0) by (nonlinear_arith)
                requires
                    len >= 1,
                    inner >= 0,
            ;
            assert(0 <= ((o as int) / (inner as int)) * ((len as int) * (inner as int))) by (nonlinear_arith)
                requires
                    o >= 0,
                    inner > 0,
                    len >= 0,
            ;
        } else {
            assert(((o as int) / (inner as int)) * ((len as int) * (inner as int)) == 0) by (nonlinear_arith)
                requires
                    len == 0,
            ;
        }
    }
    let start = if len == 0 {
        o % inner
    } else {
        (o / inner) * (len * inner) + o % inner
    };
    let lane = Lane { data, start, stride: inner, len };
    proof {
        assert(lane@ =~= lane_values(src.data_view(), src.shape_view(), axis as int, o as int));
    }
    lane
}

/// Extent of the lane stride: the product of the extents after `axis`.
pub(crate) fn inner_extent(shape: &Vec<usize>, axis: usize) -> (r: usize)
    requires
        axis < shape@.len(),
        inner_size(shape@, axis as int) <= usize::MAX,
    ensures
        r == inner_size(shape@, axis as int),
{
    let n = shape.len();
    let mut rest: Vec<usize> = Vec::new();
    let mut k: usize = axis + 1;
    while k < n
        invariant
            axis + 1 <= k <= n,
            n == shape@.len(),
            rest@ =~= shape@.subrange(axis + 1, k as int),
        decreases n - k,
    {
        rest.push(shape[k]);
        k = k + 1;
    }
    proof {
        assert(rest@ =~= shape@.skip(axis + 1));
    }
    match checked_shape_size(&rest) {
        Some(v) => v,
        None => 0,
    }
}

/// Folds the output cells `start .. end` of the reduction of `src` along
/// `axis`: cell `start + k` of the result is the kernel's value on that
/// cell's lane. Cells are independent of one another, so disjoint ranges may
/// be computed by different workers and laid side by side.
pub fn fold_range<'a, T, U, F: Fn(Lane<'a, T>) -> U>(
    src: &'a NDArray<T>,
    axis: usize,
    start: usize,
    end: usize,
    kernel: &F,
) -> (r: Vec<U>)
    requires
        axis < src.shape_view().len(),
        outer_size(src.shape_view(), axis as int) * inner_size(src.shape_view(), axis as int)
            <= usize::MAX,
        start <= end <= outer_size(src.shape_view(), axis as int) * inner_size(
            src.shape_view(),
            axis as int,
        ),
        forall|l: Lane<'a, T>| kernel.requires((l,)),
    ensures
        r@.len() == end - start,
        forall|k: int|
            0 <= k < r@.len() ==> kernel.ensures(
                (lane_of(src, axis as int, start + k),),
                #[trigger] r@[k],
            ),
        forall|o: int|
            start <= o < end ==> (#[trigger] lane_of(src, axis as int, o))@ == lane_values(
                src.data_view(),
                src.shape_view(),
                axis as int,
                o,
            ),
        is_range_fold_of(src, axis as int, *kernel, start as int, end as int, r@),
{
    let mut out: Vec<U> = Vec::new();
    if start == end {
        return out;
    }
    let ghost outer = outer_size(src.shape_view(), axis as int) as int;
    let ghost inner_g = inner_size(src.shape_view(), axis as int) as int;
    proof {
        assert(inner_g <= outer * inner_g) by (nonlinear_arith)
            requires
                0 <= start < end <= outer * inner_g,
                outer >= 0,
                inner_g >= 0,
        ;
    }
    let inner = inner_extent(src.shape(), axis);
    let mut o: usize = start;
    while o < end
        invariant
            start <= o <= end,
            end <= outer * inner_g,
            axis < src.shape_view().len(),
            outer == outer_size(src.shape_view(), axis as int),
            inner == inner_g,
            inner_g == inner_size(src.shape_view(), axis as int),
            forall|l: Lane<'a, T>| kernel.requires((l,)),
            out@.len() == o - start,
            forall|k: int|
                0 <= k < out@.len() ==> kernel.ensures(
                    (lane_of(src, axis as int, start + k),),
                    #[trigger] out@[k],
                ),
            forall|p: int|
                start <= p < o ==> (#[trigger] lane_of(src, axis as int, p))@ == lane_values(
                    src.data_view(),
                    src.shape_view(),
                    axis as int,
                    p,
                ),
        decreases end - o,
    {
        let lane = make_lane(src, axis, inner, o);
        let v = kernel(lane);
        out.push(v);
        o = o + 1;
    }
    out
}

/// Reduces `src` along `axis`: the result's shape is the source's with that
/// axis removed (one axis fewer), and each of its cells is the kernel's value
/// on the values along `axis` at that cell's coordinates. An axis that is not
/// below the rank fails with `AxisOutOfBounds`. Reducing the only axis of a
/// one-dimensional array gives a scalar (empty shape).
pub fn fold_axis<'a, T, U, F: Fn(Lane<'a, T>) -> U>(src: &'a NDArray<T>, axis: usize, kernel: &F) -> (r: Result<
    NDArray<U>,
    RuNeVisError,
>)
    requires
        axis < src.shape_view().len() ==> shape_size(src.shape_view().remove(axis as int))
            <= usize::MAX,
        forall|l: Lane<'a, T>| kernel.requires((l,)),
    ensures
        r is Err <==> axis >= src.shape_view().len(),
        r matches Err(e) ==> e == (RuNeVisError::AxisOutOfBounds {
            axis,
            ndim: src.shape_view().len() as usize,
        }),
        r matches Ok(out) ==> {
            &&& out.shape_view() == src.shape_view().remove(axis as int)
            &&& out.shape_view().len() == src.shape_view().len() - 1
            &&& out.data_view().len() == shape_size(out.shape_view())
            &&& is_fold_of(src, axis as int, *kernel, out.data_view())
        },
{
    let ndim = src.ndim();
    if axis >= ndim {
        return Err(RuNeVisError::AxisOutOfBounds { axis, ndim });
    }
    let out_shape = removed_axis(src.shape(), axis);
    proof {
        lemma_split_shape(src.shape_view(), axis as int);
    }
    let n = match checked_shape_size(&out_shape) {
        Some(v) => v,
        None => 0,
    };
    let data = fold_range(src, axis, 0, n, kernel);
    proof {
        assert forall|o: int| 0 <= o < data@.len() implies kernel.ensures(
            (lane_of(src, axis as int, o),),
            #[trigger] data@[o],
        ) by {
            assert(data@[o] == data@[0 + o]);
        }
    }
    NDArray::from_shape_vec(out_shape, data)
}

/// `shape` without the entry at `axis`.
pub fn removed_axis(shape: &Vec<usize>, axis: usize) -> (r: Vec<usize>)
    requires
        axis < shape@.len(),
    ensures
        r@ == shape@.remove(axis as int),
{
    let mut r: Vec<usize> = Vec::new();
    let mut k: usize = 0;
    while k < shape.len()
        invariant
            0 <= k <= shape@.len(),
            axis < shape@.len(),
            k <= axis ==> r@ =~= shape@.take(k as int),
            k > axis ==> r@ =~= shape@.take(k as int).remove(axis as int),
        decreases shape@.len() - k,
    {
        if k != axis {
            r.push(shape[k]);
        }
        k = k + 1;
    }
    proof {
        assert(shape@.take(shape@.len() as int) =~= shape@);
    }
    r
}

/// `ranges` split `0 .. total` into consecutive non-empty pieces, in order.
pub open spec fn is_partition(ranges: Seq<(usize, usize)>, total: nat) -> bool {
    &&& (ranges.len() == 0 <==> total == 0)
    &&& ranges.len() > 0 ==> ranges[0].0 == 0 && ranges.last().1 == total
    &&& forall|i: int| 0 <= i < ranges.len() ==> #[trigger] ranges[i].0 < ranges[i].1
    &&& forall|i: int| 0 <= i < ranges.len() - 1 ==> #[trigger] ranges[i].1 == ranges[i + 1].0
}

/// Number of ranges the output cells `0 .. total` are split into for
/// `workers` workers: one per worker (one where `workers` is 0), but never
/// more than there are cells.
pub open spec fn range_count(total: nat, workers: nat) -> nat {
    let w: nat = if workers == 0 {
        1
    } else {
        workers
    };
    if w < total {
        w
    } else {
        total
    }
}

/// Start of range `i` when `total` cells are split into `count` ranges whose
/// lengths differ by at most one, the longer ones first.
pub open spec fn balanced_start(total: int, count: int, i: int) -> int {
    let q = total / count;
    let rem = total % count;
    i * q + if i < rem {
        i
    } else {
        rem
    }
}

/// Splits the output cells `0 .. total` into consecutive ranges, one per
/// worker (never more ranges than cells), whose lengths differ by at most
/// one: with `c` ranges, the first `total % c` hold `total / c + 1` cells
/// and the others `total / c`.
pub fn partition_ranges(total: usize, workers: usize) -> (r: Vec<(usize, usize)>)
    ensures
        is_partition(r@, total as nat),
        r@.len() == range_count(total as nat, workers as nat),
        forall|i: int|
            0 <= i < r@.len() ==> #[trigger] r@[i] == (
                balanced_start(total as int, r@.len() as int, i) as usize,
                balanced_start(total as int, r@.len() as int, i + 1) as usize,
            ),
{
    let mut r: Vec<(usize, usize)> = Vec::new();
    if total == 0 {
        return r;
    }
    let w: usize = if workers == 0 {
        1
    } else {
        workers
    };
    let c: usize = if w < total {
        w
    } else {
        total
    };
    let q: usize = total / c;
    let rem: usize = total % c;
    proof {
        vstd::arithmetic::div_mod::lemma_fundamental_div_mod(total as int, c as int);
        vstd::arithmetic::div_mod::lemma_mod_pos_bound(total as int, c as int);
        assert(q >= 1) by (nonlinear_arith)
            requires
                total == c * q + rem,
                0 <= rem < c,
                c <= total,
                c >= 1,
        ;
    }
    let mut start: usize = 0;
    let mut i: usize = 0;
    while i < c
        invariant
            1 <= c <= total,
            q == total as int / c as int,
            rem == total as int % c as int,
            total == c * q + rem,
            0 <= rem < c,
            q >= 1,
            0 <= i <= c,
            r@.len() == i,
            start == balanced_start(total as int, c as int, i as int),
            forall|k: int|
                0 <= k < i ==> #[trigger] r@[k] == (
                    balanced_start(total as int, c as int, k) as usize,
                    balanced_start(total as int, c as int, k + 1) as usize,
                ),
            forall|k: int| 0 <= k < i ==> #[trigger] r@[k].0 < r@[k].1,
            forall|k: int| 0 <= k < i - 1 ==> #[trigger] r@[k].1 == r@[k + 1].0,
            i > 0 ==> r@[0].0 == 0 && r@[i - 1].1 == start,
            start <= total,
        decreases c - i,
    {
        proof {
            let ii = i as int;
            assert((ii + 1) * q <= c * q) by (nonlinear_arith)
                requires
                    ii + 1 <= c,
                    q >= 0,
            ;
            assert((ii + 1) * q == ii * q + q) by (nonlinear_arith);
            assert(0 <= ii * q) by (nonlinear_arith)
                requires
                    ii >= 0,
                    q >= 0,
            ;
        }
        let len: usize = if i < rem {
            q + 1
        } else {
            q
        };
        let end: usize = start + len;
        r.push((start, end));
        start = end;
        i = i + 1;
    }
    proof {
        assert(balanced_start(total as int, c as int, c as int) == total);
        assert(r@.last() == r@[c - 1]);
    }
    r
}

/// Reduces `src` along `axis` as `fold_axis` does, with the output cells
/// split into one range per worker and each range folded on its own. The
/// result does not depend on `workers`.
pub fn fold_axis_partitioned<'a, T, U, F: Fn(Lane<'a, T>) -> U>(
    src: &'a NDArray<T>,
    axis: usize,
    kernel: &F,
    workers: usize,
) -> (r: Result<NDArray<U>, RuNeVisError>)
    requires
        axis < src.shape_view().len() ==> shape_size(src.shape_view().remove(axis as int))
            <= usize::MAX,
        forall|l: Lane<'a, T>| kernel.requires((l,)),
    ensures
        r is Err <==> axis >= src.shape_view().len(),
        r matches Err(e) ==> e == (RuNeVisError::AxisOutOfBounds {
            axis,
            ndim: src.shape_view().len() as usize,
        }),
        r matches Ok(out) ==> {
            &&& out.shape_view() == src.shape_view().remove(axis as int)
            &&& out.shape_view().len() == src.shape_view().len() - 1
            &&& out.data_view().len() == shape_size(out.shape_view())
            &&& is_fold_of(src, axis as int, *kernel, out.data_view())
        },
{
    let ndim = src.ndim();
    if axis >= ndim {
        return Err(RuNeVisError::AxisOutOfBounds { axis, ndim });
    }
    let out_shape = removed_axis(src.shape(), axis);
    proof {
        lemma_split_shape(src.shape_view(), axis as int);
    }
    let n = match checked_shape_size(&out_shape) {
        Some(v) => v,
        None => 0,
    };
    let ranges = partition_ranges(n, workers);
    let mut data: Vec<U> = Vec::new();
    let mut i: usize = 0;
    while i < ranges.len()
        invariant
            0 <= i <= ranges@.len(),
            is_partition(ranges@, n as nat),
            n == outer_size(src.shape_view(), axis as int) * inner_size(src.shape_view(), axis as int),
            axis < src.shape_view().len(),
            forall|l: Lane<'a, T>| kernel.requires((l,)),
            i == 0 ==> data@.len() == 0,
            i > 0 ==> data@.len() == ranges@[i - 1].1,
            forall|o: int|
                0 <= o < data@.len() ==> kernel.ensures(
                    (lane_of(src, axis as int, o),),
                    #[trigger] data@[o],
                ),
            forall|o: int|
                0 <= o < data@.len() ==> (#[trigger] lane_of(src, axis as int, o))@ == lane_values(
                    src.data_view(),
                    src.shape_view(),
                    axis as int,
                    o,
                ),
        decreases ranges@.len() - i,
    {
        let (lo, hi) = ranges[i];
        proof {
            if i > 0 {
                assert(ranges@[i - 1].1 == ranges@[(i - 1) + 1].0);
            }
            assert forall|j: int| 0 <= j < i implies ranges@[j].1 <= ranges@[i as int].0 by {
                lemma_partition_ordered(ranges@, n as nat, j, i as int);
            }
            lemma_partition_ordered(ranges@, n as nat, i as int, ranges@.len() - 1);
        }
        let mut part = fold_range(src, axis, lo, hi, kernel);
        let ghost before = data@;
        let ghost chunk = part@;
        data.append(&mut part);
        proof {
            assert forall|o: int| 0 <= o < data@.len() implies kernel.ensures(
                (lane_of(src, axis as int, o),),
                #[trigger] data@[o],
            ) by {
                if o >= before.len() {
                    let k = o - before.len();
                    assert(data@[o] == chunk[k]);
                }
            }
        }
        i = i + 1;
    }
    proof {
        if ranges@.len() > 0 {
            assert(ranges@[ranges@.len() - 1] == ranges@.last());
        }
    }
    NDArray::from_shape_vec(out_shape, data)
}

/// Ranges of a partition come in increasing order.
proof fn lemma_partition_ordered(ranges: Seq<(usize, usize)>, total: nat, j: int, i: int)
    requires
        is_partition(ranges, total),
        0 <= j <= i < ranges.len(),
    ensures
        ranges[j].0 <= ranges[i].0,
        j < i ==> ranges[j].1 <= ranges[i].0,
        ranges[i].1 <= total,
    decreases i - j,
{
    if j < i {
        assert(ranges[i - 1].1 == ranges[(i - 1) + 1].0);
        assert(ranges[i - 1].0 < ranges[i - 1].1);
        lemma_partition_ordered(ranges, total, j, i - 1);
        lemma_partition_bounded(ranges, total, i);
    } else {
        lemma_partition_bounded(ranges, total, i);
    }
}

/// Every range of a partition of `0 .. total` ends by `total`.
proof fn lemma_partition_bounded(ranges: Seq<(usize, usize)>, total: nat, i: int)
    requires
        is_partition(ranges, total),
        0 <= i < ranges.len(),
    ensures
        ranges[i].1 <= total,
    decreases ranges.len() - i,
{
    if i < ranges.len() - 1 {
        assert(ranges[i].1 == ranges[i + 1].0);
        lemma_partition_bounded(ranges, total, i + 1);
    } else {
        assert(ranges[i] == ranges.last());
    }
}

/// With a kernel that gives one value per lane, the fold of an array along an
/// axis is unique: any two results of `fold_axis` or `fold_axis_partitioned`,
/// whatever the number of workers, are equal cell for cell.
pub proof fn lemma_fold_deterministic<'a, T, U, F: Fn(Lane<'a, T>) -> U>(
    src: &'a NDArray<T>,
    axis: int,
    kernel: F,
    a: Seq<U>,
    b: Seq<U>,
)
    requires
        is_fold_of(src, axis, kernel, a),
        is_fold_of(src, axis, kernel, b),
        forall|l: Lane<'a, T>, x: U, y: U|
            kernel.ensures((l,), x) && kernel.ensures((l,), y) ==> x == y,
    ensures
        a == b,
{
    assert forall|o: int| 0 <= o < a.len() implies a[o] == b[o] by {
        assert(kernel.ensures((lane_of(src, axis, o),), a[o]));
        assert(kernel.ensures((lane_of(src, axis, o),), b[o]));
    }
    assert(a =~= b);
}

/// Coordinates in the source of element `j` of the lane of output cell
/// `o`: the output cell's coordinates (over the other axes) with `j` put
/// back at `axis`.
pub open spec fn lane_coords(shape: Seq<usize>, axis: int, o: int, j: int) -> Seq<usize> {
    let oc = coords_of(shape.remove(axis), o);
    oc.take(axis).push(j as usize) + oc.skip(axis)
}

/// The lane of output cell `o` walks the reduced axis at the fixed
/// coordinates of `o`: its `j`-th element sits at the row-major offset of
/// the output cell's coordinates with `j` inserted at `axis`.
pub proof fn lemma_lane_index_is_offset(shape: Seq<usize>, axis: int, o: int, j: int)
    requires
        0 <= axis < shape.len(),
        0 <= o < shape_size(shape.remove(axis)),
        0 <= j < shape[axis],
    ensures
        in_bounds(shape, lane_coords(shape, axis, o, j)),
        lane_index(shape, axis, o, j) == flat_of(shape, lane_coords(shape, axis, o, j)),
{
    lemma_split_shape(shape, axis);
    let p = shape.take(axis);
    let sfx = shape.skip(axis + 1);
    let len = shape[axis] as int;
    let outer = shape_size(p) as int;
    let inner = shape_size(sfx) as int;
    assert(shape.remove(axis) =~= p + sfx);
    assert(outer > 0 && inner > 0) by (nonlinear_arith)
        requires
            0 <= o < outer * inner,
            outer >= 0,
            inner >= 0,
    ;
    lemma_coords_split(p, sfx, o);
    lemma_fundamental_div_mod(o, inner);
    lemma_mod_pos_bound(o, inner);
    let a = o / inner;
    let b = o % inner;
    assert(0 <= a < outer) by (nonlinear_arith)
        requires
            o == inner * a + b,
            0 <= b < inner,
            0 <= o < outer * inner,
    ;
    lemma_coords_round_trip(p, a);
    lemma_coords_round_trip(sfx, b);
    let cp = coords_of(p, a);
    let cs = coords_of(sfx, b);
    let oc = coords_of(shape.remove(axis), o);
    assert(oc == cp + cs);
    assert(oc.take(axis) =~= cp);
    assert(oc.skip(axis) =~= cs);
    let c = lane_coords(shape, axis, o, j);
    assert(c =~= cp.push(j as usize) + cs);
    let head = p.push(shape[axis]);
    assert(shape =~= head + sfx);
    lemma_flat_concat(head, sfx, cp.push(j as usize), cs);
    assert(head.drop_last() =~= p);
    assert(cp.push(j as usize).drop_last() =~= cp);
    assert(flat_of(head, cp.push(j as usize)) == a * len + j);
    assert(lane_index(shape, axis, o, j) == (a * len + j) * inner + b) by (nonlinear_arith)
        requires
            lane_index(shape, axis, o, j) == a * (len * inner) + b + j * inner,
    ;
    assert forall|i: int| 0 <= i < shape.len() implies #[trigger] c[i] < shape[i] by {
        if i < axis {
            assert(c[i] == cp[i]);
            assert(cp[i] < p[i]);
        } else if i == axis {
        } else {
            assert(c[i] == cs[i - axis - 1]);
            assert(cs[i - axis - 1] < sfx[i - axis - 1]);
        }
    }
}

/// `part` is what `fold_range` gives for the output cells `lo .. hi`.
pub open spec fn is_range_fold_of<'a, T, U, F: Fn(Lane<'a, T>) -> U>(
    src: &'a NDArray<T>,
    axis: int,
    kernel: F,
    lo: int,
    hi: int,
    part: Seq<U>,
) -> bool {
    &&& part.len() == hi - lo
    &&& forall|k: int|
        0 <= k < part.len() ==> kernel.ensures((lane_of(src, axis, lo + k),), #[trigger] part[k])
    &&& forall|o: int|
        lo <= o < hi ==> (#[trigger] lane_of(src, axis, o))@ == lane_values(
            src.data_view(),
            src.shape_view(),
            axis,
            o,
        )
}

/// Start of range `i` of a partition of `0 .. total`, or `total` past the end.
spec fn range_start(ranges: Seq<(usize, usize)>, i: int, total: int) -> int {
    if i < ranges.len() {
        ranges[i].0 as int
    } else {
        total
    }
}

proof fn lemma_tail_is_fold<'a, T, U, F: Fn(Lane<'a, T>) -> U>(
    src: &'a NDArray<T>,
    axis: int,
    kernel: F,
    ranges: Seq<(usize, usize)>,
    parts: Seq<Seq<U>>,
    total: int,
    i: int,
)
    requires
        total >= 0,
        is_partition(ranges, total as nat),
        parts.len() == ranges.len(),
        0 <= i <= ranges.len(),
        forall|r: int|
            0 <= r < ranges.len() ==> is_range_fold_of(
                src,
                axis,
                kernel,
                ranges[r].0 as int,
                ranges[r].1 as int,
                #[trigger] parts[r],
            ),
    ensures
        ({
            let f = parts.subrange(i, parts.len() as int).flatten();
            let lo = range_start(ranges, i, total);
            &&& f.len() == total - lo
            &&& is_range_fold_of(src, axis, kernel, lo, total, f)
        }),
    decreases ranges.len() - i,
{
    let n = parts.len() as int;
    let f = parts.subrange(i, n).flatten();
    if i == n {
        assert(parts.subrange(i, n) =~= Seq::<Seq<U>>::empty());
        assert(f =~= Seq::<U>::empty());
    } else {
        lemma_tail_is_fold(src, axis, kernel, ranges, parts, total, i + 1);
        let rest = parts.subrange(i + 1, n).flatten();
        assert(parts.subrange(i, n).drop_first() =~= parts.subrange(i + 1, n));
        assert(parts.subrange(i, n).first() == parts[i]);
        assert(f == parts[i] + rest);
        let lo = ranges[i].0 as int;
        let hi = ranges[i].1 as int;
        assert(is_range_fold_of(src, axis, kernel, lo, hi, parts[i]));
        if i + 1 < n {
            assert(ranges[i].1 == ranges[i + 1].0);
            assert(range_start(ranges, i + 1, total) == ranges[i + 1].0);
        } else {
            assert(ranges[i] == ranges.last());
            assert(ranges.last().1 == total);
            assert(range_start(ranges, i + 1, total) == total);
        }
        assert(range_start(ranges, i + 1, total) == hi);
        assert forall|k: int| 0 <= k < f.len() implies kernel.ensures(
            (lane_of(src, axis, lo + k),),
            #[trigger] f[k],
        ) by {
            if k < parts[i].len() {
                assert(f[k] == parts[i][k]);
            } else {
                let k2 = k - parts[i].len();
                assert(f[k] == rest[k2]);
                assert(kernel.ensures((lane_of(src, axis, hi + k2),), rest[k2]));
            }
        }
        assert forall|o: int| lo <= o < total implies (#[trigger] lane_of(src, axis, o))@
            == lane_values(src.data_view(), src.shape_view(), axis, o) by {
            if o >= hi {
                assert(lane_of(src, axis, o)@ == lane_values(src.data_view(), src.shape_view(), axis, o));
            }
        }
    }
}

/// Folding each range of a partition of the output cells on its own (as
/// `fold_range` does, on any worker and in any order) and laying the pieces
/// side by side in range order gives the fold of the whole array: the result
/// does not depend on how the cells were split among workers.
pub proof fn lemma_ranges_concat_to_fold<'a, T, U, F: Fn(Lane<'a, T>) -> U>(
    src: &'a NDArray<T>,
    axis: int,
    kernel: F,
    ranges: Seq<(usize, usize)>,
    parts: Seq<Seq<U>>,
)
    requires
        is_partition(
            ranges,
            outer_size(src.shape_view(), axis) * inner_size(src.shape_view(), axis),
        ),
        parts.len() == ranges.len(),
        forall|r: int|
            0 <= r < ranges.len() ==> is_range_fold_of(
                src,
                axis,
                kernel,
                ranges[r].0 as int,
                ranges[r].1 as int,
                #[trigger] parts[r],
            ),
    ensures
        is_fold_of(src, axis, kernel, parts.flatten()),
{
    let total = (outer_size(src.shape_view(), axis) * inner_size(src.shape_view(), axis)) as int;
    lemma_tail_is_fold(src, axis, kernel, ranges, parts, total, 0);
    assert(parts.subrange(0, parts.len() as int) =~= parts);
    assert(range_start(ranges, 0, total) == 0);
    let f = parts.flatten();
    assert forall|o: int| 0 <= o < f.len() implies kernel.ensures((lane_of(src, axis, o),), #[trigger] f[o]) by {
        assert(kernel.ensures((lane_of(src, axis, 0 + o),), f[o]));
    }
}

} // verus!
