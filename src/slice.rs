use crate::codec::{coords_of, flat_of, in_bounds, lemma_coords_round_trip, lemma_coords_split, lemma_flat_concat};
use crate::dims::{first_match, resolve_axis, texts, DimensionInfo};
use crate::errors::RuNeVisError;
use crate::fold::{inner_size, outer_size};
use crate::shape::{checked_shape_size, shape_size, NDArray};
use crate::text::{lemma_split_nonempty, parse_usize, parse_usize_spec, split_at_char, split_spec};
use vstd::arithmetic::div_mod::{lemma_fundamental_div_mod, lemma_mod_pos_bound};
use vstd::prelude::*;

verus! {

/// Marker that the first range of a slice request stands for the variable's
/// first dimension, whatever its name.
pub const FIRST_DIM: &'static str = "__first_dim__";

/// A range `start .. end` along a named dimension.
#[derive(Debug, Clone)]
pub struct DimSlice {
    pub dimension: String,
    pub start: usize,
    pub end: usize,
}

/// A slice request: the variable, then one range per named dimension. The
/// first range belongs to the variable's first dimension.
#[derive(Debug, Clone)]
pub struct SliceSpec {
    pub variable: String,
    pub slices: Vec<DimSlice>,
}

/// A `name:start:end` piece, read.
pub open spec fn triple_spec(part: Seq<char>) -> Option<(Seq<char>, usize, usize)> {
    let p = split_spec(part, ':');
    if p.len() == 3 && parse_usize_spec(p[1]) is Some && parse_usize_spec(p[2]) is Some {
        Some((p[0], parse_usize_spec(p[1])->0, parse_usize_spec(p[2])->0))
    } else {
        None
    }
}

/// Reads `<variable>:<dimension>`: exactly one colon.
pub fn parse_mean_arg(s: &str) -> (r: Result<(String, String), String>)
    ensures
        r is Ok <==> split_spec(s@, ':').len() == 2,
        r matches Ok(p) ==> p.0@ == split_spec(s@, ':')[0] && p.1@ == split_spec(s@, ':')[1],
        r matches Err(m) ==> m@ == "Invalid format: Expected '<variable>:<dimension>'."@,
{
    let parts = split_at_char(s, ':');
    proof {
        assert(parts@.len() == split_spec(s@, ':').len());
    }
    if parts.len() == 2 {
        proof {
            assert(parts@[0]@ == split_spec(s@, ':')[0]);
            assert(parts@[1]@ == split_spec(s@, ':')[1]);
        }
        Ok((parts[0].clone(), parts[1].clone()))
    } else {
        Err(String::from_str("Invalid format: Expected '<variable>:<dimension>'."))
    }
}

/// Why a `name:start:end` piece could not be read.
enum TripleError {
    Shape,
    Start,
    End,
}

fn parse_triple(part: &str) -> (r: Result<(String, usize, usize), TripleError>)
    ensures
        r is Ok <==> triple_spec(part@) is Some,
        r matches Ok(t) ==> triple_spec(part@) == Some((t.0@, t.1, t.2)),
{
    let p = split_at_char(part, ':');
    proof {
        assert(p@.len() == split_spec(part@, ':').len());
    }
    if p.len() != 3 {
        return Err(TripleError::Shape);
    }
    proof {
        assert(p@[0]@ == split_spec(part@, ':')[0]);
        assert(p@[1]@ == split_spec(part@, ':')[1]);
        assert(p@[2]@ == split_spec(part@, ':')[2]);
    }
    let start = match parse_usize(p[1].as_str()) {
        Some(v) => v,
        None => {
            return Err(TripleError::Start);
        },
    };
    let end = match parse_usize(p[2].as_str()) {
        Some(v) => v,
        None => {
            return Err(TripleError::End);
        },
    };
    Ok((p[0].clone(), start, end))
}

/// Reads `var:start:end[,dim:start:end]*`. The first range is recorded
/// under the `FIRST_DIM` marker; the others under their dimension's name.
/// Fails exactly when a comma-separated piece is not three colon-separated
/// fields with unsigned numbers in the last two.
pub fn parse_slice_arg(s: &str) -> (r: Result<SliceSpec, String>)
    ensures
        r is Ok <==> forall|i: int|
            0 <= i < split_spec(s@, ',').len() ==> (#[trigger] triple_spec(split_spec(s@, ',')[i])) is Some,
        r matches Ok(spec) ==> {
            let parts = split_spec(s@, ',');
            &&& spec.slices@.len() == parts.len()
            &&& spec.variable@ == (triple_spec(parts[0])->0).0
            &&& spec.slices@[0].dimension@ == FIRST_DIM@
            &&& spec.slices@[0].start == (triple_spec(parts[0])->0).1
            &&& spec.slices@[0].end == (triple_spec(parts[0])->0).2
            &&& forall|i: int|
                1 <= i < parts.len() ==> {
                    let t = triple_spec(parts[i])->0;
                    &&& (#[trigger] spec.slices@[i]).dimension@ == t.0
                    &&& spec.slices@[i].start == t.1
                    &&& spec.slices@[i].end == t.2
                }
        },
{
    let parts = split_at_char(s, ',');
    let ghost ps = split_spec(s@, ',');
    proof {
        lemma_split_nonempty(s@, ',');
        assert(parts@.len() == ps.len());
        assert(parts@[0]@ == ps[0]);
    }
    let (variable, vstart, vend) = match parse_triple(parts[0].as_str()) {
        Ok(t) => t,
        Err(e) => {
            return Err(
                String::from_str(
                    match e {
                        TripleError::Shape => "Invalid format: Expected 'variable:start:end,dimension:start:end'",
                        TripleError::Start => "Invalid start index for variable",
                        TripleError::End => "Invalid end index for variable",
                    },
                ),
            );
        },
    };
    let mut slices: Vec<DimSlice> = Vec::new();
    slices.push(DimSlice { dimension: String::from_str(FIRST_DIM), start: vstart, end: vend });
    let mut i: usize = 1;
    while i < parts.len()
        invariant
            1 <= i <= parts@.len(),
            parts@.len() == ps.len(),
            ps == split_spec(s@, ','),
            forall|k: int| 0 <= k < parts@.len() ==> (#[trigger] parts@[k])@ == ps[k],
            slices@.len() == i,
            triple_spec(ps[0]) == Some((variable@, vstart, vend)),
            slices@[0].dimension@ == FIRST_DIM@,
            slices@[0].start == vstart,
            slices@[0].end == vend,
            forall|k: int| 0 <= k < i ==> (#[trigger] triple_spec(ps[k])) is Some,
            forall|k: int|
                1 <= k < i ==> {
                    let t = triple_spec(ps[k])->0;
                    &&& (#[trigger] slices@[k]).dimension@ == t.0
                    &&& slices@[k].start == t.1
                    &&& slices@[k].end == t.2
                },
        decreases parts@.len() - i,
    {
        proof {
            assert(parts@[i as int]@ == ps[i as int]);
        }
        match parse_triple(parts[i].as_str()) {
            Ok((dimension, start, end)) => {
                slices.push(DimSlice { dimension, start, end });
            },
            Err(e) => {
                let mut msg = String::from_str(
                    match e {
                        TripleError::Shape => "Invalid dimension slice format: Expected 'dimension:start:end'",
                        TripleError::Start => "Invalid start index for dimension '",
                        TripleError::End => "Invalid end index for dimension '",
                    },
                );
                match e {
                    TripleError::Shape => {},
                    _ => {
                        let fields = split_at_char(parts[i].as_str(), ':');
                        if fields.len() > 0 {
                            msg.append(fields[0].as_str());
                        }
                        msg.append("'");
                    },
                }
                return Err(msg);
            },
        }
        i = i + 1;
    }
    Ok(SliceSpec { variable, slices })
}

/// The range requested for axis `i` (named `names[i]`), if any: the first
/// range for axis 0 when it carries the `FIRST_DIM` marker, otherwise the
/// first range whose dimension has that name.
pub open spec fn requested_range(slices: Seq<DimSlice>, names: Seq<Seq<char>>, i: int) -> Option<
    (usize, usize),
> {
    if i == 0 && slices.len() > 0 && slices[0].dimension@ == FIRST_DIM@ {
        Some((slices[0].start, slices[0].end))
    } else {
        match first_match(slices.map_values(|d: DimSlice| d.dimension@), names[i]) {
            Some(k) => Some((slices[k].start, slices[k].end)),
            None => None,
        }
    }
}

/// A requested range is usable on an axis of length `len` when it is
/// non-empty and ends within the axis.
pub open spec fn range_fits(r: (usize, usize), len: usize) -> bool {
    r.0 < r.1 && r.1 <= len
}

/// The range requested for axis `i`, if any, fits that axis.
pub open spec fn request_fits(slices: Seq<DimSlice>, dims: Seq<DimensionInfo>, i: int) -> bool {
    match requested_range(slices, dims.map_values(|d: DimensionInfo| d.name@), i) {
        Some(q) => range_fits(q, dims[i].length),
        None => true,
    }
}

/// The range taken along axis `i`: the requested one, or the whole axis.
pub open spec fn effective_range(slices: Seq<DimSlice>, dims: Seq<DimensionInfo>, i: int) -> (
    usize,
    usize,
) {
    match requested_range(slices, dims.map_values(|d: DimensionInfo| d.name@), i) {
        Some(q) => q,
        None => (0, dims[i].length),
    }
}

/// Works out the range to take along each axis of a variable with
/// dimensions `dims`. Fails with `InvalidSlice` exactly when some requested
/// range is empty, starts at or past the axis's end, or ends past it.
pub fn resolve_slice_ranges(spec: &SliceSpec, dims: &Vec<DimensionInfo>) -> (r: Result<
    Vec<(usize, usize)>,
    RuNeVisError,
>)
    ensures
        r is Ok <==> forall|i: int|
            0 <= i < dims@.len() ==> #[trigger] request_fits(spec.slices@, dims@, i),
        r matches Ok(ranges) ==> ranges@.len() == dims@.len() && forall|i: int|
            0 <= i < dims@.len() ==> #[trigger] ranges@[i] == effective_range(spec.slices@, dims@, i),
        r matches Err(e) ==> e is InvalidSlice,
{
    let ghost names = dims@.map_values(|d: DimensionInfo| d.name@);
    let mut slice_names: Vec<String> = Vec::new();
    let mut k: usize = 0;
    while k < spec.slices.len()
        invariant
            0 <= k <= spec.slices@.len(),
            slice_names@.len() == k,
            forall|j: int| 0 <= j < k ==> (#[trigger] slice_names@[j])@ == spec.slices@[j].dimension@,
        decreases spec.slices@.len() - k,
    {
        slice_names.push(spec.slices[k].dimension.clone());
        k = k + 1;
    }
    proof {
        assert(texts(slice_names@) =~= spec.slices@.map_values(|d: DimSlice| d.dimension@));
    }
    let marker = String::from_str(FIRST_DIM);
    let mut ranges: Vec<(usize, usize)> = Vec::new();
    let mut i: usize = 0;
    while i < dims.len()
        invariant
            0 <= i <= dims@.len(),
            names == dims@.map_values(|d: DimensionInfo| d.name@),
            marker@ == FIRST_DIM@,
            texts(slice_names@) == spec.slices@.map_values(|d: DimSlice| d.dimension@),
            slice_names@.len() == spec.slices@.len(),
            ranges@.len() == i,
            forall|j: int|
                0 <= j < i ==> #[trigger] request_fits(spec.slices@, dims@, j),
            forall|j: int| 0 <= j < i ==> #[trigger] ranges@[j] == effective_range(spec.slices@, dims@, j),
        decreases dims@.len() - i,
    {
        let len = dims[i].length;
        proof {
            assert(names[i as int] == dims@[i as int].name@);
        }
        let requested: Option<(usize, usize)> = if i == 0 && spec.slices.len() > 0
            && spec.slices[0].dimension == marker {
            Some((spec.slices[0].start, spec.slices[0].end))
        } else {
            match resolve_axis(&slice_names, dims[i].name.as_str()) {
                Some(k) => Some((spec.slices[k].start, spec.slices[k].end)),
                None => None,
            }
        };
        proof {
            assert(requested == requested_range(spec.slices@, names, i as int));
        }
        let range = match requested {
            Some((start, end)) => {
                if start >= len || end > len || start >= end {
                    proof {
                        assert(!request_fits(spec.slices@, dims@, i as int));
                    }
                    return Err(RuNeVisError::InvalidSlice { message: range_message(&dims[i].name, start, end, len) });
                }
                (start, end)
            },
            None => (0, len),
        };
        ranges.push(range);
        i = i + 1;
    }
    Ok(ranges)
}

/// Text of an out-of-range slice error.
fn range_message(name: &String, start: usize, end: usize, len: usize) -> String {
    let mut m = String::from_str("Invalid slice range for dimension '");
    m.append(name.as_str());
    m.append("': ");
    m.append(start.to_string().as_str());
    m.append(":");
    m.append(end.to_string().as_str());
    m.append(" (dimension size: ");
    m.append(len.to_string().as_str());
    m.append(")");
    m
}

} // verus!

verus! {

/// Flat source index of element `k` of the slice `start .. start + cnt`
/// along `axis`: `k` decomposes as `(a * cnt + j) * inner + b`, and the
/// source element is at outer position `a`, axis position `start + j`,
/// inner position `b`.
pub open spec fn slice_source_index(shape: Seq<usize>, axis: int, start: int, cnt: int, k: int) -> int {
    let inner = inner_size(shape, axis) as int;
    let q = k / inner;
    ((q / cnt) * shape[axis] + start + q % cnt) * inner + k % inner
}

/// The elements of `data` (of shape `shape`) whose position along `axis` is
/// in `start .. end`, in row-major order.
pub open spec fn slice_axis_spec<T>(data: Seq<T>, shape: Seq<usize>, axis: int, start: int, end: int) -> Seq<T> {
    Seq::new(
        outer_size(shape, axis) * ((end - start) as nat) * inner_size(shape, axis),
        |k: int| data[slice_source_index(shape, axis, start, end - start, k)],
    )
}

/// The shape once the first `n` axes are cut to their ranges.
pub open spec fn sliced_shape(shape: Seq<usize>, ranges: Seq<(usize, usize)>, n: int) -> Seq<usize> {
    Seq::new(
        shape.len(),
        |j: int|
            if j < n {
                (ranges[j].1 - ranges[j].0) as usize
            } else {
                shape[j]
            },
    )
}

/// The elements once the first `n` axes are cut to their ranges, one axis
/// after the other.
pub open spec fn sliced_data<T>(data: Seq<T>, shape: Seq<usize>, ranges: Seq<(usize, usize)>, n: nat) -> Seq<T>
    decreases n,
{
    if n == 0 {
        data
    } else {
        slice_axis_spec(
            sliced_data(data, shape, ranges, (n - 1) as nat),
            sliced_shape(shape, ranges, n - 1),
            n - 1,
            ranges[n - 1].0 as int,
            ranges[n - 1].1 as int,
        )
    }
}

proof fn lemma_slice_index_bound(shape: Seq<usize>, axis: int, start: int, end: int, k: int)
    requires
        0 <= axis < shape.len(),
        0 <= start <= end <= shape[axis],
        0 <= k < outer_size(shape, axis) * ((end - start) as nat) * inner_size(shape, axis),
    ensures
        0 <= slice_source_index(shape, axis, start, end - start, k) < shape_size(shape),
        inner_size(shape, axis) > 0,
        end - start > 0,
{
    crate::fold::lemma_split_shape(shape, axis);
    let outer = outer_size(shape, axis) as int;
    let inner = inner_size(shape, axis) as int;
    let len = shape[axis] as int;
    let cnt = end - start;
    assert(inner > 0 && cnt > 0 && outer > 0) by (nonlinear_arith)
        requires
            0 <= k < outer * cnt * inner,
            outer >= 0,
            inner >= 0,
            cnt >= 0,
    ;
    lemma_fundamental_div_mod(k, inner);
    lemma_mod_pos_bound(k, inner);
    let q = k / inner;
    let b = k % inner;
    assert(0 <= q < outer * cnt) by (nonlinear_arith)
        requires
            k == inner * q + b,
            0 <= b < inner,
            0 <= k < outer * cnt * inner,
    ;
    lemma_fundamental_div_mod(q, cnt);
    lemma_mod_pos_bound(q, cnt);
    let a = q / cnt;
    let j = q % cnt;
    assert(0 <= a < outer) by (nonlinear_arith)
        requires
            q == cnt * a + j,
            0 <= j < cnt,
            0 <= q < outer * cnt,
    ;
    assert(0 <= (a * len + start + j) * inner + b < outer * len * inner) by (nonlinear_arith)
        requires
            0 <= a < outer,
            0 <= start,
            start + j < end <= len,
            0 <= j,
            0 <= b < inner,
    ;
}

/// The part of `src` whose position along `axis` is in `start .. end`; the
/// other axes are kept whole.
pub fn slice_axis<T: Copy>(src: &NDArray<T>, axis: usize, start: usize, end: usize) -> (r: NDArray<T>)
    requires
        axis < src.shape_view().len(),
        start <= end <= src.shape_view()[axis as int],
    ensures
        r.shape_view() == src.shape_view().update(axis as int, (end - start) as usize),
        r.data_view() == slice_axis_spec(
            src.data_view(),
            src.shape_view(),
            axis as int,
            start as int,
            end as int,
        ),
{
    let shape = src.shape();
    let cnt = end - start;
    let mut new_shape: Vec<usize> = Vec::new();
    let mut i: usize = 0;
    while i < shape.len()
        invariant
            0 <= i <= shape@.len(),
            new_shape@ =~= shape@.update(axis as int, cnt).take(i as int),
            axis < shape@.len(),
        decreases shape@.len() - i,
    {
        if i == axis {
            new_shape.push(cnt);
        } else {
            new_shape.push(shape[i]);
        }
        i = i + 1;
    }
    let ghost ns = shape@.update(axis as int, cnt);
    proof {
        assert(ns.take(ns.len() as int) =~= ns);
        assert(ns.take(axis as int) =~= shape@.take(axis as int));
        assert(ns.skip(axis + 1) =~= shape@.skip(axis + 1));
        crate::fold::lemma_split_shape(ns, axis as int);
        crate::fold::lemma_split_shape(shape@, axis as int);
        let outer = outer_size(shape@, axis as int) as int;
        let inner = inner_size(shape@, axis as int) as int;
        assert(outer * cnt * inner <= outer * shape@[axis as int] * inner) by (nonlinear_arith)
            requires
                cnt <= shape@[axis as int],
                outer >= 0,
                inner >= 0,
        ;
    }
    let data_len = src.len();
    let total = match checked_shape_size(&new_shape) {
        Some(t) => t,
        None => 0,
    };
    let data = src.data();
    let mut out: Vec<T> = Vec::new();
    if total == 0 {
        proof {
            assert(out@ =~= slice_axis_spec(src.data_view(), shape@, axis as int, start as int, end as int));
        }
        return NDArray::from_fitting_parts(new_shape, out);
    }
    proof {
        lemma_slice_index_bound(shape@, axis as int, start as int, end as int, 0);
        let outer = outer_size(shape@, axis as int) as int;
        let inner = inner_size(shape@, axis as int) as int;
        assert(outer >= 1) by (nonlinear_arith)
            requires
                outer * cnt * inner > 0,
                outer >= 0,
                cnt >= 0,
                inner >= 0,
        ;
        assert(inner <= outer * cnt * inner) by (nonlinear_arith)
            requires
                outer >= 1,
                cnt >= 1,
                inner >= 0,
        ;
    }
    let inner = crate::fold::inner_extent(shape, axis);
    let len = shape[axis];
    let mut k: usize = 0;
    while k < total
        invariant
            0 <= k <= total,
            total == outer_size(shape@, axis as int) * (cnt as nat) * inner_size(shape@, axis as int),
            inner == inner_size(shape@, axis as int),
            len == shape@[axis as int],
            cnt == end - start,
            start <= end <= len,
            axis < shape@.len(),
            shape@ == src.shape_view(),
            data@ == src.data_view(),
            data@.len() == data_len,
            data_len == shape_size(shape@),
            out@.len() == k,
            forall|m: int|
                0 <= m < k ==> #[trigger] out@[m] == data@[slice_source_index(
                    shape@,
                    axis as int,
                    start as int,
                    cnt as int,
                    m,
                )],
        decreases total - k,
    {
        proof {
            lemma_slice_index_bound(shape@, axis as int, start as int, end as int, k as int);
            let q = k as int / inner as int;
            assert(q <= k) by (nonlinear_arith)
                requires
                    q == k as int / inner as int,
                    inner > 0,
                    k >= 0,
            ;
            let a = q / cnt as int;
            let j = q % cnt as int;
            let b = k as int % inner as int;
            lemma_mod_pos_bound(q, cnt as int);
            lemma_mod_pos_bound(k as int, inner as int);
            assert(a * len <= a * len + start + j);
            assert((a * len + start + j) <= (a * len + start + j) * inner) by (nonlinear_arith)
                requires
                    inner >= 1,
                    a * len + start + j >= 0,
            ;
            assert(0 <= a * len) by (nonlinear_arith)
                requires
                    q >= 0,
                    cnt >= 1,
                    a == q / cnt as int,
                    len >= 0,
            ;
        }
        let q = k / inner;
        let idx = ((q / cnt) * len + start + q % cnt) * inner + k % inner;
        out.push(data[idx]);
        k = k + 1;
    }
    proof {
        assert(out@ =~= slice_axis_spec(src.data_view(), shape@, axis as int, start as int, end as int));
    }
    NDArray::from_fitting_parts(new_shape, out)
}

/// Cuts every axis of `src` to its range: `ranges[i]` is `(start, end)` on
/// axis `i`. The result has extents `end - start`.
pub fn slice_array<T: Copy>(src: &NDArray<T>, ranges: &Vec<(usize, usize)>) -> (r: NDArray<T>)
    requires
        ranges@.len() == src.shape_view().len(),
        forall|i: int|
            0 <= i < ranges@.len() ==> #[trigger] ranges@[i].0 <= ranges@[i].1 <= src.shape_view()[i],
    ensures
        r.shape_view() == sliced_shape(src.shape_view(), ranges@, ranges@.len() as int),
        r.data_view() == sliced_data(
            src.data_view(),
            src.shape_view(),
            ranges@,
            ranges@.len() as nat,
        ),
{
    let n = ranges.len();
    let _len = src.len();
    let (s0, d0) = (copy_shape(src.shape()), copy_data(src.data()));
    proof {
        assert(s0@ =~= sliced_shape(src.shape_view(), ranges@, 0));
    }
    let mut cur = NDArray::from_fitting_parts(s0, d0);
    let mut i: usize = 0;
    while i < n
        invariant
            0 <= i <= n,
            n == ranges@.len(),
            n == src.shape_view().len(),
            forall|j: int|
                0 <= j < ranges@.len() ==> #[trigger] ranges@[j].0 <= ranges@[j].1 <= src.shape_view()[j],
            cur.shape_view() == sliced_shape(src.shape_view(), ranges@, i as int),
            cur.data_view() == sliced_data(src.data_view(), src.shape_view(), ranges@, i as nat),
        decreases n - i,
    {
        let (start, end) = ranges[i];
        let next = slice_axis(&cur, i, start, end);
        proof {
            assert(next.shape_view() =~= sliced_shape(src.shape_view(), ranges@, i + 1));
        }
        cur = next;
        i = i + 1;
    }
    cur
}

fn copy_shape(s: &Vec<usize>) -> (r: Vec<usize>)
    ensures
        r@ == s@,
{
    let mut r: Vec<usize> = Vec::new();
    let mut i: usize = 0;
    while i < s.len()
        invariant
            0 <= i <= s@.len(),
            r@ =~= s@.take(i as int),
        decreases s@.len() - i,
    {
        r.push(s[i]);
        i = i + 1;
    }
    proof {
        assert(s@.take(s@.len() as int) =~= s@);
    }
    r
}

fn copy_data<T: Copy>(s: &Vec<T>) -> (r: Vec<T>)
    ensures
        r@ == s@,
{
    let mut r: Vec<T> = Vec::new();
    let mut i: usize = 0;
    while i < s.len()
        invariant
            0 <= i <= s@.len(),
            r@ =~= s@.take(i as int),
        decreases s@.len() - i,
    {
        r.push(s[i]);
        i = i + 1;
    }
    proof {
        assert(s@.take(s@.len() as int) =~= s@);
    }
    r
}

} // verus!

verus! {

/// The ranges taken along every axis, as `resolve_slice_ranges` gives them.
pub open spec fn effective_ranges(slices: Seq<DimSlice>, dims: Seq<DimensionInfo>) -> Seq<(usize, usize)> {
    Seq::new(dims.len(), |i: int| effective_range(slices, dims, i))
}

/// The part of a variable's array that a slice request selects. `arr` holds
/// the variable's values and `dims` its dimensions. Fails with `InvalidSlice`
/// exactly when a requested range does not fit its axis.
pub fn extract_slice<T: Copy>(arr: &NDArray<T>, dims: &Vec<DimensionInfo>, slice_spec: &SliceSpec) -> (r: Result<
    NDArray<T>,
    RuNeVisError,
>)
    requires
        arr.shape_view() == dims@.map_values(|d: DimensionInfo| d.length),
    ensures
        r is Ok <==> forall|i: int|
            0 <= i < dims@.len() ==> #[trigger] request_fits(slice_spec.slices@, dims@, i),
        r matches Err(e) ==> e is InvalidSlice,
        r matches Ok(out) ==> {
            let ranges = effective_ranges(slice_spec.slices@, dims@);
            &&& out.shape_view() == sliced_shape(arr.shape_view(), ranges, dims@.len() as int)
            &&& out.data_view() == sliced_data(
                arr.data_view(),
                arr.shape_view(),
                ranges,
                dims@.len() as nat,
            )
        },
{
    let ranges = match resolve_slice_ranges(slice_spec, dims) {
        Ok(r) => r,
        Err(e) => {
            return Err(e);
        },
    };
    proof {
        assert(ranges@ =~= effective_ranges(slice_spec.slices@, dims@));
        assert forall|i: int| 0 <= i < ranges@.len() implies #[trigger] ranges@[i].0 <= ranges@[i].1
            <= arr.shape_view()[i] by {
            assert(request_fits(slice_spec.slices@, dims@, i));
            assert(arr.shape_view()[i] == dims@[i].length);
        }
    }
    Ok(slice_array(arr, &ranges))
}

} // verus!

verus! {

/// Coordinates in the source of element `k` of the slice `start .. start +
/// cnt` along `axis`: the element's coordinates in the sliced shape, moved
/// by `start` along `axis`.
pub open spec fn slice_coords(shape: Seq<usize>, axis: int, start: int, cnt: int, k: int) -> Seq<usize> {
    let c = coords_of(shape.update(axis, cnt as usize), k);
    c.update(axis, (c[axis] + start) as usize)
}

/// Element `k` of a slice along one axis is read at the row-major offset of
/// its coordinates, moved by `start` along that axis.
pub proof fn lemma_slice_index_is_offset(shape: Seq<usize>, axis: int, start: int, end: int, k: int)
    requires
        0 <= axis < shape.len(),
        0 <= start <= end <= shape[axis],
        0 <= k < shape_size(shape.update(axis, (end - start) as usize)),
    ensures
        in_bounds(shape, slice_coords(shape, axis, start, end - start, k)),
        slice_source_index(shape, axis, start, end - start, k) == flat_of(
            shape,
            slice_coords(shape, axis, start, end - start, k),
        ),
{
    let cnt = end - start;
    let ns = shape.update(axis, cnt as usize);
    let p = shape.take(axis);
    let sfx = shape.skip(axis + 1);
    assert(ns.take(axis) =~= p);
    assert(ns.skip(axis + 1) =~= sfx);
    crate::fold::lemma_split_shape(ns, axis);
    let outer = shape_size(p) as int;
    let inner = shape_size(sfx) as int;
    assert(ns[axis] == cnt);
    assert(outer > 0 && inner > 0 && cnt > 0) by (nonlinear_arith)
        requires
            0 <= k < outer * cnt * inner,
            outer >= 0,
            inner >= 0,
            cnt >= 0,
    ;
    let head_n = p.push(cnt as usize);
    assert(ns =~= head_n + sfx);
    lemma_coords_split(head_n, sfx, k);
    lemma_fundamental_div_mod(k, inner);
    lemma_mod_pos_bound(k, inner);
    let q = k / inner;
    let b = k % inner;
    assert(0 <= q < outer * cnt) by (nonlinear_arith)
        requires
            k == inner * q + b,
            0 <= b < inner,
            0 <= k < outer * cnt * inner,
    ;
    lemma_fundamental_div_mod(q, cnt);
    lemma_mod_pos_bound(q, cnt);
    let a = q / cnt;
    let jj = q % cnt;
    assert(0 <= a < outer) by (nonlinear_arith)
        requires
            q == cnt * a + jj,
            0 <= jj < cnt,
            0 <= q < outer * cnt,
    ;
    assert(head_n.drop_last() =~= p);
    assert(coords_of(head_n, q) == coords_of(p, a).push(jj as usize));
    lemma_coords_round_trip(p, a);
    lemma_coords_round_trip(sfx, b);
    let cp = coords_of(p, a);
    let cs = coords_of(sfx, b);
    let c = coords_of(ns, k);
    assert(c =~= cp.push(jj as usize) + cs);
    let sc = slice_coords(shape, axis, start, cnt, k);
    assert(sc =~= cp.push((jj + start) as usize) + cs);
    let head = p.push(shape[axis]);
    assert(shape =~= head + sfx);
    lemma_flat_concat(head, sfx, cp.push((jj + start) as usize), cs);
    assert(head.drop_last() =~= p);
    assert(cp.push((jj + start) as usize).drop_last() =~= cp);
    let len = shape[axis] as int;
    assert(flat_of(head, cp.push((jj + start) as usize)) == a * len + (jj + start));
    assert(slice_source_index(shape, axis, start, cnt, k) == ((a * len + start + jj) * inner + b));
    assert forall|i: int| 0 <= i < shape.len() implies #[trigger] sc[i] < shape[i] by {
        if i < axis {
            assert(sc[i] == cp[i]);
            assert(cp[i] < p[i]);
        } else if i == axis {
        } else {
            assert(sc[i] == cs[i - axis - 1]);
            assert(cs[i - axis - 1] < sfx[i - axis - 1]);
        }
    }
}

} // verus!
