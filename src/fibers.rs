//! Line-list geometry of streamlines, cut into batches that are drawn one
//! buffer pair at a time.
use vstd::prelude::*;

use crate::inputs::Coloring;

verus! {

/// The vertices `start..=end` of a geometry that belong to one streamline.
#[derive(Clone, Copy, Debug, PartialEq, Eq, Structural)]
pub struct SegmentRange {
    pub start: usize,
    pub end: usize,
}

/// The vertices of a batch of streamlines, the range of each streamline
/// among them, and the pairs of vertex indices of its line segments.
pub struct FiberGeometry<T> {
    pub vertices: Vec<T>,
    pub ranges: Vec<SegmentRange>,
    pub indices: Vec<u32>,
}

/// Why streamlines cannot be turned into geometry.
#[derive(Clone, Copy, Debug, PartialEq, Eq, Structural)]
pub enum FiberError {
    /// Batches must hold at least one streamline.
    EmptyBatchSize,
    /// A streamline has fewer than two points, so no segment joins them.
    DegenerateStreamline,
    /// A batch has more vertices than a 32-bit index can reach.
    TooManyVertices,
}

/// The points of each streamline.
pub open spec fn lines_view<T>(s: Seq<Vec<T>>) -> Seq<Seq<T>> {
    s.map_values(|v: Vec<T>| v@)
}

/// All points of `s`, streamline after streamline.
pub open spec fn flatten_points<T>(s: Seq<Seq<T>>) -> Seq<T>
    decreases s.len(),
{
    if s.len() == 0 {
        Seq::empty()
    } else {
        flatten_points(s.drop_last()) + s.last()
    }
}

/// Every streamline of `s` has at least two points.
pub open spec fn all_lines_drawable<T>(s: Seq<Seq<T>>) -> bool {
    forall|i: int| 0 <= i < s.len() ==> #[trigger] s[i].len() >= 2
}

/// First and last vertex index of each streamline of `s` once flattened.
pub open spec fn streamline_ranges<T>(s: Seq<Seq<T>>) -> Seq<(int, int)>
    decreases s.len(),
{
    if s.len() == 0 {
        Seq::empty()
    } else {
        let first = flatten_points(s.drop_last()).len() as int;
        streamline_ranges(s.drop_last()).push((first, first + s.last().len() - 1))
    }
}

/// The vertex pairs `(i, i + 1)` of every segment of each range, in order.
pub open spec fn segment_indices(r: Seq<(int, int)>) -> Seq<int>
    decreases r.len(),
{
    if r.len() == 0 {
        Seq::empty()
    } else {
        let (s, e) = r.last();
        segment_indices(r.drop_last()) + Seq::new((2 * (e - s)) as nat, |k: int| s + k / 2 + k % 2)
    }
}

/// The ranges as pairs of integers.
pub open spec fn ranges_view(r: Seq<SegmentRange>) -> Seq<(int, int)> {
    r.map_values(|x: SegmentRange| (x.start as int, x.end as int))
}

/// The indices as integers.
pub open spec fn indices_view(r: Seq<u32>) -> Seq<int> {
    r.map_values(|x: u32| x as int)
}

/// `g` holds the points of the streamlines `s`, their ranges and their
/// segments.
pub open spec fn geometry_of<T>(g: FiberGeometry<T>, s: Seq<Seq<T>>) -> bool {
    &&& g.vertices@ == flatten_points(s)
    &&& ranges_view(g.ranges@) == streamline_ranges(s)
    &&& indices_view(g.indices@) == segment_indices(streamline_ranges(s))
}

proof fn lemma_ranges_len<T>(s: Seq<Seq<T>>)
    ensures
        streamline_ranges(s).len() == s.len(),
    decreases s.len(),
{
    if s.len() > 0 {
        lemma_ranges_len(s.drop_last());
    }
}

proof fn lemma_ranges_bounded<T>(s: Seq<Seq<T>>)
    requires
        all_lines_drawable(s),
    ensures
        streamline_ranges(s).len() == s.len(),
        forall|k: int| 0 <= k < s.len() ==> 0 <= #[trigger] streamline_ranges(s)[k].0
            < streamline_ranges(s)[k].1 < flatten_points(s).len(),
    decreases s.len(),
{
    lemma_ranges_len(s);
    if s.len() > 0 {
        lemma_ranges_bounded(s.drop_last());
        assert forall|k: int| 0 <= k < s.len() implies 0 <= #[trigger] streamline_ranges(s)[k].0
            < streamline_ranges(s)[k].1 < flatten_points(s).len() by {
            if k < s.len() - 1 {
                assert(s.drop_last()[k] == s[k]);
            } else {
                assert(s.last() == s[k]);
            }
        }
    }
}

/// Flattens the streamlines `from..to` into one vertex list, recording
/// which vertices belong to each of them.
fn vertices_of<T: Copy>(streamlines: &Vec<Vec<T>>, from: usize, to: usize) -> (r: (Vec<T>, Vec<SegmentRange>))
    requires
        from <= to <= streamlines@.len(),
        all_lines_drawable(lines_view(streamlines@.subrange(from as int, to as int))),
    ensures
        r.0@ == flatten_points(lines_view(streamlines@.subrange(from as int, to as int))),
        ranges_view(r.1@) == streamline_ranges(lines_view(streamlines@.subrange(from as int, to as int))),
{
    let ghost s = lines_view(streamlines@.subrange(from as int, to as int));
    let mut out: Vec<T> = Vec::new();
    let mut ranges: Vec<SegmentRange> = Vec::new();
    let mut i: usize = 0;
    while i < to - from
        invariant
            from <= to <= streamlines@.len(),
            s == lines_view(streamlines@.subrange(from as int, to as int)),
            s.len() == to - from,
            all_lines_drawable(s),
            i <= to - from,
            out@ == flatten_points(s.subrange(0, i as int)),
            ranges_view(ranges@) == streamline_ranges(s.subrange(0, i as int)),
        decreases to - from - i,
    {
        let line = &streamlines[from + i];
        let ghost before = out@;
        let start: usize = out.len();
        let mut j: usize = 0;
        assert(line@ == s[i as int]);
        while j < line.len()
            invariant
                line@ == s[i as int],
                j <= line@.len(),
                out@ == before + line@.subrange(0, j as int),
            decreases line@.len() - j,
        {
            out.push(line[j]);
            proof {
                assert(line@.subrange(0, j as int + 1) =~= line@.subrange(0, j as int).push(line@[j as int]));
            }
            j += 1;
        }
        let end: usize = out.len() - 1;
        ranges.push(SegmentRange { start, end });
        proof {
            let sub = s.subrange(0, i as int + 1);
            assert(sub.drop_last() =~= s.subrange(0, i as int));
            assert(sub.last() == s[i as int]);
            assert(line@.subrange(0, j as int) =~= line@);
            assert(ranges_view(ranges@) =~= streamline_ranges(s.subrange(0, i as int)).push((start as int, end as int)));
        }
        i += 1;
    }
    assert(s.subrange(0, s.len() as int) =~= s);
    (out, ranges)
}

/// Flattens streamlines into one vertex list, recording which vertices
/// belong to each streamline.
pub fn vertices<T: Copy>(streamlines: &Vec<Vec<T>>) -> (r: (Vec<T>, Vec<SegmentRange>))
    requires
        all_lines_drawable(lines_view(streamlines@)),
    ensures
        r.0@ == flatten_points(lines_view(streamlines@)),
        ranges_view(r.1@) == streamline_ranges(lines_view(streamlines@)),
{
    assert(streamlines@.subrange(0, streamlines@.len() as int) =~= streamlines@);
    vertices_of(streamlines, 0, streamlines.len())
}

/// The pairs of vertex indices of every segment, never joining vertices of
/// two different ranges.
pub fn indices(ranges: &Vec<SegmentRange>) -> (r: Vec<u32>)
    requires
        forall|k: int| 0 <= k < ranges@.len() ==> (#[trigger] ranges@[k]).start <= ranges@[k].end <= u32::MAX,
    ensures
        indices_view(r@) == segment_indices(ranges_view(ranges@)),
{
    let ghost rv = ranges_view(ranges@);
    let mut out: Vec<u32> = Vec::new();
    let mut k: usize = 0;
    while k < ranges.len()
        invariant
            rv == ranges_view(ranges@),
            forall|k: int| 0 <= k < ranges@.len() ==> (#[trigger] ranges@[k]).start <= ranges@[k].end <= u32::MAX,
            k <= ranges@.len(),
            indices_view(out@) == segment_indices(rv.subrange(0, k as int)),
        decreases ranges@.len() - k,
    {
        let range = ranges[k];
        let ghost before = indices_view(out@);
        let mut i: usize = range.start;
        while i < range.end
            invariant
                range == ranges@[k as int],
                range.start <= i <= range.end <= u32::MAX,
                indices_view(out@) == before + Seq::new((2 * (i - range.start)) as nat,
                    |n: int| range.start + n / 2 + n % 2),
            decreases range.end - i,
        {
            let ghost prev = out@;
            out.push(i as u32);
            out.push(i as u32 + 1);
            proof {
                assert(indices_view(out@) =~= indices_view(prev).push(i as int).push(i + 1));
                let n0 = 2 * (i - range.start);
                assert(n0 / 2 == i - range.start && n0 % 2 == 0) by {
                    vstd::arithmetic::div_mod::lemma_fundamental_div_mod_converse(n0, 2, i - range.start, 0);
                }
                assert((n0 + 1) / 2 == i - range.start && (n0 + 1) % 2 == 1) by {
                    vstd::arithmetic::div_mod::lemma_fundamental_div_mod_converse(n0 + 1, 2, i - range.start, 1);
                }
                assert(indices_view(out@) =~= before + Seq::new((2 * (i + 1 - range.start)) as nat,
                    |n: int| range.start + n / 2 + n % 2));
            }
            i += 1;
        }
        proof {
            let sub = rv.subrange(0, k as int + 1);
            assert(sub.drop_last() =~= rv.subrange(0, k as int));
            assert(sub.last() == (range.start as int, range.end as int));
            assert(indices_view(out@) =~= segment_indices(sub));
        }
        k += 1;
    }
    assert(rv.subrange(0, rv.len() as int) =~= rv);
    out
}

proof fn lemma_flatten_append<T>(a: Seq<Seq<T>>, b: Seq<Seq<T>>)
    ensures
        flatten_points(a + b) == flatten_points(a) + flatten_points(b),
    decreases b.len(),
{
    if b.len() == 0 {
        assert(a + b =~= a);
        assert(flatten_points(a) + flatten_points(b) =~= flatten_points(a));
    } else {
        lemma_flatten_append(a, b.drop_last());
        assert((a + b).drop_last() =~= a + b.drop_last());
        assert((a + b).last() == b.last());
        assert(flatten_points(a + b) =~= flatten_points(a) + flatten_points(b));
    }
}

/// The streamlines of batch `b` when batches hold `size` streamlines each.
pub open spec fn batch_lines<T>(s: Seq<Seq<T>>, size: nat, b: int) -> Seq<Seq<T>> {
    let end = if (b + 1) * size < s.len() { (b + 1) * size } else { s.len() as int };
    s.subrange(b * size, end)
}

/// Number of batches of at most `size` streamlines that `n` streamlines fill.
pub open spec fn batch_count(n: nat, size: nat) -> nat
    recommends
        size > 0,
{
    ((n + size - 1) as nat) / size
}

/// The points of the first `c` batches, batch after batch.
pub open spec fn batched_points<T>(s: Seq<Seq<T>>, size: nat, c: nat) -> Seq<T>
    decreases c,
{
    if c == 0 {
        Seq::empty()
    } else {
        batched_points(s, size, (c - 1) as nat) + flatten_points(batch_lines(s, size, c - 1))
    }
}

/// Turns the streamlines `from..to` into line-list geometry.
fn geometry_of_range<T: Copy>(streamlines: &Vec<Vec<T>>, from: usize, to: usize) -> (r: Result<FiberGeometry<T>, FiberError>)
    requires
        from <= to <= streamlines@.len(),
        all_lines_drawable(lines_view(streamlines@.subrange(from as int, to as int))),
    ensures
        r is Err <==> flatten_points(lines_view(streamlines@.subrange(from as int, to as int))).len() > u32::MAX,
        r is Err ==> r == Err::<FiberGeometry<T>, FiberError>(FiberError::TooManyVertices),
        r matches Ok(g) ==> geometry_of(g, lines_view(streamlines@.subrange(from as int, to as int))),
{
    let ghost s = lines_view(streamlines@.subrange(from as int, to as int));
    let (vertices, ranges) = vertices_of(streamlines, from, to);
    if vertices.len() > u32::MAX as usize {
        return Err(FiberError::TooManyVertices);
    }
    proof {
        lemma_ranges_bounded(s);
        assert forall|k: int| 0 <= k < ranges@.len() implies (#[trigger] ranges@[k]).start <= ranges@[k].end < u32::MAX by {
            assert(ranges_view(ranges@)[k] == (ranges@[k].start as int, ranges@[k].end as int));
            assert(ranges_view(ranges@).len() == ranges@.len());
            assert(streamline_ranges(s)[k] == ranges_view(ranges@)[k]);
            assert(0 <= streamline_ranges(s)[k].0 < streamline_ranges(s)[k].1 < flatten_points(s).len());
            assert(vertices@.len() == flatten_points(s).len());
        }
    }
    let indices = indices(&ranges);
    Ok(FiberGeometry { vertices, ranges, indices })
}

/// Turns a list of streamlines into one vertex list, the range of each
/// streamline in it and the index pairs of its line segments.
pub fn geometry<T: Copy>(streamlines: &Vec<Vec<T>>) -> (r: Result<FiberGeometry<T>, FiberError>)
    ensures
        r == Err::<FiberGeometry<T>, FiberError>(FiberError::DegenerateStreamline)
            <==> !all_lines_drawable(lines_view(streamlines@)),
        r == Err::<FiberGeometry<T>, FiberError>(FiberError::TooManyVertices)
            <==> all_lines_drawable(lines_view(streamlines@)) && flatten_points(lines_view(streamlines@)).len() > u32::MAX,
        r is Ok <==> all_lines_drawable(lines_view(streamlines@)) && flatten_points(lines_view(streamlines@)).len() <= u32::MAX,
        r matches Ok(g) ==> geometry_of(g, lines_view(streamlines@)),
{
    if !lines_drawable(streamlines, 0, streamlines.len()) {
        assert(streamlines@.subrange(0, streamlines@.len() as int) =~= streamlines@);
        return Err(FiberError::DegenerateStreamline);
    }
    assert(streamlines@.subrange(0, streamlines@.len() as int) =~= streamlines@);
    geometry_of_range(streamlines, 0, streamlines.len())
}

/// Whether each of the streamlines `from..to` has at least two points.
fn lines_drawable<T>(streamlines: &Vec<Vec<T>>, from: usize, to: usize) -> (r: bool)
    requires
        from <= to <= streamlines@.len(),
    ensures
        r == all_lines_drawable(lines_view(streamlines@.subrange(from as int, to as int))),
{
    let ghost s = lines_view(streamlines@.subrange(from as int, to as int));
    let mut i: usize = from;
    while i < to
        invariant
            from <= i <= to <= streamlines@.len(),
            s == lines_view(streamlines@.subrange(from as int, to as int)),
            forall|k: int| 0 <= k < i - from ==> #[trigger] s[k].len() >= 2,
        decreases to - i,
    {
        if streamlines[i].len() < 2 {
            assert(s[i - from].len() < 2);
            return false;
        }
        i += 1;
    }
    true
}

/// Cuts the streamlines into consecutive batches of `batch_size` (the last
/// one may hold fewer) and turns each batch into its own geometry.
pub fn batches<T: Copy>(streamlines: &Vec<Vec<T>>, batch_size: usize) -> (r: Result<Vec<FiberGeometry<T>>, FiberError>)
    ensures
        r == Err::<Vec<FiberGeometry<T>>, FiberError>(FiberError::EmptyBatchSize) <==> batch_size == 0,
        r == Err::<Vec<FiberGeometry<T>>, FiberError>(FiberError::DegenerateStreamline)
            <==> batch_size > 0 && !all_lines_drawable(lines_view(streamlines@)),
        r == Err::<Vec<FiberGeometry<T>>, FiberError>(FiberError::TooManyVertices)
            <==> batch_size > 0 && all_lines_drawable(lines_view(streamlines@)) && exists|b: int|
                0 <= b < batch_count(streamlines@.len(), batch_size as nat)
                    && #[trigger] flatten_points(batch_lines(lines_view(streamlines@), batch_size as nat, b)).len() > u32::MAX,
        r matches Ok(g) ==> {
            &&& g@.len() == batch_count(streamlines@.len(), batch_size as nat)
            &&& forall|b: int| 0 <= b < g@.len() ==> geometry_of(#[trigger] g@[b],
                batch_lines(lines_view(streamlines@), batch_size as nat, b))
        },
{
    if batch_size == 0 {
        return Err(FiberError::EmptyBatchSize);
    }
    let n: usize = streamlines.len();
    let ghost s = lines_view(streamlines@);
    let ghost size = batch_size as nat;
    if !lines_drawable(streamlines, 0, n) {
        assert(streamlines@.subrange(0, n as int) =~= streamlines@);
        return Err(FiberError::DegenerateStreamline);
    }
    assert(streamlines@.subrange(0, n as int) =~= streamlines@);
    let mut out: Vec<FiberGeometry<T>> = Vec::new();
    let mut from: usize = 0;
    let ghost mut b: int = 0;
    proof {
        lemma_batch_start(n as nat, size);
    }
    while from < n
        invariant
            n == streamlines@.len(),
            s == lines_view(streamlines@),
            size == batch_size,
            batch_size > 0,
            all_lines_drawable(s),
            from <= n,
            (b * size < n && from == b * size) || (b * size >= n && from == n),
            b >= 0,
            from < n ==> b < batch_count(n as nat, size),
            from >= n ==> b == batch_count(n as nat, size),
            out@.len() == b,
            forall|c: int| 0 <= c < b ==> flatten_points(#[trigger] batch_lines(s, size, c)).len() <= u32::MAX,
            forall|c: int| 0 <= c < b ==> geometry_of(#[trigger] out@[c], batch_lines(s, size, c)),
        decreases n - from,
    {
        let to: usize = if batch_size < n - from { from + batch_size } else { n };
        proof {
            assert((b + 1) * size == b * size + size) by (nonlinear_arith);
            assert(lines_view(streamlines@.subrange(from as int, to as int)) =~= batch_lines(s, size, b));
            assert forall|k: int| 0 <= k < batch_lines(s, size, b).len() implies
                #[trigger] batch_lines(s, size, b)[k].len() >= 2 by {
                assert(batch_lines(s, size, b)[k] == s[from + k]);
            }
        }
        match geometry_of_range(streamlines, from, to) {
            Ok(g) => {
                out.push(g);
            }
            Err(e) => {
                return Err(e);
            }
        }
        proof {
            lemma_batch_step(n as nat, size, b);
        }
        from = to;
        proof {
            b = b + 1;
        }
    }
    Ok(out)
}

proof fn lemma_batch_start(n: nat, size: nat)
    requires
        size > 0,
    ensures
        n > 0 ==> 0 < batch_count(n, size),
        n == 0 ==> batch_count(n, size) == 0,
{
    if n > 0 {
        vstd::arithmetic::div_mod::lemma_div_is_ordered(size as int, (n + size - 1) as int, size as int);
        vstd::arithmetic::div_mod::lemma_div_by_self(size as int);
    } else {
        vstd::arithmetic::div_mod::lemma_basic_div((size - 1) as int, size as int);
    }
}

proof fn lemma_batch_step(n: nat, size: nat, b: int)
    requires
        size > 0,
        b >= 0,
        b * size < n,
    ensures
        b < batch_count(n, size),
        (b + 1) * size < n ==> b + 1 < batch_count(n, size),
        (b + 1) * size >= n ==> b + 1 == batch_count(n, size),
{
    let c = batch_count(n, size) as int;
    let m = n + size - 1;
    vstd::arithmetic::div_mod::lemma_fundamental_div_mod(m, size as int);
    vstd::arithmetic::div_mod::lemma_mod_pos_bound(m, size as int);
    assert(m == size * c + m % size as int);
    assert((b + 1) * size == b * size + size) by (nonlinear_arith);
    if b >= c {
        assert(b * size >= c * size) by (nonlinear_arith) requires b >= c, size > 0;
    }
    if (b + 1) * size < n && b + 1 >= c {
        assert((b + 1) * size >= c * size) by (nonlinear_arith) requires b + 1 >= c, size > 0;
    }
    if (b + 1) * size >= n && b + 1 != c {
        if b + 1 < c {
            assert((b + 2) * size <= c * size) by (nonlinear_arith) requires b + 2 <= c, size > 0;
            assert((b + 2) * size == (b + 1) * size + size) by (nonlinear_arith);
        }
        if b + 1 > c {
            assert(b * size >= c * size) by (nonlinear_arith) requires b >= c, size > 0;
        }
    }
}

proof fn lemma_count_bounds(n: nat, size: nat)
    requires
        size > 0,
    ensures
        batch_count(n, size) * size >= n,
        batch_count(n, size) > 0 ==> (batch_count(n, size) - 1) * size < n,
{
    let c = batch_count(n, size) as int;
    let m = n + size - 1;
    vstd::arithmetic::div_mod::lemma_fundamental_div_mod(m, size as int);
    vstd::arithmetic::div_mod::lemma_mod_pos_bound(m, size as int);
    assert(c * size == size * c) by (nonlinear_arith);
    assert((c - 1) * size == c * size - size) by (nonlinear_arith);
}

/// Cutting streamlines into batches loses and adds no point: the points of
/// all batches, batch after batch, are the points of all streamlines, so
/// the batches' vertex counts add up to the number of points.
pub proof fn lemma_batching_lossless<T>(s: Seq<Seq<T>>, size: nat)
    requires
        size > 0,
    ensures
        batched_points(s, size, batch_count(s.len(), size)) == flatten_points(s),
        batched_points(s, size, batch_count(s.len(), size)).len() == flatten_points(s).len(),
{
    let n = s.len();
    let count = batch_count(n, size);
    lemma_count_bounds(n, size);
    lemma_batched_prefix(s, size, count);
    assert(count * size >= n);
    assert(s.subrange(0, n as int) =~= s);
}

proof fn lemma_batched_prefix<T>(s: Seq<Seq<T>>, size: nat, c: nat)
    requires
        size > 0,
        c <= batch_count(s.len(), size),
    ensures
        batched_points(s, size, c) == flatten_points(
            s.subrange(0, if c * size < s.len() { (c * size) as int } else { s.len() as int })),
    decreases c,
{
    let n = s.len();
    if c == 0 {
        assert(c * size == 0) by (nonlinear_arith) requires c == 0;
        assert(s.subrange(0, 0) =~= Seq::<Seq<T>>::empty());
        assert(flatten_points(s.subrange(0, 0)) =~= Seq::<T>::empty());
    } else {
        let b = (c - 1) as nat;
        lemma_batched_prefix(s, size, b);
        lemma_count_bounds(n, size);
        assert(b * size < n) by (nonlinear_arith)
            requires b + 1 <= batch_count(n, size), (batch_count(n, size) - 1) * size < n, size > 0;
        assert(c * size == b * size + size) by (nonlinear_arith) requires c == b + 1;
        let end = if c * size < n { (c * size) as int } else { n as int };
        assert(end == if c * size < s.len() { (c * size) as int } else { s.len() as int });
        assert(s.subrange(0, (b * size) as int) + batch_lines(s, size, b as int) =~= s.subrange(0, end));
        lemma_flatten_append(s.subrange(0, (b * size) as int), batch_lines(s, size, b as int));
        assert(batched_points(s, size, b) == flatten_points(s.subrange(0, (b * size) as int)));
        assert(batched_points(s, size, c) == batched_points(s, size, b) + flatten_points(batch_lines(s, size, b as int)));
        assert(batched_points(s, size, c) == flatten_points(s.subrange(0, end)));
    }
}

proof fn lemma_segment_pairs(r: Seq<(int, int)>)
    requires
        forall|j: int| 0 <= j < r.len() ==> (#[trigger] r[j]).0 <= r[j].1,
    ensures
        segment_indices(r).len() % 2 == 0,
        forall|k: int| 0 <= k < segment_indices(r).len() / 2 ==> exists|j: int| 0 <= j < r.len()
            && r[j].0 <= #[trigger] segment_indices(r)[2 * k]
            && segment_indices(r)[2 * k + 1] == segment_indices(r)[2 * k] + 1
            && segment_indices(r)[2 * k + 1] <= r[j].1,
    decreases r.len(),
{
    if r.len() > 0 {
        let p = r.drop_last();
        assert forall|j: int| 0 <= j < p.len() implies (#[trigger] p[j]).0 <= p[j].1 by {
            assert(p[j] == r[j]);
        }
        lemma_segment_pairs(p);
        let (a, e) = r.last();
        let prev = segment_indices(p);
        let block = Seq::new((2 * (e - a)) as nat, |m: int| a + m / 2 + m % 2);
        let all = segment_indices(r);
        assert(all == prev + block);
        let h = prev.len() / 2;
        assert(prev.len() == 2 * h);
        assert(all.len() == 2 * (h + e - a));
        assert forall|k: int| 0 <= k < all.len() / 2 implies exists|j: int| 0 <= j < r.len()
            && r[j].0 <= #[trigger] all[2 * k]
            && all[2 * k + 1] == all[2 * k] + 1
            && all[2 * k + 1] <= r[j].1 by {
            if k < h {
                let j = choose|j: int| 0 <= j < p.len() && p[j].0 <= #[trigger] prev[2 * k]
                    && prev[2 * k + 1] == prev[2 * k] + 1 && prev[2 * k + 1] <= p[j].1;
                assert(p[j] == r[j]);
                assert(all[2 * k] == prev[2 * k]);
                assert(all[2 * k + 1] == prev[2 * k + 1]);
            } else {
                let t = k - h;
                let m0 = 2 * t;
                vstd::arithmetic::div_mod::lemma_fundamental_div_mod_converse(m0, 2, t, 0);
                vstd::arithmetic::div_mod::lemma_fundamental_div_mod_converse(m0 + 1, 2, t, 1);
                assert(all[2 * k] == block[m0]);
                assert(all[2 * k + 1] == block[m0 + 1]);
                assert(r[r.len() - 1] == (a, e));
            }
        }
    }
}

/// Each pair of the index list joins two consecutive vertices of one and
/// the same streamline, never vertices of two different streamlines.
pub proof fn lemma_segments_stay_within_streamlines<T>(s: Seq<Seq<T>>)
    requires
        all_lines_drawable(s),
    ensures
        ({
            let r = streamline_ranges(s);
            let idx = segment_indices(r);
            &&& idx.len() % 2 == 0
            &&& forall|k: int| 0 <= k < idx.len() / 2 ==> exists|j: int| 0 <= j < s.len()
                && r[j].0 <= #[trigger] idx[2 * k]
                && idx[2 * k + 1] == idx[2 * k] + 1
                && idx[2 * k + 1] <= r[j].1
        }),
{
    lemma_ranges_bounded(s);
    let r = streamline_ranges(s);
    assert forall|j: int| 0 <= j < r.len() implies (#[trigger] r[j]).0 <= r[j].1 by {
        assert(0 <= r[j].0 < r[j].1);
    }
    lemma_segment_pairs(r);
}

/// What the color of one vertex is computed from.
#[derive(Clone, Copy, Debug, PartialEq, Eq, Structural)]
pub enum VertexColor {
    /// The normalized absolute direction from vertex `from` to vertex `to`.
    Direction { from: usize, to: usize },
    /// One RGB color, 0 to 255 per channel.
    Fixed(u32, u32, u32),
}

/// Colors of the vertices `s..=e` of one streamline: with local coloring,
/// each vertex takes the direction of the segment it starts, and the last
/// vertex that of the segment before it; with endpoint coloring, all take
/// the direction from the last point to the first; with uniform coloring,
/// all take the one color.
pub open spec fn range_colors(c: Coloring, s: int, e: int) -> Seq<VertexColor> {
    match c {
        Coloring::Local => Seq::new((e - s + 1) as nat, |k: int|
            if k < e - s {
                VertexColor::Direction { from: (s + k) as usize, to: (s + k + 1) as usize }
            } else {
                VertexColor::Direction { from: (e - 1) as usize, to: e as usize }
            }),
        Coloring::Endpoint => Seq::new((e - s + 1) as nat, |k: int| VertexColor::Direction { from: e as usize, to: s as usize }),
        Coloring::Uniform(r, g, b) => Seq::new((e - s + 1) as nat, |k: int| VertexColor::Fixed(r, g, b)),
    }
}

/// Colors of the vertices of every range, range after range.
pub open spec fn color_sources(c: Coloring, r: Seq<(int, int)>) -> Seq<VertexColor>
    decreases r.len(),
{
    if r.len() == 0 {
        Seq::empty()
    } else {
        color_sources(c, r.drop_last()) + range_colors(c, r.last().0, r.last().1)
    }
}

impl Coloring {
    /// What the color of each vertex of the ranges is computed from, under
    /// this coloring policy.
    pub fn assign_vertex_colors(&self, ranges: &Vec<SegmentRange>) -> (r: Vec<VertexColor>)
        requires
            forall|k: int| 0 <= k < ranges@.len() ==> (#[trigger] ranges@[k]).start < ranges@[k].end,
        ensures
            r@ == color_sources(*self, ranges_view(ranges@)),
    {
        let ghost rv = ranges_view(ranges@);
        let mut out: Vec<VertexColor> = Vec::new();
        let mut k: usize = 0;
        while k < ranges.len()
            invariant
                rv == ranges_view(ranges@),
                forall|k: int| 0 <= k < ranges@.len() ==> (#[trigger] ranges@[k]).start < ranges@[k].end,
                k <= ranges@.len(),
                out@ == color_sources(*self, rv.subrange(0, k as int)),
            decreases ranges@.len() - k,
        {
            let range = ranges[k];
            let ghost before = out@;
            let ghost expected = range_colors(*self, range.start as int, range.end as int);
            let mut i: usize = range.start;
            while i < range.end
                invariant
                    range == ranges@[k as int],
                    range.start < range.end,
                    range.start <= i <= range.end,
                    expected == range_colors(*self, range.start as int, range.end as int),
                    out@ == before + expected.subrange(0, i - range.start),
                decreases range.end - i,
            {
                let color = match self {
                    Coloring::Local => VertexColor::Direction { from: i, to: i + 1 },
                    Coloring::Endpoint => VertexColor::Direction { from: range.end, to: range.start },
                    Coloring::Uniform(r, g, b) => VertexColor::Fixed(*r, *g, *b),
                };
                out.push(color);
                proof {
                    assert(expected.subrange(0, i + 1 - range.start)
                        =~= expected.subrange(0, i - range.start).push(color));
                }
                i += 1;
            }
            let last = match self {
                Coloring::Local => VertexColor::Direction { from: range.end - 1, to: range.end },
                Coloring::Endpoint => VertexColor::Direction { from: range.end, to: range.start },
                Coloring::Uniform(r, g, b) => VertexColor::Fixed(*r, *g, *b),
            };
            out.push(last);
            proof {
                assert(expected.subrange(0, range.end - range.start).push(last) =~= expected);
            }
            proof {
                let sub = rv.subrange(0, k as int + 1);
                assert(sub.drop_last() =~= rv.subrange(0, k as int));
                assert(sub.last() == (range.start as int, range.end as int));
            }
            k += 1;
        }
        assert(rv.subrange(0, rv.len() as int) =~= rv);
        out
    }
}

/// Under any coloring policy, the streamlines' ranges give exactly one color
/// per vertex of the geometry.
pub proof fn lemma_one_color_per_vertex<T>(c: Coloring, s: Seq<Seq<T>>)
    requires
        all_lines_drawable(s),
    ensures
        color_sources(c, streamline_ranges(s)).len() == flatten_points(s).len(),
    decreases s.len(),
{
    if s.len() > 0 {
        assert forall|i: int| 0 <= i < s.drop_last().len() implies #[trigger] s.drop_last()[i].len() >= 2 by {
            assert(s.drop_last()[i] == s[i]);
        }
        lemma_one_color_per_vertex(c, s.drop_last());
        let r = streamline_ranges(s);
        assert(r.drop_last() == streamline_ranges(s.drop_last()));
        assert(s.last() == s[s.len() - 1]);
    }
}

proof fn lemma_drawable_subrange<T>(s: Seq<Seq<T>>, a: int, b: int)
    requires
        all_lines_drawable(s),
        0 <= a <= b <= s.len(),
    ensures
        all_lines_drawable(s.subrange(a, b)),
{
    assert forall|i: int| 0 <= i < s.subrange(a, b).len() implies #[trigger] s.subrange(a, b)[i].len() >= 2 by {
        assert(s.subrange(a, b)[i] == s[a + i]);
    }
}

/// Each streamline's range starts after all the points of the streamlines
/// before it and covers exactly its own points.
pub proof fn lemma_range_offsets<T>(s: Seq<Seq<T>>)
    ensures
        streamline_ranges(s).len() == s.len(),
        forall|j: int| 0 <= j < s.len() ==> #[trigger] streamline_ranges(s)[j] == (
            flatten_points(s.subrange(0, j)).len() as int,
            flatten_points(s.subrange(0, j)).len() + s[j].len() - 1,
        ),
    decreases s.len(),
{
    lemma_ranges_len(s);
    if s.len() > 0 {
        let p = s.drop_last();
        lemma_range_offsets(p);
        assert forall|j: int| 0 <= j < s.len() implies #[trigger] streamline_ranges(s)[j] == (
            flatten_points(s.subrange(0, j)).len() as int,
            flatten_points(s.subrange(0, j)).len() + s[j].len() - 1,
        ) by {
            if j < s.len() - 1 {
                assert(p.subrange(0, j) =~= s.subrange(0, j));
                assert(p[j] == s[j]);
                assert(streamline_ranges(s)[j] == streamline_ranges(p)[j]);
            } else {
                assert(s.subrange(0, j) =~= p);
            }
        }
    }
}

/// A streamline of `n` points gives `n - 1` segments, so the index list of
/// a geometry holds two indices per point, less two per streamline.
pub proof fn lemma_index_count<T>(s: Seq<Seq<T>>)
    requires
        all_lines_drawable(s),
    ensures
        segment_indices(streamline_ranges(s)).len() == 2 * (flatten_points(s).len() - s.len()),
    decreases s.len(),
{
    if s.len() > 0 {
        lemma_drawable_subrange(s, 0, s.len() - 1);
        assert(s.subrange(0, s.len() - 1) =~= s.drop_last());
        lemma_index_count(s.drop_last());
        assert(streamline_ranges(s).drop_last() =~= streamline_ranges(s.drop_last()));
    }
}

/// Vertex count of the first `c` batches together.
pub open spec fn batched_vertex_count<T>(s: Seq<Seq<T>>, size: nat, c: nat) -> int
    decreases c,
{
    if c == 0 {
        0
    } else {
        batched_vertex_count(s, size, (c - 1) as nat) + flatten_points(batch_lines(s, size, c - 1)).len()
    }
}

/// Index count of the first `c` batches together.
pub open spec fn batched_index_count<T>(s: Seq<Seq<T>>, size: nat, c: nat) -> int
    decreases c,
{
    if c == 0 {
        0
    } else {
        batched_index_count(s, size, (c - 1) as nat)
            + segment_indices(streamline_ranges(batch_lines(s, size, c - 1))).len()
    }
}

proof fn lemma_batched_counts_prefix<T>(s: Seq<Seq<T>>, size: nat, c: nat)
    requires
        size > 0,
        all_lines_drawable(s),
        c <= batch_count(s.len(), size),
    ensures
        ({
            let pre = s.subrange(0, if c * size < s.len() { (c * size) as int } else { s.len() as int });
            &&& batched_vertex_count(s, size, c) == flatten_points(pre).len()
            &&& batched_index_count(s, size, c) == 2 * (flatten_points(pre).len() - pre.len())
        }),
    decreases c,
{
    let n = s.len();
    if c == 0 {
        assert(c * size == 0) by (nonlinear_arith) requires c == 0;
        assert(s.subrange(0, 0) =~= Seq::<Seq<T>>::empty());
        assert(flatten_points(s.subrange(0, 0)) =~= Seq::<T>::empty());
    } else {
        let b = (c - 1) as nat;
        lemma_batched_counts_prefix(s, size, b);
        lemma_count_bounds(n, size);
        assert(b * size < n) by (nonlinear_arith)
            requires b + 1 <= batch_count(n, size), (batch_count(n, size) - 1) * size < n, size > 0;
        assert(c * size == b * size + size) by (nonlinear_arith) requires c == b + 1;
        let end = if c * size < n { (c * size) as int } else { n as int };
        assert(end == if c * size < s.len() { (c * size) as int } else { s.len() as int });
        let pre = s.subrange(0, (b * size) as int);
        let batch = batch_lines(s, size, b as int);
        assert(pre + batch =~= s.subrange(0, end));
        lemma_flatten_append(pre, batch);
        lemma_drawable_subrange(s, (b * size) as int, end);
        lemma_index_count(batch);
    }
}

/// Summed over all batches, the vertex counts give the number of points
/// and the index counts twice the number of segments of all streamlines.
pub proof fn lemma_batch_counts<T>(s: Seq<Seq<T>>, size: nat)
    requires
        size > 0,
        all_lines_drawable(s),
    ensures
        batched_vertex_count(s, size, batch_count(s.len(), size)) == flatten_points(s).len(),
        batched_index_count(s, size, batch_count(s.len(), size)) == 2 * (flatten_points(s).len() - s.len()),
{
    lemma_count_bounds(s.len(), size);
    lemma_batched_counts_prefix(s, size, batch_count(s.len(), size));
    assert(s.subrange(0, s.len() as int) =~= s);
}

} // verus!
