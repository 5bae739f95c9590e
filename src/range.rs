use vstd::prelude::*;
use crate::error::OmError;
use crate::text::{chars_of, decimal_text, parse_decimal};

verus! {

/// A half-open interval `[start, end)` over one dimension.
#[derive(Clone, Copy, Debug, PartialEq, Eq, Structural)]
pub struct AxisRange {
    pub start: u64,
    pub end: u64,
}

/// `s` reads as `<start>..<end>` with the two dots at position `p`.
pub open spec fn range_split_at(s: Seq<char>, p: int) -> bool {
    &&& 0 <= p && p + 2 <= s.len()
    &&& s[p] == '.' && s[p + 1] == '.'
    &&& decimal_text(s.subrange(0, p), u64::MAX as nat) is Some
    &&& decimal_text(s.subrange(p + 2, s.len() as int), u64::MAX as nat) is Some
}

/// The range that `s` spells when split at `p`.
pub open spec fn range_text_at(s: Seq<char>, p: int) -> AxisRange {
    AxisRange {
        start: decimal_text(s.subrange(0, p), u64::MAX as nat)->0 as u64,
        end: decimal_text(s.subrange(p + 2, s.len() as int), u64::MAX as nat)->0 as u64,
    }
}

/// How many elements a read of `ranges` selects: the product of their lengths.
pub open spec fn selected_elements(ranges: Seq<AxisRange>) -> int
    decreases ranges.len(),
{
    if ranges.len() == 0 {
        1
    } else {
        selected_elements(ranges.drop_last()) * (ranges.last().end - ranges.last().start)
    }
}

/// The number of elements that three ranges select.
pub proof fn lemma_selected_elements3(a: AxisRange, b: AxisRange, c: AxisRange)
    ensures
        selected_elements(seq![a, b, c]) == (a.end - a.start) * (b.end - b.start) * (c.end
            - c.start),
{
    let s1 = seq![a];
    let s2 = seq![a, b];
    let s3 = seq![a, b, c];
    assert(s1.drop_last() =~= Seq::<AxisRange>::empty());
    assert(s2.drop_last() =~= s1);
    assert(s3.drop_last() =~= s2);
    assert(s1.last() == a && s2.last() == b && s3.last() == c);
    assert(selected_elements(Seq::<AxisRange>::empty()) == 1);
    assert(selected_elements(s1) == a.end - a.start);
    assert(selected_elements(s2) == (a.end - a.start) * (b.end - b.start));
}

/// Two places that both split `s` as `<start>..<end>` are the same place: a
/// well-formed token holds exactly one pair of dots.
pub proof fn lemma_range_split_unique(s: Seq<char>, p: int, q: int)
    requires
        range_split_at(s, p),
        range_split_at(s, q),
    ensures
        p == q,
{
    if p < q {
        lemma_no_split_after(s, p, q);
    } else if q < p {
        lemma_no_split_after(s, q, p);
    }
}

/// A dot before `q` keeps `q` from splitting `s`: the number on its left
/// would hold that dot.
proof fn lemma_no_split_after(s: Seq<char>, p: int, q: int)
    requires
        0 <= p < q,
        q <= s.len(),
        s[p] == '.',
    ensures
        !range_split_at(s, q),
{
    if range_split_at(s, q) {
        let left = s.subrange(0, q);
        let body = if left.len() > 0 && left[0] == '+' { left.skip(1) } else { left };
        if left[0] == '+' {
            assert(p > 0);
            assert(body[p - 1] == left[p]);
        } else {
            assert(body[p] == left[p]);
        }
    }
}

/// A range lies inside a dimension of extent `extent` and is not empty.
pub open spec fn range_within(r: AxisRange, extent: u64) -> bool {
    r.start < r.end && r.end <= extent
}

/// Reads a `<start>..<end>` token. Bounds are not compared here: a range with
/// `start >= end` parses, and is refused when checked against its dimension.
pub fn parse_range(range_str: &str) -> (r: Result<AxisRange, OmError>)
    ensures
        r is Ok ==> exists|p: int| range_split_at(range_str@, p) && r->Ok_0 == range_text_at(range_str@, p),
        r is Ok ==> forall|p: int| #[trigger] range_split_at(range_str@, p) ==> r->Ok_0 == range_text_at(range_str@, p),
        r is Err ==> r->Err_0 == OmError::Malformed && forall|p: int| !range_split_at(range_str@, p),
{
    let s = chars_of(range_str);
    let n = s.len();
    let mut p: usize = 0;
    let mut found = false;
    while !found && p < n && p + 1 < n
        invariant
            s@ == range_str@,
            n == s.len(),
            p <= n,
            found ==> p + 1 < n && s@[p as int] == '.' && s@[p + 1] == '.',
            forall|q: int| 0 <= q < p && q + 1 < n ==> !(#[trigger] s@[q] == '.' && s@[q + 1] == '.'),
        decreases n - p + (if found { 0int } else { 1int }),
    {
        if s[p] == '.' && s[p + 1] == '.' {
            found = true;
        } else {
            p = p + 1;
        }
    }
    if !found {
        assert forall|q: int| !range_split_at(range_str@, q) by {
            if 0 <= q && q + 2 <= n && q >= p {
                assert(q + 1 >= n);
            }
        }
        return Err(OmError::Malformed);
    }
    let start = parse_decimal(&s, 0, p, u64::MAX);
    let end = parse_decimal(&s, p + 2, n, u64::MAX);
    proof {
        assert forall|q: int| q != p && #[trigger] range_split_at(range_str@, q) implies false by {
            if range_split_at(range_str@, p as int) {
                lemma_range_split_unique(range_str@, p as int, q);
            } else if q > p {
                lemma_no_split_after(range_str@, p as int, q);
            }
        }
    }
    match (start, end) {
        (Some(a), Some(b)) => {
            assert(range_split_at(range_str@, p as int));
            Ok(AxisRange { start: a, end: b })
        },
        _ => Err(OmError::Malformed),
    }
}

/// Checks one range per dimension, before any element is read, and gives the
/// shape of the slice those ranges select: `end - start` along each axis.
pub fn check_ranges(dimensions: &Vec<u64>, ranges: &Vec<AxisRange>) -> (r: Result<
    Vec<u64>,
    OmError,
>)
    ensures
        r == Err::<Vec<u64>, OmError>(OmError::ShapeMismatch) <==> ranges.len() != dimensions.len(),
        r == Err::<Vec<u64>, OmError>(OmError::OutOfBounds) <==> (ranges.len() == dimensions.len()
            && exists|i: int| 0 <= i < ranges.len() && !range_within(ranges@[i], dimensions@[i])),
        r is Ok ==> r->Ok_0.len() == ranges.len() && forall|i: int|
            0 <= i < ranges.len() ==> (#[trigger] r->Ok_0@[i]) == ranges@[i].end - ranges@[i].start,
        r is Ok || r->Err_0 == OmError::ShapeMismatch || r->Err_0 == OmError::OutOfBounds,
{
    if ranges.len() != dimensions.len() {
        return Err(OmError::ShapeMismatch);
    }
    let mut shape: Vec<u64> = Vec::new();
    let mut i: usize = 0;
    while i < ranges.len()
        invariant
            ranges.len() == dimensions.len(),
            i <= ranges.len(),
            shape.len() == i,
            forall|j: int| 0 <= j < i ==> range_within(ranges@[j], dimensions@[j]),
            forall|j: int| 0 <= j < i ==> (#[trigger] shape@[j]) == ranges@[j].end - ranges@[j].start,
        decreases ranges.len() - i,
    {
        let rg = ranges[i];
        if !(rg.start < rg.end && rg.end <= dimensions[i]) {
            return Err(OmError::OutOfBounds);
        }
        shape.push(rg.end - rg.start);
        i = i + 1;
    }
    Ok(shape)
}

/// Chunk `k` of extent `chunk` along an axis shares an element with `r`.
pub open spec fn chunk_touches(r: AxisRange, chunk: int, k: int) -> bool {
    k * chunk < r.end && r.start < (k + 1) * chunk
}

proof fn lemma_div_bounds(x: int, c: int, k: int)
    requires
        0 <= x,
        0 < c,
        0 <= k,
    ensures
        k <= x / c <==> k * c <= x,
        x / c < k <==> x < k * c,
{
    let q = x / c;
    assert(x == q * c + x % c && 0 <= x % c < c) by (nonlinear_arith)
        requires
            0 < c,
            q == x / c,
    ;
    if k <= q {
        assert(k * c <= q * c) by (nonlinear_arith)
            requires
                k <= q,
                0 < c,
        ;
    } else {
        assert((q + 1) * c <= k * c) by (nonlinear_arith)
            requires
                q + 1 <= k,
                0 < c,
        ;
        assert((q + 1) * c == q * c + c) by (nonlinear_arith);
    }
}

/// The chunk indices along one axis that a range touches, as `[first, last)`.
pub fn chunk_span(r: AxisRange, chunk: u64) -> (s: AxisRange)
    requires
        chunk > 0,
        r.start < r.end,
    ensures
        s.start < s.end,
        forall|k: int| 0 <= k ==> (s.start <= k < s.end <==> #[trigger] chunk_touches(r, chunk as int, k)),
{
    let first = r.start / chunk;
    let last = (r.end - 1) / chunk + 1;
    proof {
        assert forall|k: int| 0 <= k implies (first <= k < last <==> chunk_touches(
            r,
            chunk as int,
            k,
        )) by {
            lemma_div_bounds(r.start as int, chunk as int, k);
            lemma_div_bounds(r.start as int, chunk as int, k + 1);
            lemma_div_bounds((r.end - 1) as int, chunk as int, k);
            assert((k + 1) * chunk == k * chunk + chunk) by (nonlinear_arith);
        }
        lemma_div_bounds(r.start as int, chunk as int, first as int);
        lemma_div_bounds((r.end - 1) as int, chunk as int, first as int);
    }
    AxisRange { start: first, end: last }
}

/// The chunk extent along axis `i`: the whole axis when the variable is
/// unchunked.
pub open spec fn axis_chunk(dimensions: Seq<u64>, chunks: Seq<u64>, i: int) -> int {
    if chunks.len() == 0 {
        dimensions[i] as int
    } else {
        chunks[i] as int
    }
}

/// What a read of `ranges` from a variable touches: the shape of the slice,
/// and along each axis the span of chunk indices to decode.
pub struct ReadPlan {
    pub shape: Vec<u64>,
    pub chunk_spans: Vec<AxisRange>,
}

/// Checks a read of `ranges` from a variable with extents `dimensions` and
/// chunk shape `chunks` (empty when unchunked: the whole axis is one chunk),
/// and finds the chunks it touches. A failure comes before any element is
/// read.
pub fn read_plan(dimensions: &Vec<u64>, chunks: &Vec<u64>, ranges: &Vec<AxisRange>) -> (r: Result<
    ReadPlan,
    OmError,
>)
    requires
        chunks.len() == 0 || (chunks.len() == dimensions.len() && forall|i: int|
            0 <= i < chunks.len() ==> #[trigger] chunks@[i] > 0),
    ensures
        r == Err::<ReadPlan, OmError>(OmError::ShapeMismatch) <==> ranges.len() != dimensions.len(),
        r == Err::<ReadPlan, OmError>(OmError::OutOfBounds) <==> (ranges.len() == dimensions.len()
            && exists|i: int| 0 <= i < ranges.len() && !range_within(ranges@[i], dimensions@[i])),
        r is Ok || r->Err_0 == OmError::ShapeMismatch || r->Err_0 == OmError::OutOfBounds,
        r is Ok ==> ({
            let p = r->Ok_0;
            &&& p.shape.len() == ranges.len()
            &&& p.chunk_spans.len() == ranges.len()
            &&& forall|i: int|
                0 <= i < ranges.len() ==> (#[trigger] p.shape@[i]) == ranges@[i].end
                    - ranges@[i].start
            &&& forall|i: int, k: int|
                0 <= i < ranges.len() && 0 <= k ==> (p.chunk_spans@[i].start <= k
                    < p.chunk_spans@[i].end <==> #[trigger] chunk_touches(
                    ranges@[i],
                    axis_chunk(dimensions@, chunks@, i),
                    k,
                ))
        }),
{
    let shape = match check_ranges(dimensions, ranges) {
        Ok(s) => s,
        Err(e) => {
            return Err(e);
        },
    };
    let mut spans: Vec<AxisRange> = Vec::new();
    let mut i: usize = 0;
    while i < ranges.len()
        invariant
            ranges.len() == dimensions.len(),
            chunks.len() == 0 || (chunks.len() == dimensions.len() && forall|j: int|
                0 <= j < chunks.len() ==> #[trigger] chunks@[j] > 0),
            forall|j: int| 0 <= j < ranges.len() ==> range_within(ranges@[j], dimensions@[j]),
            i <= ranges.len(),
            spans.len() == i,
            forall|j: int, k: int|
                0 <= j < i && 0 <= k ==> (spans@[j].start <= k < spans@[j].end
                    <==> #[trigger] chunk_touches(
                    ranges@[j],
                    axis_chunk(dimensions@, chunks@, j),
                    k,
                )),
        decreases ranges.len() - i,
    {
        let extent = if chunks.len() == 0 {
            dimensions[i]
        } else {
            chunks[i]
        };
        assert(range_within(ranges@[i as int], dimensions@[i as int]));
        let s = chunk_span(ranges[i], extent);
        spans.push(s);
        i = i + 1;
    }
    Ok(ReadPlan { shape, chunk_spans: spans })
}

} // verus!
