use vstd::prelude::*;
use crate::error::OmError;
use crate::range::{lemma_selected_elements3, selected_elements, AxisRange};
use crate::text::{chars_of, same_chars};

verus! {

/// Which axis of a three-axis array is time.
#[derive(Clone, Copy, Debug, PartialEq, Eq, Structural)]
pub enum ChunkingMode {
    /// `[time, lat, lon]`: one spatial frame per chunk.
    Spatial,
    /// `[lat, lon, time]`: time is the last and fastest axis.
    Temporal,
}

/// What `str::to_lowercase` gives for a string.
pub uninterp spec fn lower_of(s: Seq<char>) -> Seq<char>;

/// Relies on `str::to_lowercase`: the lowercase form of `s`, which depends on
/// its characters alone.
#[verifier::external_body]
fn lowercase(s: &str) -> (r: String)
    ensures
        r@ == lower_of(s@),
{
    s.to_lowercase()
}

pub open spec fn mode_named(s: Seq<char>) -> Option<ChunkingMode> {
    if s == seq!['s', 'p', 'a', 't', 'i', 'a', 'l'] {
        Some(ChunkingMode::Spatial)
    } else if s == seq!['t', 'e', 'm', 'p', 'o', 'r', 'a', 'l'] {
        Some(ChunkingMode::Temporal)
    } else {
        None
    }
}

/// A request for the frame at one timestamp: its rows and columns and the
/// ranges to read.
#[derive(Debug)]
pub struct FrameRequest {
    pub rows: u64,
    pub cols: u64,
    pub ranges: Vec<AxisRange>,
}

/// The ranges that select the frame at time `t` of an array with extents `dims`.
pub open spec fn frame_ranges(dims: Seq<u64>, mode: ChunkingMode, t: u64) -> Seq<AxisRange> {
    match mode {
        ChunkingMode::Temporal => seq![
            AxisRange { start: 0, end: dims[0] },
            AxisRange { start: 0, end: dims[1] },
            AxisRange { start: t, end: (t + 1) as u64 },
        ],
        ChunkingMode::Spatial => seq![
            AxisRange { start: t, end: (t + 1) as u64 },
            AxisRange { start: 0, end: dims[1] },
            AxisRange { start: 0, end: dims[2] },
        ],
    }
}

/// The extent of the time axis of `dims` in a mode.
pub open spec fn time_extent(dims: Seq<u64>, mode: ChunkingMode) -> u64 {
    match mode {
        ChunkingMode::Temporal => dims[2],
        ChunkingMode::Spatial => dims[0],
    }
}

impl ChunkingMode {
    /// Reads `spatial` or `temporal`, in any case.
    pub fn from_str(s: &str) -> (r: Option<ChunkingMode>)
        ensures
            r == mode_named(lower_of(s@)),
    {
        let lowered = lowercase(s);
        ChunkingMode::from_lowercase(lowered.as_str())
    }

    /// Reads `spatial` or `temporal`, already in lower case.
    pub fn from_lowercase(s: &str) -> (r: Option<ChunkingMode>)
        ensures
            r == mode_named(s@),
    {
        let c = chars_of(s);
        let spatial = vec!['s', 'p', 'a', 't', 'i', 'a', 'l'];
        let temporal = vec!['t', 'e', 'm', 'p', 'o', 'r', 'a', 'l'];
        assert(spatial@ =~= seq!['s', 'p', 'a', 't', 'i', 'a', 'l']);
        assert(temporal@ =~= seq!['t', 'e', 'm', 'p', 'o', 'r', 'a', 'l']);
        if same_chars(&c, &spatial) {
            Some(ChunkingMode::Spatial)
        } else if same_chars(&c, &temporal) {
            Some(ChunkingMode::Temporal)
        } else {
            None
        }
    }

    /// The frame at time `t` of an array with extents `dims`: the ranges
    /// that fix time to `t` and take every latitude and longitude.
    pub fn frame_request(self, dims: &Vec<u64>, t: u64) -> (r: Result<FrameRequest, OmError>)
        ensures
            r is Ok <==> (dims.len() == 3 && t < time_extent(dims@, self)),
            r == Err::<FrameRequest, OmError>(OmError::ShapeMismatch) <==> dims.len() != 3,
            r == Err::<FrameRequest, OmError>(OmError::OutOfBounds) <==> (dims.len() == 3 && t
                >= time_extent(dims@, self)),
            r is Ok ==> ({
                let q = r->Ok_0;
                &&& q.ranges@ == frame_ranges(dims@, self, t)
                &&& q.rows == (match self {
                    ChunkingMode::Temporal => dims@[0],
                    ChunkingMode::Spatial => dims@[1],
                })
                &&& q.cols == (match self {
                    ChunkingMode::Temporal => dims@[1],
                    ChunkingMode::Spatial => dims@[2],
                })
                &&& selected_elements(q.ranges@) == q.rows * q.cols
            }),
    {
        if dims.len() != 3 {
            return Err(OmError::ShapeMismatch);
        }
        match self {
            ChunkingMode::Temporal => {
                if t >= dims[2] {
                    return Err(OmError::OutOfBounds);
                }
                let ranges = vec![
                    AxisRange { start: 0, end: dims[0] },
                    AxisRange { start: 0, end: dims[1] },
                    AxisRange { start: t, end: t + 1 },
                ];
                assert(ranges@ =~= frame_ranges(dims@, self, t));
                proof {
                    lemma_selected_elements3(ranges@[0], ranges@[1], ranges@[2]);
                    let x = dims@[0] as int;
                    let y = dims@[1] as int;
                    assert((x - 0) * (y - 0) * ((t + 1) - t) == x * y) by (nonlinear_arith);
                }
                Ok(FrameRequest { rows: dims[0], cols: dims[1], ranges })
            },
            ChunkingMode::Spatial => {
                if t >= dims[0] {
                    return Err(OmError::OutOfBounds);
                }
                let ranges = vec![
                    AxisRange { start: t, end: t + 1 },
                    AxisRange { start: 0, end: dims[1] },
                    AxisRange { start: 0, end: dims[2] },
                ];
                assert(ranges@ =~= frame_ranges(dims@, self, t));
                proof {
                    lemma_selected_elements3(ranges@[0], ranges@[1], ranges@[2]);
                    let x = dims@[1] as int;
                    let y = dims@[2] as int;
                    assert(((t + 1) - t) * (x - 0) * (y - 0) == x * y) by (nonlinear_arith);
                }
                Ok(FrameRequest { rows: dims[1], cols: dims[2], ranges })
            },
        }
    }
}

/// The timestamp one step back, if there is one.
pub fn step_back(current: u64) -> (r: u64)
    ensures
        r == if current > 0 { current - 1 } else { current as int },
{
    if current > 0 {
        current - 1
    } else {
        current
    }
}

/// The timestamp one step forward, if it stays below `count`.
pub fn step_forward(current: u64, count: u64) -> (r: u64)
    ensures
        r == if current + 1 < count { current + 1 } else { current as int },
{
    if count > 0 && current < count - 1 {
        current + 1
    } else {
        current
    }
}

} // verus!
