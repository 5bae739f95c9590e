use vstd::prelude::*;
use crate::error::OmError;
use crate::range::{lemma_selected_elements3, selected_elements, AxisRange};
use crate::tree::chunk_shape_fits;

verus! {

/// `order` lists each of the axes `0..n` exactly once.
pub open spec fn is_axis_order(order: Seq<usize>, n: nat) -> bool {
    &&& order.len() == n
    &&& forall|i: int| 0 <= i < n ==> (#[trigger] order[i]) < n
    &&& forall|i: int, j: int| 0 <= i < j < n ==> order[i] != order[j]
    &&& forall|x: int| 0 <= x < n ==> #[trigger] axis_listed(order, n, x)
}

/// Some place of `order` among the first `n` holds axis `x`.
pub open spec fn axis_listed(order: Seq<usize>, n: nat, x: int) -> bool {
    exists|a: int| 0 <= a < n && order[a] == x
}

/// The extents of `dims` taken in the axis order `order`.
pub open spec fn permuted(dims: Seq<u64>, order: Seq<usize>) -> Seq<u64> {
    Seq::new(order.len(), |i: int| dims[order[i] as int])
}

/// The order that undoes `order`: axis `order[i]` goes back to place `i`.
pub open spec fn is_inverse_order(inv: Seq<usize>, order: Seq<usize>) -> bool {
    &&& inv.len() == order.len()
    &&& forall|i: int| 0 <= i < order.len() ==> inv[#[trigger] order[i] as int] == i
}

/// Puts the extents of `dims` in the axis order `order`.
pub fn permute_axes(dims: &Vec<u64>, order: &Vec<usize>) -> (r: Result<Vec<u64>, OmError>)
    ensures
        r is Ok <==> is_axis_order(order@, dims.len() as nat),
        r is Ok ==> r->Ok_0@ == permuted(dims@, order@),
        r is Err ==> r->Err_0 == OmError::ShapeMismatch,
{
    if !check_axis_order(order, dims.len()) {
        return Err(OmError::ShapeMismatch);
    }
    let mut out: Vec<u64> = Vec::new();
    let mut i: usize = 0;
    while i < order.len()
        invariant
            is_axis_order(order@, dims.len() as nat),
            i <= order.len(),
            out@ == permuted(dims@, order@).take(i as int),
        decreases order.len() - i,
    {
        out.push(dims[order[i]]);
        i = i + 1;
        assert(out@ =~= permuted(dims@, order@).take(i as int));
    }
    assert(out@ =~= permuted(dims@, order@));
    Ok(out)
}

/// Whether `order` lists each axis of `0..n` exactly once.
pub fn check_axis_order(order: &Vec<usize>, n: usize) -> (r: bool)
    ensures
        r == is_axis_order(order@, n as nat),
{
    if order.len() != n {
        return false;
    }
    let mut seen: Vec<bool> = Vec::new();
    let mut k: usize = 0;
    while k < n
        invariant
            k <= n,
            seen.len() == k,
            forall|a: int| 0 <= a < k ==> !(#[trigger] seen@[a]),
        decreases n - k,
    {
        seen.push(false);
        k = k + 1;
    }
    let mut i: usize = 0;
    while i < n
        invariant
            order.len() == n,
            seen.len() == n,
            i <= n,
            forall|a: int| 0 <= a < i ==> (#[trigger] order@[a]) < n,
            forall|a: int, b: int| 0 <= a < b < i ==> order@[a] != order@[b],
            forall|x: int|
                0 <= x < n ==> (#[trigger] seen@[x] <==> exists|a: int|
                    0 <= a < i && order@[a] == x),
        decreases n - i,
    {
        let x = order[i];
        if x >= n || seen[x] {
            return false;
        }
        seen.set(x, true);
        proof {
            assert forall|y: int| 0 <= y < n implies (#[trigger] seen@[y] <==> exists|a: int|
                0 <= a < i + 1 && order@[a] == y) by {
                if y == x {
                    assert(order@[i as int] == y);
                }
            }
        }
        i = i + 1;
    }
    let mut x: usize = 0;
    while x < n
        invariant
            order.len() == n,
            seen.len() == n,
            x <= n,
            forall|y: int| 0 <= y < n ==> (#[trigger] seen@[y] <==> axis_listed(order@, n as nat, y)),
            forall|y: int| 0 <= y < x ==> #[trigger] axis_listed(order@, n as nat, y),
        decreases n - x,
    {
        if !seen[x] {
            return false;
        }
        x = x + 1;
    }
    true
}

/// The order that undoes an axis order.
pub fn invert_axis_order(order: &Vec<usize>) -> (r: Vec<usize>)
    requires
        is_axis_order(order@, order.len() as nat),
    ensures
        is_inverse_order(r@, order@),
        is_axis_order(r@, order.len() as nat),
{
    let n = order.len();
    let mut inv: Vec<usize> = Vec::new();
    let mut k: usize = 0;
    while k < n
        invariant
            k <= n,
            inv.len() == k,
        decreases n - k,
    {
        inv.push(0);
        k = k + 1;
    }
    let mut i: usize = 0;
    while i < n
        invariant
            n == order.len(),
            is_axis_order(order@, n as nat),
            inv.len() == n,
            i <= n,
            forall|a: int| 0 <= a < i ==> inv@[#[trigger] order@[a] as int] == a,
        decreases n - i,
    {
        inv.set(order[i], i);
        i = i + 1;
    }
    proof {
        lemma_inverse_is_order(inv@, order@);
    }
    inv
}

proof fn lemma_inverse_is_order(inv: Seq<usize>, order: Seq<usize>)
    requires
        is_axis_order(order, order.len()),
        is_inverse_order(inv, order),
    ensures
        is_axis_order(inv, order.len()),
        forall|x: int| 0 <= x < order.len() ==> order[#[trigger] inv[x] as int] == x,
{
    let n = order.len();
    assert forall|x: int| 0 <= x < n implies (#[trigger] inv[x]) < n && order[inv[x] as int]
        == x by {
        assert(axis_listed(order, n, x));
        let a = choose|a: int| 0 <= a < n && order[a] == x;
        assert(inv[order[a] as int] == a);
    }
    assert forall|a: int| 0 <= a < n implies #[trigger] axis_listed(inv, n, a) by {
        assert(inv[order[a] as int] == a);
    }
    assert forall|x: int, y: int| 0 <= x < y < n implies inv[x] != inv[y] by {
        assert(order[inv[x] as int] == x);
        assert(order[inv[y] as int] == y);
    }
}

/// Reordering the axes and then applying the inverse order gives back the
/// extents it started from.
pub proof fn lemma_permute_round_trip(dims: Seq<u64>, order: Seq<usize>, inv: Seq<usize>)
    requires
        is_axis_order(order, dims.len()),
        is_inverse_order(inv, order),
    ensures
        permuted(permuted(dims, order), inv) == dims,
{
    lemma_inverse_is_order(inv, order);
    assert(permuted(permuted(dims, order), inv) =~= dims);
}

/// The row-major offset of `(i0, i1, i2)` in an array of extents `(d0, d1, d2)`.
pub open spec fn offset3(d1: int, d2: int, i0: int, i1: int, i2: int) -> int {
    (i0 * d1 + i1) * d2 + i2
}

/// Rewrites an array stored as `[lat, lon, time]` as `[time, lat, lon]`,
/// one full `lat × lon` frame per chunk, by reading one time step at a time.
pub struct TranscodePlan {
    pub source_dimensions: Vec<u64>,
    pub target_dimensions: Vec<u64>,
    pub target_chunks: Vec<u64>,
}

/// The axis order that moves the last of three axes to the front.
pub open spec fn time_first() -> Seq<usize> {
    seq![2usize, 0usize, 1usize]
}

impl TranscodePlan {
    pub open spec fn wf(&self) -> bool {
        &&& self.source_dimensions.len() == 3
        &&& self.target_dimensions@ == permuted(self.source_dimensions@, time_first())
        &&& self.target_chunks@ == seq![
            1u64,
            self.source_dimensions@[0],
            self.source_dimensions@[1],
        ]
        &&& chunk_shape_fits(self.target_dimensions@, self.target_chunks@)
    }

    pub open spec fn steps(&self) -> u64 {
        self.source_dimensions@[2]
    }

    /// The number of elements held in memory at once: one frame.
    pub open spec fn slice_elements(&self) -> int {
        self.source_dimensions@[0] * self.source_dimensions@[1]
    }

    /// Plans the rewrite of an array with extents `[lat, lon, time]`. It needs
    /// exactly three axes, and every extent positive so that a frame is a
    /// valid chunk of the output.
    pub fn new(source_dimensions: &Vec<u64>) -> (r: Result<TranscodePlan, OmError>)
        ensures
            r is Ok <==> source_dimensions.len() == 3 && source_dimensions@[0] > 0
                && source_dimensions@[1] > 0 && source_dimensions@[2] > 0,
            r is Err ==> r->Err_0 == OmError::ShapeMismatch,
            r is Ok ==> r->Ok_0.wf() && r->Ok_0.source_dimensions@ == source_dimensions@,
    {
        if source_dimensions.len() != 3 {
            return Err(OmError::ShapeMismatch);
        }
        let lat = source_dimensions[0];
        let lon = source_dimensions[1];
        let time = source_dimensions[2];
        if lat == 0 || lon == 0 || time == 0 {
            return Err(OmError::ShapeMismatch);
        }
        let order: Vec<usize> = vec![2, 0, 1];
        assert(order@ =~= time_first());
        assert(axis_listed(order@, 3, 0) && axis_listed(order@, 3, 1) && axis_listed(order@, 3, 2)) by {
            assert(order@[1] == 0 && order@[2] == 1 && order@[0] == 2);
        }
        let target = match permute_axes(source_dimensions, &order) {
            Ok(d) => d,
            Err(e) => {
                return Err(e);
            },
        };
        let chunks: Vec<u64> = vec![1, lat, lon];
        let plan = TranscodePlan {
            source_dimensions: source_dimensions.clone(),
            target_dimensions: target,
            target_chunks: chunks,
        };
        assert(plan.source_dimensions@ =~= source_dimensions@);
        assert(plan.target_chunks@ =~= seq![1u64, lat, lon]);
        Ok(plan)
    }

    /// The ranges of source step `t`: every latitude and longitude, and the
    /// single time `t`.
    pub fn slice_ranges(&self, t: u64) -> (r: Vec<AxisRange>)
        requires
            self.wf(),
            t < self.steps(),
        ensures
            r@ == seq![
                AxisRange { start: 0, end: self.source_dimensions@[0] },
                AxisRange { start: 0, end: self.source_dimensions@[1] },
                AxisRange { start: t, end: (t + 1) as u64 },
            ],
            selected_elements(r@) == self.slice_elements(),
    {
        let r = vec![
            AxisRange { start: 0, end: self.source_dimensions[0] },
            AxisRange { start: 0, end: self.source_dimensions[1] },
            AxisRange { start: t, end: t + 1 },
        ];
        assert(r@ =~= seq![
            AxisRange { start: 0, end: self.source_dimensions@[0] },
            AxisRange { start: 0, end: self.source_dimensions@[1] },
            AxisRange { start: t, end: (t + 1) as u64 },
        ]);
        proof {
            lemma_selected_elements3(r@[0], r@[1], r@[2]);
            let x = self.source_dimensions@[0] as int;
            let y = self.source_dimensions@[1] as int;
            assert((x - 0) * (y - 0) * ((t + 1) - t) == x * y) by (nonlinear_arith);
        }
        r
    }
}

/// Where a rewrite stands. Data comes first, then the metadata record, then
/// the trailer; only a finalized output is valid.
#[derive(Clone, Copy, Debug, PartialEq, Eq, Structural)]
pub enum WritePhase {
    Appending,
    MetadataWritten,
    Finalized,
    Failed,
}

/// What the driver of a rewrite does next.
#[derive(Clone, Copy, Debug, PartialEq, Eq, Structural)]
pub enum WriteAction {
    /// Read source step `t` and append it as the next chunk.
    AppendSlice(u64),
    WriteMetadata,
    WriteTrailer,
    Done,
    /// A step failed: the output is invalid and must be discarded.
    Abort,
}

/// The decisions of a streaming rewrite of `slices` steps.
#[derive(Clone, Copy, Debug, PartialEq, Eq, Structural)]
pub struct WriteSession {
    pub slices: u64,
    pub appended: u64,
    pub phase: WritePhase,
}

pub open spec fn action_of(s: WriteSession) -> WriteAction {
    match s.phase {
        WritePhase::Appending => if s.appended < s.slices {
            WriteAction::AppendSlice(s.appended)
        } else {
            WriteAction::WriteMetadata
        },
        WritePhase::MetadataWritten => WriteAction::WriteTrailer,
        WritePhase::Finalized => WriteAction::Done,
        WritePhase::Failed => WriteAction::Abort,
    }
}

pub open spec fn after_success(s: WriteSession) -> WriteSession {
    match s.phase {
        WritePhase::Appending => if s.appended < s.slices {
            WriteSession { appended: (s.appended + 1) as u64, ..s }
        } else {
            WriteSession { phase: WritePhase::MetadataWritten, ..s }
        },
        WritePhase::MetadataWritten => WriteSession { phase: WritePhase::Finalized, ..s },
        _ => s,
    }
}

pub open spec fn after_failure(s: WriteSession) -> WriteSession {
    match s.phase {
        WritePhase::Finalized => s,
        _ => WriteSession { phase: WritePhase::Failed, ..s },
    }
}

/// The session after `k` steps in a row have succeeded.
pub open spec fn run(slices: u64, k: nat) -> WriteSession
    decreases k,
{
    if k == 0 {
        WriteSession { slices, appended: 0, phase: WritePhase::Appending }
    } else {
        after_success(run(slices, (k - 1) as nat))
    }
}

impl WriteSession {
    pub open spec fn wf(&self) -> bool {
        &&& self.appended <= self.slices
        &&& (self.phase == WritePhase::MetadataWritten || self.phase == WritePhase::Finalized)
            ==> self.appended == self.slices
    }

    pub fn new(slices: u64) -> (r: WriteSession)
        ensures
            r == run(slices, 0),
            r.wf(),
    {
        WriteSession { slices, appended: 0, phase: WritePhase::Appending }
    }

    pub fn next_action(&self) -> (r: WriteAction)
        ensures
            r == action_of(*self),
    {
        match self.phase {
            WritePhase::Appending => if self.appended < self.slices {
                WriteAction::AppendSlice(self.appended)
            } else {
                WriteAction::WriteMetadata
            },
            WritePhase::MetadataWritten => WriteAction::WriteTrailer,
            WritePhase::Finalized => WriteAction::Done,
            WritePhase::Failed => WriteAction::Abort,
        }
    }

    /// The action handed out last has completed.
    pub fn succeeded(&mut self)
        requires
            old(self).wf(),
        ensures
            *final(self) == after_success(*old(self)),
            final(self).wf(),
    {
        match self.phase {
            WritePhase::Appending => if self.appended < self.slices {
                self.appended = self.appended + 1;
            } else {
                self.phase = WritePhase::MetadataWritten;
            },
            WritePhase::MetadataWritten => {
                self.phase = WritePhase::Finalized;
            },
            _ => {},
        }
    }

    /// The action handed out last has failed.
    pub fn failed(&mut self)
        requires
            old(self).wf(),
        ensures
            *final(self) == after_failure(*old(self)),
            final(self).wf(),
    {
        match self.phase {
            WritePhase::Finalized => {},
            _ => {
                self.phase = WritePhase::Failed;
            },
        }
    }

    /// Whether the output may be read.
    pub fn is_finalized(&self) -> (r: bool)
        ensures
            r == (self.phase == WritePhase::Finalized),
    {
        match self.phase {
            WritePhase::Finalized => true,
            _ => false,
        }
    }
}

/// A session that keeps succeeding appends the steps in increasing order,
/// each exactly once, then writes the metadata record, then the trailer,
/// and is finalized after that and not before.
pub proof fn lemma_steps_in_order(slices: u64, k: nat)
    ensures
        k < slices ==> action_of(run(slices, k)) == WriteAction::AppendSlice(k as u64),
        k == slices ==> action_of(run(slices, k)) == WriteAction::WriteMetadata,
        k == slices + 1 ==> action_of(run(slices, k)) == WriteAction::WriteTrailer,
        k >= slices + 2 ==> run(slices, k).phase == WritePhase::Finalized,
        k < slices + 2 ==> run(slices, k).phase != WritePhase::Finalized,
        k <= slices ==> run(slices, k).phase == WritePhase::Appending && run(slices, k).appended == k,
        run(slices, k).slices == slices,
    decreases k,
{
    if k > 0 {
        lemma_steps_in_order(slices, (k - 1) as nat);
    }
}

/// A failure before finalization leaves the session failed, and no later
/// step, successful or not, moves it out of that phase; a session becomes
/// finalized only once every step has been appended.
pub proof fn lemma_failure_is_final(s: WriteSession)
    requires
        s.wf(),
        s.phase != WritePhase::Finalized,
    ensures
        after_failure(s).phase == WritePhase::Failed,
        forall|f: WriteSession|
            f.phase == WritePhase::Failed ==> #[trigger] after_success(f) == f && after_failure(f)
                == f,
        after_success(s).phase == WritePhase::Finalized ==> s.appended == s.slices,
{
}

/// Memory does not grow with the number of steps: two plans that differ
/// only in their time extent hold frames of the same size.
pub proof fn lemma_frame_independent_of_steps(a: TranscodePlan, b: TranscodePlan)
    requires
        a.wf(),
        b.wf(),
        a.source_dimensions@[0] == b.source_dimensions@[0],
        a.source_dimensions@[1] == b.source_dimensions@[1],
    ensures
        a.slice_elements() == b.slice_elements(),
{
}

/// The element at `(x, y)` of the frame read for step `t` is the source
/// element `(x, y, t)`; appended as chunk `t` of the output, it lands at the
/// output coordinate `(t, x, y)`. Read back with the inverse order, every
/// value is where it started.
pub proof fn lemma_frame_lands_at_permuted_coordinate(
    lat: int,
    lon: int,
    time: int,
    x: int,
    y: int,
    t: int,
)
    requires
        0 <= x < lat,
        0 <= y < lon,
        0 <= t < time,
    ensures
        t * (lat * lon) + offset3(lon, 1, x, y, 0) == offset3(lat, lon, t, x, y),
        0 <= offset3(lon, 1, x, y, 0) < lat * lon,
{
    assert(t * (lat * lon) + (x * lon + y) == (t * lat + x) * lon + y) by (nonlinear_arith);
    assert(x * lon + y < lat * lon) by (nonlinear_arith)
        requires
            0 <= x < lat,
            0 <= y < lon,
    ;
    assert(0 <= x * lon) by (nonlinear_arith)
        requires
            0 <= x,
            0 <= lon,
    ;
}

} // verus!
