//! How a polar sweep is shared out among workers and put back together.
//!
//! A sweep visits its angles in increasing order. The parallel form cuts the
//! list of angles into contiguous chunks, hands each chunk to one worker and
//! joins the workers' rows in chunk order. Nothing here runs a worker: this
//! module decides how many there are, which positions each one takes, and
//! proves that the joined rows are the rows of the sequential sweep.

use vstd::prelude::*;
use crate::single::Single;

verus! {

/// First angle of the sweep made without saying which: -10 degrees.
pub const DEFAULT_ALPHA_MIN_BITS: u32 = 0xc120_0000;

/// Last angle of that sweep: 15 degrees.
pub const DEFAULT_ALPHA_MAX_BITS: u32 = 0x4170_0000;

/// Step of that sweep: half a degree.
pub const DEFAULT_ALPHA_STEP_BITS: u32 = 0x3f00_0000;

/// The smallest step of a sweep: 1e-3 degrees.
pub const MIN_ALPHA_STEP_BITS: u32 = 0x3a83_126f;

/// Where a forced transition is put in a sweep: 0.05 of the chord.
pub const DEFAULT_FORCED_TRIP_BITS: u32 = 0x3d4c_cccd;

/// The positions `start..end` of a sweep, handed to one worker.
#[derive(Clone, Copy, Debug, PartialEq, Eq, Structural)]
pub struct ChunkRange {
    pub start: usize,
    pub end: usize,
}

/// The number of workers a sweep of `len` angles uses: the number asked for
/// (or, with none asked for, what the machine offers), at least one, no more
/// than the machine offers, and never more than there are angles. A machine
/// that reports no parallelism counts as offering one worker.
pub open spec fn worker_count_spec(requested: Option<usize>, available: usize, len: usize) -> int {
    let offered: int = if available < 1 { 1 } else { available as int };
    let wanted: int = match requested {
        Some(n) => n as int,
        None => offered,
    };
    let at_least_one: int = if wanted < 1 { 1 } else { wanted };
    let bounded: int = if at_least_one > offered { offered } else { at_least_one };
    if bounded > len { len as int } else { bounded }
}

/// The chunk length for `len` positions and `workers` workers: `len / workers`,
/// rounded up. A worker count of zero stands for one.
pub open spec fn chunk_len_spec(len: int, workers: int) -> int {
    let w: int = if workers < 1 { 1 } else { workers };
    if len % w == 0 { len / w } else { len / w + 1 }
}

/// Whether `plan` cuts the positions `0..len` into non-empty chunks that
/// follow one another without gap or overlap.
pub open spec fn is_partition(plan: Seq<ChunkRange>, len: int) -> bool {
    &&& (plan.len() == 0 <==> len == 0)
    &&& plan.len() > 0 ==> plan[0].start == 0 && plan[plan.len() - 1].end == len
    &&& forall|i: int| 0 <= i < plan.len() ==> (#[trigger] plan[i]).start < plan[i].end
    &&& forall|i: int| 0 <= i < plan.len() - 1 ==> (#[trigger] plan[i]).end == plan[i + 1].start
}

/// The slices of `rows` that `plan` names, in plan order.
pub open spec fn split_by<T>(rows: Seq<T>, plan: Seq<ChunkRange>) -> Seq<Seq<T>> {
    Seq::new(plan.len(), |i: int| rows.subrange(plan[i].start as int, plan[i].end as int))
}

/// The contents of each chunk, in order.
pub open spec fn chunk_views<T>(chunks: Seq<Vec<T>>) -> Seq<Seq<T>> {
    Seq::new(chunks.len(), |i: int| chunks[i]@)
}

/// First angle, last angle and step of the default sweep, in degrees.
pub fn default_polar_sweep() -> (r: (Single, Single, Single))
    ensures
        r == (
            Single { bits: DEFAULT_ALPHA_MIN_BITS },
            Single { bits: DEFAULT_ALPHA_MAX_BITS },
            Single { bits: DEFAULT_ALPHA_STEP_BITS },
        ),
{
    (
        Single { bits: DEFAULT_ALPHA_MIN_BITS },
        Single { bits: DEFAULT_ALPHA_MAX_BITS },
        Single { bits: DEFAULT_ALPHA_STEP_BITS },
    )
}

/// The bounds of a sweep in order: as given where the first is not above
/// the second, swapped where it is not so.
pub fn normalize_bounds(alpha_min: Single, alpha_max: Single) -> (r: (Single, Single))
    ensures
        r == if alpha_min.less_eq(alpha_max) {
            (alpha_min, alpha_max)
        } else {
            (alpha_max, alpha_min)
        },
        !alpha_min.is_nan() && !alpha_max.is_nan() ==> r.0.less_eq(r.1),
{
    if alpha_min.le(alpha_max) {
        (alpha_min, alpha_max)
    } else {
        (alpha_max, alpha_min)
    }
}

/// The step of a sweep: the magnitude of the step asked for, and 1e-3 where
/// that is smaller or not a number.
pub fn floor_step(alpha_step: Single) -> (r: Single)
    ensures
        r == alpha_step.abs_spec().at_least_spec(Single { bits: MIN_ALPHA_STEP_BITS }),
        (Single { bits: MIN_ALPHA_STEP_BITS }).less_eq(r),
{
    alpha_step.abs().at_least(Single { bits: MIN_ALPHA_STEP_BITS })
}

/// The number of leading `candidates` that are not above `limit`.
pub open spec fn grid_len_spec(candidates: Seq<Single>, limit: Single) -> int
    decreases candidates.len(),
{
    if candidates.len() == 0 || limit.less(candidates[0]) {
        0
    } else {
        1 + grid_len_spec(candidates.drop_first(), limit)
    }
}

/// How many angles a sweep has: the candidate angles `a0 + i * step` are
/// taken in order up to, and without, the first that lies above `limit`,
/// which is the last angle of the sweep and a tolerance of 1e-6.
pub fn grid_len(candidates: &Vec<Single>, limit: Single) -> (n: usize)
    ensures
        n == grid_len_spec(candidates@, limit),
        n <= candidates.len(),
        forall|i: int| 0 <= i < n ==> !limit.less(#[trigger] candidates[i]),
        n < candidates.len() ==> limit.less(candidates[n as int]),
{
    let mut n: usize = 0;
    while n < candidates.len() && !limit.lt(candidates[n])
        invariant
            n <= candidates.len(),
            forall|i: int| 0 <= i < n ==> !limit.less(#[trigger] candidates[i]),
        decreases candidates.len() - n,
    {
        n = n + 1;
    }
    proof {
        lemma_grid_len(candidates@, limit, n as int);
    }
    n
}

proof fn lemma_grid_len(candidates: Seq<Single>, limit: Single, n: int)
    requires
        0 <= n <= candidates.len(),
        forall|i: int| 0 <= i < n ==> !limit.less(#[trigger] candidates[i]),
        n < candidates.len() ==> limit.less(candidates[n]),
    ensures
        grid_len_spec(candidates, limit) == n,
    decreases n,
{
    if n > 0 {
        let rest = candidates.drop_first();
        assert forall|i: int| 0 <= i < n - 1 implies !limit.less(#[trigger] rest[i]) by {
            assert(rest[i] == candidates[i + 1]);
        }
        if n - 1 < rest.len() {
            assert(rest[n - 1] == candidates[n]);
        }
        lemma_grid_len(rest, limit, n - 1);
    }
}

/// The number of workers for a sweep of `len` angles, given the number asked
/// for and the number the machine offers.
pub fn worker_count(requested: Option<usize>, available: usize, len: usize) -> (workers: usize)
    ensures
        workers == worker_count_spec(requested, available, len),
        workers <= len,
        len > 0 ==> workers >= 1,
        workers <= available || workers <= 1,
{
    let offered: usize = if available < 1 { 1 } else { available };
    let wanted: usize = match requested {
        Some(n) => n,
        None => offered,
    };
    let at_least_one: usize = if wanted < 1 { 1 } else { wanted };
    let bounded: usize = if at_least_one > offered { offered } else { at_least_one };
    if bounded > len { len } else { bounded }
}

/// The length of the chunks that `len` positions are cut into for `workers`
/// workers.
pub fn chunk_len(len: usize, workers: usize) -> (size: usize)
    ensures
        size == chunk_len_spec(len as int, workers as int),
        len > 0 ==> size >= 1,
        size <= len,
{
    let w: usize = if workers < 1 { 1 } else { workers };
    let whole: usize = len / w;
    proof {
        lemma_div_bounds(len as int, w as int);
    }
    if len % w == 0 {
        whole
    } else {
        whole + 1
    }
}

proof fn lemma_div_bounds(len: int, w: int)
    requires
        len >= 0,
        w >= 1,
    ensures
        0 <= len / w <= len,
        len % w != 0 ==> len / w < len,
        len == w * (len / w) + len % w,
        0 <= len % w < w,
        (len > 0 && len % w == 0) ==> len / w >= 1,
{
    vstd::arithmetic::div_mod::lemma_fundamental_div_mod(len, w);
    vstd::arithmetic::div_mod::lemma_div_pos_is_pos(len, w);
    vstd::arithmetic::div_mod::lemma_mod_bound(len, w);
    let q = len / w;
    assert(q <= len) by (nonlinear_arith)
        requires
            len == w * q + len % w,
            0 <= len % w,
            w >= 1,
            q >= 0,
    ;
    if len % w != 0 {
        assert(q < len) by (nonlinear_arith)
            requires
                len == w * q + len % w,
                0 < len % w,
                w >= 1,
                q >= 0,
        ;
    }
    if len > 0 && len % w == 0 {
        assert(q >= 1) by (nonlinear_arith)
            requires
                len == w * q,
                len > 0,
                w >= 1,
                q >= 0,
        ;
    }
}

/// Cuts the positions `0..len` into chunks of `chunk_len(len, workers)`
/// positions each, the last one possibly shorter.
pub fn plan_chunks(len: usize, workers: usize) -> (plan: Vec<ChunkRange>)
    ensures
        is_partition(plan@, len as int),
        forall|i: int|
            0 <= i < plan.len() ==> {
                let size = chunk_len_spec(len as int, workers as int);
                &&& (#[trigger] plan[i]).start == i * size
                &&& plan[i].end == if (i + 1) * size < len { (i + 1) * size } else { len as int }
            },
        plan.len() <= workers || plan.len() <= 1,
{
    let size: usize = chunk_len(len, workers);
    let mut plan: Vec<ChunkRange> = Vec::new();
    let mut start: usize = 0;
    while start < len
        invariant
            size == chunk_len_spec(len as int, workers as int),
            len > 0 ==> size >= 1,
            start <= len,
            start == plan.len() * size || (start == len && plan.len() > 0),
            plan.len() == 0 <==> start == 0,
            plan.len() > 0 ==> plan[0].start == 0 && plan[plan.len() - 1].end == start,
            forall|i: int| 0 <= i < plan.len() ==> (#[trigger] plan[i]).start < plan[i].end,
            forall|i: int| 0 <= i < plan.len() - 1 ==> (#[trigger] plan[i]).end == plan[i + 1].start,
            forall|i: int|
                0 <= i < plan.len() ==> {
                    &&& (#[trigger] plan[i]).start == i * size
                    &&& plan[i].end == if (i + 1) * size < len { (i + 1) * size } else { len as int }
                },
            (plan.len() as int - 1) * size < len || plan.len() == 0,
        decreases len - start,
    {
        let ghost k = plan.len() as int;
        let end: usize = if len - start <= size { len } else { start + size };
        proof {
            assert(start == k * size);
            assert((k + 1) * size == k * size + size) by (nonlinear_arith);
        }
        plan.push(ChunkRange { start, end });
        start = end;
    }
    proof {
        lemma_chunk_count(len as int, workers as int, plan.len() as int);
    }
    plan
}

/// With chunks of `chunk_len_spec(len, workers)` positions, a chunk that
/// starts below `len` has an index below the worker count.
proof fn lemma_chunk_count(len: int, workers: int, count: int)
    requires
        len >= 0,
        workers >= 0,
        count >= 0,
        count == 0 || (count - 1) * chunk_len_spec(len, workers) < len,
    ensures
        count <= workers || count <= 1,
{
    let w: int = if workers < 1 { 1 } else { workers };
    let size = chunk_len_spec(len, workers);
    lemma_div_bounds(len, w);
    if count > 1 {
        // w * size >= len, so an index of w or more starts at or past len.
        assert(w * size >= len) by (nonlinear_arith)
            requires
                len == w * (len / w) + len % w,
                0 <= len % w < w,
                size == if len % w == 0 { len / w } else { len / w + 1 },
                w >= 1,
        ;
        if count - 1 >= w {
            assert((count - 1) * size >= w * size) by (nonlinear_arith)
                requires
                    count - 1 >= w,
                    size >= 0,
            ;
        }
    }
}

/// Joins the workers' results in chunk order.
pub fn concat_chunks<T>(chunks: Vec<Vec<T>>) -> (rows: Vec<T>)
    ensures
        rows@ == chunk_views(chunks@).flatten(),
{
    let mut chunks = chunks;
    let ghost all = chunk_views(chunks@);
    let mut rows: Vec<T> = Vec::new();
    let mut i: usize = 0;
    let n: usize = chunks.len();
    while i < n
        invariant
            n == chunks.len(),
            n == all.len(),
            i <= n,
            forall|j: int| i <= j < n ==> (#[trigger] chunks[j])@ == all[j],
            rows@ == all.take(i as int).flatten(),
        decreases n - i,
    {
        let mut taken: Vec<T> = Vec::new();
        std::mem::swap(&mut taken, &mut chunks[i]);
        proof {
            assert(taken@ == all[i as int]);
            assert(all.take(i as int + 1) =~= all.take(i as int).push(all[i as int]));
            all.take(i as int).lemma_flatten_push(all[i as int]);
        }
        rows.append(&mut taken);
        i = i + 1;
    }
    proof {
        assert(all.take(n as int) =~= all);
    }
    rows
}

/// Joining the slices that a partition names gives back the whole sequence,
/// whatever the number of chunks.
pub proof fn lemma_split_then_join<T>(rows: Seq<T>, plan: Seq<ChunkRange>)
    requires
        is_partition(plan, rows.len() as int),
    ensures
        split_by(rows, plan).flatten() == rows,
{
    lemma_join_prefix(rows, plan, plan.len() as int);
    assert(split_by(rows, plan).take(plan.len() as int) =~= split_by(rows, plan));
    if plan.len() == 0 {
        assert(rows =~= Seq::<T>::empty());
    } else {
        assert(rows.subrange(0, rows.len() as int) =~= rows);
    }
}

proof fn lemma_join_prefix<T>(rows: Seq<T>, plan: Seq<ChunkRange>, k: int)
    requires
        is_partition(plan, rows.len() as int),
        0 <= k <= plan.len(),
    ensures
        split_by(rows, plan).take(k).flatten() == rows.subrange(
            0,
            if k == 0 { 0 } else { plan[k - 1].end as int },
        ),
        k > 0 ==> plan[k - 1].end <= rows.len(),
    decreases k,
{
    let parts = split_by(rows, plan);
    if k == 0 {
        assert(parts.take(0) =~= Seq::<Seq<T>>::empty());
        assert(rows.subrange(0, 0) =~= Seq::<T>::empty());
    } else {
        lemma_join_prefix(rows, plan, k - 1);
        lemma_ends_bounded(plan, rows.len() as int, k - 1);
        let before: int = if k == 1 { 0 } else { plan[k - 2].end as int };
        assert(plan[k - 1].start == before);
        assert(parts.take(k) =~= parts.take(k - 1).push(parts[k - 1]));
        parts.take(k - 1).lemma_flatten_push(parts[k - 1]);
        assert(rows.subrange(0, before) + rows.subrange(before, plan[k - 1].end as int)
            =~= rows.subrange(0, plan[k - 1].end as int));
    }
}

proof fn lemma_ends_bounded(plan: Seq<ChunkRange>, len: int, i: int)
    requires
        is_partition(plan, len),
        0 <= i < plan.len(),
    ensures
        plan[i].end <= len,
    decreases plan.len() - i,
{
    if i < plan.len() - 1 {
        lemma_ends_bounded(plan, len, i + 1);
        assert(plan[i].end == plan[i + 1].start);
        assert(plan[i + 1].start < plan[i + 1].end);
    }
}

/// A sweep shared out among any number of workers yields the rows of the
/// sequential sweep, in the same order: if every worker returns, for the
/// positions of its chunk, what the sequential sweep computes there, the
/// joined chunks are the sequential rows.
pub proof fn lemma_parallel_equals_sequential<A, R>(
    alphas: Seq<A>,
    row_of: spec_fn(A) -> R,
    plan: Seq<ChunkRange>,
    chunks: Seq<Seq<R>>,
)
    requires
        is_partition(plan, alphas.len() as int),
        chunks.len() == plan.len(),
        forall|i: int|
            0 <= i < plan.len() ==> #[trigger] chunks[i] == alphas.subrange(
                plan[i].start as int,
                plan[i].end as int,
            ).map_values(row_of),
    ensures
        chunks.flatten() == alphas.map_values(row_of),
{
    let rows = alphas.map_values(row_of);
    assert forall|i: int| 0 <= i < plan.len() implies #[trigger] chunks[i] == split_by(rows, plan)[i] by {
        lemma_ends_bounded(plan, alphas.len() as int, i);
        assert(alphas.subrange(plan[i].start as int, plan[i].end as int).map_values(row_of)
            =~= rows.subrange(plan[i].start as int, plan[i].end as int));
    }
    assert(chunks =~= split_by(rows, plan));
    lemma_split_then_join(rows, plan);
}

} // verus!
