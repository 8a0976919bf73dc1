//! Range planning: split a resource of known length into contiguous byte
//! ranges ("buckets"), one per concurrent worker.

use vstd::prelude::*;
use crate::models::DownloadError;

verus! {

/// The fixed fan-out: a range-capable download is split into (at most) this
/// many buckets.
pub const BUCKET_FAN_OUT: u64 = 6;

/// One contiguous, non-empty byte range `[start, end_inclusive]` of the
/// resource.
#[derive(Clone, Copy, Debug, PartialEq, Eq, Structural)]
pub struct ByteRange {
    pub start: u64,
    pub end_inclusive: u64,
}

/// Number of bytes in a range (meaningful when `start <= end_inclusive`).
pub open spec fn range_len(r: ByteRange) -> int {
    r.end_inclusive - r.start + 1
}

/// The ranges `rs` tile `[lo, hi)` exactly: the first starts at `lo`, each
/// is non-empty, each starts right after the one before it, and the last
/// ends at `hi - 1`. This is the "no gaps, no overlaps" shape of a plan.
pub open spec fn covers(rs: Seq<ByteRange>, lo: int, hi: int) -> bool
    decreases rs.len(),
{
    if rs.len() == 0 {
        lo == hi
    } else {
        &&& rs[0].start == lo
        &&& lo <= rs[0].end_inclusive
        &&& rs[0].end_inclusive + 1 <= hi
        &&& covers(rs.drop_first(), rs[0].end_inclusive + 1, hi)
    }
}

/// Total number of bytes assigned by the ranges.
pub open spec fn sum_sizes(rs: Seq<ByteRange>) -> int
    decreases rs.len(),
{
    if rs.len() == 0 {
        0
    } else {
        range_len(rs[0]) + sum_sizes(rs.drop_first())
    }
}

/// The standard bucket size: the whole resource when the server does not
/// accept range requests, otherwise `ceil(content_length / 6)`.
pub open spec fn spec_bucket_size(content_length: u64, accepts_ranges: bool) -> u64 {
    if !accepts_ranges {
        content_length
    } else if content_length % 6 == 0 {
        (content_length / 6) as u64
    } else {
        (content_length / 6 + 1) as u64
    }
}

/// Size of every bucket but possibly the last, for a resource of
/// `content_length` bytes.
pub fn get_standard_bucket_size(content_length: u64, accepts_ranges: bool) -> (r: u64)
    ensures
        r == spec_bucket_size(content_length, accepts_ranges),
{
    if !accepts_ranges {
        return content_length;
    }
    let q = content_length / BUCKET_FAN_OUT;
    if content_length % BUCKET_FAN_OUT == 0 {
        q
    } else {
        q + 1
    }
}

/// Same computation as [`get_standard_bucket_size`].
pub fn get_bucket_size(content_length: u64, accepts_ranges: bool) -> (r: u64)
    ensures
        r == spec_bucket_size(content_length, accepts_ranges),
{
    get_standard_bucket_size(content_length, accepts_ranges)
}

/// The ranges that greedy chunking yields: starting at `lo`, each range
/// takes `chunk` bytes until fewer than `chunk` remain before `l`; the last
/// range takes the rest.
pub open spec fn planned_ranges(lo: u64, l: u64, chunk: u64) -> Seq<ByteRange>
    decreases l - lo,
{
    if lo >= l || chunk == 0 {
        Seq::empty()
    } else if lo + chunk < l {
        seq![ByteRange { start: lo, end_inclusive: (lo + chunk - 1) as u64 }]
            + planned_ranges((lo + chunk) as u64, l, chunk)
    } else {
        seq![ByteRange { start: lo, end_inclusive: (l - 1) as u64 }]
    }
}

/// The ranges a successful plan holds for a resource of `content_length`
/// bytes.
pub open spec fn spec_plan(content_length: u64, accepts_ranges: bool) -> Seq<ByteRange> {
    planned_ranges(0, content_length, spec_bucket_size(content_length, accepts_ranges))
}

/// Ordered bucket ranges covering `[0, content_length)` with no gaps and no
/// overlaps; bucket `i` downloads `ranges[i]`.
#[derive(Clone, Debug)]
pub struct DownloadPlan {
    pub ranges: Vec<ByteRange>,
}

/// Splits a resource into download ranges.
///
/// Succeeds if and only if the content length is known and non-zero: an
/// unknown or zero length leaves nothing to pre-size the file with, so
/// planning fails rather than fetch unboundedly. Without range support the
/// plan is a single range over the whole resource; with it, greedy chunks
/// of the standard bucket size.
pub fn plan(content_length: Option<u64>, accepts_ranges: bool) -> (r: Result<
    DownloadPlan,
    DownloadError,
>)
    ensures
        match (content_length, r) {
            (Some(l), Ok(p)) => l > 0 && p.ranges@ == spec_plan(l, accepts_ranges),
            (Some(l), Err(e)) => l == 0 && e == DownloadError::PlanningError,
            (None, Err(e)) => e == DownloadError::PlanningError,
            (None, Ok(_)) => false,
        },
{
    let l = match content_length {
        None => {
            return Err(DownloadError::PlanningError);
        },
        Some(l) => l,
    };
    if l == 0 {
        return Err(DownloadError::PlanningError);
    }
    let chunk = get_standard_bucket_size(l, accepts_ranges);
    let ghost total = planned_ranges(0, l, chunk);
    let mut ranges: Vec<ByteRange> = Vec::new();
    let mut lo: u64 = 0;
    while lo < l
        invariant
            lo <= l,
            l > 0,
            chunk == spec_bucket_size(l, accepts_ranges),
            chunk >= 1,
            ranges@ + planned_ranges(lo, l, chunk) == total,
        decreases l - lo,
    {
        proof {
            assert(planned_ranges(lo, l, chunk).len() > 0);
        }
        if l - lo > chunk {
            ranges.push(ByteRange { start: lo, end_inclusive: lo + chunk - 1 });
            proof {
                assert(ranges@ + planned_ranges((lo + chunk) as u64, l, chunk) =~= total);
            }
            lo = lo + chunk;
        } else {
            ranges.push(ByteRange { start: lo, end_inclusive: l - 1 });
            proof {
                assert(ranges@ + planned_ranges(l, l, chunk) =~= total);
            }
            lo = l;
        }
    }
    proof {
        assert(ranges@ =~= total);
    }
    Ok(DownloadPlan { ranges })
}

/// Greedy chunking tiles `[lo, l)` exactly.
pub proof fn lemma_planned_covers(lo: u64, l: u64, chunk: u64)
    requires
        lo <= l,
        chunk >= 1,
    ensures
        covers(planned_ranges(lo, l, chunk), lo as int, l as int),
    decreases l - lo,
{
    let rs = planned_ranges(lo, l, chunk);
    if lo >= l {
        assert(rs =~= Seq::<ByteRange>::empty());
    } else if lo + chunk < l {
        let first = ByteRange { start: lo, end_inclusive: (lo + chunk - 1) as u64 };
        let rest = planned_ranges((lo + chunk) as u64, l, chunk);
        lemma_planned_covers((lo + chunk) as u64, l, chunk);
        assert(rs == seq![first] + rest);
        assert(rs[0] == first);
        assert(rs.len() == 1 + rest.len());
        assert(rs.drop_first() =~= rest);
        assert(covers(rs.drop_first(), rs[0].end_inclusive + 1, l as int));
        assert(covers(rs, lo as int, l as int));
    } else {
        let first = ByteRange { start: lo, end_inclusive: (l - 1) as u64 };
        assert(rs == seq![first]);
        assert(rs[0] == first);
        assert(rs.drop_first() =~= Seq::<ByteRange>::empty());
        assert(covers(rs.drop_first(), rs[0].end_inclusive + 1, l as int));
        assert(covers(rs, lo as int, l as int));
    }
}

/// Ranges tiling `[lo, hi)` assign exactly `hi - lo` bytes in total.
pub proof fn lemma_covers_sum(rs: Seq<ByteRange>, lo: int, hi: int)
    requires
        covers(rs, lo, hi),
    ensures
        sum_sizes(rs) == hi - lo,
    decreases rs.len(),
{
    if rs.len() > 0 {
        lemma_covers_sum(rs.drop_first(), rs[0].end_inclusive + 1, hi);
    }
}

/// The pointwise reading of `covers`: every range is non-empty and lies
/// inside `[lo, hi)`, the first starts at `lo`, the last ends at `hi - 1`,
/// and each further range starts right after the one before it — no gaps
/// and no overlaps.
pub proof fn lemma_covers_shape(rs: Seq<ByteRange>, lo: int, hi: int)
    requires
        covers(rs, lo, hi),
    ensures
        forall|i: int|
            0 <= i < rs.len() ==> lo <= #[trigger] rs[i].start <= rs[i].end_inclusive < hi,
        forall|i: int| 1 <= i < rs.len() ==> #[trigger] rs[i].start == rs[i - 1].end_inclusive + 1,
        rs.len() > 0 ==> rs[0].start == lo && rs[rs.len() - 1].end_inclusive == hi - 1,
    decreases rs.len(),
{
    if rs.len() > 0 {
        let rest = rs.drop_first();
        lemma_covers_shape(rest, rs[0].end_inclusive + 1, hi);
        assert(forall|i: int| 0 <= i < rest.len() ==> rest[i] == rs[i + 1]);
        assert forall|i: int|
            0 <= i < rs.len() implies lo <= #[trigger] rs[i].start <= rs[i].end_inclusive
            < hi by {
            if i > 0 {
                assert(rs[i] == rest[i - 1]);
            }
        }
        assert forall|i: int|
            1 <= i < rs.len() implies #[trigger] rs[i].start == rs[i - 1].end_inclusive + 1 by {
            assert(rs[i] == rest[i - 1]);
            if i > 1 {
                assert(rs[i - 1] == rest[i - 2]);
            }
        }
        if rs.len() > 1 {
            assert(rs[rs.len() - 1] == rest[rest.len() - 1]);
        } else {
            assert(rest.len() == 0);
            assert(covers(rest, rs[0].end_inclusive + 1, hi));
            assert(rs[0].end_inclusive + 1 == hi);
        }
    }
}

/// At most `k` ranges come out when `k` chunks reach from `lo` to `l`.
pub proof fn lemma_planned_len_bound(lo: u64, l: u64, chunk: u64, k: nat)
    requires
        chunk >= 1,
        l - lo <= k * chunk,
    ensures
        planned_ranges(lo, l, chunk).len() <= k,
    decreases k,
{
    if lo < l {
        assert(k >= 1) by (nonlinear_arith)
            requires
                k >= 0,
                k * chunk >= l - lo,
                l - lo >= 1,
        ;
        if lo + chunk < l {
            assert((k - 1) * chunk == k * chunk - chunk) by (nonlinear_arith);
            lemma_planned_len_bound((lo + chunk) as u64, l, chunk, (k - 1) as nat);
        }
    }
}

/// Exactly `k` ranges come out when `k` chunks, and no fewer, reach from
/// `lo` to `l`.
pub proof fn lemma_planned_len_exact(lo: u64, l: u64, chunk: u64, k: nat)
    requires
        chunk >= 1,
        l - lo <= k * chunk,
        l - lo > (k - 1) * chunk,
    ensures
        planned_ranges(lo, l, chunk).len() == k,
    decreases k,
{
    if lo >= l {
        assert(k == 0) by (nonlinear_arith)
            requires
                k >= 0,
                chunk >= 1,
                (k - 1) * chunk < l - lo,
                l - lo <= 0,
        ;
    } else if lo + chunk < l {
        assert(k >= 2) by (nonlinear_arith)
            requires
                k >= 0,
                chunk >= 1,
                k * chunk >= l - lo,
                l - lo > chunk,
        ;
        assert((k - 1) * chunk == k * chunk - chunk) by (nonlinear_arith);
        assert((k - 2) * chunk == (k - 1) * chunk - chunk) by (nonlinear_arith);
        lemma_planned_len_exact((lo + chunk) as u64, l, chunk, (k - 1) as nat);
    } else {
        assert(k == 1) by (nonlinear_arith)
            requires
                k >= 0,
                chunk >= 1,
                l - lo >= 1,
                l - lo <= chunk,
                l - lo <= k * chunk,
                l - lo > (k - 1) * chunk,
        ;
    }
}

/// For a positive content length on a range-capable server, the plan tiles
/// `[0, l)` exactly — sizes sum to `l`, no gaps, no overlaps — with at most
/// six buckets. There are six buckets exactly when five standard chunks do
/// not already reach the end; any length of at least 26 satisfies that. A
/// length under six yields one single-byte bucket per byte.
pub proof fn lemma_plan_range_capable(l: u64)
    requires
        l > 0,
    ensures
        covers(spec_plan(l, true), 0, l as int),
        sum_sizes(spec_plan(l, true)) == l,
        spec_plan(l, true).len() <= 6,
        spec_plan(l, true).len() == 6 <==> l > 5 * spec_bucket_size(l, true),
        l >= 26 ==> spec_plan(l, true).len() == 6,
        l < 6 ==> spec_plan(l, true).len() == l,
{
    let chunk = spec_bucket_size(l, true);
    let q = l as int / 6;
    let r = l as int % 6;
    vstd::arithmetic::div_mod::lemma_fundamental_div_mod(l as int, 6);
    vstd::arithmetic::div_mod::lemma_mod_bound(l as int, 6);
    assert(l == 6 * q + r && 0 <= r < 6);
    assert(chunk >= 1);
    assert(l <= 6 * chunk);
    lemma_planned_covers(0, l, chunk);
    lemma_covers_sum(spec_plan(l, true), 0, l as int);
    lemma_planned_len_bound(0, l, chunk, 6);
    if l > 5 * chunk {
        lemma_planned_len_exact(0, l, chunk, 6);
    } else {
        lemma_planned_len_bound(0, l, chunk, 5);
    }
    if l >= 26 {
        assert(l > 5 * chunk);
    }
    if l < 6 {
        assert(chunk == 1);
        assert(l - 0 <= l * 1 && l - 0 > (l - 1) * 1) by (nonlinear_arith);
        lemma_planned_len_exact(0, l, chunk, l as nat);
    }
}

/// Without range support the plan is one bucket holding the whole resource.
pub proof fn lemma_plan_single_bucket(l: u64)
    requires
        l > 0,
    ensures
        spec_plan(l, false) =~= seq![ByteRange { start: 0, end_inclusive: (l - 1) as u64 }],
        sum_sizes(spec_plan(l, false)) == l,
        covers(spec_plan(l, false), 0, l as int),
{
    lemma_planned_covers(0, l, l);
    lemma_covers_sum(spec_plan(l, false), 0, l as int);
    assert(spec_plan(l, false) =~= seq![ByteRange { start: 0, end_inclusive: (l - 1) as u64 }]);
}

} // verus!
