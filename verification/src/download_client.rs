//! The download client state machine: planning, bucket bookkeeping, status
//! recomputation, cancellation, and cleanup accounting.
//!
//! The client never touches the network or the filesystem itself. The
//! caller performs those effects and feeds what it observed back in as
//! plain values: the response headers of the initial request go into
//! [`DownloadClient::begin_download`], each received chunk's length into
//! [`DownloadClient::record_chunk`], any failure into
//! [`DownloadClient::record_failure`], and the caller deletes the
//! destination file whenever [`DownloadClient::take_cleanup`] hands it that
//! obligation.

use vstd::prelude::*;
use vstd::string::StringExecFns;
use crate::bucket::{all_finished, is_finished, spec_progress, Bucket, BucketProgress,
    BucketProgressStream};
use crate::models::{DownloadError, DownloadStatus};
use crate::planner::{plan, range_len, spec_plan, DownloadPlan};

verus! {

/// Failure reason recorded when planning finds no usable content length.
pub open spec fn planning_failure_msg() -> Seq<char> {
    "content length missing or zero"@
}

/// Owns the buckets and the overall status of one download.
pub struct DownloadClient {
    /// One bucket per planned range; `None` until a download begins.
    pub buckets: Option<Vec<Bucket>>,
    pub url: String,
    pub file_path: String,
    /// First failure observed, if any; terminal once set.
    pub error_msg: Option<String>,
    /// Whether the download was cancelled; terminal once set.
    pub cancelled: bool,
    /// The caller owes the destination file a deletion.
    pub cleanup_pending: bool,
    /// Cleanup was already requested once; it is never requested twice.
    pub cleanup_done: bool,
}

/// The status, recomputed from the client state on every call: a recorded
/// failure wins, then cancellation, then the bucket scan.
pub open spec fn spec_status(c: DownloadClient) -> DownloadStatus {
    match c.error_msg {
        Some(msg) => DownloadStatus::Failed(msg),
        None => {
            if c.cancelled {
                DownloadStatus::Cancelled
            } else {
                match c.buckets {
                    None => DownloadStatus::NotStarted,
                    Some(bs) => if all_finished(bs@) {
                        DownloadStatus::Finished
                    } else {
                        DownloadStatus::InProgress
                    },
                }
            }
        },
    }
}

/// What the stop signal does to one bucket: an already-finished bucket
/// ignores it, any other bucket is told to stop.
pub open spec fn cancelled_bucket(b: Bucket) -> Bucket {
    if is_finished(b) {
        b
    } else {
        Bucket { cancelled: true, ..b }
    }
}

/// How cancellation transforms the client: a second cancel is a no-op;
/// a first cancel signals every unfinished bucket, requests the one
/// destination-file deletion if buckets exist and none was requested yet,
/// and leaves everything else alone.
pub open spec fn cancel_rel(pre: DownloadClient, post: DownloadClient) -> bool {
    if pre.cancelled {
        post == pre
    } else {
        &&& post.url == pre.url
        &&& post.file_path == pre.file_path
        &&& post.error_msg == pre.error_msg
        &&& post.cancelled
        &&& match (pre.buckets, post.buckets) {
            (None, None) => {
                &&& post.cleanup_pending == pre.cleanup_pending
                &&& post.cleanup_done == pre.cleanup_done
            },
            (Some(pb), Some(qb)) => {
                &&& qb@.len() == pb@.len()
                &&& (forall|i: int|
                    0 <= i < pb@.len() ==> #[trigger] qb@[i] == cancelled_bucket(pb@[i]))
                &&& post.cleanup_pending == (pre.cleanup_pending || !pre.cleanup_done)
                &&& post.cleanup_done
            },
            _ => false,
        }
    }
}

impl DownloadClient {
    /// A fresh client for one resource and one destination path.
    pub fn init(url: &String, file_path: &String) -> (c: DownloadClient)
        ensures
            c.buckets is None,
            c.url == *url,
            c.file_path == *file_path,
            c.error_msg is None,
            !c.cancelled,
            !c.cleanup_pending,
            !c.cleanup_done,
    {
        DownloadClient {
            buckets: None,
            url: url.clone(),
            file_path: file_path.clone(),
            error_msg: None,
            cancelled: false,
            cleanup_pending: false,
            cleanup_done: false,
        }
    }

    /// An error was observed — a failed request, an unwritable destination,
    /// a failed write. Records it as the terminal failure reason unless the
    /// download already failed or was cancelled.
    pub fn record_failure(&mut self, msg: String)
        ensures
            (old(self).error_msg is Some || old(self).cancelled) ==> *final(self) == *old(self),
            (old(self).error_msg is None && !old(self).cancelled) ==> *final(self)
                == (DownloadClient { error_msg: Some(msg), ..*old(self) }),
    {
        if self.error_msg.is_none() && !self.cancelled {
            self.error_msg = Some(msg);
        }
    }

    /// Begins a download from what the initial headers said: the content
    /// length, if the server sent one, and whether it accepts range
    /// requests.
    ///
    /// On success the returned plan tells the caller which byte range each
    /// launched worker owns, and the client holds one fresh bucket per
    /// range, bucket `i` sized like range `i`. Fails if and only if the
    /// content length is missing or zero; that failure is recorded.
    pub fn begin_download(&mut self, content_length: Option<u64>, accepts_ranges: bool) -> (r:
        Result<DownloadPlan, DownloadError>)
        ensures
            r is Ok <==> (content_length matches Some(l) && l > 0),
            match r {
                Ok(p) => {
                    &&& content_length matches Some(l) && l > 0 && p.ranges@ == spec_plan(
                        l,
                        accepts_ranges,
                    )
                    &&& final(self).buckets matches Some(bs) && bs@.len() == p.ranges@.len()
                        && (forall|i: int|
                        0 <= i < p.ranges@.len() ==> #[trigger] bs@[i] == (Bucket {
                            id: i as u8,
                            size: range_len(p.ranges@[i]) as u64,
                            bytes_downloaded: 0,
                            cancelled: false,
                        }))
                    &&& *final(self) == (DownloadClient {
                        buckets: final(self).buckets,
                        ..*old(self)
                    })
                },
                Err(e) => {
                    &&& e == DownloadError::PlanningError
                    &&& (old(self).error_msg is Some || old(self).cancelled) ==> *final(self)
                        == *old(self)
                    &&& (old(self).error_msg is None && !old(self).cancelled) ==> {
                        &&& final(self).error_msg matches Some(m) && m@ == planning_failure_msg()
                        &&& *final(self) == (DownloadClient {
                            error_msg: final(self).error_msg,
                            ..*old(self)
                        })
                    }
                },
            },
    {
        let planned = plan(content_length, accepts_ranges);
        let p = match planned {
            Err(e) => {
                self.record_failure(String::from_str("content length missing or zero"));
                return Err(e);
            },
            Ok(p) => p,
        };
        let ghost l = content_length.unwrap();
        proof {
            crate::planner::lemma_planned_covers(
                0,
                l,
                crate::planner::spec_bucket_size(l, accepts_ranges),
            );
            crate::planner::lemma_covers_shape(p.ranges@, 0, l as int);
            if accepts_ranges {
                crate::planner::lemma_plan_range_capable(l);
            } else {
                crate::planner::lemma_plan_single_bucket(l);
            }
            assert(p.ranges@.len() <= 6);
        }
        let n = p.ranges.len();
        let mut bs: Vec<Bucket> = Vec::new();
        let mut i: usize = 0;
        while i < n
            invariant
                i <= n,
                n == p.ranges@.len(),
                n <= 6,
                bs@.len() == i,
                forall|j: int|
                    0 <= j < p.ranges@.len() ==> #[trigger] p.ranges@[j].start
                        <= p.ranges@[j].end_inclusive < l,
                forall|j: int|
                    0 <= j < i ==> #[trigger] bs@[j] == (Bucket {
                        id: j as u8,
                        size: range_len(p.ranges@[j]) as u64,
                        bytes_downloaded: 0,
                        cancelled: false,
                    }),
            decreases n - i,
        {
            let rg = p.ranges[i];
            let size = rg.end_inclusive - rg.start + 1;
            bs.push(Bucket::new(i as u8, size));
            i = i + 1;
        }
        self.buckets = Some(bs);
        Ok(p)
    }

    /// A worker received a chunk of `len` bytes for the bucket at
    /// `bucket_index`: grow that bucket's counter. Rejected — and the client
    /// untouched — when no download is under way, the index is out of
    /// range, or the chunk would push the counter past the bucket's size.
    pub fn record_chunk(&mut self, bucket_index: usize, len: u64) -> (accepted: bool)
        ensures
            accepted == (old(self).buckets matches Some(bs) && bucket_index < bs@.len()
                && bs@[bucket_index as int].bytes_downloaded + len
                <= bs@[bucket_index as int].size),
            !accepted ==> *final(self) == *old(self),
            accepted ==> {
                let bs = old(self).buckets.unwrap();
                let b = bs@[bucket_index as int];
                &&& final(self).buckets matches Some(nbs) && nbs@ == bs@.update(
                    bucket_index as int,
                    Bucket { bytes_downloaded: (b.bytes_downloaded + len) as u64, ..b },
                )
                &&& *final(self) == (DownloadClient {
                    buckets: final(self).buckets,
                    ..*old(self)
                })
            },
            accepted ==> final(self).buckets.unwrap()@[bucket_index as int].bytes_downloaded
                >= old(self).buckets.unwrap()@[bucket_index as int].bytes_downloaded,
    {
        match &mut self.buckets {
            None => false,
            Some(bs) => {
                if bucket_index >= bs.len() {
                    return false;
                }
                let b = bs[bucket_index];
                if b.bytes_downloaded <= b.size && len <= b.size - b.bytes_downloaded {
                    let mut nb = b;
                    nb.record_chunk(len);
                    bs.set(bucket_index, nb);
                    true
                } else {
                    false
                }
            },
        }
    }

    /// Sizes by bucket id. Valid only after a successful
    /// [`Self::begin_download`]: callers must check the status first.
    pub fn bucket_sizes(&mut self) -> (sizes: Vec<u64>)
        requires
            old(self).buckets is Some,
        ensures
            *final(self) == *old(self),
            sizes@.len() == old(self).buckets.unwrap()@.len(),
            forall|i: int|
                0 <= i < sizes@.len() ==> #[trigger] sizes@[i] == old(self).buckets.unwrap()@[i].size,
    {
        let mut sizes: Vec<u64> = Vec::new();
        match &self.buckets {
            None => {},
            Some(bs) => {
                let n = bs.len();
                let mut i: usize = 0;
                while i < n
                    invariant
                        i <= n,
                        n == bs@.len(),
                        sizes@.len() == i,
                        forall|j: int| 0 <= j < i ==> #[trigger] sizes@[j] == bs@[j].size,
                    decreases n - i,
                {
                    sizes.push(bs[i].size());
                    i = i + 1;
                }
            },
        }
        sizes
    }

    /// One snapshot per bucket, taken now, independent of timing; empty if
    /// the download has not started.
    pub fn current_progress(&self) -> (ps: Vec<BucketProgress>)
        ensures
            match self.buckets {
                None => ps@.len() == 0,
                Some(bs) => ps@.len() == bs@.len() && (forall|i: int|
                    0 <= i < bs@.len() ==> #[trigger] ps@[i] == spec_progress(bs@[i])),
            },
    {
        let mut ps: Vec<BucketProgress> = Vec::new();
        match &self.buckets {
            None => {},
            Some(bs) => {
                let n = bs.len();
                let mut i: usize = 0;
                while i < n
                    invariant
                        i <= n,
                        n == bs@.len(),
                        ps@.len() == i,
                        forall|j: int| 0 <= j < i ==> #[trigger] ps@[j] == spec_progress(bs@[j]),
                    decreases n - i,
                {
                    ps.push(bs[i].bucket_progress());
                    i = i + 1;
                }
            },
        }
        ps
    }

    /// A progress stream over this download; the empty stream if the
    /// download has not started.
    pub fn progress_stream(&self) -> (s: BucketProgressStream)
        ensures
            s.active == (self.buckets is Some),
            s.current_index == 0,
    {
        match &self.buckets {
            Some(_) => BucketProgressStream::new(),
            None => BucketProgressStream::empty(),
        }
    }

    /// Cancel the download: signal every unfinished bucket to stop and hand
    /// the caller the destination-file deletion, once. A second cancel is a
    /// no-op.
    pub fn cancel(&mut self)
        ensures
            cancel_rel(*old(self), *final(self)),
    {
        if self.cancelled {
            return;
        }
        match &mut self.buckets {
            None => {},
            Some(bs) => {
                let ghost bs0 = bs@;
                let n = bs.len();
                let mut i: usize = 0;
                while i < n
                    invariant
                        i <= n,
                        n == bs@.len(),
                        bs@.len() == bs0.len(),
                        forall|j: int| 0 <= j < i ==> #[trigger] bs@[j] == cancelled_bucket(bs0[j]),
                        forall|j: int| i <= j < n ==> #[trigger] bs@[j] == bs0[j],
                    decreases n - i,
                {
                    let b = bs[i];
                    if b.bytes_downloaded < b.size {
                        bs.set(i, Bucket { cancelled: true, ..b });
                    }
                    i = i + 1;
                }
            },
        }
        if self.buckets.is_some() {
            if !self.cleanup_done {
                self.cleanup_pending = true;
                self.cleanup_done = true;
            }
        }
        self.cancelled = true;
    }

    /// Returns — and consumes — the pending obligation to delete the
    /// destination file. Over a client's whole life this returns `true` at
    /// most once: cleanup is best-effort, exactly once.
    pub fn take_cleanup(&mut self) -> (r: bool)
        ensures
            r == old(self).cleanup_pending,
            *final(self) == (DownloadClient { cleanup_pending: false, ..*old(self) }),
    {
        let r = self.cleanup_pending;
        self.cleanup_pending = false;
        r
    }

    /// The authoritative status, recomputed from bucket state on every
    /// call. The first call that observes a recorded failure also cancels
    /// the download, which triggers the one cleanup; the returned status is
    /// unaffected, so repeated calls without new events agree.
    pub fn status(&mut self) -> (r: DownloadStatus)
        ensures
            r == spec_status(*old(self)),
            spec_status(*final(self)) == spec_status(*old(self)),
            (old(self).error_msg is None || old(self).cancelled) ==> *final(self) == *old(self),
            (old(self).error_msg is Some && !old(self).cancelled) ==> cancel_rel(
                *old(self),
                *final(self),
            ),
    {
        if self.error_msg.is_some() {
            if !self.cancelled {
                self.cancel();
            }
            let msg = self.error_msg.as_ref().unwrap().clone();
            return DownloadStatus::Failed(msg);
        }
        if self.cancelled {
            return DownloadStatus::Cancelled;
        }
        match &self.buckets {
            None => DownloadStatus::NotStarted,
            Some(bs) => {
                let n = bs.len();
                let mut k: usize = 0;
                let mut finished = true;
                while k < n
                    invariant
                        k <= n,
                        n == bs@.len(),
                        finished == (forall|i: int|
                            0 <= i < k ==> is_finished(#[trigger] bs@[i])),
                    decreases n - k,
                {
                    if !bs[k].finished() {
                        finished = false;
                        k = n;
                    } else {
                        k = k + 1;
                    }
                }
                if finished {
                    DownloadStatus::Finished
                } else {
                    DownloadStatus::InProgress
                }
            },
        }
    }
}

/// Total number of bytes assigned across the buckets.
pub open spec fn sum_bucket_sizes(bs: Seq<Bucket>) -> int
    decreases bs.len(),
{
    if bs.len() == 0 {
        0
    } else {
        bs[0].size + sum_bucket_sizes(bs.drop_first())
    }
}

/// Buckets sized like the ranges of a plan that tiles `[lo, hi)` are
/// assigned exactly `hi - lo` bytes in total: with the ranges of a
/// successful plan, the buckets of [`DownloadClient::begin_download`] cover
/// the whole resource, no byte twice.
pub proof fn lemma_bucket_sizes_sum(bs: Seq<Bucket>, rs: Seq<crate::planner::ByteRange>, lo: int, hi: int)
    requires
        bs.len() == rs.len(),
        forall|i: int| 0 <= i < bs.len() ==> (#[trigger] bs[i].size) == range_len(rs[i]),
        crate::planner::covers(rs, lo, hi),
    ensures
        sum_bucket_sizes(bs) == hi - lo,
    decreases bs.len(),
{
    if bs.len() == 0 {
    } else {
        let brest = bs.drop_first();
        let rrest = rs.drop_first();
        assert(forall|i: int| 0 <= i < brest.len() ==> brest[i] == bs[i + 1]);
        assert(forall|i: int| 0 <= i < rrest.len() ==> rrest[i] == rs[i + 1]);
        lemma_bucket_sizes_sum(brest, rrest, rs[0].end_inclusive + 1, hi);
    }
}

/// Polling the status is idempotent: two successive calls on one client,
/// with no events recorded in between, return the same value. This follows
/// from the contract of [`DownloadClient::status`]: each call returns the
/// status of the state it found and leaves that status unchanged.
pub proof fn lemma_status_idempotent(
    c0: DownloadClient,
    c1: DownloadClient,
    c2: DownloadClient,
    r1: DownloadStatus,
    r2: DownloadStatus,
)
    requires
        r1 == spec_status(c0),
        spec_status(c1) == spec_status(c0),
        r2 == spec_status(c1),
        spec_status(c2) == spec_status(c1),
    ensures
        r1 == r2,
{
}

} // verus!
