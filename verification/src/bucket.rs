//! Buckets: per-range download accounting, progress snapshots, and the
//! round-robin progress stream.

use vstd::prelude::*;

verus! {

/// A point-in-time snapshot of one bucket: its id, how many bytes it has
/// downloaded so far, and how many bytes it was assigned in total.
#[derive(Clone, Copy, Debug, PartialEq, Eq, Structural)]
pub struct BucketProgress {
    pub id: u8,
    pub byte_progress: u64,
    pub size: u64,
}

/// One bucket: a contiguous byte range of the resource, downloaded and
/// tracked independently. The byte counter only ever grows, never past the
/// assigned size; the cancel flag is set at most once and never cleared.
#[derive(Clone, Copy, Debug, PartialEq, Eq, Structural)]
pub struct Bucket {
    pub id: u8,
    /// Total amount of bytes assigned to this bucket, immutable once
    /// planned.
    pub size: u64,
    /// Current amount of bytes downloaded.
    pub bytes_downloaded: u64,
    /// Whether this bucket's worker was told to stop.
    pub cancelled: bool,
}

/// The bucket invariant: the counter never exceeds the assigned size.
pub open spec fn bucket_wf(b: Bucket) -> bool {
    b.bytes_downloaded <= b.size
}

/// A bucket is finished when it has downloaded every assigned byte.
pub open spec fn is_finished(b: Bucket) -> bool {
    b.bytes_downloaded >= b.size
}

/// The snapshot a bucket publishes.
pub open spec fn spec_progress(b: Bucket) -> BucketProgress {
    BucketProgress { id: b.id, byte_progress: b.bytes_downloaded, size: b.size }
}

impl Bucket {
    /// A fresh bucket: nothing downloaded, not cancelled.
    pub fn new(id: u8, size: u64) -> (b: Bucket)
        ensures
            b == (Bucket { id, size, bytes_downloaded: 0, cancelled: false }),
    {
        Bucket { id, size, bytes_downloaded: 0, cancelled: false }
    }

    /// Current value of the byte counter.
    pub fn bytes_downloaded(&self) -> (r: u64)
        ensures
            r == self.bytes_downloaded,
    {
        self.bytes_downloaded
    }

    /// The current snapshot.
    pub fn bucket_progress(&self) -> (p: BucketProgress)
        ensures
            p == spec_progress(*self),
    {
        BucketProgress { id: self.id, byte_progress: self.bytes_downloaded, size: self.size }
    }

    /// Whether every assigned byte has been downloaded.
    pub fn finished(&self) -> (r: bool)
        ensures
            r == is_finished(*self),
    {
        self.bytes_downloaded >= self.size
    }

    /// Total amount of bytes assigned to this bucket.
    pub fn size(&self) -> (r: u64)
        ensures
            r == self.size,
    {
        self.size
    }

    /// The worker downloaded `len` more bytes: grow the counter. The counter
    /// never decreases and never passes the assigned size.
    pub fn record_chunk(&mut self, len: u64)
        requires
            old(self).bytes_downloaded + len <= old(self).size,
        ensures
            *final(self) == (Bucket {
                bytes_downloaded: (old(self).bytes_downloaded + len) as u64,
                ..*old(self)
            }),
            final(self).bytes_downloaded >= old(self).bytes_downloaded,
            bucket_wf(*final(self)),
    {
        self.bytes_downloaded = self.bytes_downloaded + len;
    }

    /// Tell this bucket's worker to stop. Idempotent; touches nothing else.
    pub fn cancel(&mut self)
        ensures
            *final(self) == (Bucket { cancelled: true, ..*old(self) }),
    {
        self.cancelled = true;
    }
}

/// Every bucket has downloaded every byte assigned to it.
pub open spec fn all_finished(bs: Seq<Bucket>) -> bool {
    forall|i: int| 0 <= i < bs.len() ==> is_finished(#[trigger] bs[i])
}

/// A lazy, finite, forward-only source of progress snapshots.
///
/// Each step emits the snapshot of the bucket whose turn it is and moves to
/// the next bucket id, round-robin; the sequence ends once every bucket is
/// finished. A stream over a download that never began is empty.
#[derive(Clone, Copy, Debug, PartialEq, Eq, Structural)]
pub struct BucketProgressStream {
    /// False for the empty stream over a download that never began.
    pub active: bool,
    /// The bucket whose snapshot the next step emits.
    pub current_index: usize,
}

impl BucketProgressStream {
    /// A stream over a started download, beginning at the first bucket.
    pub fn new() -> (s: BucketProgressStream)
        ensures
            s == (BucketProgressStream { active: true, current_index: 0 }),
    {
        BucketProgressStream { active: true, current_index: 0 }
    }

    /// The empty stream: yields nothing and terminates immediately.
    pub fn empty() -> (s: BucketProgressStream)
        ensures
            s == (BucketProgressStream { active: false, current_index: 0 }),
    {
        BucketProgressStream { active: false, current_index: 0 }
    }

    /// One poll tick over the current bucket state.
    ///
    /// Returns `None` — the stream is over — when the stream is inactive or
    /// every bucket is finished; otherwise emits the snapshot of the bucket
    /// whose turn it is and advances round-robin. A consumer may see a
    /// snapshot of an already-finished bucket while others still run.
    pub fn poll_step(&mut self, buckets: &Vec<Bucket>) -> (r: Option<BucketProgress>)
        ensures
            (!old(self).active || all_finished(buckets@)) ==> r is None && *final(self) == *old(
                self,
            ),
            (old(self).active && !all_finished(buckets@)) ==> {
                let idx = if old(self).current_index < buckets@.len() {
                    old(self).current_index as int
                } else {
                    0
                };
                &&& r == Some(spec_progress(buckets@[idx]))
                &&& *final(self) == (BucketProgressStream {
                    active: true,
                    current_index: ((idx + 1) % buckets@.len() as int) as usize,
                })
            },
    {
        if !self.active {
            return None;
        }
        let n = buckets.len();
        let mut k: usize = 0;
        let mut finished = true;
        while k < n
            invariant
                k <= n,
                n == buckets@.len(),
                finished == (forall|i: int| 0 <= i < k ==> is_finished(#[trigger] buckets@[i])),
            decreases n - k,
        {
            if !buckets[k].finished() {
                finished = false;
                k = n;
            } else {
                k = k + 1;
            }
        }
        if finished {
            return None;
        }
        let idx = if self.current_index < n {
            self.current_index
        } else {
            0
        };
        let p = buckets[idx].bucket_progress();
        self.current_index = (idx + 1) % n;
        Some(p)
    }
}

} // verus!
