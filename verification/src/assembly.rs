//! A byte-level model of the shared destination file.
//!
//! Workers write at disjoint offsets of one pre-sized destination, so no
//! two writes ever touch the same byte. This module carries that argument:
//! the positional write, one worker's fetch-and-write loop over the chunks
//! the transport served, and the law that disjoint per-range writes
//! reassemble the source exactly.

use vstd::prelude::*;
use crate::bucket::Bucket;
use crate::planner::{covers, ByteRange};

verus! {

/// The bytes of the chunks, concatenated in arrival order.
pub open spec fn concat_bytes(chunks: Seq<Vec<u8>>) -> Seq<u8> {
    chunks.map_values(|c: Vec<u8>| c@).flatten()
}

/// One positional write: place `chunk` at byte offset `offset` of the
/// destination, leaving every other byte alone.
pub fn write_at(dest: &mut Vec<u8>, offset: usize, chunk: &Vec<u8>)
    requires
        offset + chunk@.len() <= old(dest)@.len(),
    ensures
        final(dest)@.len() == old(dest)@.len(),
        forall|i: int|
            offset <= i < offset + chunk@.len() ==> final(dest)@[i] == chunk@[i - offset],
        forall|i: int|
            (0 <= i < offset || offset + chunk@.len() <= i < old(dest)@.len()) ==> final(dest)@[i] == old(dest)@[i],
{
    let n = chunk.len();
    let dlen = dest.len();
    let mut i: usize = 0;
    while i < n
        invariant
            i <= n,
            n == chunk@.len(),
            offset + n <= dlen,
            dlen == dest@.len(),
            dest@.len() == old(dest)@.len(),
            forall|j: int| offset <= j < offset + i ==> dest@[j] == chunk@[j - offset],
            forall|j: int|
                (0 <= j < offset || offset + i <= j < old(dest)@.len()) ==> dest@[j] == old(dest)@[j],
        decreases n - i,
    {
        dest.set(offset + i, chunk[i]);
        i = i + 1;
    }
}

/// One iteration of a bucket worker's fetch loop: poll the stop flag
/// first; if not stopped, write the received chunk at the bucket's current
/// offset within its range and grow the counter by the chunk's length.
pub fn worker_step(dest: &mut Vec<u8>, bucket: &mut Bucket, start: usize, chunk: &Vec<u8>) -> (written: bool)
    requires
        old(bucket).bytes_downloaded + chunk@.len() <= old(bucket).size,
        start + old(bucket).size <= old(dest)@.len(),
    ensures
        written == !old(bucket).cancelled,
        !written ==> final(dest)@ == old(dest)@ && *final(bucket) == *old(bucket),
        written ==> {
            let offset = start + old(bucket).bytes_downloaded;
            &&& *final(bucket) == (Bucket {
                bytes_downloaded: (old(bucket).bytes_downloaded + chunk@.len()) as u64,
                ..*old(bucket)
            })
            &&& final(dest)@.len() == old(dest)@.len()
            &&& (forall|i: int|
                offset <= i < offset + chunk@.len() ==> final(dest)@[i] == chunk@[i - offset])
            &&& (forall|i: int|
                (0 <= i < offset || offset + chunk@.len() <= i < old(dest)@.len()) ==> final(dest)@[i] == old(dest)@[i])
        },
{
    if bucket.cancelled {
        return false;
    }
    let dlen = dest.len();
    let bd = bucket.bytes_downloaded;
    proof {
        assert(bd <= old(bucket).size);
        assert(start + bd <= dlen);
    }
    let offset = start + (bd as usize);
    write_at(dest, offset, chunk);
    bucket.record_chunk(chunk.len() as u64);
    true
}

/// One bucket worker's whole fetch-and-write loop, over the chunks the
/// transport served for the bucket's range. A worker stopped before its
/// first chunk writes nothing; otherwise it writes every chunk in arrival
/// order at consecutive offsets from `start` and finishes its bucket, and
/// its range of the destination then holds exactly the chunks' bytes.
pub fn worker_run(dest: &mut Vec<u8>, bucket: &mut Bucket, start: usize, chunks: &Vec<
    Vec<u8>,
>) -> (completed: bool)
    requires
        old(bucket).bytes_downloaded == 0,
        old(bucket).size == concat_bytes(chunks@).len(),
        start + old(bucket).size <= old(dest)@.len(),
    ensures
        completed == !old(bucket).cancelled,
        !completed ==> final(dest)@ == old(dest)@ && *final(bucket) == *old(bucket),
        completed ==> {
            &&& *final(bucket) == (Bucket { bytes_downloaded: old(bucket).size, ..*old(bucket) })
            &&& final(dest)@.len() == old(dest)@.len()
            &&& final(dest)@.subrange(start as int, start + old(bucket).size) == concat_bytes(
                chunks@,
            )
            &&& (forall|i: int|
                (0 <= i < start || start + old(bucket).size <= i < old(dest)@.len()) ==> final(dest)@[i] == old(dest)@[i])
        },
{
    let ghost mcs = chunks@.map_values(|c: Vec<u8>| c@);
    let ghost total = mcs.flatten();
    let n = chunks.len();
    let mut k: usize = 0;
    proof {
        assert(mcs.take(0) =~= Seq::<Seq<u8>>::empty());
        assert(mcs.skip(0) =~= mcs);
    }
    while k < n
        invariant
            k <= n,
            n == chunks@.len(),
            mcs == chunks@.map_values(|c: Vec<u8>| c@),
            total == mcs.flatten(),
            bucket.id == old(bucket).id,
            bucket.size == old(bucket).size,
            bucket.cancelled == old(bucket).cancelled,
            old(bucket).bytes_downloaded == 0,
            old(bucket).size == total.len(),
            start + old(bucket).size <= old(dest)@.len(),
            dest@.len() == old(dest)@.len(),
            mcs.take(k as int).flatten() + mcs.skip(k as int).flatten() == total,
            old(bucket).cancelled ==> dest@ == old(dest)@ && *bucket == *old(bucket),
            !old(bucket).cancelled ==> {
                &&& bucket.bytes_downloaded == mcs.take(k as int).flatten().len()
                &&& (forall|i: int|
                    start <= i < start + bucket.bytes_downloaded ==> dest@[i] == mcs.take(
                        k as int,
                    ).flatten()[i - start])
                &&& (forall|i: int|
                    (0 <= i < start || start + bucket.bytes_downloaded <= i < old(dest)@.len())
                        ==> dest@[i] == old(dest)@[i])
            },
        decreases n - k,
    {
        proof {
            assert(mcs.skip(k as int).len() > 0);
            assert(mcs.skip(k as int)[0] == mcs[k as int]);
            assert(mcs.skip(k as int).drop_first() =~= mcs.skip(k as int + 1));
            assert(mcs.skip(k as int).flatten() == mcs[k as int] + mcs.skip(
                k as int + 1,
            ).flatten());
            mcs.lemma_take_succ_push(k as int);
            mcs.take(k as int).lemma_flatten_push(mcs[k as int]);
            assert(mcs.take(k as int + 1).flatten() == mcs.take(k as int).flatten()
                + mcs[k as int]);
            assert(mcs.take(k as int).flatten() + (mcs[k as int] + mcs.skip(
                k as int + 1,
            ).flatten()) =~= (mcs.take(k as int).flatten() + mcs[k as int]) + mcs.skip(
                k as int + 1,
            ).flatten());
            assert(mcs[k as int] == chunks@[k as int]@);
            assert(total.len() == mcs.take(k as int).flatten().len() + mcs.skip(
                k as int,
            ).flatten().len());
            assert(mcs.skip(k as int).flatten().len() == mcs[k as int].len() + mcs.skip(
                k as int + 1,
            ).flatten().len());
            assert(bucket.bytes_downloaded + chunks@[k as int]@.len() <= bucket.size);
        }
        let c = &chunks[k];
        worker_step(dest, bucket, start, c);
        k = k + 1;
    }
    proof {
        assert(mcs.take(n as int) =~= mcs);
        assert(mcs.skip(n as int) =~= Seq::<Seq<u8>>::empty());
    }
    if bucket.cancelled {
        false
    } else {
        proof {
            assert(dest@.subrange(start as int, start + old(bucket).size) =~= total);
        }
        true
    }
}

/// If, range by range of a plan that tiles the whole resource, the
/// destination holds the source's bytes, then the destination reproduces
/// the source exactly, byte for byte: concatenating the ranges' contents in
/// byte-offset order is the source.
pub proof fn lemma_regions_reassemble(rs: Seq<ByteRange>, dest: Seq<u8>, source: Seq<u8>)
    requires
        covers(rs, 0, source.len() as int),
        dest.len() == source.len(),
        forall|i: int|
            0 <= i < rs.len() ==> #[trigger] dest.subrange(
                rs[i].start as int,
                rs[i].end_inclusive + 1,
            ) == source.subrange(rs[i].start as int, rs[i].end_inclusive + 1),
    ensures
        dest == source,
{
    lemma_regions_pointwise(rs, dest, source, 0, source.len() as int);
    assert(dest =~= source);
}

/// Every byte position inside `[lo, hi)` is inside some range of `rs`, and
/// there the two sequences agree.
proof fn lemma_regions_pointwise(rs: Seq<ByteRange>, dest: Seq<u8>, source: Seq<u8>, lo: int, hi: int)
    requires
        covers(rs, lo, hi),
        0 <= lo,
        hi <= source.len(),
        dest.len() == source.len(),
        forall|i: int|
            0 <= i < rs.len() ==> #[trigger] dest.subrange(
                rs[i].start as int,
                rs[i].end_inclusive + 1,
            ) == source.subrange(rs[i].start as int, rs[i].end_inclusive + 1),
    ensures
        forall|j: int| lo <= j < hi ==> dest[j] == source[j],
    decreases rs.len(),
{
    if rs.len() > 0 {
        let a = rs[0].start as int;
        let b = rs[0].end_inclusive + 1;
        assert(dest.subrange(a, b) == source.subrange(a, b));
        assert forall|j: int| a <= j < b implies dest[j] == source[j] by {
            assert(dest.subrange(a, b)[j - a] == dest[j]);
            assert(source.subrange(a, b)[j - a] == source[j]);
        }
        let rest = rs.drop_first();
        assert(forall|i: int| 0 <= i < rest.len() ==> rest[i] == rs[i + 1]);
        lemma_regions_pointwise(rest, dest, source, b, hi);
    }
}

} // verus!
