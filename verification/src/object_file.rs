//! A handle presenting one object of the store as a seekable byte source
//! backed by a range cache.

use vstd::prelude::*;

use crate::models::SizedFile;
use crate::range_cache::{RangeCache, ReadOutcome};

verus! {

/// One object plus its range cache and a read cursor. Every window lies
/// within the object: `offset + length <= len()`.
pub struct ObjectFile {
    pub file: SizedFile,
    pub cache: RangeCache,
    pub cursor: u64,
}

impl ObjectFile {
    /// The handle's invariant: a well-formed cache and a cursor inside the
    /// object.
    pub open spec fn wf(self) -> bool {
        &&& self.cache.wf()
        &&& self.cursor <= self.file.length
    }

    /// A fresh handle over `file`, with an empty cache and the cursor at the
    /// start.
    pub fn new(file: SizedFile) -> (r: ObjectFile)
        ensures
            r.wf(),
            r.file == file,
            r.cursor == 0,
            r.cache.hinted@.len() == 0,
            r.cache.issued@.len() == 0,
            r.cache.stats.download_count == 0,
            r.cache.stats.downloaded_bytes == 0,
            r.cache.stats.processed_bytes == 0,
    {
        ObjectFile { file, cache: RangeCache::new(), cursor: 0 }
    }

    /// The object's byte length.
    pub fn len(&self) -> (r: u64)
        ensures
            r == self.file.length,
    {
        self.file.length
    }

    /// Moves the read cursor.
    pub fn seek(&mut self, pos: u64)
        requires
            old(self).wf(),
            pos <= old(self).file.length,
        ensures
            final(self).wf(),
            final(self).cursor == pos,
            final(self).file == old(self).file,
            final(self).cache == old(self).cache,
    {
        self.cursor = pos;
    }

    /// Hints that `[offset, offset + length)` will be read.
    pub fn prefetch(&mut self, offset: u64, length: u64)
        requires
            old(self).wf(),
            offset + length <= old(self).file.length,
        ensures
            final(self).wf(),
            final(self).file == old(self).file,
            final(self).cursor == old(self).cursor,
            final(self).cache.issued == old(self).cache.issued,
            final(self).cache.stats == old(self).cache.stats,
            length == 0 ==> final(self).cache.hinted == old(self).cache.hinted,
            length >= 1 ==> final(self).cache.hinted@ == old(self).cache.hinted@.push(
                (offset, length),
            ),
    {
        self.cache.prefetch(offset, length);
    }

    /// Reads `[offset, offset + length)` through the cache; the cursor does
    /// not move. The outcome and the cache's evolution are exactly those of
    /// `RangeCache::read`: hints touching the window are absorbed, one
    /// download is issued per still-uncovered run, the bytes come back once
    /// every covering download is delivered, and a failed download poisons
    /// the window.
    pub fn read_at(&mut self, offset: u64, length: u64) -> (r: ReadOutcome)
        requires
            old(self).wf(),
            length >= 1,
            offset + length <= old(self).file.length,
        ensures
            final(self).wf(),
            final(self).file == old(self).file,
            final(self).cursor == old(self).cursor,
            final(self).cache.hinted@ == crate::range_cache::kept_hints(
                old(self).cache.hinted@,
                offset as int,
                offset + length,
            ),
            final(self).cache.stats.download_count >= old(self).cache.stats.download_count,
            final(self).cache.stats.downloaded_bytes == old(self).cache.stats.downloaded_bytes,
            final(self).cache.stats.processed_bytes >= old(self).cache.stats.processed_bytes,
            final(self).cache.stats.waiting_download_ms == old(
                self,
            ).cache.stats.waiting_download_ms,
            forall|p: int|
                #[trigger] crate::range_cache::state_at(final(self).cache.issued@, p)
                    == crate::range_cache::state_at(old(self).cache.issued@, p) || (
                crate::range_cache::state_at(old(self).cache.issued@, p)
                    == crate::range_cache::PointState::Uncovered && crate::range_cache::state_at(
                    final(self).cache.issued@,
                    p,
                ) == crate::range_cache::PointState::Pending),
            forall|p: int|
                offset <= p < offset + length ==> crate::range_cache::state_at(
                    final(self).cache.issued@,
                    p,
                ) != crate::range_cache::PointState::Uncovered,
            (r matches ReadOutcome::Bytes(b) ==> b@.len() == length && forall|t: int|
                0 <= t < length ==> crate::range_cache::state_at(
                    final(self).cache.issued@,
                    offset + t,
                ) == crate::range_cache::PointState::Ready(b@[t])),
            (r matches ReadOutcome::Bytes(_) <==> forall|t: int|
                0 <= t < length ==> #[trigger] crate::range_cache::state_at(
                    final(self).cache.issued@,
                    offset + t,
                ) matches crate::range_cache::PointState::Ready(_)),
            (r matches ReadOutcome::Failed <==> exists|p: int|
                offset <= p < offset + length && crate::range_cache::state_at(
                    final(self).cache.issued@,
                    p,
                ) == crate::range_cache::PointState::Failed),
            (r matches ReadOutcome::Waiting(reqs) ==> forall|p: int|
                #[trigger] crate::range_cache::covers_reqs(reqs@, p) <==> (
                crate::range_cache::state_at(old(self).cache.issued@, p)
                    == crate::range_cache::PointState::Uncovered && crate::range_cache::state_at(
                    final(self).cache.issued@,
                    p,
                ) == crate::range_cache::PointState::Pending)),
            (r matches ReadOutcome::Waiting(reqs) ==> (forall|i: int|
                0 <= i < reqs@.len() ==> (#[trigger] reqs@[i]).length >= 1) && (forall|
                i: int,
                j: int,
            |
                0 <= i < j < reqs@.len() ==> (#[trigger] reqs@[i]).start + reqs@[i].length < (
                #[trigger] reqs@[j]).start) && final(self).cache.stats.download_count as int
                == old(self).cache.stats.download_count + reqs@.len()),
    {
        self.cache.read(offset, length)
    }
}

} // verus!
