//! The scanner's asynchronous byte-range cache over one object of the
//! store.
//!
//! `prefetch` records a non-blocking hint. A `read` forces the downloads
//! that cover its range: overlapping and touching hints coalesce with the
//! requested range into the minimal covering set before anything is
//! downloaded, and one download is issued per remaining gap. The host
//! performs the downloads and hands the bytes back through `complete` (or
//! reports `fail`); a read over a range whose downloads are not all done
//! reports the outstanding requests instead of blocking, and the host
//! retries once downloads land. A failed download poisons every later read
//! that overlaps it. Counters are monotone.

use vstd::prelude::*;

verus! {

/// The lifecycle of one issued download.
pub enum RangeState {
    /// Issued, bytes not yet delivered.
    Pending,
    /// Bytes delivered; `processed` records whether a read has consumed the
    /// range.
    Ready { bytes: Vec<u8>, processed: bool },
    /// The download failed; the range poisons overlapping reads.
    Failed,
}

/// One issued download: a half-open byte range `[start, start + length)`.
pub struct CachedRange {
    pub start: u64,
    pub length: u64,
    pub state: RangeState,
}

/// Best-effort monotone counters of one cache.
#[derive(Clone, Copy, PartialEq, Eq, Structural, Debug)]
pub struct CacheStats {
    pub download_count: u64,
    pub downloaded_bytes: u64,
    pub processed_bytes: u64,
    pub waiting_download_ms: u64,
}

/// One download the host must perform: fetch `[start, start + length)` of
/// the object and hand the bytes to `complete`.
#[derive(Clone, Copy, PartialEq, Eq, Structural, Debug)]
pub struct DownloadReq {
    pub start: u64,
    pub length: u64,
}

/// What a read yields.
pub enum ReadOutcome {
    /// The range was fully downloaded: its bytes, in offset order.
    Bytes(Vec<u8>),
    /// A download overlapping the range failed; the range is poisoned.
    Failed,
    /// Some covering downloads are still outstanding; the listed requests
    /// were just issued. The host downloads, completes, and retries.
    Waiting(Vec<DownloadReq>),
}

impl ReadOutcome {
    /// Surfaces a read's outcome the way the scanner's reader sees it: the
    /// bytes, nothing yet, or the store's failure as an I/O error.
    pub fn into_io_result(self) -> (r: Result<Option<Vec<u8>>, crate::error::BuzzError>)
        ensures
            match self {
                ReadOutcome::Bytes(b) => r matches Ok(Some(b2)) && b2 == b,
                ReadOutcome::Waiting(_) => r matches Ok(None),
                ReadOutcome::Failed => r matches Err(e) && e matches
                    crate::error::BuzzError::Io(_),
            },
    {
        match self {
            ReadOutcome::Bytes(b) => Ok(Some(b)),
            ReadOutcome::Waiting(_) => Ok(None),
            ReadOutcome::Failed => Err(
                crate::error::BuzzError::Io("a download covering the range failed".to_owned()),
            ),
        }
    }
}

/// Whether offset `p` lies in `[start, start + length)`.
pub open spec fn in_range(start: u64, length: u64, p: int) -> bool {
    start <= p < start + length
}

/// Whether some hint of `s` covers offset `p`.
pub open spec fn covers_hint(s: Seq<(u64, u64)>, p: int) -> bool {
    exists|i: int| 0 <= i < s.len() && in_range(s[i].0, s[i].1, p)
}

/// Whether some listed download request covers offset `p`.
pub open spec fn covers_reqs(s: Seq<DownloadReq>, p: int) -> bool {
    exists|i: int| 0 <= i < s.len() && in_range(s[i].start, s[i].length, p)
}

/// Whether some issued download of `s` covers offset `p`.
pub open spec fn covers(s: Seq<CachedRange>, p: int) -> bool {
    exists|i: int| 0 <= i < s.len() && in_range(s[i].start, s[i].length, p)
}

/// The state of one byte offset of the object, as the cache sees it.
pub enum PointState {
    /// No download was ever issued for the offset.
    Uncovered,
    /// A download covering the offset is outstanding.
    Pending,
    /// A download covering the offset failed.
    Failed,
    /// The offset's byte is present.
    Ready(u8),
}

/// The point state of offset `p` under the issued downloads `s`. Meaningful
/// when `wf_issued(s)` holds: the covering download is then unique.
pub open spec fn state_at(s: Seq<CachedRange>, p: int) -> PointState {
    if covers(s, p) {
        let i = choose|i: int| 0 <= i < s.len() && in_range(s[i].start, s[i].length, p);
        match s[i].state {
            RangeState::Pending => PointState::Pending,
            RangeState::Failed => PointState::Failed,
            RangeState::Ready { bytes, .. } => PointState::Ready(bytes@[p - s[i].start]),
        }
    } else {
        PointState::Uncovered
    }
}

/// Issued downloads are well formed: nonempty, within the addressable
/// space, sorted and pairwise disjoint (touching allowed), with delivered
/// byte buffers of exactly the range's length.
pub open spec fn wf_issued(s: Seq<CachedRange>) -> bool {
    &&& forall|i: int|
        0 <= i < s.len() ==> (#[trigger] s[i]).length >= 1 && s[i].start + s[i].length
            <= u64::MAX
    &&& forall|i: int, j: int|
        0 <= i < j < s.len() ==> (#[trigger] s[i]).start + s[i].length <= (#[trigger] s[j]).start
    &&& forall|i: int|
        0 <= i < s.len() ==> ((#[trigger] s[i]).state matches RangeState::Ready { bytes, .. }
            ==> bytes@.len() == s[i].length)
}

/// Recorded hints are well formed: nonempty and within the addressable
/// space.
pub open spec fn wf_hints(s: Seq<(u64, u64)>) -> bool {
    forall|i: int|
        0 <= i < s.len() ==> (#[trigger] s[i]).1 >= 1 && s[i].0 + s[i].1 <= u64::MAX
}

/// The total length of the issued downloads of `s`.
pub open spec fn sum_len(s: Seq<CachedRange>) -> int
    decreases s.len(),
{
    if s.len() == 0 {
        0
    } else {
        sum_len(s.drop_last()) + s.last().length
    }
}

/// The total length of the delivered (`Ready`) downloads of `s`.
pub open spec fn sum_ready(s: Seq<CachedRange>) -> int
    decreases s.len(),
{
    if s.len() == 0 {
        0
    } else {
        sum_ready(s.drop_last()) + (if s.last().state matches RangeState::Ready { .. } {
            s.last().length as int
        } else {
            0
        })
    }
}

/// The total length of the delivered downloads of `s` already consumed by a
/// read.
pub open spec fn sum_processed(s: Seq<CachedRange>) -> int
    decreases s.len(),
{
    if s.len() == 0 {
        0
    } else {
        sum_processed(s.drop_last()) + (if s.last().state matches RangeState::Ready {
            processed: true,
            ..
        } {
            s.last().length as int
        } else {
            0
        })
    }
}

/// The ranges of the list are in ascending order, with at least one
/// uncovered offset between any two: no pair overlaps or even touches.
pub open spec fn sep_sorted(s: Seq<(u64, u64)>) -> bool {
    forall|i: int, j: int|
        0 <= i < j < s.len() ==> (#[trigger] s[i]).0 + s[i].1 < (#[trigger] s[j]).0
}

/// No two ranges of the list share an offset.
pub open spec fn no_double(s: Seq<(u64, u64)>) -> bool {
    forall|p: int, i: int, j: int|
        0 <= i < s.len() && 0 <= j < s.len() && i != j && #[trigger] in_range(s[i].0, s[i].1, p)
            && #[trigger] in_range(s[j].0, s[j].1, p) ==> false
}

/// At most one issued download covers an offset.
proof fn lemma_unique(s: Seq<CachedRange>, p: int, i: int, j: int)
    requires
        wf_issued(s),
        0 <= i < s.len(),
        0 <= j < s.len(),
        in_range(s[i].start, s[i].length, p),
        in_range(s[j].start, s[j].length, p),
    ensures
        i == j,
{
    if i < j {
        assert(s[i].start + s[i].length <= s[j].start);
    } else if j < i {
        assert(s[j].start + s[j].length <= s[i].start);
    }
}

/// The point state under a known covering download.
proof fn lemma_state_at_known(s: Seq<CachedRange>, p: int, i: int)
    requires
        wf_issued(s),
        0 <= i < s.len(),
        in_range(s[i].start, s[i].length, p),
    ensures
        covers(s, p),
        s[i].state matches RangeState::Pending ==> state_at(s, p) == PointState::Pending,
        s[i].state matches RangeState::Failed ==> state_at(s, p) == PointState::Failed,
        (s[i].state matches RangeState::Ready { bytes, .. } ==> state_at(s, p)
            == PointState::Ready(bytes@[p - s[i].start])),
{
    assert(covers(s, p));
    let w = choose|w: int| 0 <= w < s.len() && in_range(s[w].start, s[w].length, p);
    lemma_unique(s, p, i, w);
}

/// Pushing a range extends hint coverage by exactly that range.
proof fn lemma_covers_hint_push(s: Seq<(u64, u64)>, x: (u64, u64))
    ensures
        forall|p: int|
            #[trigger] covers_hint(s.push(x), p) <==> covers_hint(s, p) || in_range(x.0, x.1, p),
{
    assert forall|p: int| #[trigger]
        covers_hint(s.push(x), p) implies covers_hint(s, p) || in_range(x.0, x.1, p) by {
        let i = choose|i: int|
            0 <= i < s.push(x).len() && in_range(s.push(x)[i].0, s.push(x)[i].1, p);
        if i < s.len() {
            assert(in_range(s[i].0, s[i].1, p));
        }
    }
    assert forall|p: int|
        covers_hint(s, p) || in_range(x.0, x.1, p) implies #[trigger] covers_hint(
        s.push(x),
        p,
    ) by {
        if covers_hint(s, p) {
            let i = choose|i: int| 0 <= i < s.len() && in_range(s[i].0, s[i].1, p);
            assert(in_range(s.push(x)[i].0, s.push(x)[i].1, p));
        } else {
            assert(in_range(s.push(x)[s.len() as int].0, s.push(x)[s.len() as int].1, p));
        }
    }
}

/// Inserting a download extends coverage by exactly its range.
proof fn lemma_covers_insert(s: Seq<CachedRange>, pos: int, x: CachedRange)
    requires
        0 <= pos <= s.len(),
    ensures
        forall|p: int|
            #[trigger] covers(s.insert(pos, x), p) <==> covers(s, p) || in_range(
                x.start,
                x.length,
                p,
            ),
{
    let sn = s.insert(pos, x);
    assert forall|p: int| #[trigger]
        covers(sn, p) implies covers(s, p) || in_range(x.start, x.length, p) by {
        let i = choose|i: int| 0 <= i < sn.len() && in_range(sn[i].start, sn[i].length, p);
        if i < pos {
            assert(in_range(s[i].start, s[i].length, p));
        } else if i > pos {
            assert(sn[i] == s[i - 1]);
            assert(in_range(s[i - 1].start, s[i - 1].length, p));
        }
    }
    assert forall|p: int|
        covers(s, p) || in_range(x.start, x.length, p) implies #[trigger] covers(sn, p) by {
        if covers(s, p) {
            let i = choose|i: int| 0 <= i < s.len() && in_range(s[i].start, s[i].length, p);
            if i < pos {
                assert(in_range(sn[i].start, sn[i].length, p));
            } else {
                assert(sn[i + 1] == s[i]);
                assert(in_range(sn[i + 1].start, sn[i + 1].length, p));
            }
        } else {
            assert(in_range(sn[pos].start, sn[pos].length, p));
        }
    }
}

/// How the three sums change when a download is inserted.
proof fn lemma_sums_insert(s: Seq<CachedRange>, pos: int, x: CachedRange)
    requires
        0 <= pos <= s.len(),
    ensures
        sum_len(s.insert(pos, x)) == sum_len(s) + x.length,
        sum_ready(s.insert(pos, x)) == sum_ready(s) + (if x.state matches RangeState::Ready {
            ..
        } {
            x.length as int
        } else {
            0
        }),
        sum_processed(s.insert(pos, x)) == sum_processed(s) + (
        if x.state matches RangeState::Ready { processed: true, .. } {
            x.length as int
        } else {
            0
        }),
    decreases s.len() - pos,
{
    let sn = s.insert(pos, x);
    if pos == s.len() {
        assert(sn =~= s.push(x));
        assert(s.push(x).drop_last() =~= s);
    } else {
        lemma_sums_insert(s.drop_last(), pos, x);
        assert(sn.drop_last() =~= s.drop_last().insert(pos, x));
        assert(sn.last() == s.last());
    }
}

/// How the three sums change when one download is replaced in place.
proof fn lemma_sums_update(s: Seq<CachedRange>, i: int, x: CachedRange)
    requires
        0 <= i < s.len(),
    ensures
        sum_len(s.update(i, x)) == sum_len(s) - s[i].length + x.length,
        sum_ready(s.update(i, x)) == sum_ready(s) - (if s[i].state matches RangeState::Ready {
            ..
        } {
            s[i].length as int
        } else {
            0
        }) + (if x.state matches RangeState::Ready { .. } {
            x.length as int
        } else {
            0
        }),
        sum_processed(s.update(i, x)) == sum_processed(s) - (
        if s[i].state matches RangeState::Ready { processed: true, .. } {
            s[i].length as int
        } else {
            0
        }) + (if x.state matches RangeState::Ready { processed: true, .. } {
            x.length as int
        } else {
            0
        }),
    decreases s.len(),
{
    let sn = s.update(i, x);
    if i == s.len() - 1 {
        assert(sn.drop_last() =~= s.drop_last());
        assert(sn.last() == x);
    } else {
        lemma_sums_update(s.drop_last(), i, x);
        assert(sn.drop_last() =~= s.drop_last().update(i, x));
        assert(sn.last() == s.last());
    }
}

/// The sums are ordered, and bounded by the end of the last download, so
/// every counter fits its word.
proof fn lemma_sum_bounds(s: Seq<CachedRange>)
    requires
        wf_issued(s),
    ensures
        0 <= sum_processed(s) <= sum_ready(s) <= sum_len(s),
        sum_len(s) <= u64::MAX,
    decreases s.len(),
{
    if s.len() > 0 {
        assert(wf_issued(s.drop_last()));
        lemma_sum_bounds(s.drop_last());
        if s.len() >= 2 {
            lemma_sum_last_end(s.drop_last());
            assert(s.drop_last().last() == s[s.len() - 2]);
        }
    }
}

/// The total length of a sorted disjoint list is at most the end of its
/// last download.
proof fn lemma_sum_last_end(s: Seq<CachedRange>)
    requires
        wf_issued(s),
        s.len() > 0,
    ensures
        sum_len(s) <= s.last().start + s.last().length,
    decreases s.len(),
{
    if s.len() == 1 {
        assert(s.drop_last().len() == 0);
        assert(sum_len(s.drop_last()) == 0);
    } else {
        assert(wf_issued(s.drop_last()));
        lemma_sum_last_end(s.drop_last());
        assert(s.drop_last().last() == s[s.len() - 2]);
        assert(s[s.len() - 2].start + s[s.len() - 2].length <= s[s.len() - 1].start);
    }
}

/// A range that shares no offset with the list keeps the list free of
/// double cover when pushed.
proof fn lemma_no_double_push(s: Seq<(u64, u64)>, x: (u64, u64))
    requires
        no_double(s),
        forall|p: int| in_range(x.0, x.1, p) ==> !covers_hint(s, p),
    ensures
        no_double(s.push(x)),
{
    let sn = s.push(x);
    assert forall|p: int, i: int, j: int|
        0 <= i < sn.len() && 0 <= j < sn.len() && i != j && #[trigger] in_range(
            sn[i].0,
            sn[i].1,
            p,
        ) && #[trigger] in_range(sn[j].0, sn[j].1, p) implies false by {
        if i < s.len() && j < s.len() {
            assert(in_range(s[i].0, s[i].1, p));
            assert(in_range(s[j].0, s[j].1, p));
        } else if i < s.len() {
            assert(in_range(s[i].0, s[i].1, p));
            assert(covers_hint(s, p));
        } else {
            assert(in_range(s[j].0, s[j].1, p));
            assert(covers_hint(s, p));
        }
    }
}

/// Removes `[is_, is_ + il)` from every range of a disjoint work list,
/// splitting ranges as needed.
fn subtract_interval(work: &Vec<(u64, u64)>, is_: u64, il: u64) -> (r: Vec<(u64, u64)>)
    requires
        wf_hints(work@),
        no_double(work@),
        sep_sorted(work@),
        il >= 1,
        is_ + il <= u64::MAX,
    ensures
        wf_hints(r@),
        no_double(r@),
        sep_sorted(r@),
        forall|p: int|
            #[trigger] covers_hint(r@, p) <==> covers_hint(work@, p) && !in_range(is_, il, p),
{
    let ie = is_ + il;
    let mut out: Vec<(u64, u64)> = Vec::new();
    let mut t: usize = 0;
    proof {
        assert(work@.take(0) =~= Seq::<(u64, u64)>::empty());
    }
    while t < work.len()
        invariant
            0 <= t <= work.len(),
            wf_hints(work@),
            no_double(work@),
            sep_sorted(work@),
            il >= 1,
            is_ + il <= u64::MAX,
            ie == is_ + il,
            sep_sorted(work@),
            wf_hints(out@),
            no_double(out@),
            sep_sorted(out@),
            forall|e: int, t2: int|
                0 <= e < out@.len() && t <= t2 < work@.len() ==> (#[trigger] out@[e]).0 + out@[e].1
                    < (#[trigger] work@[t2]).0,
            forall|p: int|
                #[trigger] covers_hint(out@, p) <==> covers_hint(work@.take(t as int), p)
                    && !in_range(is_, il, p),
        decreases work.len() - t,
    {
        let ws = work[t].0;
        let wl = work[t].1;
        let we = ws + wl;
        let ghost out_iter = out@;
        proof {
            assert(in_range(work@[t as int].0, work@[t as int].1, ws as int));
        }
        // the part of the range before the subtracted interval
        let le = if we < is_ {
            we
        } else {
            is_
        };
        if ws < le {
            let piece = (ws, le - ws);
            proof {
                assert forall|p: int| in_range(piece.0, piece.1, p) implies !covers_hint(
                    out@,
                    p,
                ) by {
                    if covers_hint(out@, p) {
                        let w = choose|w: int|
                            0 <= w < work@.take(t as int).len() && in_range(
                                work@.take(t as int)[w].0,
                                work@.take(t as int)[w].1,
                                p,
                            );
                        assert(in_range(work@[w].0, work@[w].1, p));
                        assert(in_range(work@[t as int].0, work@[t as int].1, p));
                    }
                }
                lemma_covers_hint_push(out@, piece);
                lemma_no_double_push(out@, piece);
                assert forall|i: int, j: int|
                    0 <= i < j < out@.push(piece).len() implies (#[trigger] out@.push(piece)[i]).0
                    + out@.push(piece)[i].1 < (#[trigger] out@.push(piece)[j]).0 by {
                    if j < out@.len() {
                        assert(out@.push(piece)[i] == out@[i]);
                        assert(out@.push(piece)[j] == out@[j]);
                    } else {
                        assert(out@.push(piece)[i] == out@[i]);
                        assert(out@[i].0 + out@[i].1 < work@[t as int].0);
                    }
                }
            }
            out.push(piece);
        }
        // the part of the range after the subtracted interval
        let rs = if ws > ie {
            ws
        } else {
            ie
        };
        if rs < we {
            let piece = (rs, we - rs);
            proof {
                assert forall|p: int| in_range(piece.0, piece.1, p) implies !covers_hint(
                    out@,
                    p,
                ) by {
                    if covers_hint(out@, p) {
                        if covers_hint(work@.take(t as int), p) {
                            let w = choose|w: int|
                                0 <= w < work@.take(t as int).len() && in_range(
                                    work@.take(t as int)[w].0,
                                    work@.take(t as int)[w].1,
                                    p,
                                );
                            assert(in_range(work@[w].0, work@[w].1, p));
                            assert(in_range(work@[t as int].0, work@[t as int].1, p));
                        }
                    }
                }
                lemma_covers_hint_push(out@, piece);
                lemma_no_double_push(out@, piece);
                assert(sep_sorted(out@));
                assert forall|i: int, j: int|
                    0 <= i < j < out@.push(piece).len() implies (#[trigger] out@.push(piece)[i]).0
                    + out@.push(piece)[i].1 < (#[trigger] out@.push(piece)[j]).0 by {
                    if j < out@.len() {
                        assert(out@.push(piece)[i] == out@[i]);
                        assert(out@.push(piece)[j] == out@[j]);
                        assert(out@[i].0 + out@[i].1 < out@[j].0);
                    } else {
                        assert(out@.push(piece)[i] == out@[i]);
                        assert(out@.push(piece)[j] == piece);
                        if i < out_iter.len() {
                            assert(out@[i] == out_iter[i]);
                            assert(out_iter[i].0 + out_iter[i].1 < work@[t as int].0);
                            assert(work@[t as int].0 == ws);
                            assert(ws <= rs);
                        } else {
                            assert(out@ == out_iter.push((ws, (le - ws) as u64)));
                            assert(out@[i] == (ws, (le - ws) as u64));
                            assert(is_ + il <= rs);
                            assert(le <= is_);
                            assert(il >= 1);
                        }
                    }
                }
            }
            out.push(piece);
        }
        proof {
            assert(work@.take(t + 1).drop_last() =~= work@.take(t as int));
            assert(work@.take(t + 1).last() == work@[t as int]);
            lemma_covers_hint_push(work@.take(t as int), work@[t as int]);
            assert forall|p: int| #[trigger]
                covers_hint(out@, p) <==> (covers_hint(work@.take(t + 1), p) && !in_range(
                is_,
                il,
                p,
            )) by {
                assert(covers_hint(work@.take(t + 1), p) <==> covers_hint(work@.take(t as int), p)
                    || in_range(ws, wl, p));
            }
        }
        t += 1;
    }
    proof {
        assert(work@.take(work@.len() as int) =~= work@);
    }
    out
}

/// The maximal uncovered runs of `[s, e)` under the issued downloads: what
/// remains to download before the whole of `[s, e)` is covered.
fn compute_gaps(issued: &Vec<CachedRange>, s: u64, e: u64) -> (r: Vec<(u64, u64)>)
    requires
        wf_issued(issued@),
        s < e,
    ensures
        wf_hints(r@),
        no_double(r@),
        sep_sorted(r@),
        forall|p: int| #[trigger] covers_hint(r@, p) <==> (s <= p < e && !covers(issued@, p)),
{
    let mut work: Vec<(u64, u64)> = Vec::new();
    work.push((s, e - s));
    proof {
        assert(issued@.take(0) =~= Seq::<CachedRange>::empty());
        assert forall|p: int| #[trigger] covers_hint(work@, p) <==> (s <= p < e && !covers(
            issued@.take(0),
            p,
        )) by {
            if s <= p < e {
                assert(in_range(work@[0].0, work@[0].1, p));
            }
            if covers_hint(work@, p) {
                let i = choose|i: int|
                    0 <= i < work@.len() && in_range(work@[i].0, work@[i].1, p);
            }
        }
    }
    let mut t: usize = 0;
    while t < issued.len()
        invariant
            0 <= t <= issued.len(),
            wf_issued(issued@),
            s < e,
            wf_hints(work@),
            no_double(work@),
            sep_sorted(work@),
            forall|p: int|
                #[trigger] covers_hint(work@, p) <==> (s <= p < e && !covers(
                    issued@.take(t as int),
                    p,
                )),
        decreases issued.len() - t,
    {
        let st = issued[t].start;
        let ln = issued[t].length;
        proof {
            assert(issued@[t as int].length >= 1);
        }
        let next = subtract_interval(&work, st, ln);
        proof {
            assert(issued@.take(t + 1) =~= issued@.take(t as int).push(issued@[t as int]));
            lemma_covers_insert(issued@.take(t as int), t as int, issued@[t as int]);
            assert(issued@.take(t as int).insert(t as int, issued@[t as int]) =~= issued@.take(
                t + 1,
            ));
        }
        work = next;
        t += 1;
    }
    proof {
        assert(issued@.take(issued@.len() as int) =~= issued@);
    }
    work
}

/// Inserting a pending download into its slot keeps the list well formed
/// and sets exactly its range to `Pending`.
#[verifier::rlimit(80)]
#[verifier::spinoff_prover]
proof fn lemma_insert_pending(s: Seq<CachedRange>, pos: int, gs: u64, gl: u64)
    requires
        wf_issued(s),
        gl >= 1,
        gs + gl <= u64::MAX,
        0 <= pos <= s.len(),
        forall|t: int| 0 <= t < pos ==> (#[trigger] s[t]).start + s[t].length <= gs,
        pos < s.len() ==> gs + gl <= s[pos].start,
    ensures
        wf_issued(s.insert(pos, CachedRange { start: gs, length: gl, state: RangeState::Pending })),
        forall|p: int|
            #[trigger] state_at(
                s.insert(pos, CachedRange { start: gs, length: gl, state: RangeState::Pending }),
                p,
            ) == if in_range(gs, gl, p) {
                PointState::Pending
            } else {
                state_at(s, p)
            },
{
    let gap = CachedRange { start: gs, length: gl, state: RangeState::Pending };
    let sn = s.insert(pos, gap);
    assert forall|i: int|
        0 <= i < sn.len() && i + 1 < sn.len() implies (#[trigger] sn[i]).start + sn[i].length
        <= sn[i + 1].start by {
        if i + 1 < pos {
            assert(sn[i] == s[i]);
            assert(sn[i + 1] == s[i + 1]);
        } else if i + 1 == pos {
            assert(sn[i] == s[i]);
            assert(sn[i + 1] == gap);
        } else if i == pos {
            assert(sn[i] == gap);
            assert(sn[i + 1] == s[i]);
        } else {
            assert(sn[i] == s[i - 1]);
            assert(sn[i + 1] == s[i]);
        }
    }
    assert(wf_issued(sn));
    lemma_covers_insert(s, pos, gap);
    assert forall|p: int| #[trigger]
        state_at(sn, p) == (if in_range(gs, gl, p) {
            PointState::Pending
        } else {
            state_at(s, p)
        }) by {
        if in_range(gs, gl, p) {
            lemma_state_at_known(sn, p, pos);
        } else {
            if covers(s, p) {
                let i = choose|i: int|
                    0 <= i < s.len() && in_range(s[i].start, s[i].length, p);
                lemma_state_at_known(s, p, i);
                if i < pos {
                    assert(sn[i] == s[i]);
                    lemma_state_at_known(sn, p, i);
                } else {
                    assert(sn[i + 1] == s[i]);
                    lemma_state_at_known(sn, p, i + 1);
                }
            } else {
                assert(!covers(sn, p));
            }
        }
    }
}

/// Whether a download's range shares an offset with `[o, e)`.
pub open spec fn overlaps_range(r: CachedRange, o: int, e: int) -> bool {
    r.start < e && o < r.start + r.length
}

/// Whether download `i` of `s` overlaps `[o, e)` and failed.
pub open spec fn failed_overlap(s: Seq<CachedRange>, i: int, o: int, e: int) -> bool {
    0 <= i < s.len() && overlaps_range(s[i], o, e) && s[i].state matches RangeState::Failed
}

/// Whether download `i` of `s` overlaps `[o, e)` and is outstanding.
pub open spec fn pending_overlap(s: Seq<CachedRange>, i: int, o: int, e: int) -> bool {
    0 <= i < s.len() && overlaps_range(s[i], o, e) && s[i].state matches RangeState::Pending
}

/// A covered offset has a non-`Uncovered` state, and conversely.
proof fn lemma_covered_state(s: Seq<CachedRange>, p: int)
    ensures
        covers(s, p) <==> state_at(s, p) != PointState::Uncovered,
{
    if covers(s, p) {
        let i = choose|i: int| 0 <= i < s.len() && in_range(s[i].start, s[i].length, p);
        match s[i].state {
            RangeState::Pending => {},
            RangeState::Failed => {},
            RangeState::Ready { .. } => {},
        }
    }
}

/// Replacing one download by another of the same range and bytes, differing
/// only in its `processed` flag, changes no point state.
proof fn lemma_update_flag(s: Seq<CachedRange>, i: int, x: CachedRange)
    requires
        wf_issued(s),
        0 <= i < s.len(),
        x.start == s[i].start,
        x.length == s[i].length,
        match (s[i].state, x.state) {
            (
                RangeState::Ready { bytes: b0, .. },
                RangeState::Ready { bytes: b1, .. },
            ) => b0 == b1,
            _ => false,
        },
    ensures
        wf_issued(s.update(i, x)),
        forall|p: int| #[trigger] state_at(s.update(i, x), p) == state_at(s, p),
{
    let sn = s.update(i, x);
    assert(wf_issued(sn));
    assert forall|p: int| #[trigger] state_at(sn, p) == state_at(s, p) by {
        if covers(s, p) {
            let w = choose|w: int| 0 <= w < s.len() && in_range(s[w].start, s[w].length, p);
            lemma_state_at_known(s, p, w);
            assert(in_range(sn[w].start, sn[w].length, p));
            lemma_state_at_known(sn, p, w);
        } else {
            lemma_covered_state(s, p);
            assert forall|w: int|
                0 <= w < sn.len() implies !in_range(sn[w].start, sn[w].length, p) by {
                assert(sn[w].start == s[w].start && sn[w].length == s[w].length);
                assert(!in_range(s[w].start, s[w].length, p));
            }
            assert(!covers(sn, p));
            lemma_covered_state(sn, p);
        }
    }
}

/// Replacing one outstanding download by its delivered bytes keeps the list
/// well formed and turns exactly its range `Ready`.
proof fn lemma_update_deliver(s: Seq<CachedRange>, i: int, x: CachedRange)
    requires
        wf_issued(s),
        0 <= i < s.len(),
        x.start == s[i].start,
        x.length == s[i].length,
        s[i].state matches RangeState::Pending,
        x.state matches RangeState::Ready { bytes, .. } && bytes@.len() == x.length,
    ensures
        wf_issued(s.update(i, x)),
        forall|p: int|
            #[trigger] state_at(s.update(i, x), p) == (if in_range(x.start, x.length, p) {
                match x.state {
                    RangeState::Ready { bytes, .. } => PointState::Ready(bytes@[p - x.start]),
                    _ => PointState::Uncovered,
                }
            } else {
                state_at(s, p)
            }),
{
    let sn = s.update(i, x);
    assert(wf_issued(sn));
    assert forall|p: int| #[trigger]
        state_at(sn, p) == (if in_range(x.start, x.length, p) {
            match x.state {
                RangeState::Ready { bytes, .. } => PointState::Ready(bytes@[p - x.start]),
                _ => PointState::Uncovered,
            }
        } else {
            state_at(s, p)
        }) by {
        if in_range(x.start, x.length, p) {
            lemma_state_at_known(sn, p, i);
        } else if covers(s, p) {
            let w = choose|w: int| 0 <= w < s.len() && in_range(s[w].start, s[w].length, p);
            lemma_state_at_known(s, p, w);
            assert(in_range(sn[w].start, sn[w].length, p));
            lemma_state_at_known(sn, p, w);
        } else {
            lemma_covered_state(s, p);
            assert forall|w: int|
                0 <= w < sn.len() implies !in_range(sn[w].start, sn[w].length, p) by {
                assert(sn[w].start == s[w].start && sn[w].length == s[w].length);
                assert(!in_range(s[w].start, s[w].length, p));
            }
            assert(!covers(sn, p));
            lemma_covered_state(sn, p);
        }
    }
}

/// Replacing one outstanding download by a failure keeps the list well
/// formed and turns exactly its range `Failed`.
proof fn lemma_update_fail(s: Seq<CachedRange>, i: int, x: CachedRange)
    requires
        wf_issued(s),
        0 <= i < s.len(),
        x.start == s[i].start,
        x.length == s[i].length,
        s[i].state matches RangeState::Pending,
        x.state matches RangeState::Failed,
    ensures
        wf_issued(s.update(i, x)),
        forall|p: int|
            #[trigger] state_at(s.update(i, x), p) == (if in_range(x.start, x.length, p) {
                PointState::Failed
            } else {
                state_at(s, p)
            }),
{
    let sn = s.update(i, x);
    assert(wf_issued(sn));
    assert forall|p: int| #[trigger]
        state_at(sn, p) == (if in_range(x.start, x.length, p) {
            PointState::Failed
        } else {
            state_at(s, p)
        }) by {
        if in_range(x.start, x.length, p) {
            lemma_state_at_known(sn, p, i);
        } else if covers(s, p) {
            let w = choose|w: int| 0 <= w < s.len() && in_range(s[w].start, s[w].length, p);
            lemma_state_at_known(s, p, w);
            assert(in_range(sn[w].start, sn[w].length, p));
            lemma_state_at_known(sn, p, w);
        } else {
            lemma_covered_state(s, p);
            assert forall|w: int|
                0 <= w < sn.len() implies !in_range(sn[w].start, sn[w].length, p) by {
                assert(sn[w].start == s[w].start && sn[w].length == s[w].length);
                assert(!in_range(s[w].start, s[w].length, p));
            }
            assert(!covers(sn, p));
            lemma_covered_state(sn, p);
        }
    }
}

/// Whether the list holds an outstanding download starting at `start` with
/// length `len`.
pub open spec fn pending_download(s: Seq<CachedRange>, start: u64, len: int) -> bool {
    exists|i: int|
        0 <= i < s.len() && (#[trigger] s[i]).start == start && s[i].length == len
            && s[i].state matches RangeState::Pending
}

/// Whether offset `p` lies in an outstanding download starting at `start`.
pub open spec fn pending_point(s: Seq<CachedRange>, start: u64, p: int) -> bool {
    exists|i: int|
        0 <= i < s.len() && (#[trigger] s[i]).start == start && (s[i].state matches
        RangeState::Pending) && in_range(s[i].start, s[i].length, p)
}

/// The hints that survive a read of `[o, e)`: those that neither overlap
/// nor touch it. The others are absorbed into the read's downloads.
pub open spec fn kept_hints(h: Seq<(u64, u64)>, o: int, e: int) -> Seq<(u64, u64)>
    decreases h.len(),
{
    if h.len() == 0 {
        Seq::empty()
    } else if h.last().0 <= e && h.last().0 + h.last().1 >= o {
        kept_hints(h.drop_last(), o, e)
    } else {
        kept_hints(h.drop_last(), o, e).push(h.last())
    }
}

/// The per-scanner byte-range cache: recorded hints, issued downloads, and
/// counters.
pub struct RangeCache {
    pub hinted: Vec<(u64, u64)>,
    pub issued: Vec<CachedRange>,
    pub stats: CacheStats,
}

impl RangeCache {
    /// The cache's invariant: hints and issued downloads are well formed,
    /// and the counters are exact: `download_count` counts the issued
    /// downloads, `downloaded_bytes` measures the delivered ones,
    /// `processed_bytes` measures the delivered ones a read has consumed.
    pub open spec fn wf(self) -> bool {
        &&& wf_hints(self.hinted@)
        &&& wf_issued(self.issued@)
        &&& self.stats.download_count as int == self.issued@.len()
        &&& self.stats.downloaded_bytes as int == sum_ready(self.issued@)
        &&& self.stats.processed_bytes as int == sum_processed(self.issued@)
    }

    /// A fresh cache: nothing hinted, nothing issued, all counters zero.
    pub fn new() -> (r: RangeCache)
        ensures
            r.wf(),
            r.hinted@.len() == 0,
            r.issued@.len() == 0,
            r.stats == (CacheStats {
                download_count: 0,
                downloaded_bytes: 0,
                processed_bytes: 0,
                waiting_download_ms: 0,
            }),
    {
        RangeCache {
            hinted: Vec::new(),
            issued: Vec::new(),
            stats: CacheStats {
                download_count: 0,
                downloaded_bytes: 0,
                processed_bytes: 0,
                waiting_download_ms: 0,
            },
        }
    }

    /// The counters, as they stand.
    pub fn statistics(&self) -> (r: CacheStats)
        ensures
            r == self.stats,
    {
        self.stats
    }

    /// Records a non-blocking download hint for `[offset, offset + length)`.
    /// Repeated or overlapping hints are deduplicated when a read forces the
    /// covering downloads; nothing is downloaded twice on their account. An
    /// empty hint is a no-op.
    pub fn prefetch(&mut self, offset: u64, length: u64)
        requires
            old(self).wf(),
            offset + length <= u64::MAX,
        ensures
            final(self).wf(),
            final(self).issued == old(self).issued,
            final(self).stats == old(self).stats,
            length == 0 ==> final(self).hinted == old(self).hinted,
            length >= 1 ==> final(self).hinted@ == old(self).hinted@.push((offset, length)),
    {
        if length >= 1 {
            self.hinted.push((offset, length));
        }
    }

    /// Issues one download for a gap that no issued download overlaps: the
    /// range becomes `Pending` and `download_count` grows by one.
    #[verifier::rlimit(60)]
    fn issue_gap(&mut self, gs: u64, gl: u64)
        requires
            old(self).wf(),
            gl >= 1,
            gs + gl <= u64::MAX,
            forall|p: int| in_range(gs, gl, p) ==> !covers(old(self).issued@, p),
        ensures
            final(self).wf(),
            final(self).hinted == old(self).hinted,
            final(self).stats.downloaded_bytes == old(self).stats.downloaded_bytes,
            final(self).stats.processed_bytes == old(self).stats.processed_bytes,
            final(self).stats.waiting_download_ms == old(self).stats.waiting_download_ms,
            final(self).stats.download_count as int == old(self).stats.download_count + 1,
            exists|pos: int|
                0 <= pos <= old(self).issued@.len() && final(self).issued@ == old(
                    self,
                ).issued@.insert(
                    pos,
                    CachedRange { start: gs, length: gl, state: RangeState::Pending },
                ),
            forall|p: int|
                #[trigger] state_at(final(self).issued@, p) == if in_range(gs, gl, p) {
                    PointState::Pending
                } else {
                    state_at(old(self).issued@, p)
                },
    {
        let ghost issued0 = self.issued@;
        let gap = CachedRange { start: gs, length: gl, state: RangeState::Pending };
        let mut pos: usize = 0;
        while pos < self.issued.len() && self.issued[pos].start < gs
            invariant
                0 <= pos <= self.issued.len(),
                self.issued@ == issued0,
                forall|t: int| 0 <= t < pos ==> issued0[t].start < gs,
            decreases self.issued.len() - pos,
        {
            pos += 1;
        }
        proof {
            // every download left of the slot ends at or before the gap
            assert forall|t: int| 0 <= t < pos implies issued0[t].start + issued0[t].length
                <= gs by {
                if issued0[t].start + issued0[t].length > gs {
                    assert(in_range(issued0[t].start, issued0[t].length, gs as int));
                    assert(in_range(gs, gl, gs as int));
                }
            }
            // the download at the slot starts at or after the gap's end
            if pos < issued0.len() {
                let q = issued0[pos as int].start;
                if q < gs + gl {
                    assert(in_range(issued0[pos as int].start, issued0[pos as int].length, q as int));
                    assert(in_range(gs, gl, q as int));
                }
            }
        }
        proof {
            lemma_insert_pending(issued0, pos as int, gs, gl);
            lemma_sums_insert(issued0, pos as int, gap);
        }
        self.issued.insert(pos, gap);
        self.stats.download_count = self.issued.len() as u64;
    }

    /// The position of the download covering offset `p`.
    fn find_cover(&self, p: u64) -> (idx: usize)
        requires
            covers(self.issued@, p as int),
        ensures
            idx < self.issued@.len(),
            in_range(self.issued@[idx as int].start, self.issued@[idx as int].length, p as int),
    {
        let ghost s = self.issued@;
        let mut t: usize = 0;
        while t < self.issued.len()
            invariant
                0 <= t <= self.issued.len(),
                s == self.issued@,
                covers(s, p as int),
                forall|i: int| 0 <= i < t ==> !in_range(s[i].start, s[i].length, p as int),
            decreases self.issued.len() - t,
        {
            let rs = self.issued[t].start;
            let rl = self.issued[t].length;
            if rs <= p && p - rs < rl {
                return t;
            }
            proof {
                assert(!in_range(s[t as int].start, s[t as int].length, p as int));
            }
            t += 1;
        }
        proof {
            assert(false);
        }
        0
    }

    /// The byte the cache holds at offset `p`, which must be delivered.
    #[verifier::rlimit(60)]
    #[verifier::spinoff_prover]
    fn byte_at(&self, p: u64) -> (r: u8)
        requires
            wf_issued(self.issued@),
            state_at(self.issued@, p as int) matches PointState::Ready(_),
        ensures
            state_at(self.issued@, p as int) == PointState::Ready(r),
    {
        let ghost s = self.issued@;
        proof {
            lemma_covered_state(s, p as int);
        }
        let idx = self.find_cover(p);
        let rs = self.issued[idx].start;
        proof {
            lemma_state_at_known(s, p as int, idx as int);
        }
        match &self.issued[idx].state {
            RangeState::Ready { bytes, .. } => {
                let bl = bytes.len();
                proof {
                    assert(bl == bytes@.len());
                    assert(bytes@.len() == s[idx as int].length);
                    assert(p - rs < bl);
                    assert(state_at(s, p as int) == PointState::Ready(
                        bytes@[p - s[idx as int].start],
                    ));
                }
                let off = (p - rs) as usize;
                proof {
                    assert(off as int == p - rs);
                }
                bytes[off]
            },
            _ => {
                proof {
                    assert(false);
                }
                0
            },
        }
    }

    /// Reads `[offset, offset + length)`. The covering downloads are forced
    /// first: the range coalesces with every recorded hint it overlaps or
    /// touches, and one download is issued per still-uncovered run, so
    /// nothing is downloaded twice. When every covering download is
    /// delivered the bytes come back; when one failed the read is poisoned;
    /// otherwise the caller learns the outstanding requests, lets the host
    /// complete them, and retries.
    #[verifier::rlimit(100)]
    #[verifier::spinoff_prover]
    pub fn read(&mut self, offset: u64, length: u64) -> (r: ReadOutcome)
        requires
            old(self).wf(),
            length >= 1,
            offset + length <= u64::MAX,
        ensures
            final(self).wf(),
            final(self).hinted@ == kept_hints(
                old(self).hinted@,
                offset as int,
                offset + length,
            ),
            final(self).stats.download_count >= old(self).stats.download_count,
            final(self).stats.downloaded_bytes == old(self).stats.downloaded_bytes,
            final(self).stats.processed_bytes >= old(self).stats.processed_bytes,
            final(self).stats.waiting_download_ms == old(self).stats.waiting_download_ms,
            forall|p: int|
                #[trigger] state_at(final(self).issued@, p) == state_at(old(self).issued@, p)
                    || (state_at(old(self).issued@, p) == PointState::Uncovered && state_at(
                    final(self).issued@,
                    p,
                ) == PointState::Pending),
            forall|p: int|
                offset <= p < offset + length ==> state_at(final(self).issued@, p)
                    != PointState::Uncovered,
            (r matches ReadOutcome::Bytes(b) ==> b@.len() == length && forall|t: int|
                0 <= t < length ==> state_at(final(self).issued@, offset + t)
                    == PointState::Ready(b@[t])),
            (r matches ReadOutcome::Bytes(_) <==> forall|t: int|
                0 <= t < length ==> #[trigger] state_at(final(self).issued@, offset + t) matches
                    PointState::Ready(_)),
            (r matches ReadOutcome::Failed <==> exists|p: int|
                offset <= p < offset + length && state_at(final(self).issued@, p)
                    == PointState::Failed),
            (r matches ReadOutcome::Waiting(reqs) ==> forall|i: int|
                0 <= i < reqs@.len() ==> exists|t: int|
                    0 <= t < final(self).issued@.len() && #[trigger] final(self).issued@[t]
                        == (CachedRange {
                        start: (#[trigger] reqs@[i]).start,
                        length: reqs@[i].length,
                        state: RangeState::Pending,
                    })),
            (r matches ReadOutcome::Waiting(reqs) ==> forall|p: int|
                #[trigger] covers_reqs(reqs@, p) <==> (state_at(old(self).issued@, p)
                    == PointState::Uncovered && state_at(final(self).issued@, p)
                    == PointState::Pending)),
            // the requests are the maximal uncovered runs of the coalesced
            // range: nonempty, in ascending order, never overlapping or even
            // touching, and one download is issued per request
            (r matches ReadOutcome::Waiting(reqs) ==> (forall|i: int|
                0 <= i < reqs@.len() ==> (#[trigger] reqs@[i]).length >= 1) && (forall|
                i: int,
                j: int,
            |
                0 <= i < j < reqs@.len() ==> (#[trigger] reqs@[i]).start + reqs@[i].length < (
                #[trigger] reqs@[j]).start) && final(self).stats.download_count as int == old(
                self,
            ).stats.download_count + reqs@.len()),
    {
        let e = offset + length;
        let ghost o_i = offset as int;
        let ghost e_i = e as int;
        // absorb every hint that overlaps or touches the requested range
        let mut lo = offset;
        let mut hi = e;
        let mut keep: Vec<(u64, u64)> = Vec::new();
        let mut t: usize = 0;
        proof {
            assert(self.hinted@.take(0) =~= Seq::<(u64, u64)>::empty());
        }
        while t < self.hinted.len()
            invariant
                0 <= t <= self.hinted.len(),
                *old(self) == *self,
                self.wf(),
                lo <= offset,
                e <= hi <= u64::MAX,
                e == offset + length,
                keep@ == kept_hints(self.hinted@.take(t as int), offset as int, e as int),
                wf_hints(keep@),
            decreases self.hinted.len() - t,
        {
            let hs = self.hinted[t].0;
            let hl = self.hinted[t].1;
            proof {
                assert(self.hinted@.take(t + 1).drop_last() =~= self.hinted@.take(t as int));
                assert(self.hinted@.take(t + 1).last() == self.hinted@[t as int]);
            }
            if hs <= e && hs + hl >= offset {
                if hs < lo {
                    lo = hs;
                }
                if hs + hl > hi {
                    hi = hs + hl;
                }
            } else {
                keep.push((hs, hl));
            }
            t += 1;
        }
        proof {
            assert(self.hinted@.take(self.hinted@.len() as int) =~= self.hinted@);
        }
        self.hinted = keep;
        let ghost issued1 = self.issued@;
        // force the covering downloads: one per still-uncovered run
        let gaps = compute_gaps(&self.issued, lo, hi);
        let ghost gaps_v = gaps@;
        let mut reqs: Vec<DownloadReq> = Vec::new();
        let mut g: usize = 0;
        proof {
            assert(gaps_v.take(0) =~= Seq::<(u64, u64)>::empty());
        }
        while g < gaps.len()
            invariant
                0 <= g <= gaps.len(),
                gaps_v == gaps@,
                wf_hints(gaps_v),
                no_double(gaps_v),
                sep_sorted(gaps_v),
                forall|p: int|
                    #[trigger] covers_hint(gaps_v, p) <==> (lo <= p < hi && !covers(issued1, p)),
                self.wf(),
                self.hinted@ == kept_hints(old(self).hinted@, offset as int, e as int),
                self.stats.downloaded_bytes == old(self).stats.downloaded_bytes,
                self.stats.processed_bytes == old(self).stats.processed_bytes,
                self.stats.waiting_download_ms == old(self).stats.waiting_download_ms,
                self.stats.download_count as int == old(self).stats.download_count + g,
                issued1 == old(self).issued@,
                forall|p: int|
                    #[trigger] state_at(self.issued@, p) == (if covers_hint(
                        gaps_v.take(g as int),
                        p,
                    ) {
                        PointState::Pending
                    } else {
                        state_at(issued1, p)
                    }),
                reqs@.len() == g,
                forall|i: int|
                    0 <= i < g ==> (#[trigger] reqs@[i]).start == gaps_v[i].0 && reqs@[i].length
                        == gaps_v[i].1,
                forall|i: int|
                    0 <= i < g ==> exists|t: int|
                        0 <= t < self.issued@.len() && #[trigger] self.issued@[t] == (CachedRange {
                            start: (#[trigger] gaps_v[i]).0,
                            length: gaps_v[i].1,
                            state: RangeState::Pending,
                        }),
            decreases gaps.len() - g,
        {
            let gs = gaps[g].0;
            let gl = gaps[g].1;
            let ghost pre = self.issued@;
            proof {
                assert(in_range(gaps_v[g as int].0, gaps_v[g as int].1, gs as int));
                assert forall|p: int| in_range(gs, gl, p) implies !covers(self.issued@, p) by {
                    assert(covers_hint(gaps_v, p));
                    if covers_hint(gaps_v.take(g as int), p) {
                        let w = choose|w: int|
                            0 <= w < gaps_v.take(g as int).len() && in_range(
                                gaps_v.take(g as int)[w].0,
                                gaps_v.take(g as int)[w].1,
                                p,
                            );
                        assert(in_range(gaps_v[w].0, gaps_v[w].1, p));
                        assert(in_range(gaps_v[g as int].0, gaps_v[g as int].1, p));
                        assert(false);
                    }
                    lemma_covered_state(self.issued@, p);
                }
            }
            self.issue_gap(gs, gl);
            reqs.push(DownloadReq { start: gs, length: gl });
            proof {
                assert(gaps_v.take(g + 1).drop_last() =~= gaps_v.take(g as int));
                assert(gaps_v.take(g + 1).last() == gaps_v[g as int]);
                lemma_covers_hint_push(gaps_v.take(g as int), gaps_v[g as int]);
                assert(gaps_v.take(g as int).push(gaps_v[g as int]) =~= gaps_v.take(g + 1));
                // records issued so far survive the insertion
                let pos = choose|pos: int|
                    0 <= pos <= pre.len() && self.issued@ == pre.insert(
                        pos,
                        CachedRange { start: gs, length: gl, state: RangeState::Pending },
                    );
                assert forall|i: int| 0 <= i < g + 1 implies exists|t: int|
                    0 <= t < self.issued@.len() && #[trigger] self.issued@[t] == (CachedRange {
                        start: (#[trigger] gaps_v[i]).0,
                        length: gaps_v[i].1,
                        state: RangeState::Pending,
                    }) by {
                    if i < g {
                        let t0 = choose|t0: int|
                            0 <= t0 < pre.len() && pre[t0] == (CachedRange {
                                start: gaps_v[i].0,
                                length: gaps_v[i].1,
                                state: RangeState::Pending,
                            });
                        if t0 < pos {
                            assert(self.issued@[t0] == pre[t0]);
                        } else {
                            assert(self.issued@[t0 + 1] == pre[t0]);
                        }
                    } else {
                        assert(self.issued@[pos] == (CachedRange {
                            start: gs,
                            length: gl,
                            state: RangeState::Pending,
                        }));
                    }
                }
            }
            g += 1;
        }
        proof {
            assert(gaps_v.take(gaps_v.len() as int) =~= gaps_v);
            // the whole requested range is now covered
            assert forall|p: int| o_i <= p < e_i implies state_at(self.issued@, p)
                != PointState::Uncovered by {
                lemma_covered_state(issued1, p);
                lemma_covered_state(self.issued@, p);
                if !covers(issued1, p) {
                    assert(covers_hint(gaps_v, p));
                }
            }
        }
        // classify the requested range
        let mut any_pending = false;
        let mut any_failed = false;
        let mut t: usize = 0;
        while t < self.issued.len()
            invariant
                0 <= t <= self.issued.len(),
                e == offset + length,
                wf_issued(self.issued@),
                any_failed <==> exists|i: int|
                    0 <= i < t && #[trigger] failed_overlap(self.issued@, i, o_i, e_i),
                any_pending <==> exists|i: int|
                    0 <= i < t && #[trigger] pending_overlap(self.issued@, i, o_i, e_i),
                o_i == offset as int,
                e_i == e as int,
            decreases self.issued.len() - t,
        {
            let rs = self.issued[t].start;
            let rl = self.issued[t].length;
            if rs < e && offset < rs + rl {
                match &self.issued[t].state {
                    RangeState::Pending => {
                        proof {
                            assert(pending_overlap(self.issued@, t as int, o_i, e_i));
                        }
                        any_pending = true;
                    },
                    RangeState::Failed => {
                        proof {
                            assert(failed_overlap(self.issued@, t as int, o_i, e_i));
                        }
                        any_failed = true;
                    },
                    RangeState::Ready { .. } => {},
                }
            }
            t += 1;
        }
        proof {
            // interval-level and point-level classification agree
            assert forall|p: int|
                o_i <= p < e_i && #[trigger] state_at(self.issued@, p)
                    == PointState::Failed implies exists|i: int|
                failed_overlap(self.issued@, i, o_i, e_i) by {
                lemma_covered_state(self.issued@, p);
                let i = choose|i: int|
                    0 <= i < self.issued@.len() && in_range(
                        self.issued@[i].start,
                        self.issued@[i].length,
                        p,
                    );
                lemma_state_at_known(self.issued@, p, i);
                assert(failed_overlap(self.issued@, i, o_i, e_i));
            }
            assert forall|p: int|
                o_i <= p < e_i && #[trigger] state_at(self.issued@, p)
                    == PointState::Pending implies exists|i: int|
                pending_overlap(self.issued@, i, o_i, e_i) by {
                lemma_covered_state(self.issued@, p);
                let i = choose|i: int|
                    0 <= i < self.issued@.len() && in_range(
                        self.issued@[i].start,
                        self.issued@[i].length,
                        p,
                    );
                lemma_state_at_known(self.issued@, p, i);
                assert(pending_overlap(self.issued@, i, o_i, e_i));
            }
        }
        if any_failed {
            proof {
                let i = choose|i: int| 0 <= i < self.issued@.len() && failed_overlap(
                    self.issued@,
                    i,
                    o_i,
                    e_i,
                );
                let w = if self.issued@[i].start >= offset {
                    self.issued@[i].start as int
                } else {
                    o_i
                };
                lemma_state_at_known(self.issued@, w, i);
                assert(o_i <= w < e_i && state_at(self.issued@, w) == PointState::Failed);
                let t2 = w - o_i;
                assert(0 <= t2 < length);
                assert(state_at(self.issued@, offset + t2) == PointState::Failed);
                assert(!(state_at(self.issued@, offset + t2) matches PointState::Ready(_)));
            }
            return ReadOutcome::Failed;
        }
        if any_pending {
            proof {
                let i = choose|i: int| 0 <= i < self.issued@.len() && pending_overlap(
                    self.issued@,
                    i,
                    o_i,
                    e_i,
                );
                let w = if self.issued@[i].start >= offset {
                    self.issued@[i].start as int
                } else {
                    o_i
                };
                lemma_state_at_known(self.issued@, w, i);
                assert(o_i <= w < e_i && state_at(self.issued@, w) == PointState::Pending);
                let t2 = w - o_i;
                assert(0 <= t2 < length);
                assert(state_at(self.issued@, offset + t2) == PointState::Pending);
                assert(!(state_at(self.issued@, offset + t2) matches PointState::Ready(_)));
                assert forall|p: int| #[trigger]
                    covers_reqs(reqs@, p) <==> (state_at(issued1, p) == PointState::Uncovered
                        && state_at(self.issued@, p) == PointState::Pending) by {
                    lemma_covered_state(issued1, p);
                    if covers_reqs(reqs@, p) {
                        let w = choose|w: int|
                            0 <= w < reqs@.len() && in_range(reqs@[w].start, reqs@[w].length, p);
                        assert(in_range(gaps_v[w].0, gaps_v[w].1, p));
                        assert(covers_hint(gaps_v, p));
                    }
                    if state_at(issued1, p) == PointState::Uncovered && state_at(
                        self.issued@,
                        p,
                    ) == PointState::Pending {
                        assert(covers_hint(gaps_v, p));
                        let w = choose|w: int|
                            0 <= w < gaps_v.len() && in_range(gaps_v[w].0, gaps_v[w].1, p);
                        assert(in_range(reqs@[w].start, reqs@[w].length, p));
                    }
                }
                assert forall|i: int, j: int|
                    0 <= i < j < reqs@.len() implies (#[trigger] reqs@[i]).start + reqs@[i].length
                    < (#[trigger] reqs@[j]).start by {
                    assert(gaps_v[i].0 + gaps_v[i].1 < gaps_v[j].0);
                }
            }
            return ReadOutcome::Waiting(reqs);
        }
        proof {
            // no overlapping download pending or failed: all delivered
            assert forall|t2: int| 0 <= t2 < length implies #[trigger] state_at(
                self.issued@,
                o_i + t2,
            ) matches PointState::Ready(_) by {
                lemma_covered_state(self.issued@, o_i + t2);
                match state_at(self.issued@, o_i + t2) {
                    PointState::Uncovered => {
                        assert(false);
                    },
                    PointState::Pending => {
                        assert(false);
                    },
                    PointState::Failed => {
                        assert(false);
                    },
                    PointState::Ready(_) => {},
                }
            }
        }
        // assemble the bytes
        let mut out: Vec<u8> = Vec::new();
        let mut t: u64 = 0;
        while t < length
            invariant
                0 <= t <= length,
                offset + length <= u64::MAX,
                wf_issued(self.issued@),
                forall|t2: int|
                    0 <= t2 < length ==> #[trigger] state_at(self.issued@, offset + t2) matches
                        PointState::Ready(_),
                out@.len() == t,
                forall|t2: int|
                    0 <= t2 < t ==> state_at(self.issued@, offset + t2) == PointState::Ready(
                        out@[t2],
                    ),
            decreases length - t,
        {
            let b = self.byte_at(offset + t);
            out.push(b);
            t += 1;
        }
        // mark the delivered ranges consumed and account for them
        let ghost marked0 = self.issued@;
        let mut t: usize = 0;
        while t < self.issued.len()
            invariant
                0 <= t <= self.issued.len(),
                e == offset + length,
                o_i == offset as int,
                e_i == e as int,
                self.wf(),
                self.issued@.len() == marked0.len(),
                forall|i: int|
                    0 <= i < self.issued@.len() ==> !failed_overlap(self.issued@, i, o_i, e_i)
                        && !pending_overlap(self.issued@, i, o_i, e_i),
                forall|p: int| #[trigger] state_at(self.issued@, p) == state_at(marked0, p),
                self.hinted@ == kept_hints(old(self).hinted@, offset as int, e as int),
                self.stats.downloaded_bytes == old(self).stats.downloaded_bytes,
                self.stats.processed_bytes >= old(self).stats.processed_bytes,
                self.stats.waiting_download_ms == old(self).stats.waiting_download_ms,
                self.stats.download_count >= old(self).stats.download_count,
            decreases self.issued.len() - t,
        {
            let rs = self.issued[t].start;
            let rl = self.issued[t].length;
            if rs < e && offset < rs + rl {
                let ghost before = self.issued@;
                let rr = self.issued.remove(t);
                match rr.state {
                    RangeState::Ready { bytes, processed } => {
                        let upd = CachedRange {
                            start: rr.start,
                            length: rr.length,
                            state: RangeState::Ready { bytes, processed: true },
                        };
                        proof {
                            assert(before.remove(t as int).insert(t as int, upd) =~= before.update(
                                t as int,
                                upd,
                            ));
                            lemma_update_flag(before, t as int, upd);
                            lemma_sums_update(before, t as int, upd);
                            lemma_sum_bounds(before.update(t as int, upd));
                        }
                        if !processed {
                            self.stats.processed_bytes = self.stats.processed_bytes + rl;
                        }
                        self.issued.insert(t, upd);
                        proof {
                            assert forall|i: int|
                                0 <= i < self.issued@.len() implies !failed_overlap(
                                self.issued@,
                                i,
                                o_i,
                                e_i,
                            ) && !pending_overlap(self.issued@, i, o_i, e_i) by {
                                if i == t {
                                    assert(!failed_overlap(before, t as int, o_i, e_i));
                                } else {
                                    assert(self.issued@[i] == before[i]);
                                    assert(!failed_overlap(before, i, o_i, e_i));
                                    assert(!pending_overlap(before, i, o_i, e_i));
                                }
                            }
                        }
                    },
                    other => {
                        proof {
                            match other {
                                RangeState::Pending => {
                                    assert(pending_overlap(before, t as int, o_i, e_i));
                                },
                                _ => {
                                    assert(failed_overlap(before, t as int, o_i, e_i));
                                },
                            }
                            assert(false);
                        }
                        self.issued.insert(
                            t,
                            CachedRange { start: rr.start, length: rr.length, state: other },
                        );
                    },
                }
            }
            t += 1;
        }
        ReadOutcome::Bytes(out)
    }

    /// Delivers the bytes of one download the host performed: the matching
    /// outstanding download becomes `Ready` and `downloaded_bytes` grows by
    /// its length. Returns whether an outstanding download of exactly that
    /// start and length was found; otherwise nothing changes.
    #[verifier::rlimit(60)]
    #[verifier::spinoff_prover]
    pub fn complete(&mut self, start: u64, bytes: Vec<u8>) -> (r: bool)
        requires
            old(self).wf(),
        ensures
            final(self).wf(),
            final(self).hinted == old(self).hinted,
            final(self).stats.download_count == old(self).stats.download_count,
            final(self).stats.processed_bytes == old(self).stats.processed_bytes,
            final(self).stats.waiting_download_ms == old(self).stats.waiting_download_ms,
            r == pending_download(old(self).issued@, start, bytes@.len() as int),
            r ==> final(self).stats.downloaded_bytes == old(self).stats.downloaded_bytes
                + bytes@.len(),
            r ==> forall|p: int|
                #[trigger] state_at(final(self).issued@, p) == (if start <= p < start
                    + bytes@.len() {
                    PointState::Ready(bytes@[p - start])
                } else {
                    state_at(old(self).issued@, p)
                }),
            !r ==> *final(self) == *old(self),
    {
        let ghost s0 = self.issued@;
        let n = bytes.len();
        let mut t: usize = 0;
        while t < self.issued.len()
            invariant
                0 <= t <= self.issued.len(),
                *old(self) == *self,
                old(self).wf(),
                n == bytes@.len(),
                s0 == self.issued@,
                forall|i: int|
                    0 <= i < t ==> !((#[trigger] s0[i]).start == start && s0[i].length == n
                        && s0[i].state matches RangeState::Pending),
            decreases self.issued.len() - t,
        {
            if self.issued[t].start == start && self.issued[t].length == n as u64 {
                let outstanding = match &self.issued[t].state {
                    RangeState::Pending => true,
                    _ => false,
                };
                if outstanding {
                    let rr = self.issued.remove(t);
                    let upd = CachedRange {
                        start: rr.start,
                        length: rr.length,
                        state: RangeState::Ready { bytes, processed: false },
                    };
                    proof {
                        assert(s0.remove(t as int).insert(t as int, upd) =~= s0.update(
                            t as int,
                            upd,
                        ));
                        lemma_update_deliver(s0, t as int, upd);
                        lemma_sums_update(s0, t as int, upd);
                        lemma_sum_bounds(s0.update(t as int, upd));
                    }
                    self.issued.insert(t, upd);
                    self.stats.downloaded_bytes = self.stats.downloaded_bytes + n as u64;
                    proof {
                        assert(pending_download(s0, start, n as int));
                    }
                    return true;
                }
            }
            t += 1;
        }
        proof {
            if pending_download(s0, start, n as int) {
                let i = choose|i: int|
                    0 <= i < s0.len() && (#[trigger] s0[i]).start == start && s0[i].length == n
                        && s0[i].state matches RangeState::Pending;
                assert(false);
            }
        }
        false
    }

    /// Records that one download the host performed failed: the matching
    /// outstanding download becomes `Failed` and poisons every later
    /// overlapping read. Returns whether an outstanding download starting
    /// there was found; otherwise nothing changes.
    #[verifier::rlimit(60)]
    #[verifier::spinoff_prover]
    pub fn fail(&mut self, start: u64) -> (r: bool)
        requires
            old(self).wf(),
        ensures
            final(self).wf(),
            final(self).hinted == old(self).hinted,
            final(self).stats == old(self).stats,
            r == exists|i: int|
                0 <= i < old(self).issued@.len() && (#[trigger] old(self).issued@[i]).start
                    == start && old(self).issued@[i].state matches RangeState::Pending,
            r ==> forall|p: int|
                #[trigger] state_at(final(self).issued@, p) == (if pending_point(
                    old(self).issued@,
                    start,
                    p,
                ) {
                    PointState::Failed
                } else {
                    state_at(old(self).issued@, p)
                }),
            !r ==> *final(self) == *old(self),
    {
        let ghost s0 = self.issued@;
        let mut t: usize = 0;
        while t < self.issued.len()
            invariant
                0 <= t <= self.issued.len(),
                *old(self) == *self,
                old(self).wf(),
                s0 == self.issued@,
                forall|i: int|
                    0 <= i < t ==> !((#[trigger] s0[i]).start == start && s0[i].state matches
                        RangeState::Pending),
            decreases self.issued.len() - t,
        {
            if self.issued[t].start == start {
                let outstanding = match &self.issued[t].state {
                    RangeState::Pending => true,
                    _ => false,
                };
                if outstanding {
                    let rr = self.issued.remove(t);
                    let upd = CachedRange {
                        start: rr.start,
                        length: rr.length,
                        state: RangeState::Failed,
                    };
                    proof {
                        assert(s0.remove(t as int).insert(t as int, upd) =~= s0.update(
                            t as int,
                            upd,
                        ));
                        lemma_update_fail(s0, t as int, upd);
                        lemma_sums_update(s0, t as int, upd);
                    }
                    self.issued.insert(t, upd);
                    proof {
                        assert forall|p: int| #[trigger]
                            state_at(self.issued@, p) == (if pending_point(s0, start, p) {
                                PointState::Failed
                            } else {
                                state_at(s0, p)
                            }) by {
                            if in_range(upd.start, upd.length, p) {
                                assert(pending_point(s0, start, p));
                            } else if pending_point(s0, start, p) {
                                let i = choose|i: int|
                                    0 <= i < s0.len() && (#[trigger] s0[i]).start == start && (
                                    s0[i].state matches RangeState::Pending) && in_range(
                                        s0[i].start,
                                        s0[i].length,
                                        p,
                                    );
                                lemma_unique(s0, s0[i].start as int, i, t as int);
                                assert(false);
                            }
                        }
                    }
                    return true;
                }
            }
            t += 1;
        }
        proof {
            if (exists|i: int|
                0 <= i < s0.len() && (#[trigger] s0[i]).start == start && s0[i].state matches
                    RangeState::Pending) {
                let i = choose|i: int|
                    0 <= i < s0.len() && (#[trigger] s0[i]).start == start && s0[i].state matches
                        RangeState::Pending;
                assert(false);
            }
        }
        false
    }

    /// Accumulates time a consumer spent blocked on downloads, saturating.
    pub fn note_wait(&mut self, ms: u64)
        requires
            old(self).wf(),
        ensures
            final(self).wf(),
            final(self).hinted == old(self).hinted,
            final(self).issued == old(self).issued,
            final(self).stats.download_count == old(self).stats.download_count,
            final(self).stats.downloaded_bytes == old(self).stats.downloaded_bytes,
            final(self).stats.processed_bytes == old(self).stats.processed_bytes,
            final(self).stats.waiting_download_ms >= old(self).stats.waiting_download_ms,
    {
        if self.stats.waiting_download_ms <= u64::MAX - ms {
            self.stats.waiting_download_ms = self.stats.waiting_download_ms + ms;
        } else {
            self.stats.waiting_download_ms = u64::MAX;
        }
    }
}

/// Law: of every well-formed cache, the delivered bytes dominate the
/// consumed bytes, and `download_count` counts exactly the downloads ever
/// issued, which are pairwise non-overlapping.
pub proof fn lemma_cache_counters(c: RangeCache)
    requires
        c.wf(),
    ensures
        c.stats.downloaded_bytes >= c.stats.processed_bytes,
        c.stats.download_count as int == c.issued@.len(),
        forall|i: int, j: int|
            0 <= i < j < c.issued@.len() ==> (#[trigger] c.issued@[i]).start
                + c.issued@[i].length <= (#[trigger] c.issued@[j]).start,
{
    lemma_sum_bounds(c.issued@);
}

} // verus!
