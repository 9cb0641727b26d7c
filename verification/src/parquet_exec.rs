//! The leaf execution node that scans columnar files: given object files,
//! the footer metadata the host's columnar reader parsed from them, a
//! projection and a batch size, it verifies schemas, prefetches exactly the
//! byte ranges the scan will touch, and models the per-partition worker
//! that shuttles decoded batches over a channel to the stream's consumer.
//!
//! The columnar decoder itself is the host's: it is thread-bound and runs
//! on a dedicated worker. What is verified here is everything around it:
//! which ranges are hinted, which schemas are accepted, and that the
//! channel protocol delivers the decoded batches unchanged and in order.

use vstd::prelude::*;

use crate::error::BuzzError;
use crate::models::{concat_payloads, total_rows, RecordBatch};
use crate::object_file::ObjectFile;
use crate::schema::{spec_fields_equal, Field, Schema};

verus! {

/// How many trailing bytes of a file the footer prefetch covers at most.
pub const FOOTER_LENGTH: u64 = 1048576;

/// The byte range of one column chunk inside its file.
#[derive(Clone, Copy, PartialEq, Eq, Structural, Debug)]
pub struct ColumnChunkMeta {
    pub start: u64,
    pub length: u64,
}

/// One row group's column chunks, in column order.
pub struct RowGroupMeta {
    pub columns: Vec<ColumnChunkMeta>,
}

impl View for RowGroupMeta {
    type V = Seq<ColumnChunkMeta>;

    open spec fn view(&self) -> Seq<ColumnChunkMeta> {
        self.columns@
    }
}

/// What the host's columnar reader parsed from one file's footer: the
/// file's schema and the chunk layout of every row group.
pub struct FileMetadata {
    pub schema: Schema,
    pub row_groups: Vec<RowGroupMeta>,
}

/// The footer range of a file: its last `FOOTER_LENGTH` bytes, or the whole
/// file when shorter.
pub open spec fn footer_range(flen: u64) -> (u64, u64) {
    if flen >= FOOTER_LENGTH {
        ((flen - FOOTER_LENGTH) as u64, FOOTER_LENGTH)
    } else {
        (0u64, flen)
    }
}

/// The chunk ranges of one row group that a projection selects, in
/// projection order.
pub open spec fn proj_ranges(rg: Seq<ColumnChunkMeta>, proj: Seq<usize>) -> Seq<(u64, u64)> {
    Seq::new(proj.len(), |c: int| (rg[proj[c] as int].start, rg[proj[c] as int].length))
}

/// The chunk ranges a projection selects over all row groups, in row-group
/// then projection order.
pub open spec fn chunk_ranges(rgs: Seq<RowGroupMeta>, proj: Seq<usize>) -> Seq<(u64, u64)>
    decreases rgs.len(),
{
    if rgs.len() == 0 {
        Seq::empty()
    } else {
        chunk_ranges(rgs.drop_last(), proj) + proj_ranges(rgs.last()@, proj)
    }
}

/// Every range the scan of one file hints: the footer first, then every
/// selected column chunk.
pub open spec fn file_scan_hints(meta: FileMetadata, proj: Seq<usize>, flen: u64) -> Seq<
    (u64, u64),
> {
    seq![footer_range(flen)] + chunk_ranges(meta.row_groups@, proj)
}

/// The metadata is usable for a scan of the file under the projection:
/// every selected chunk exists, is nonempty and lies within the file.
pub open spec fn meta_wf(meta: FileMetadata, proj: Seq<usize>, flen: u64) -> bool {
    forall|r: int, c: int|
        #![trigger meta.row_groups@[r], proj[c]]
        0 <= r < meta.row_groups@.len() && 0 <= c < proj.len() ==> proj[c]
            < meta.row_groups@[r]@.len() && meta.row_groups@[r]@[proj[c] as int].length >= 1
            && meta.row_groups@[r]@[proj[c] as int].start
            + meta.row_groups@[r]@[proj[c] as int].length <= flen
}

/// The supplied schema's fields picked by a projection, in projection
/// order; the projected schema carries no metadata.
pub open spec fn projected_fields(schema: Schema, proj: Seq<usize>) -> Seq<
    crate::schema::FieldV,
> {
    Seq::new(proj.len(), |c: int| schema@.fields[proj[c] as int])
}

/// Prefetches everything the scan of one file will touch: its footer
/// region, then every selected column chunk of every row group.
fn prefetch_file(f: &mut ObjectFile, meta: &FileMetadata, projection: &Vec<usize>)
    requires
        old(f).wf(),
        old(f).file.length >= 1,
        meta_wf(*meta, projection@, old(f).file.length),
    ensures
        final(f).wf(),
        final(f).file == old(f).file,
        final(f).cursor == old(f).cursor,
        final(f).cache.issued == old(f).cache.issued,
        final(f).cache.stats == old(f).cache.stats,
        final(f).cache.hinted@ == old(f).cache.hinted@ + file_scan_hints(
            *meta,
            projection@,
            old(f).file.length,
        ),
{
    let ghost hinted0 = f.cache.hinted@;
    let flen = f.len();
    // the footer region: the last megabyte, or the whole file when shorter
    if flen >= FOOTER_LENGTH {
        f.prefetch(flen - FOOTER_LENGTH, FOOTER_LENGTH);
    } else {
        f.prefetch(0, flen);
    }
    proof {
        assert(f.cache.hinted@ =~= hinted0 + seq![footer_range(old(f).file.length)]);
        assert(meta.row_groups@.take(0) =~= Seq::<RowGroupMeta>::empty());
        assert(f.cache.hinted@ =~= hinted0 + seq![footer_range(old(f).file.length)]
            + chunk_ranges(meta.row_groups@.take(0), projection@));
    }
    let mut r: usize = 0;
    while r < meta.row_groups.len()
        invariant
            0 <= r <= meta.row_groups.len(),
            f.wf(),
            f.file == old(f).file,
            f.file.length >= 1,
            f.cursor == old(f).cursor,
            f.cache.issued == old(f).cache.issued,
            f.cache.stats == old(f).cache.stats,
            meta_wf(*meta, projection@, old(f).file.length),
            f.cache.hinted@ == hinted0 + seq![footer_range(old(f).file.length)] + chunk_ranges(
                meta.row_groups@.take(r as int),
                projection@,
            ),
        decreases meta.row_groups.len() - r,
    {
        let ghost base = f.cache.hinted@;
        let rg = &meta.row_groups[r];
        let mut c: usize = 0;
        proof {
            assert(proj_ranges(rg@, projection@).take(0) =~= Seq::<(u64, u64)>::empty());
            assert(base + proj_ranges(rg@, projection@).take(0) =~= base);
        }
        while c < projection.len()
            invariant
                0 <= c <= projection.len(),
                0 <= r < meta.row_groups.len(),
                rg == &meta.row_groups[r as int],
                f.wf(),
                f.file == old(f).file,
                f.file.length >= 1,
                f.cursor == old(f).cursor,
                f.cache.issued == old(f).cache.issued,
                f.cache.stats == old(f).cache.stats,
                meta_wf(*meta, projection@, old(f).file.length),
                f.cache.hinted@ == base + proj_ranges(rg@, projection@).take(c as int),
            decreases projection.len() - c,
        {
            let chunk = rg.columns[projection[c]];
            f.prefetch(chunk.start, chunk.length);
            proof {
                assert(f.cache.hinted@ =~= base + proj_ranges(rg@, projection@).take(c + 1));
            }
            c += 1;
        }
        proof {
            assert(proj_ranges(rg@, projection@).take(projection@.len() as int) =~= proj_ranges(
                rg@,
                projection@,
            ));
            assert(meta.row_groups@.take(r + 1).drop_last() =~= meta.row_groups@.take(r as int));
            assert(meta.row_groups@.take(r + 1).last() == meta.row_groups@[r as int]);
            assert(f.cache.hinted@ =~= hinted0 + seq![footer_range(old(f).file.length)]
                + chunk_ranges(meta.row_groups@.take(r + 1), projection@));
        }
        r += 1;
    }
    proof {
        assert(meta.row_groups@.take(meta.row_groups@.len() as int) =~= meta.row_groups@);
        assert(f.cache.hinted@ =~= old(f).cache.hinted@ + file_scan_hints(
            *meta,
            projection@,
            old(f).file.length,
        ));
    }
}

/// The scan node: one partition per file, each producing the projected
/// columns in batches of at most `batch_size` rows.
pub struct ParquetExec {
    pub files: Vec<ObjectFile>,
    pub schema: Schema,
    pub projection: Vec<usize>,
    pub batch_size: usize,
}

impl ParquetExec {
    /// Builds the scan node. For each file, in order: the footer region is
    /// prefetched; the footer schema the host parsed must equal the
    /// supplied schema on its field lists (metadata ignored), else the
    /// whole construction is rejected with a plan error; then every
    /// selected column chunk of every row group is prefetched. A missing
    /// projection selects every field. The node's schema is the supplied
    /// schema narrowed to the projection.
    #[verifier::rlimit(60)]
    pub fn try_new(
        files: Vec<ObjectFile>,
        metas: Vec<FileMetadata>,
        projection: Option<Vec<usize>>,
        batch_size: usize,
        schema: Schema,
    ) -> (r: Result<ParquetExec, BuzzError>)
        requires
            files@.len() == metas@.len(),
            forall|k: int| 0 <= k < files@.len() ==> (#[trigger] files@[k]).wf(),
            forall|k: int| 0 <= k < files@.len() ==> (#[trigger] files@[k]).file.length >= 1,
            match projection {
                Some(p) => forall|c: int|
                    0 <= c < p@.len() ==> (#[trigger] p@[c]) < schema.fields@.len(),
                None => true,
            },
            ({
                let proj = match projection {
                    Some(p) => p@,
                    None => Seq::new(schema.fields@.len(), |c: int| c as usize),
                };
                forall|k: int|
                    0 <= k < metas@.len() ==> meta_wf(
                        #[trigger] metas@[k],
                        proj,
                        files@[k].file.length,
                    )
            }),
        ensures
            (r matches Ok(_)) <==> (forall|k: int|
                0 <= k < metas@.len() ==> spec_fields_equal(
                    (#[trigger] metas@[k]).schema@,
                    schema@,
                )),
            r matches Err(e) ==> e matches BuzzError::Plan(_),
            r matches Ok(e) ==> ({
                let proj = match projection {
                    Some(p) => p@,
                    None => Seq::new(schema.fields@.len(), |c: int| c as usize),
                };
                &&& e.batch_size == batch_size
                &&& e.projection@ == proj
                &&& e.schema@.fields == projected_fields(schema, proj)
                &&& e.files@.len() == files@.len()
                &&& forall|k: int|
                    0 <= k < files@.len() ==> (#[trigger] e.files@[k]).wf() && e.files@[k].file
                        == files@[k].file && e.files@[k].cache.issued == files@[k].cache.issued
                        && e.files@[k].cache.stats == files@[k].cache.stats
                        && e.files@[k].cache.hinted@ == files@[k].cache.hinted@ + file_scan_hints(
                        metas@[k],
                        proj,
                        files@[k].file.length,
                    )
            }),
    {
        let nfields = schema.fields.len();
        let projection: Vec<usize> = match projection {
            Some(p) => p,
            None => {
                let mut p: Vec<usize> = Vec::new();
                let mut c: usize = 0;
                while c < nfields
                    invariant
                        0 <= c <= nfields,
                        p@.len() == c,
                        forall|t: int| 0 <= t < c ==> p@[t] == t as usize,
                    decreases nfields - c,
                {
                    p.push(c);
                    c += 1;
                }
                proof {
                    assert(p@ =~= Seq::new(schema.fields@.len(), |c: int| c as usize));
                }
                p
            },
        };
        let ghost proj = projection@;
        let mut files = files;
        let ghost files0 = files@;
        let mut k: usize = 0;
        while k < files.len()
            invariant
                0 <= k <= files.len(),
                files@.len() == files0.len(),
                files0.len() == metas@.len(),
                proj == projection@,
                forall|t: int| 0 <= t < files0.len() ==> (#[trigger] files0[t]).wf(),
                forall|t: int| 0 <= t < files0.len() ==> (#[trigger] files0[t]).file.length >= 1,
                forall|t: int|
                    0 <= t < k ==> spec_fields_equal((#[trigger] metas@[t]).schema@, schema@),
                forall|t: int| k <= t < files0.len() ==> files@[t] == files0[t],
                forall|t: int|
                    0 <= t < k ==> (#[trigger] files@[t]).wf() && files@[t].file == files0[t].file
                        && files@[t].cache.issued == files0[t].cache.issued
                        && files@[t].cache.stats == files0[t].cache.stats
                        && files@[t].cache.hinted@ == files0[t].cache.hinted@ + file_scan_hints(
                        metas@[t],
                        proj,
                        files0[t].file.length,
                    ),
                forall|t: int|
                    0 <= t < metas@.len() ==> meta_wf(
                        #[trigger] metas@[t],
                        proj,
                        files0[t].file.length,
                    ),
            decreases files.len() - k,
        {
            let mut f = files.remove(k);
            let meta = &metas[k];
            proof {
                assert(meta_wf(metas@[k as int], proj, files0[k as int].file.length));
            }
            // the footer must parse to the schema the caller supplied
            prefetch_file(&mut f, meta, &projection);
            if !meta.schema.fields_equal(&schema) {
                return Err(
                    BuzzError::Plan(
                        "expected and parsed schema fields are not equal".to_owned(),
                    ),
                );
            }
            files.insert(k, f);
            k += 1;
        }
        let mut fields: Vec<Field> = Vec::new();
        let mut c: usize = 0;
        while c < projection.len()
            invariant
                0 <= c <= projection.len(),
                proj == projection@,
                forall|t: int| 0 <= t < proj.len() ==> (#[trigger] proj[t]) < schema.fields@.len(),
                fields@.len() == c,
                forall|t: int| 0 <= t < c ==> fields@[t]@ == schema@.fields[proj[t] as int],
            decreases projection.len() - c,
        {
            fields.push(schema.fields[projection[c]].clone());
            c += 1;
        }
        let projected = Schema { fields, metadata: Vec::new() };
        proof {
            assert(projected@.fields =~= projected_fields(schema, proj));
        }
        Ok(ParquetExec { files, schema: projected, projection, batch_size })
    }

    /// One partition per input file.
    pub fn output_partitioning(&self) -> (r: usize)
        ensures
            r == self.files@.len(),
    {
        self.files.len()
    }
}

/// One message of the bounded channel between a partition's worker and its
/// stream: a decoded batch, the decode error that ended the work, or the
/// clean end of the file.
pub enum ChannelMsg {
    Batch(RecordBatch),
    Failed(String),
    End,
}

/// What the worker sends for a given reader output: every batch up to the
/// first decode error, then that error; or every batch then the end marker.
pub open spec fn worker_msgs(items: Seq<Result<RecordBatch, String>>) -> Seq<ChannelMsg>
    decreases items.len(),
{
    if items.len() == 0 {
        seq![ChannelMsg::End]
    } else {
        match items.first() {
            Ok(b) => seq![ChannelMsg::Batch(b)] + worker_msgs(items.drop_first()),
            Err(m) => seq![ChannelMsg::Failed(m)],
        }
    }
}

/// Whether the reader decoded the whole file cleanly.
pub open spec fn all_ok(items: Seq<Result<RecordBatch, String>>) -> bool {
    forall|i: int| 0 <= i < items.len() ==> (#[trigger] items[i]) matches Ok(_)
}

/// The partition worker: drives the thread-bound columnar reader (whose
/// outputs arrive as `items`) and forwards each batch over the channel, in
/// order. On a decode error it sends the error and stops with it; at the
/// end of the file it sends the end marker and stops cleanly.
pub fn read_file(items: Vec<Result<RecordBatch, String>>) -> (r: (
    Vec<ChannelMsg>,
    Result<(), BuzzError>,
))
    ensures
        r.0@ == worker_msgs(items@),
        (r.1 matches Ok(_)) <==> all_ok(items@),
        r.1 matches Err(e) ==> e matches BuzzError::Execution(m) && Some(m@) == stream_error(
            worker_msgs(items@),
        ),
    decreases items@.len(),
{
    let mut items = items;
    if items.len() == 0 {
        let mut msgs: Vec<ChannelMsg> = Vec::new();
        msgs.push(ChannelMsg::End);
        proof {
            assert(msgs@ =~= worker_msgs(items@));
        }
        return (msgs, Ok(()));
    }
    let ghost items_v = items@;
    let first = items.remove(0);
    proof {
        assert(items@ =~= items_v.drop_first());
    }
    match first {
        Ok(b) => {
            let (rest, res) = read_file(items);
            let mut msgs: Vec<ChannelMsg> = Vec::new();
            msgs.push(ChannelMsg::Batch(b));
            let mut rest = rest;
            msgs.append(&mut rest);
            proof {
                assert(msgs@ =~= worker_msgs(items_v));
                assert forall|i: int| 0 <= i < items_v.len() implies (#[trigger] items_v[i]) matches
                    Ok(_) <== all_ok(items_v.drop_first()) && i >= 1 by {
                    if i >= 1 {
                        assert(items_v.drop_first()[i - 1] == items_v[i]);
                    }
                }
                if all_ok(items_v.drop_first()) {
                    assert(all_ok(items_v));
                }
                if all_ok(items_v) {
                    assert forall|i: int|
                        0 <= i < items_v.drop_first().len() implies (
                    #[trigger] items_v.drop_first()[i]) matches Ok(_) by {
                        assert(items_v.drop_first()[i] == items_v[i + 1]);
                    }
                }
            }
            proof {
                if !all_ok(items_v) {
                    assert(worker_msgs(items_v).drop_first() =~= worker_msgs(
                        items_v.drop_first(),
                    ));
                    assert(stream_error(worker_msgs(items_v)) == stream_error(
                        worker_msgs(items_v.drop_first()),
                    ));
                }
            }
            (msgs, res)
        },
        Err(m) => {
            let mut msgs: Vec<ChannelMsg> = Vec::new();
            let reason = m.clone();
            msgs.push(ChannelMsg::Failed(m));
            proof {
                assert(msgs@ =~= worker_msgs(items_v));
                assert(items_v[0] matches Err(_));
            }
            (msgs, Err(BuzzError::Execution(reason)))
        },
    }
}

/// The batches a partition's stream yields: every batch before the first
/// error or end marker; an error or the end stops the stream.
pub open spec fn stream_batches(msgs: Seq<ChannelMsg>) -> Seq<RecordBatch>
    decreases msgs.len(),
{
    if msgs.len() == 0 {
        Seq::empty()
    } else {
        match msgs.first() {
            ChannelMsg::Batch(b) => seq![b] + stream_batches(msgs.drop_first()),
            _ => Seq::empty(),
        }
    }
}

/// The decode error a partition's stream surfaces, if any.
pub open spec fn stream_error(msgs: Seq<ChannelMsg>) -> Option<Seq<char>>
    decreases msgs.len(),
{
    if msgs.len() == 0 {
        None
    } else {
        match msgs.first() {
            ChannelMsg::Batch(_) => stream_error(msgs.drop_first()),
            ChannelMsg::Failed(m) => Some(m@),
            ChannelMsg::End => None,
        }
    }
}

/// The stream side of a partition: polls the channel, yielding each batch
/// in the order the worker sent it, and ends at the end marker, at a decode
/// error (surfacing it), or when the channel closes.
pub fn drain_stream(msgs: Vec<ChannelMsg>) -> (r: (Vec<RecordBatch>, Result<(), BuzzError>))
    ensures
        r.0@ == stream_batches(msgs@),
        (r.1 matches Ok(_)) <==> stream_error(msgs@) is None,
        r.1 matches Err(e) ==> e matches BuzzError::Execution(m) && m@ == stream_error(
            msgs@,
        ).unwrap(),
    decreases msgs@.len(),
{
    let mut msgs = msgs;
    if msgs.len() == 0 {
        return (Vec::new(), Ok(()));
    }
    let ghost msgs_v = msgs@;
    let first = msgs.remove(0);
    proof {
        assert(msgs@ =~= msgs_v.drop_first());
    }
    match first {
        ChannelMsg::Batch(b) => {
            let (rest, res) = drain_stream(msgs);
            let mut out: Vec<RecordBatch> = Vec::new();
            out.push(b);
            let mut rest = rest;
            out.append(&mut rest);
            proof {
                assert(out@ =~= stream_batches(msgs_v));
            }
            (out, res)
        },
        ChannelMsg::Failed(m) => (Vec::new(), Err(BuzzError::Execution(m))),
        ChannelMsg::End => (Vec::new(), Ok(())),
    }
}

/// The batches a clean decode produced, in file order.
pub open spec fn decoded_batches(items: Seq<Result<RecordBatch, String>>) -> Seq<RecordBatch>
    decreases items.len(),
{
    if items.len() == 0 {
        Seq::empty()
    } else {
        match items.first() {
            Ok(b) => seq![b] + decoded_batches(items.drop_first()),
            Err(_) => Seq::empty(),
        }
    }
}

/// Law: for a file the reader decodes cleanly, the batches the partition's
/// stream yields are exactly the straight-line decode of the file — same
/// batches, same order — so the concatenation of their payloads and their
/// total row count equal those of the straight-line decode.
pub proof fn lemma_stream_faithful(items: Seq<Result<RecordBatch, String>>)
    requires
        all_ok(items),
    ensures
        stream_batches(worker_msgs(items)) == decoded_batches(items),
        concat_payloads(stream_batches(worker_msgs(items)).map_values(|b: RecordBatch| b@))
            == concat_payloads(decoded_batches(items).map_values(|b: RecordBatch| b@)),
        total_rows(stream_batches(worker_msgs(items)).map_values(|b: RecordBatch| b@))
            == total_rows(decoded_batches(items).map_values(|b: RecordBatch| b@)),
    decreases items.len(),
{
    if items.len() == 0 {
        assert(stream_batches(worker_msgs(items)) =~= decoded_batches(items));
    } else {
        assert(items[0] matches Ok(_));
        assert forall|i: int|
            0 <= i < items.drop_first().len() implies (#[trigger] items.drop_first()[i]) matches
            Ok(_) by {
            assert(items.drop_first()[i] == items[i + 1]);
        }
        lemma_stream_faithful(items.drop_first());
        match items.first() {
            Ok(b) => {
                let msgs = worker_msgs(items);
                assert(msgs == seq![ChannelMsg::Batch(b)] + worker_msgs(items.drop_first()));
                assert(msgs.first() == ChannelMsg::Batch(b));
                assert(msgs.drop_first() =~= worker_msgs(items.drop_first()));
                assert(stream_batches(msgs) =~= decoded_batches(items));
            },
            Err(_) => {},
        }
    }
}

} // verus!
