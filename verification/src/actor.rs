use vstd::prelude::*;
use vstd::string::StringExecFns;
use crate::archive::ArchiveEncoder;
use crate::codec::{lemma_decode_encode_archive, spec_encode_archive};
use crate::compress::{gunzip_bytes, gzip_of, ungzip_of};
use crate::records::{
    spec_dedup_record, step_write, valid_record, ArchiveRecord, CrawlDatum, DatumView, RecordView,
};

verus! {

/// Accumulated uncompressed bytes per archive beyond which the actor
/// rotates: finishes and commits the open archive and starts a new one.
pub const ROTATION_THRESHOLD: usize = 1_000_000_000;

/// What producers send the archive actor over its channel.
pub enum WarcWriterMessage {
    Crawl(CrawlDatum),
    Finish,
}

/// Errors the pipeline surfaces.
pub enum ArchiveError {
    /// The actor has terminated; no further message can be delivered.
    ChannelClosed,
    /// Durable persistence of a finished archive failed.
    CommitFailure,
    /// The destination for a filesystem commit could not be created.
    DirectoryCreationFailure,
}

/// The shape of a generated artifact name: a nonempty timestamp, an
/// underscore, a 36-character UUID, and the archive suffix.
pub open spec fn archive_name_shape(name: Seq<char>) -> bool {
    exists|ts: Seq<char>, id: Seq<char>|
        ts.len() > 0 && id.len() == 36 && name == ts + "_"@ + id + ".warc.gz"@
}

/// A finished archive: its generated name, its compressed bytes, and (in
/// the model) the records it holds.
pub struct FinishedArchive {
    pub name: String,
    pub data: Vec<u8>,
    pub records: Ghost<Seq<RecordView>>,
}

impl FinishedArchive {
    pub open spec fn wf(&self) -> bool {
        &&& self.data@ == gzip_of(spec_encode_archive(self.records@))
        &&& ungzip_of(self.data@) == spec_encode_archive(self.records@)
        &&& forall|i: int| 0 <= i < self.records@.len() ==> valid_record(#[trigger] self.records@[i])
        &&& self.records@.len() > 0
        &&& archive_name_shape(self.name@)
        &&& self.name@.len() > 8
        &&& self.name@.subrange(self.name@.len() - 8, self.name@.len() as int) == ".warc.gz"@
    }
}

/// Relies on chrono::Utc::now and chrono::DateTime::to_rfc3339: the
/// current UTC time as an RFC 3339 string. The result depends on the
/// clock, so nothing beyond nonemptiness is assumed of it.
#[verifier::external_body]
fn now_rfc3339() -> (r: String)
    ensures
        r@.len() > 0,
{
    chrono::Utc::now().to_rfc3339()
}

/// Relies on uuid::Uuid::new_v4 and its Display impl: the hyphenated form
/// of a random UUID is 36 characters. The value is random, so nothing
/// else is assumed of it.
#[verifier::external_body]
fn new_uuid_string() -> (r: String)
    ensures
        r@.len() == 36,
{
    format!("{}", uuid::Uuid::new_v4())
}

/// A globally unique archive name: the current timestamp and a fresh
/// UUID, with the archive suffix.
pub fn generate_archive_name() -> (r: String)
    ensures
        archive_name_shape(r@),
        r@.len() > 8,
        r@.subrange(r@.len() - 8, r@.len() as int) == ".warc.gz"@,
{
    let mut name = now_rfc3339();
    let ghost ts = name@;
    let id = new_uuid_string();
    name.append("_");
    name.append(id.as_str());
    name.append(".warc.gz");
    proof {
        reveal_strlit(".warc.gz");
        assert(name@ == ts + "_"@ + id@ + ".warc.gz"@);
        assert(name@.subrange(name@.len() - 8, name@.len() as int) =~= ".warc.gz"@);
    }
    name
}

/// The archive actor: sole owner and sole mutator of one open encoder,
/// plus (in the model) the record sequences of the archives it has
/// committed so far, in commit order.
pub struct ArchiveActor {
    encoder: ArchiveEncoder,
    threshold: usize,
    committed: Ghost<Seq<Seq<RecordView>>>,
}

/// The actor's state as the model sees it.
pub ghost struct PipelineModel {
    pub committed: Seq<Seq<RecordView>>,
    pub pending: Seq<RecordView>,
}

pub open spec fn model_init() -> PipelineModel {
    PipelineModel { committed: Seq::empty(), pending: Seq::empty() }
}

/// One `Crawl` message: the record is written into the open archive;
/// if the accumulated bytes then exceed the threshold, the archive is
/// committed whole and a fresh one starts empty.
pub open spec fn model_crawl(m: PipelineModel, d: DatumView, threshold: int) -> PipelineModel {
    let h1 = step_write(m.pending, d);
    if spec_encode_archive(h1).len() > threshold {
        PipelineModel { committed: m.committed.push(h1), pending: Seq::empty() }
    } else {
        PipelineModel { committed: m.committed, pending: h1 }
    }
}

/// The `Finish` message: a nonempty open archive is committed; an empty
/// one is never committed.
pub open spec fn model_finish(m: PipelineModel) -> Seq<Seq<RecordView>> {
    if m.pending.len() > 0 {
        m.committed.push(m.pending)
    } else {
        m.committed
    }
}

impl ArchiveActor {
    /// The records in the open, not yet committed archive, in write order.
    pub closed spec fn pending(&self) -> Seq<RecordView> {
        self.encoder.records()
    }

    /// The records of each committed archive, in commit order.
    pub closed spec fn committed(&self) -> Seq<Seq<RecordView>> {
        self.committed@
    }

    pub closed spec fn wf(&self) -> bool {
        self.encoder.wf()
    }

    /// The accumulated-byte threshold beyond which this actor rotates.
    pub closed spec fn threshold(&self) -> int {
        self.threshold as int
    }

    pub open spec fn model(&self) -> PipelineModel {
        PipelineModel { committed: self.committed(), pending: self.pending() }
    }

    pub fn new() -> (r: ArchiveActor)
        ensures
            r.wf(),
            r.model() == model_init(),
            r.threshold() == ROTATION_THRESHOLD as int,
    {
        ArchiveActor {
            encoder: ArchiveEncoder::new(),
            threshold: ROTATION_THRESHOLD,
            committed: Ghost(Seq::empty()),
        }
    }

    /// An actor rotating at the given threshold instead of the default.
    pub fn with_threshold(threshold: usize) -> (r: ArchiveActor)
        ensures
            r.wf(),
            r.model() == model_init(),
            r.threshold() == threshold as int,
    {
        ArchiveActor { encoder: ArchiveEncoder::new(), threshold, committed: Ghost(Seq::empty()) }
    }

    /// Handles one `Crawl` message: writes the datum into the open
    /// archive and rotates when the size threshold is crossed, returning
    /// the finished archive to commit.
    pub fn handle_crawl(&mut self, datum: CrawlDatum) -> (r: Option<FinishedArchive>)
        requires
            old(self).wf(),
        ensures
            final(self).wf(),
            final(self).threshold() == old(self).threshold(),
            final(self).model() == model_crawl(old(self).model(), datum@, old(self).threshold()),
            match r {
                Some(a) => a.wf() && a.records@ == step_write(old(self).pending(), datum@)
                    && final(self).pending().len() == 0,
                None => final(self).pending() == step_write(old(self).pending(), datum@),
            },
            r is Some <==> spec_encode_archive(step_write(old(self).pending(), datum@)).len()
                > old(self).threshold(),
    {
        proof {
            self.encoder.lemma_wf_bytes();
        }
        self.encoder.write(datum);
        proof {
            self.encoder.lemma_wf_bytes();
        }
        if self.encoder.num_bytes() > self.threshold {
            let mut full = ArchiveEncoder::new();
            core::mem::swap(&mut full, &mut self.encoder);
            let ghost h1 = full.records();
            proof {
                full.lemma_wf_bytes();
                self.committed@ = self.committed@.push(h1);
            }
            let name = generate_archive_name();
            let data = full.finish();
            Some(FinishedArchive { name, data, records: Ghost(h1) })
        } else {
            None
        }
    }

    /// Handles the `Finish` message: commits the open archive when it
    /// holds at least one record, and never commits an empty one. The
    /// actor is consumed: it terminates.
    pub fn handle_finish(self) -> (r: Option<FinishedArchive>)
        requires
            self.wf(),
        ensures
            match r {
                Some(a) => a.wf() && a.records@ == self.pending(),
                None => true,
            },
            r is Some <==> self.pending().len() > 0,
            model_finish(self.model()) == (match r {
                Some(a) => self.committed().push(a.records@),
                None => self.committed(),
            }),
    {
        proof {
            self.encoder.lemma_wf_bytes();
        }
        if self.encoder.num_writes() > 0 {
            let ghost h = self.encoder.records();
            let name = generate_archive_name();
            let data = self.encoder.finish();
            Some(FinishedArchive { name, data, records: Ghost(h) })
        } else {
            None
        }
    }
}

/// Reads a committed archive back: decompresses and decodes its records.
/// On any archive the actor produced this succeeds and yields exactly the
/// records the model says it holds, in order.
pub fn archive_records(archive: &FinishedArchive) -> (r: Option<Vec<ArchiveRecord>>)
    ensures
        archive.wf() ==> match r {
            Some(v) => v@.map_values(|rec: ArchiveRecord| rec@) == archive.records@,
            None => false,
        },
{
    proof {
        if archive.wf() {
            assert(archive.data@ == gzip_of(spec_encode_archive(archive.records@)));
            lemma_decode_encode_archive(archive.records@);
        }
    }
    match gunzip_bytes(&archive.data) {
        None => None,
        Some(bytes) => {
            match crate::codec::decode_archive_bytes(&bytes) {
                None => None,
                Some(v) => Some(v),
            }
        },
    }
}

/// Concatenation of committed archives' records, in commit order.
pub open spec fn flatten_archives(cs: Seq<Seq<RecordView>>) -> Seq<RecordView>
    decreases cs.len(),
{
    if cs.len() == 0 {
        Seq::empty()
    } else {
        flatten_archives(cs.drop_last()) + cs.last()
    }
}

/// Every record ever accepted, in acceptance order: the committed ones
/// followed by the pending ones.
pub open spec fn all_records(m: PipelineModel) -> Seq<RecordView> {
    flatten_archives(m.committed) + m.pending
}

pub proof fn lemma_flatten_push(cs: Seq<Seq<RecordView>>, c: Seq<RecordView>)
    ensures
        flatten_archives(cs.push(c)) == flatten_archives(cs) + c,
{
    assert(cs.push(c).drop_last() =~= cs);
    assert(cs.push(c).last() == c);
}

/// Ordering preserved: one `Crawl` message extends the stream of archived
/// records by exactly the one record it carries; nothing is reordered or
/// dropped.
pub proof fn lemma_crawl_appends(m: PipelineModel, d: DatumView, threshold: int)
    ensures
        all_records(model_crawl(m, d, threshold)) == all_records(m).push(
            spec_dedup_record(m.pending, d),
        ),
{
    let h1 = step_write(m.pending, d);
    if spec_encode_archive(h1).len() > threshold {
        lemma_flatten_push(m.committed, h1);
        assert((flatten_archives(m.committed) + h1) + Seq::<RecordView>::empty()
            =~= (flatten_archives(m.committed) + m.pending).push(spec_dedup_record(m.pending, d)));
    } else {
        assert(flatten_archives(m.committed) + h1 =~= (flatten_archives(m.committed)
            + m.pending).push(spec_dedup_record(m.pending, d)));
    }
}

/// The actor's state after a whole sequence of `Crawl` messages.
pub open spec fn model_run(ds: Seq<DatumView>, threshold: int) -> PipelineModel
    decreases ds.len(),
{
    if ds.len() == 0 {
        model_init()
    } else {
        model_crawl(model_run(ds.drop_last(), threshold), ds.last(), threshold)
    }
}

/// The records that sequence of writes lays down, in acceptance order.
pub open spec fn written_records(ds: Seq<DatumView>, threshold: int) -> Seq<RecordView>
    decreases ds.len(),
{
    if ds.len() == 0 {
        Seq::empty()
    } else {
        written_records(ds.drop_last(), threshold).push(
            spec_dedup_record(model_run(ds.drop_last(), threshold).pending, ds.last()),
        )
    }
}

pub proof fn lemma_run_all_records(ds: Seq<DatumView>, threshold: int)
    ensures
        all_records(model_run(ds, threshold)) == written_records(ds, threshold),
        written_records(ds, threshold).len() == ds.len(),
    decreases ds.len(),
{
    if ds.len() == 0 {
        assert(all_records(model_init()) =~= Seq::<RecordView>::empty());
    } else {
        lemma_run_all_records(ds.drop_last(), threshold);
        lemma_crawl_appends(model_run(ds.drop_last(), threshold), ds.last(), threshold);
    }
}

/// Ordering and completeness over a whole run: whatever sequence of
/// datums is written before `Finish`, the committed archives, read in
/// commit order, yield exactly one record per datum, in write order.
pub proof fn lemma_pipeline_order_and_completeness(ds: Seq<DatumView>, threshold: int)
    ensures
        flatten_archives(model_finish(model_run(ds, threshold))) == written_records(ds, threshold),
        written_records(ds, threshold).len() == ds.len(),
{
    lemma_run_all_records(ds, threshold);
    lemma_finish_complete(model_run(ds, threshold));
}

/// Graceful-shutdown completeness: after `Finish`, the committed
/// archives, read in commit order, hold every accepted record, in
/// acceptance order; no record is silently dropped.
pub proof fn lemma_finish_complete(m: PipelineModel)
    ensures
        flatten_archives(model_finish(m)) == all_records(m),
{
    if m.pending.len() > 0 {
        lemma_flatten_push(m.committed, m.pending);
    } else {
        assert(flatten_archives(m.committed) + m.pending =~= flatten_archives(m.committed));
    }
}

} // verus!
