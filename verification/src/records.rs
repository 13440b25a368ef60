use vstd::prelude::*;

verus! {

/// A fetched page handed to the archive pipeline by the fetch layer.
pub struct CrawlDatum {
    pub url: String,
    pub date_unix_ms: u64,
    pub body: Vec<u8>,
    pub payload_type: String,
    pub fetch_time_ms: u64,
}

/// Model of a datum: the strings as their UTF-8 bytes.
pub ghost struct DatumView {
    pub url: Seq<u8>,
    pub date_unix_ms: u64,
    pub body: Seq<u8>,
    pub payload_type: Seq<u8>,
    pub fetch_time_ms: u64,
}

impl View for CrawlDatum {
    type V = DatumView;

    open spec fn view(&self) -> DatumView {
        DatumView {
            url: vstd::utf8::encode_utf8(self.url@),
            date_unix_ms: self.date_unix_ms,
            body: self.body@,
            payload_type: vstd::utf8::encode_utf8(self.payload_type@),
            fetch_time_ms: self.fetch_time_ms,
        }
    }
}

/// The response part of an archived record: either the full body, or a
/// revisit marker referencing the ordinal of the earlier record that
/// carried the same body.
pub enum RecordPayload {
    Full { payload_type: Vec<u8>, body: Vec<u8> },
    Revisit { of_ordinal: u64 },
}

/// One archived request/response/metadata triple.
pub struct ArchiveRecord {
    pub url: Vec<u8>,
    pub date_unix_ms: u64,
    pub fetch_time_ms: u64,
    pub payload: RecordPayload,
}

pub ghost enum PayloadView {
    Full { payload_type: Seq<u8>, body: Seq<u8> },
    Revisit { of_ordinal: u64 },
}

pub ghost struct RecordView {
    pub url: Seq<u8>,
    pub date_unix_ms: u64,
    pub fetch_time_ms: u64,
    pub payload: PayloadView,
}

impl View for RecordPayload {
    type V = PayloadView;

    open spec fn view(&self) -> PayloadView {
        match self {
            RecordPayload::Full { payload_type, body } => PayloadView::Full {
                payload_type: payload_type@,
                body: body@,
            },
            RecordPayload::Revisit { of_ordinal } => PayloadView::Revisit {
                of_ordinal: *of_ordinal,
            },
        }
    }
}

impl View for ArchiveRecord {
    type V = RecordView;

    open spec fn view(&self) -> RecordView {
        RecordView {
            url: self.url@,
            date_unix_ms: self.date_unix_ms,
            fetch_time_ms: self.fetch_time_ms,
            payload: self.payload@,
        }
    }
}

/// A record whose variable-length parts can be length-prefixed with `u64`s.
pub open spec fn valid_record(r: RecordView) -> bool {
    &&& r.url.len() <= u64::MAX
    &&& match r.payload {
        PayloadView::Full { payload_type, body } => {
            payload_type.len() <= u64::MAX && body.len() <= u64::MAX
        },
        PayloadView::Revisit { .. } => true,
    }
}

/// The body stored by a full record, if the record is full.
pub open spec fn full_body(r: RecordView) -> Option<Seq<u8>> {
    match r.payload {
        PayloadView::Full { body, .. } => Some(body),
        PayloadView::Revisit { .. } => None,
    }
}

pub open spec fn is_full(r: RecordView) -> bool {
    full_body(r) is Some
}

/// The ordinal of the full record carrying `body`, scanning the archive
/// front to back; `None` if no full record carries it.
pub open spec fn spec_find_full(h: Seq<RecordView>, body: Seq<u8>) -> Option<int>
    decreases h.len(),
{
    if h.len() == 0 {
        None
    } else {
        match spec_find_full(h.drop_last(), body) {
            Some(j) => Some(j),
            None => {
                if full_body(h.last()) == Some(body) {
                    Some(h.len() - 1)
                } else {
                    None
                }
            },
        }
    }
}

/// The record that writing `d` against the history `h` appends: a revisit
/// marker when an earlier full record already carries the body, a full
/// record otherwise.
pub open spec fn spec_dedup_record(h: Seq<RecordView>, d: DatumView) -> RecordView {
    match spec_find_full(h, d.body) {
        Some(j) => RecordView {
            url: d.url,
            date_unix_ms: d.date_unix_ms,
            fetch_time_ms: d.fetch_time_ms,
            payload: PayloadView::Revisit { of_ordinal: j as u64 },
        },
        None => RecordView {
            url: d.url,
            date_unix_ms: d.date_unix_ms,
            fetch_time_ms: d.fetch_time_ms,
            payload: PayloadView::Full { payload_type: d.payload_type, body: d.body },
        },
    }
}

/// One write step at the level of the record history.
pub open spec fn step_write(h: Seq<RecordView>, d: DatumView) -> Seq<RecordView> {
    h.push(spec_dedup_record(h, d))
}

/// How many full (non-revisit) records the history holds: the count of
/// distinct bodies stored so far.
pub open spec fn spec_full_count(h: Seq<RecordView>) -> nat
    decreases h.len(),
{
    if h.len() == 0 {
        0
    } else {
        spec_full_count(h.drop_last()) + (if is_full(h.last()) {
            1nat
        } else {
            0nat
        })
    }
}

pub proof fn lemma_full_count_push(h: Seq<RecordView>, r: RecordView)
    ensures
        spec_full_count(h.push(r)) == spec_full_count(h) + (if is_full(r) {
            1nat
        } else {
            0nat
        }),
{
    assert(h.push(r).drop_last() =~= h);
    assert(h.push(r).last() == r);
}

/// A found ordinal lies in the history and names a full record carrying
/// the looked-up body.
pub proof fn lemma_find_full_range(h: Seq<RecordView>, body: Seq<u8>)
    ensures
        match spec_find_full(h, body) {
            Some(j) => 0 <= j < h.len() && full_body(h[j]) == Some(body),
            None => true,
        },
    decreases h.len(),
{
    if h.len() > 0 {
        lemma_find_full_range(h.drop_last(), body);
        assert(forall|j: int| 0 <= j < h.len() - 1 ==> h.drop_last()[j] == h[j]);
    }
}

/// How `spec_find_full` behaves across one appended record.
pub proof fn lemma_find_full_push(h: Seq<RecordView>, r: RecordView, body: Seq<u8>)
    ensures
        spec_find_full(h.push(r), body) == (match spec_find_full(h, body) {
            Some(j) => Some(j),
            None => if full_body(r) == Some(body) {
                Some(h.len() as int)
            } else {
                None::<int>
            },
        }),
{
    assert(h.push(r).drop_last() =~= h);
    assert(h.push(r).last() == r);
}

/// Dedup idempotence: writing the same body twice within one archive
/// appends one full record (if the body was new) and then one revisit
/// marker; the record count grows by two and the stored unique-content
/// count by at most one.
pub proof fn lemma_dedup_idempotence(h: Seq<RecordView>, d1: DatumView, d2: DatumView)
    requires
        d1.body == d2.body,
    ensures
        ({
            let r1 = spec_dedup_record(h, d1);
            let h1 = step_write(h, d1);
            let r2 = spec_dedup_record(h1, d2);
            let h2 = step_write(h1, d2);
            &&& h2.len() == h.len() + 2
            &&& !is_full(r2)
            &&& spec_full_count(h2) == spec_full_count(h1)
            &&& (spec_find_full(h, d1.body) is None ==> is_full(r1) && full_body(r1) == Some(
                d1.body,
            ) && spec_full_count(h1) == spec_full_count(h) + 1 && r2.payload == (
            PayloadView::Revisit { of_ordinal: h.len() as u64 }))
            &&& (spec_find_full(h, d1.body) is Some ==> !is_full(r1) && spec_full_count(h1)
                == spec_full_count(h))
        }),
{
    let r1 = spec_dedup_record(h, d1);
    let h1 = step_write(h, d1);
    let r2 = spec_dedup_record(h1, d2);
    let h2 = step_write(h1, d2);
    lemma_find_full_push(h, r1, d2.body);
    lemma_full_count_push(h, r1);
    lemma_full_count_push(h1, r2);
}

} // verus!

