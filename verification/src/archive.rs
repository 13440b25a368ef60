use vstd::prelude::*;
use vstd::string::StrSliceExecFns;
use crate::codec::{
    encode_record_into, lemma_encode_archive_len, lemma_encode_archive_push, spec_encode_archive,
    spec_encode_record,
};
use crate::compress::{gzip_bytes, gzip_of, ungzip_of};
use crate::records::{
    lemma_find_full_push, lemma_find_full_range, lemma_full_count_push, spec_dedup_record,
    spec_find_full, spec_full_count, step_write, valid_record, ArchiveRecord, CrawlDatum,
    DatumView, PayloadView, RecordPayload, RecordView,
};

verus! {

/// One dedup-index entry: a body stored by a full record, and the ordinal
/// of that record.
struct IndexEntry {
    body: Vec<u8>,
    ordinal: usize,
}

/// Accumulates records into a growing in-memory archive, deduplicating
/// bodies within the archive; tracks the record count and the
/// uncompressed byte size; `finish` compresses the whole buffer.
pub struct ArchiveEncoder {
    buf: Vec<u8>,
    num_writes: usize,
    index: Vec<IndexEntry>,
    history: Ghost<Seq<RecordView>>,
}

impl ArchiveEncoder {
    /// The records written so far, in write order.
    pub closed spec fn records(&self) -> Seq<RecordView> {
        self.history@
    }

    /// The accumulated uncompressed archive bytes.
    pub closed spec fn bytes(&self) -> Seq<u8> {
        self.buf@
    }

    pub closed spec fn wf(&self) -> bool {
        &&& self.buf@ == spec_encode_archive(self.history@)
        &&& self.num_writes == self.history@.len()
        &&& forall|i: int| 0 <= i < self.history@.len() ==> valid_record(#[trigger] self.history@[i])
        &&& forall|i: int|
            0 <= i < self.history@.len() ==> match #[trigger] self.history@[i].payload {
                PayloadView::Revisit { of_ordinal } => of_ordinal < i
                    && self.history@[of_ordinal as int].payload is Full,
                PayloadView::Full { .. } => true,
            }
        &&& forall|k: int|
            0 <= k < self.index@.len() ==> spec_find_full(
                self.history@,
                (#[trigger] self.index@[k]).body@,
            ) == Some(self.index@[k].ordinal as int)
        &&& forall|b: Seq<u8>|
            (#[trigger] spec_find_full(self.history@, b)) is Some ==> exists|k: int|
                0 <= k < self.index@.len() && (#[trigger] self.index@[k]).body@ == b
        &&& self.index@.len() == spec_full_count(self.history@)
        &&& 33 * self.history@.len() <= self.buf@.len()
    }

    /// A fresh, empty encoder.
    pub fn new() -> (r: ArchiveEncoder)
        ensures
            r.wf(),
            r.records() == Seq::<RecordView>::empty(),
            r.bytes() == Seq::<u8>::empty(),
    {
        let r = ArchiveEncoder {
            buf: Vec::new(),
            num_writes: 0,
            index: Vec::new(),
            history: Ghost(Seq::empty()),
        };
        proof {
            assert(r.buf@ =~= spec_encode_archive(r.history@));
        }
        r
    }

    /// The accumulated uncompressed size in bytes.
    pub fn num_bytes(&self) -> (r: usize)
        ensures
            r == self.bytes().len(),
    {
        self.buf.len()
    }

    /// How many records have been written.
    pub fn num_writes(&self) -> (r: usize)
        requires
            self.wf(),
        ensures
            r == self.records().len(),
    {
        self.num_writes
    }

    /// How many distinct bodies the archive stores in full.
    pub fn num_unique(&self) -> (r: usize)
        requires
            self.wf(),
        ensures
            r == spec_full_count(self.records()),
    {
        self.index.len()
    }

    /// Looks the body up in the dedup index: the ordinal of the full
    /// record that carries it, if one does.
    fn find_ordinal(&self, body: &Vec<u8>) -> (r: Option<usize>)
        requires
            self.wf(),
        ensures
            match r {
                Some(j) => spec_find_full(self.records(), body@) == Some(j as int),
                None => spec_find_full(self.records(), body@) is None,
            },
    {
        let mut k: usize = 0;
        while k < self.index.len()
            invariant
                self.wf(),
                k <= self.index@.len(),
                forall|m: int| 0 <= m < k ==> (#[trigger] self.index@[m]).body@ != body@,
            decreases self.index@.len() - k,
        {
            if bytes_eq(&self.index[k].body, body) {
                return Some(self.index[k].ordinal);
            }
            k = k + 1;
        }
        None
    }

    /// Writes one datum: appends a full record when its body is new to
    /// this archive, a revisit marker referencing the earlier full record
    /// otherwise, and grows the byte buffer by the record's encoding.
    pub fn write(&mut self, datum: CrawlDatum)
        requires
            old(self).wf(),
        ensures
            final(self).wf(),
            final(self).records() == step_write(old(self).records(), datum@),
            final(self).bytes() == old(self).bytes() + spec_encode_record(
                spec_dedup_record(old(self).records(), datum@),
            ),
    {
        let ghost h0 = self.history@;
        let found = self.find_ordinal(&datum.body);
        proof {
            lemma_find_full_range(h0, datum@.body);
        }
        let url = datum.url.as_str().as_bytes_vec();
        let rec = match found {
            Some(ord) => ArchiveRecord {
                url,
                date_unix_ms: datum.date_unix_ms,
                fetch_time_ms: datum.fetch_time_ms,
                payload: RecordPayload::Revisit { of_ordinal: ord as u64 },
            },
            None => ArchiveRecord {
                url,
                date_unix_ms: datum.date_unix_ms,
                fetch_time_ms: datum.fetch_time_ms,
                payload: RecordPayload::Full {
                    payload_type: datum.payload_type.as_str().as_bytes_vec(),
                    body: copy_bytes(&datum.body),
                },
            },
        };
        assert(rec@ == spec_dedup_record(h0, datum@));
        let ghost old_index = self.index@;
        encode_record_into(&mut self.buf, &rec);
        if found.is_none() {
            let entry = IndexEntry { body: datum.body, ordinal: self.num_writes };
            self.index.push(entry);
        }
        let _buf_len = self.buf.len();
        proof {
            lemma_encode_archive_len(h0);
            crate::codec::lemma_encode_record_len(rec@);
        }
        self.num_writes = self.num_writes + 1;
        proof {
            self.history@ = h0.push(rec@);
            let h1 = self.history@;
            lemma_encode_archive_push(h0, rec@);
            lemma_full_count_push(h0, rec@);
            assert forall|b: Seq<u8>| #[trigger]
                spec_find_full(h1, b) == (match spec_find_full(h0, b) {
                    Some(j) => Some(j),
                    None => if crate::records::full_body(rec@) == Some(b) {
                        Some(h0.len() as int)
                    } else {
                        None::<int>
                    },
                }) by {
                lemma_find_full_push(h0, rec@, b);
            }
            assert forall|i: int| 0 <= i < h1.len() implies valid_record(#[trigger] h1[i]) by {
                if i < h0.len() {
                    assert(h1[i] == h0[i]);
                } else {
                    assert(h1[i] == rec@);
                }
            }
            assert forall|i: int|
                0 <= i < h1.len() implies match #[trigger] h1[i].payload {
                PayloadView::Revisit { of_ordinal } => of_ordinal < i && h1[
                    of_ordinal as int
                ].payload is Full,
                PayloadView::Full { .. } => true,
            } by {
                if i < h0.len() {
                    assert(h1[i] == h0[i]);
                    if h0[i].payload is Revisit {
                        let ord = h0[i].payload->Revisit_of_ordinal;
                        assert(h1[ord as int] == h0[ord as int]);
                    }
                } else {
                    assert(h1[i] == rec@);
                    if rec@.payload is Revisit {
                        let ord = rec@.payload->Revisit_of_ordinal;
                        assert(spec_find_full(h0, datum@.body) == Some(ord as int));
                        assert(h1[ord as int] == h0[ord as int]);
                    }
                }
            }
            assert forall|k: int| 0 <= k < self.index@.len() implies spec_find_full(
                h1,
                (#[trigger] self.index@[k]).body@,
            ) == Some(self.index@[k].ordinal as int) by {
                if k < old_index.len() {
                    assert(self.index@[k] == old_index[k]);
                } else {
                    assert(self.index@[k].body@ == datum@.body);
                    assert(spec_find_full(h0, datum@.body) is None);
                    assert(crate::records::full_body(rec@) == Some(datum@.body));
                }
            }
            assert forall|b: Seq<u8>| (#[trigger] spec_find_full(h1, b)) is Some implies exists|
                k: int,
            | 0 <= k < self.index@.len() && (#[trigger] self.index@[k]).body@ == b by {
                if spec_find_full(h0, b) is Some {
                    let k = choose|k: int| 0 <= k < old_index.len() && (#[trigger] old_index[k]).body@
                        == b;
                    assert(self.index@[k].body@ == b);
                } else {
                    assert(crate::records::full_body(rec@) == Some(b));
                    assert(b == datum@.body);
                    assert(self.index@[self.index@.len() - 1].body@ == b);
                }
            }
            assert(self.wf());
        }
    }

    /// A well-formed encoder's buffer holds exactly its records' encodings.
    pub proof fn lemma_wf_bytes(&self)
        requires
            self.wf(),
        ensures
            self.bytes() == spec_encode_archive(self.records()),
            self.records().len() <= self.bytes().len(),
            forall|i: int| 0 <= i < self.records().len() ==> valid_record(
                #[trigger] self.records()[i],
            ),
    {
        lemma_encode_archive_len(self.history@);
    }

    /// Consumes the encoder: compresses the accumulated archive bytes and
    /// returns the compressed buffer.
    pub fn finish(self) -> (r: Vec<u8>)
        requires
            self.wf(),
        ensures
            r@ == gzip_of(spec_encode_archive(self.records())),
            ungzip_of(r@) == spec_encode_archive(self.records()),
    {
        gzip_bytes(&self.buf)
    }
}

/// Byte-for-byte equality of two buffers.
fn bytes_eq(a: &Vec<u8>, b: &Vec<u8>) -> (r: bool)
    ensures
        r == (a@ == b@),
{
    if a.len() != b.len() {
        return false;
    }
    let mut i: usize = 0;
    while i < a.len()
        invariant
            a@.len() == b@.len(),
            i <= a@.len(),
            forall|m: int| 0 <= m < i ==> a@[m] == b@[m],
        decreases a@.len() - i,
    {
        if a[i] != b[i] {
            return false;
        }
        i = i + 1;
    }
    proof {
        assert(a@ =~= b@);
    }
    true
}

/// A fresh copy of a byte buffer.
fn copy_bytes(v: &Vec<u8>) -> (r: Vec<u8>)
    ensures
        r@ == v@,
{
    let mut r: Vec<u8> = Vec::new();
    let mut i: usize = 0;
    while i < v.len()
        invariant
            i <= v@.len(),
            r@ == v@.subrange(0, i as int),
        decreases v@.len() - i,
    {
        r.push(v[i]);
        assert(v@.subrange(0, i as int) + seq![v@[i as int]] =~= v@.subrange(0, i + 1));
        i = i + 1;
    }
    proof {
        assert(v@.subrange(0, v@.len() as int) =~= v@);
    }
    r
}

} // verus!
