use vstd::prelude::*;
use vstd::bytes::{
    spec_u64_from_le_bytes, spec_u64_to_le_bytes, lemma_auto_spec_u64_to_from_le_bytes,
    u64_from_le_bytes, u64_to_le_bytes,
};
use crate::records::{ArchiveRecord, PayloadView, RecordPayload, RecordView, valid_record};

verus! {

pub const FULL_TAG: u8 = 0;

pub const REVISIT_TAG: u8 = 1;

pub open spec fn spec_tag(r: RecordView) -> u8 {
    match r.payload {
        PayloadView::Full { .. } => FULL_TAG,
        PayloadView::Revisit { .. } => REVISIT_TAG,
    }
}

/// The byte encoding of one record: a tag byte, the length-prefixed URL,
/// the two timestamps, then either the length-prefixed payload type and
/// body (full record) or the referenced ordinal (revisit marker).
pub open spec fn spec_encode_record(r: RecordView) -> Seq<u8> {
    let head = seq![spec_tag(r)] + spec_u64_to_le_bytes(r.url.len() as u64) + r.url
        + spec_u64_to_le_bytes(r.date_unix_ms) + spec_u64_to_le_bytes(r.fetch_time_ms);
    match r.payload {
        PayloadView::Full { payload_type, body } => {
            head + spec_u64_to_le_bytes(payload_type.len() as u64) + payload_type
                + spec_u64_to_le_bytes(body.len() as u64) + body
        },
        PayloadView::Revisit { of_ordinal } => head + spec_u64_to_le_bytes(of_ordinal),
    }
}

/// An archive's uncompressed bytes: the records' encodings, concatenated
/// in order.
pub open spec fn spec_encode_archive(rs: Seq<RecordView>) -> Seq<u8>
    decreases rs.len(),
{
    if rs.len() == 0 {
        Seq::empty()
    } else {
        spec_encode_record(rs[0]) + spec_encode_archive(rs.skip(1))
    }
}

pub open spec fn spec_read_u64(s: Seq<u8>, i: int) -> u64 {
    spec_u64_from_le_bytes(s.subrange(i, i + 8))
}

/// Decodes one record from the front of `s`: the record and the number of
/// bytes it occupies, or `None` if `s` does not start with a well-formed
/// record.
pub open spec fn spec_decode_record(s: Seq<u8>) -> Option<(RecordView, int)> {
    if s.len() < 9 {
        None
    } else {
        let tag = s[0];
        let ulen = spec_read_u64(s, 1) as int;
        if s.len() < 25 + ulen {
            None
        } else {
            let url = s.subrange(9, 9 + ulen);
            let date = spec_read_u64(s, 9 + ulen);
            let fetch = spec_read_u64(s, 17 + ulen);
            if tag == FULL_TAG {
                if s.len() < 33 + ulen {
                    None
                } else {
                    let plen = spec_read_u64(s, 25 + ulen) as int;
                    if s.len() < 41 + ulen + plen {
                        None
                    } else {
                        let payload_type = s.subrange(33 + ulen, 33 + ulen + plen);
                        let blen = spec_read_u64(s, 33 + ulen + plen) as int;
                        if s.len() < 41 + ulen + plen + blen {
                            None
                        } else {
                            let body = s.subrange(41 + ulen + plen, 41 + ulen + plen + blen);
                            Some(
                                (
                                    RecordView {
                                        url,
                                        date_unix_ms: date,
                                        fetch_time_ms: fetch,
                                        payload: PayloadView::Full { payload_type, body },
                                    },
                                    41 + ulen + plen + blen,
                                ),
                            )
                        }
                    }
                }
            } else if tag == REVISIT_TAG {
                if s.len() < 33 + ulen {
                    None
                } else {
                    Some(
                        (
                            RecordView {
                                url,
                                date_unix_ms: date,
                                fetch_time_ms: fetch,
                                payload: PayloadView::Revisit { of_ordinal: spec_read_u64(s, 25 + ulen) },
                            },
                            33 + ulen,
                        ),
                    )
                }
            } else {
                None
            }
        }
    }
}

/// Decodes a whole archive: the record sequence, or `None` on malformed
/// bytes.
pub open spec fn spec_decode_archive(s: Seq<u8>) -> Option<Seq<RecordView>>
    decreases s.len(),
{
    if s.len() == 0 {
        Some(Seq::empty())
    } else {
        match spec_decode_record(s) {
            None => None,
            Some((r, n)) => {
                if 0 < n <= s.len() {
                    match spec_decode_archive(s.skip(n)) {
                        None => None,
                        Some(rest) => Some(seq![r] + rest),
                    }
                } else {
                    None
                }
            },
        }
    }
}

pub proof fn lemma_encode_record_len(r: RecordView)
    ensures
        spec_encode_record(r).len() >= 33,
        spec_encode_record(r).len() == (match r.payload {
            PayloadView::Full { payload_type, body } => 41 + r.url.len() + payload_type.len()
                + body.len(),
            PayloadView::Revisit { .. } => 33 + r.url.len(),
        }),
{
    lemma_auto_spec_u64_to_from_le_bytes();
}

/// Appending a record to an archive appends its encoding to the bytes.
pub proof fn lemma_encode_archive_push(rs: Seq<RecordView>, r: RecordView)
    ensures
        spec_encode_archive(rs.push(r)) == spec_encode_archive(rs) + spec_encode_record(r),
    decreases rs.len(),
{
    if rs.len() == 0 {
        let a = rs.push(r);
        assert(a[0] == r);
        assert(a.skip(1) =~= Seq::<RecordView>::empty());
        assert(spec_encode_archive(a.skip(1)) == Seq::<u8>::empty());
        assert(spec_encode_archive(a) == spec_encode_record(r) + Seq::<u8>::empty());
        assert(spec_encode_archive(rs) == Seq::<u8>::empty());
        assert(spec_encode_archive(a) =~= spec_encode_archive(rs) + spec_encode_record(r));
    } else {
        let a = rs.push(r);
        assert(a[0] == rs[0]);
        assert(a.skip(1) =~= rs.skip(1).push(r));
        lemma_encode_archive_push(rs.skip(1), r);
        assert(spec_encode_archive(a) == spec_encode_record(rs[0]) + spec_encode_archive(a.skip(1)));
        assert(spec_encode_archive(a.skip(1)) == spec_encode_archive(rs.skip(1))
            + spec_encode_record(r));
        assert(spec_encode_archive(rs) == spec_encode_record(rs[0]) + spec_encode_archive(
            rs.skip(1),
        ));
        assert(spec_encode_archive(a) =~= spec_encode_archive(rs) + spec_encode_record(r));
    }
}

/// Every record takes at least 33 bytes, so an archive's byte length
/// bounds its record count.
pub proof fn lemma_encode_archive_len(rs: Seq<RecordView>)
    ensures
        spec_encode_archive(rs).len() >= 33 * rs.len(),
    decreases rs.len(),
{
    if rs.len() > 0 {
        lemma_encode_record_len(rs[0]);
        lemma_encode_archive_len(rs.skip(1));
    }
}

/// Decoding starts back exactly the record that encoding laid down, and
/// consumes exactly its bytes, whatever follows it.
pub proof fn lemma_decode_encode_record(r: RecordView, rest: Seq<u8>)
    requires
        valid_record(r),
    ensures
        spec_decode_record(spec_encode_record(r) + rest) == Some(
            (r, spec_encode_record(r).len() as int),
        ),
{
    lemma_auto_spec_u64_to_from_le_bytes();
    let s = spec_encode_record(r) + rest;
    let ulen = r.url.len() as int;
    lemma_encode_record_len(r);
    assert(s[0] == spec_tag(r));
    assert(s.subrange(1, 9) =~= spec_u64_to_le_bytes(r.url.len() as u64));
    assert(spec_read_u64(s, 1) == r.url.len() as u64);
    assert(s.subrange(9, 9 + ulen) =~= r.url);
    assert(s.subrange(9 + ulen, 17 + ulen) =~= spec_u64_to_le_bytes(r.date_unix_ms));
    assert(s.subrange(17 + ulen, 25 + ulen) =~= spec_u64_to_le_bytes(r.fetch_time_ms));
    match r.payload {
        PayloadView::Full { payload_type, body } => {
            let plen = payload_type.len() as int;
            let blen = body.len() as int;
            assert(s.subrange(25 + ulen, 33 + ulen) =~= spec_u64_to_le_bytes(
                payload_type.len() as u64,
            ));
            assert(s.subrange(33 + ulen, 33 + ulen + plen) =~= payload_type);
            assert(s.subrange(33 + ulen + plen, 41 + ulen + plen) =~= spec_u64_to_le_bytes(
                body.len() as u64,
            ));
            assert(s.subrange(41 + ulen + plen, 41 + ulen + plen + blen) =~= body);
        },
        PayloadView::Revisit { of_ordinal } => {
            assert(s.subrange(25 + ulen, 33 + ulen) =~= spec_u64_to_le_bytes(of_ordinal));
        },
    }
}

/// Decoding inverts encoding on whole archives.
pub proof fn lemma_decode_encode_archive(rs: Seq<RecordView>)
    requires
        forall|i: int| 0 <= i < rs.len() ==> valid_record(#[trigger] rs[i]),
    ensures
        spec_decode_archive(spec_encode_archive(rs)) == Some(rs),
    decreases rs.len(),
{
    if rs.len() == 0 {
        assert(spec_encode_archive(rs).len() == 0);
        assert(Seq::<RecordView>::empty() =~= rs);
    } else {
        let e0 = spec_encode_record(rs[0]);
        let etail = spec_encode_archive(rs.skip(1));
        let s = spec_encode_archive(rs);
        assert(s == e0 + etail);
        lemma_encode_record_len(rs[0]);
        lemma_decode_encode_record(rs[0], etail);
        assert(s.skip(e0.len() as int) =~= etail);
        lemma_decode_encode_archive(rs.skip(1));
        assert(seq![rs[0]] + rs.skip(1) =~= rs);
    }
}

/// Appends `x`'s little-endian bytes to `buf`.
fn push_u64(buf: &mut Vec<u8>, x: u64)
    ensures
        final(buf)@ == old(buf)@ + spec_u64_to_le_bytes(x),
{
    let mut bytes = u64_to_le_bytes(x);
    buf.append(&mut bytes);
}

/// Appends a copy of `data` to `buf`.
fn push_bytes(buf: &mut Vec<u8>, data: &Vec<u8>)
    ensures
        final(buf)@ == old(buf)@ + data@,
{
    let mut i: usize = 0;
    while i < data.len()
        invariant
            i <= data@.len(),
            buf@ == old(buf)@ + data@.subrange(0, i as int),
        decreases data@.len() - i,
    {
        buf.push(data[i]);
        assert(old(buf)@ + data@.subrange(0, i as int) + seq![data@[i as int]] =~= old(buf)@
            + data@.subrange(0, i + 1));
        i = i + 1;
    }
    assert(data@.subrange(0, data@.len() as int) =~= data@);
}

/// Reads the little-endian `u64` at `pos`.
fn read_u64_at(data: &Vec<u8>, pos: usize) -> (x: u64)
    requires
        pos + 8 <= data@.len(),
    ensures
        x == spec_read_u64(data@, pos as int),
{
    let n = data.len();
    let mut bytes: Vec<u8> = Vec::new();
    let mut i: usize = 0;
    while i < 8
        invariant
            n == data@.len(),
            pos + 8 <= data@.len(),
            i <= 8,
            bytes@ == data@.subrange(pos as int, pos + i),
        decreases 8 - i,
    {
        bytes.push(data[pos + i]);
        assert(data@.subrange(pos as int, pos + i as int) + seq![data@[pos + i]] =~= data@.subrange(
            pos as int,
            pos + i + 1,
        ));
        i = i + 1;
    }
    u64_from_le_bytes(bytes.as_slice())
}

/// Copies `len` bytes starting at `pos` out of `data`.
fn read_bytes(data: &Vec<u8>, pos: usize, len: usize) -> (r: Vec<u8>)
    requires
        pos + len <= data@.len(),
    ensures
        r@ == data@.subrange(pos as int, pos + len),
{
    let n = data.len();
    let mut r: Vec<u8> = Vec::new();
    let mut i: usize = 0;
    while i < len
        invariant
            n == data@.len(),
            pos + len <= data@.len(),
            i <= len,
            r@ == data@.subrange(pos as int, pos + i),
        decreases len - i,
    {
        r.push(data[pos + i]);
        assert(data@.subrange(pos as int, pos + i as int) + seq![data@[pos + i]] =~= data@.subrange(
            pos as int,
            pos + i + 1,
        ));
        i = i + 1;
    }
    r
}

/// Decodes the record starting at `pos`: the record and the position just
/// after it, or `None` if the bytes there are not a well-formed record.
#[verifier::rlimit(40)]
fn decode_record_at(data: &Vec<u8>, pos: usize) -> (r: Option<(ArchiveRecord, usize)>)
    requires
        pos <= data@.len(),
    ensures
        match r {
            Some((rec, next)) => spec_decode_record(data@.skip(pos as int)) == Some(
                (rec@, next - pos),
            ) && pos < next <= data@.len(),
            None => spec_decode_record(data@.skip(pos as int)) is None,
        },
{
    let ghost s = data@.skip(pos as int);
    let rem: u64 = (data.len() - pos) as u64;
    if rem < 9 {
        return None;
    }
    let tag = data[pos];
    let ulen64 = read_u64_at(data, pos + 1);
    proof {
        assert(data@.subrange(pos + 1, pos + 9) =~= s.subrange(1, 9));
    }
    if rem < 25 || rem - 25 < ulen64 {
        return None;
    }
    let ulen = ulen64 as usize;
    let url = read_bytes(data, pos + 9, ulen);
    let date = read_u64_at(data, pos + 9 + ulen);
    let fetch = read_u64_at(data, pos + 17 + ulen);
    proof {
        assert(data@.subrange(pos + 9, pos + 9 + ulen as int) =~= s.subrange(9, 9 + ulen as int));
        assert(data@.subrange(pos + 9 + ulen as int, pos + 17 + ulen as int) =~= s.subrange(
            9 + ulen as int,
            17 + ulen as int,
        ));
        assert(data@.subrange(pos + 17 + ulen as int, pos + 25 + ulen as int) =~= s.subrange(
            17 + ulen as int,
            25 + ulen as int,
        ));
    }
    if tag == FULL_TAG {
        if rem - 25 - ulen64 < 8 {
            return None;
        }
        let plen64 = read_u64_at(data, pos + 25 + ulen);
        proof {
            assert(data@.subrange(pos + 25 + ulen as int, pos + 33 + ulen as int) =~= s.subrange(
                25 + ulen as int,
                33 + ulen as int,
            ));
        }
        if plen64 > rem - 33 - ulen64 || rem - 33 - ulen64 - plen64 < 8 {
            return None;
        }
        let plen = plen64 as usize;
        let payload_type = read_bytes(data, pos + 33 + ulen, plen);
        let blen64 = read_u64_at(data, pos + 33 + ulen + plen);
        proof {
            assert(data@.subrange(pos + 33 + ulen as int, pos + 33 + ulen + plen as int)
                =~= s.subrange(33 + ulen as int, 33 + ulen + plen as int));
            assert(data@.subrange(pos + 33 + ulen + plen as int, pos + 41 + ulen + plen as int)
                =~= s.subrange(33 + ulen + plen as int, 41 + ulen + plen as int));
        }
        if blen64 > rem - 41 - ulen64 - plen64 {
            return None;
        }
        let blen = blen64 as usize;
        let body = read_bytes(data, pos + 41 + ulen + plen, blen);
        proof {
            assert(data@.subrange(
                pos + 41 + ulen + plen as int,
                pos + 41 + ulen + plen + blen as int,
            ) =~= s.subrange(41 + ulen + plen as int, 41 + ulen + plen + blen as int));
        }
        let rec = ArchiveRecord {
            url,
            date_unix_ms: date,
            fetch_time_ms: fetch,
            payload: RecordPayload::Full { payload_type, body },
        };
        Some((rec, pos + 41 + ulen + plen + blen))
    } else if tag == REVISIT_TAG {
        if rem - 25 - ulen64 < 8 {
            return None;
        }
        let of_ordinal = read_u64_at(data, pos + 25 + ulen);
        proof {
            assert(data@.subrange(pos + 25 + ulen as int, pos + 33 + ulen as int) =~= s.subrange(
                25 + ulen as int,
                33 + ulen as int,
            ));
        }
        let rec = ArchiveRecord {
            url,
            date_unix_ms: date,
            fetch_time_ms: fetch,
            payload: RecordPayload::Revisit { of_ordinal },
        };
        Some((rec, pos + 33 + ulen))
    } else {
        None
    }
}

/// Decodes a whole archive buffer back into its records.
pub fn decode_archive_bytes(data: &Vec<u8>) -> (r: Option<Vec<ArchiveRecord>>)
    ensures
        match r {
            Some(v) => spec_decode_archive(data@) == Some(
                v@.map_values(|rec: ArchiveRecord| rec@),
            ),
            None => spec_decode_archive(data@) is None,
        },
{
    let mut out: Vec<ArchiveRecord> = Vec::new();
    let mut pos: usize = 0;
    proof {
        assert(data@.skip(0) =~= data@);
        assert(out@.map_values(|rec: ArchiveRecord| rec@) =~= Seq::<RecordView>::empty());
        match spec_decode_archive(data@) {
            None => {},
            Some(rest) => {
                assert(Seq::<RecordView>::empty() + rest =~= rest);
            },
        }
    }
    while pos < data.len()
        invariant
            pos <= data@.len(),
            spec_decode_archive(data@) == (match spec_decode_archive(data@.skip(pos as int)) {
                None => None::<Seq<RecordView>>,
                Some(rest) => Some(out@.map_values(|rec: ArchiveRecord| rec@) + rest),
            }),
        decreases data@.len() - pos,
    {
        let ghost s = data@.skip(pos as int);
        match decode_record_at(data, pos) {
            None => {
                assert(spec_decode_archive(s) is None);
                return None;
            },
            Some((rec, next)) => {
                proof {
                    assert(s.skip(next - pos) =~= data@.skip(next as int));
                    assert(spec_decode_archive(s) == (match spec_decode_archive(
                        data@.skip(next as int),
                    ) {
                        None => None::<Seq<RecordView>>,
                        Some(rest) => Some(seq![rec@] + rest),
                    }));
                    assert(out@.push(rec).map_values(|x: ArchiveRecord| x@) =~= out@.map_values(
                        |x: ArchiveRecord| x@,
                    ).push(rec@));
                    match spec_decode_archive(data@.skip(next as int)) {
                        None => {},
                        Some(rest) => {
                            assert(out@.map_values(|x: ArchiveRecord| x@) + (seq![rec@] + rest)
                                =~= out@.map_values(|x: ArchiveRecord| x@).push(rec@) + rest);
                        },
                    }
                }
                out.push(rec);
                pos = next;
            },
        }
    }
    proof {
        assert(data@.skip(pos as int) =~= Seq::<u8>::empty());
        assert(spec_decode_archive(data@.skip(pos as int)) == Some(Seq::<RecordView>::empty()));
        assert(out@.map_values(|rec: ArchiveRecord| rec@) + Seq::<RecordView>::empty()
            =~= out@.map_values(|rec: ArchiveRecord| rec@));
    }
    Some(out)
}

/// Appends the encoding of `rec` to `buf`.
pub fn encode_record_into(buf: &mut Vec<u8>, rec: &ArchiveRecord)
    ensures
        final(buf)@ == old(buf)@ + spec_encode_record(rec@),
        valid_record(rec@),
{
    match &rec.payload {
        RecordPayload::Full { .. } => buf.push(FULL_TAG),
        RecordPayload::Revisit { .. } => buf.push(REVISIT_TAG),
    }
    push_u64(buf, rec.url.len() as u64);
    push_bytes(buf, &rec.url);
    push_u64(buf, rec.date_unix_ms);
    push_u64(buf, rec.fetch_time_ms);
    match &rec.payload {
        RecordPayload::Full { payload_type, body } => {
            push_u64(buf, payload_type.len() as u64);
            push_bytes(buf, payload_type);
            push_u64(buf, body.len() as u64);
            push_bytes(buf, body);
        },
        RecordPayload::Revisit { of_ordinal } => {
            push_u64(buf, *of_ordinal);
        },
    }
    assert(buf@ =~= old(buf)@ + spec_encode_record(rec@));
}

} // verus!
