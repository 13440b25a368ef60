use warc_archiver::actor::{archive_records, generate_archive_name, ArchiveActor};
use warc_archiver::archive::ArchiveEncoder;
use warc_archiver::codec::{decode_archive_bytes, encode_record_into};
use warc_archiver::records::{ArchiveRecord, CrawlDatum, RecordPayload};

fn datum(url: &str, body: &[u8]) -> CrawlDatum {
    CrawlDatum {
        url: url.to_string(),
        date_unix_ms: 1_700_000_000_000,
        body: body.to_vec(),
        payload_type: "text/html".to_string(),
        fetch_time_ms: 12,
    }
}

fn is_full(rec: &ArchiveRecord) -> bool {
    matches!(rec.payload, RecordPayload::Full { .. })
}

#[test]
fn dedup_same_body_twice() {
    let mut enc = ArchiveEncoder::new();
    enc.write(datum("http://a.example/", b"A"));
    assert_eq!(enc.num_writes(), 1);
    assert_eq!(enc.num_unique(), 1);
    let after_first = enc.num_bytes();
    enc.write(datum("http://a.example/again", b"A"));
    assert_eq!(enc.num_writes(), 2);
    assert_eq!(enc.num_unique(), 1);
    assert!(enc.num_bytes() > after_first);
}

#[test]
fn finish_with_no_writes_commits_nothing() {
    let actor = ArchiveActor::new();
    assert!(actor.handle_finish().is_none());
}

#[test]
fn three_bodies_one_archive() {
    let mut actor = ArchiveActor::new();
    assert!(actor.handle_crawl(datum("http://one.example/", b"A")).is_none());
    assert!(actor.handle_crawl(datum("http://two.example/", b"A")).is_none());
    assert!(actor.handle_crawl(datum("http://three.example/", b"B")).is_none());
    let archive = actor.handle_finish().expect("three records were written");
    assert!(archive.name.ends_with(".warc.gz"));
    let records = archive_records(&archive).expect("a committed archive reads back");
    assert_eq!(records.len(), 3);
    assert!(is_full(&records[0]));
    assert!(!is_full(&records[1]));
    assert!(is_full(&records[2]));
    match &records[0].payload {
        RecordPayload::Full { payload_type, body } => {
            assert_eq!(body.as_slice(), b"A");
            assert_eq!(payload_type.as_slice(), b"text/html");
        }
        RecordPayload::Revisit { .. } => panic!("first record must be full"),
    }
    match &records[1].payload {
        RecordPayload::Revisit { of_ordinal } => assert_eq!(*of_ordinal, 0),
        RecordPayload::Full { .. } => panic!("second record must be a revisit marker"),
    }
    match &records[2].payload {
        RecordPayload::Full { body, .. } => assert_eq!(body.as_slice(), b"B"),
        RecordPayload::Revisit { .. } => panic!("third record must be full"),
    }
    assert_eq!(records[0].url.as_slice(), b"http://one.example/");
    assert_eq!(records[1].url.as_slice(), b"http://two.example/");
    assert_eq!(records[2].url.as_slice(), b"http://three.example/");
    assert_eq!(records[0].date_unix_ms, 1_700_000_000_000);
    assert_eq!(records[0].fetch_time_ms, 12);
}

#[test]
fn rotation_commits_all_records_written_before_crossing() {
    // A full record here takes 41 + 1 (url) + 1 (payload type) + 2 (body)
    // = 45 bytes; the first write stays under the threshold, the second
    // crosses it, so exactly one commit holds both records.
    let mut actor = ArchiveActor::with_threshold(50);
    let first = actor.handle_crawl(CrawlDatum {
        url: "a".to_string(),
        date_unix_ms: 1,
        body: b"b1".to_vec(),
        payload_type: "x".to_string(),
        fetch_time_ms: 2,
    });
    assert!(first.is_none());
    let second = actor.handle_crawl(CrawlDatum {
        url: "c".to_string(),
        date_unix_ms: 3,
        body: b"b2".to_vec(),
        payload_type: "y".to_string(),
        fetch_time_ms: 4,
    });
    let archive = second.expect("the second write crosses the threshold");
    let records = archive_records(&archive).expect("a committed archive reads back");
    assert_eq!(records.len(), 2);
    assert_eq!(records[0].url.as_slice(), b"a");
    assert_eq!(records[1].url.as_slice(), b"c");
    // The fresh encoder starts empty: finishing right after a rotation
    // commits nothing.
    assert!(actor.handle_finish().is_none());
}

#[test]
fn ordering_preserved_across_archives() {
    let mut actor = ArchiveActor::with_threshold(45);
    let urls = ["u0", "u1", "u2", "u3", "u4"];
    let bodies: [&[u8]; 5] = [b"d0", b"d1", b"d2", b"d3", b"d4"];
    let mut committed: Vec<Vec<ArchiveRecord>> = Vec::new();
    for i in 0..5 {
        if let Some(archive) = actor.handle_crawl(CrawlDatum {
            url: urls[i].to_string(),
            date_unix_ms: i as u64,
            body: bodies[i].to_vec(),
            payload_type: "t".to_string(),
            fetch_time_ms: i as u64,
        }) {
            committed.push(archive_records(&archive).expect("reads back"));
        }
    }
    if let Some(archive) = actor.handle_finish() {
        committed.push(archive_records(&archive).expect("reads back"));
    }
    let read_back: Vec<&ArchiveRecord> = committed.iter().flatten().collect();
    assert_eq!(read_back.len(), 5);
    for i in 0..5 {
        assert_eq!(read_back[i].url.as_slice(), urls[i].as_bytes());
        assert!(is_full(read_back[i]));
    }
    assert!(committed.len() > 1, "the small threshold must force several archives");
}

#[test]
fn archive_names_carry_timestamp_uuid_and_suffix() {
    let name = generate_archive_name();
    assert!(name.ends_with(".warc.gz"));
    assert!(name.contains('_'));
    // timestamp (nonempty) + '_' + 36-character UUID + ".warc.gz"
    assert!(name.len() > 45);
    let other = generate_archive_name();
    assert_ne!(name, other);
}

#[test]
fn committed_archives_are_gzip_compressed() {
    let mut actor = ArchiveActor::with_threshold(1);
    let archive = actor
        .handle_crawl(datum("http://one.example/", b"A"))
        .expect("a one-byte threshold rotates at once");
    // gzip framing: the member header starts with the two magic bytes;
    // the raw record encoding would start with the full-record tag 0.
    assert_eq!(archive.data[0], 0x1f);
    assert_eq!(archive.data[1], 0x8b);
}

#[test]
fn codec_round_trip() {
    let recs = vec![
        ArchiveRecord {
            url: b"http://x.example/".to_vec(),
            date_unix_ms: 7,
            fetch_time_ms: 8,
            payload: RecordPayload::Full {
                payload_type: b"text/plain".to_vec(),
                body: b"hello".to_vec(),
            },
        },
        ArchiveRecord {
            url: b"http://y.example/".to_vec(),
            date_unix_ms: 9,
            fetch_time_ms: 10,
            payload: RecordPayload::Revisit { of_ordinal: 0 },
        },
    ];
    let mut buf: Vec<u8> = Vec::new();
    for rec in &recs {
        encode_record_into(&mut buf, rec);
    }
    let decoded = decode_archive_bytes(&buf).expect("an encoded archive decodes");
    assert_eq!(decoded.len(), 2);
    assert_eq!(decoded[0].url, recs[0].url);
    assert_eq!(decoded[1].url, recs[1].url);
    assert_eq!(decoded[0].date_unix_ms, 7);
    assert_eq!(decoded[1].fetch_time_ms, 10);
    assert!(is_full(&decoded[0]));
    assert!(!is_full(&decoded[1]));
}

#[test]
fn decoder_rejects_garbage() {
    let garbage = vec![0xffu8; 16];
    assert!(decode_archive_bytes(&garbage).is_none());
    let truncated = vec![0u8; 5];
    assert!(decode_archive_bytes(&truncated).is_none());
}
