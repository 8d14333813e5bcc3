use minikafka::errors::StorageError;
use minikafka::segment::IoResult;
use minikafka::segment::LogSegment;

// Reopen a segment from the images another segment holds, as a process
// restart would.
fn reopen(segment: &LogSegment) -> LogSegment {
    LogSegment::open(
        segment.base_offset,
        segment.max_segment_size,
        segment.log.clone(),
        segment.mmap_index.as_bytes().clone(),
    )
    .expect("reopen failed")
}

#[test]
fn test_offset() {
    let mut log = LogSegment::create(0, 1024 * 1024);
    for except_offset in 0..3u64 {
        match log.append_message(b"ABCDEFGHIJKLMNOPQRSTUVWXYZ1") {
            IoResult::Success(offset) => {
                assert_eq!(offset, except_offset, "message offset is error");
            }
            IoResult::SegmentFull => {
                println!("SegmentFull");
            }
        };
    }

    let mut newlog = reopen(&log);
    for new_except_offset in 3..100u64 {
        match newlog.append_message(b"ABCDEFGHIJKLMNOPQRSTUVWXYZ1") {
            IoResult::Success(new_offset) => {
                assert_eq!(new_offset, new_except_offset, "message offset is error");
            }
            IoResult::SegmentFull => {
                println!("SegmentFull");
            }
        };
    }
}

#[test]
fn test() {
    let mut log = LogSegment::create(0, 1024 * 1024);
    test_read_write_times(&mut log);
    for _ in 1..300 {
        test_read_write_times(&mut log);
    }
    for _ in 1..300 {
        test_write_times(&mut log);
    }
    for offset in 0..601u64 {
        test_read_times(&mut log, offset);
    }
}

fn test_read_times(log: &mut LogSegment, offset: u64) {
    let message = log.read_message(offset);
    if offset < log.next_offset {
        assert!(message.is_some());
    }
}

fn test_write_times(log: &mut LogSegment) {
    let msg1 = b"ABCDEFGHIJKLMNOPQRSTUVWXYZ1";
    let msg2 = b"QWERTYUIOPASDFGHJKLZXCVBNM22";
    let msg3 = b"1234567890123456789012345678XXX";

    assert!(matches!(log.append_message(msg1), IoResult::Success(_)));
    assert!(matches!(log.append_message(msg2), IoResult::Success(_)));
    assert!(matches!(log.append_message(msg3), IoResult::Success(_)));
}

fn test_read_write_times(log: &mut LogSegment) {
    let msg1 = b"ABCDEFGHIJKLMNOPQRSTUVWXYZ1";
    let msg2 = b"QWERTYUIOPASDFGHJKLZXCVBNM22";
    let msg3 = b"1234567890123456789012345678XXX";

    match log.append_message(msg1) {
        IoResult::Success(offset) => {
            let message = log.read_message(offset);
            assert_eq!(message, Some(msg1.to_vec()));
        }
        IoResult::SegmentFull => {
            println!("SegmentFull");
        }
    };

    match log.append_message(msg2) {
        IoResult::Success(offset) => {
            let message = log.read_message(offset);
            assert_eq!(message, Some(msg2.to_vec()));
        }
        IoResult::SegmentFull => {
            println!("SegmentFull");
        }
    };

    match log.append_message(msg3) {
        IoResult::Success(offset) => {
            let message = log.read_message(offset);
            assert_eq!(message, Some(msg3.to_vec()));
        }
        IoResult::SegmentFull => {
            println!("SegmentFull");
        }
    };
}

// The sparse index gains one entry per hundred records: offsets 0, 100
// and 200 after 250 appends, and a read between entries scans forward
// from the floor entry.
#[test]
fn test_sparse_index_reads() {
    let mut log = LogSegment::create(0, 1024 * 1024);
    for n in 0..250u64 {
        let payload = format!("msg-{}", n).into_bytes();
        assert!(matches!(log.append_message(&payload), IoResult::Success(_)));
    }
    assert_eq!(log.mmap_index.len_entries(), 3);
    assert_eq!(log.mmap_index.entry_at(0).0, 0);
    assert_eq!(log.mmap_index.entry_at(1).0, 100);
    assert_eq!(log.mmap_index.entry_at(2).0, 200);
    assert_eq!(log.read_message(150), Some(b"msg-150".to_vec()));
}

// Crash recovery: reopening the images of a hundred appended records
// finds all of them and hands the next append offset one hundred.
#[test]
fn test_crash_recovery_walk() {
    let mut log = LogSegment::create(0, 1024 * 1024);
    for n in 0..100u64 {
        let payload = format!("record-{}", n).into_bytes();
        assert!(matches!(log.append_message(&payload), IoResult::Success(_)));
    }
    let mut recovered = reopen(&log);
    assert_eq!(recovered.next_offset, 100);
    assert!(matches!(recovered.append_message(b"after"), IoResult::Success(100)));
    assert_eq!(recovered.read_message(99), Some(b"record-99".to_vec()));
}

// A partial trailing record is cut off at reopen; the next append lands
// on the clean boundary it leaves.
#[test]
fn test_partial_tail_truncated() {
    let mut log = LogSegment::create(0, 1024 * 1024);
    assert!(matches!(log.append_message(b"whole"), IoResult::Success(0)));
    let clean_len = log.log.len();
    let mut bytes = log.log.clone();
    bytes.extend_from_slice(&[0, 0, 0, 0, 0, 0]);
    let recovered = LogSegment::open(0, 1024 * 1024, bytes, log.mmap_index.as_bytes().clone())
        .expect("open failed");
    assert_eq!(recovered.next_offset, 1);
    assert_eq!(recovered.log.len(), clean_len);
    assert_eq!(recovered.read_message(0), Some(b"whole".to_vec()));
}

// Images whose offsets do not run from the base are corrupt.
#[test]
fn test_corrupt_offsets_rejected() {
    let mut log = LogSegment::create(0, 1024 * 1024);
    assert!(matches!(log.append_message(b"zero"), IoResult::Success(0)));
    let r = LogSegment::open(5, 1024 * 1024, log.log.clone(), Vec::new());
    assert_eq!(r.err(), Some(StorageError::CorruptLog));
}

// An index entry pointing nowhere is corrupt.
#[test]
fn test_corrupt_index_rejected() {
    let mut log = LogSegment::create(0, 1024 * 1024);
    assert!(matches!(log.append_message(b"zero"), IoResult::Success(0)));
    let mut index = vec![0u8; 16];
    index[15] = 3;
    let r = LogSegment::open(0, 1024 * 1024, log.log.clone(), index);
    assert_eq!(r.err(), Some(StorageError::CorruptLog));
}

// An empty payload appends and reads back as zero-length.
#[test]
fn test_empty_payload_roundtrip() {
    let mut log = LogSegment::create(0, 1024);
    assert!(matches!(log.append_message(b""), IoResult::Success(0)));
    assert_eq!(log.read_message(0), Some(Vec::new()));
}

// A payload of exactly the bound minus the header fits an empty segment.
#[test]
fn test_exact_fit_payload() {
    let mut log = LogSegment::create(0, 64);
    let payload = [9u8; 64 - 12];
    assert!(matches!(log.append_message(&payload), IoResult::Success(0)));
    assert_eq!(log.get_size(), 64);
    assert_eq!(log.read_message(0), Some(payload.to_vec()));
    assert!(matches!(log.append_message(b"x"), IoResult::SegmentFull));
}

// A read at or past the next offset finds nothing.
#[test]
fn test_read_past_next_offset() {
    let mut log = LogSegment::create(0, 1024);
    assert_eq!(log.read_message(0), None);
    assert!(matches!(log.append_message(b"a"), IoResult::Success(0)));
    assert_eq!(log.read_message(1), None);
}
