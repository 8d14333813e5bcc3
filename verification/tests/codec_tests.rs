use minikafka::codec::decode_index_entry;
use minikafka::naming::format_base_offset;
use minikafka::naming::format_u64;
use minikafka::naming::index_file_name;
use minikafka::naming::log_file_name;
use minikafka::naming::partition_dir;
use minikafka::codec::decode_record;
use minikafka::codec::encode_index_entry;
use minikafka::codec::encode_record;
use minikafka::u32_from_be_bytes;
use minikafka::u32_to_be_bytes;
use minikafka::retention::clean_old_segments_plan;
use minikafka::retention::MAX_LOG_SIZE;
use minikafka::retention::RETENTION_SECS;
use minikafka::u64_from_be_bytes;
use minikafka::u64_to_be_bytes;

#[test]
fn test_u64_big_endian_exact() {
    let bytes = u64_to_be_bytes(0x0102030405060708);
    assert_eq!(bytes, vec![1, 2, 3, 4, 5, 6, 7, 8]);
    assert_eq!(u64_from_be_bytes(&bytes), 0x0102030405060708);
    assert_eq!(u64_to_be_bytes(u64::MAX), vec![0xFF; 8]);
    assert_eq!(u64_from_be_bytes(&[0; 8]), 0);
}

#[test]
fn test_u32_big_endian_exact() {
    let bytes = u32_to_be_bytes(0xA1B2C3D4);
    assert_eq!(bytes, vec![0xA1, 0xB2, 0xC3, 0xD4]);
    assert_eq!(u32_from_be_bytes(&bytes), 0xA1B2C3D4);
}

// A record decodes to the offset and payload it was encoded from, for
// short and empty payloads alike.
#[test]
fn test_record_roundtrip() {
    let payload = vec![1, 2, 3];
    let encoded = encode_record(7, &payload);
    assert_eq!(encoded.len(), 15);
    assert_eq!(&encoded[..8], &[0, 0, 0, 0, 0, 0, 0, 7]);
    assert_eq!(&encoded[8..12], &[0, 0, 0, 3]);
    assert_eq!(&encoded[12..], &[1, 2, 3]);
    let (offset, decoded) = decode_record(&encoded).unwrap();
    assert_eq!(offset, 7);
    assert_eq!(decoded, payload);

    let empty = encode_record(0, &[]);
    assert_eq!(empty.len(), 12);
    let (offset, decoded) = decode_record(&empty).unwrap();
    assert_eq!(offset, 0);
    assert_eq!(decoded, Vec::<u8>::new());
}

// A truncated record decodes to nothing.
#[test]
fn test_partial_record_rejected() {
    let encoded = encode_record(1, &[5, 6, 7, 8]);
    assert!(decode_record(&encoded[..encoded.len() - 1]).is_none());
    assert!(decode_record(&encoded[..6]).is_none());
}

// An index entry decodes to the offset and position it was encoded from.
#[test]
fn test_index_entry_roundtrip() {
    let encoded = encode_index_entry(300, 12345);
    assert_eq!(encoded.len(), 16);
    let (offset, position) = decode_index_entry(&encoded).unwrap();
    assert_eq!(offset, 300);
    assert_eq!(position, 12345);
    assert!(decode_index_entry(&encoded[..15]).is_none());
}

// The retention sweep flags segments past the size budget or the age
// window, in file order.
#[test]
fn test_retention_plan() {
    let now = RETENTION_SECS + 1000;
    let segments = vec![
        (100, now - 10),
        (MAX_LOG_SIZE, now - 20),
        (5, now - RETENTION_SECS - 1),
    ];
    let flags = clean_old_segments_plan(&segments, now);
    assert_eq!(flags, vec![false, true, true]);
}

// Segment files carry the base offset as exactly twenty digits.
#[test]
fn test_segment_file_names() {
    assert_eq!(format_base_offset(0), "00000000000000000000");
    assert_eq!(format_base_offset(1234), "00000000000000001234");
    assert_eq!(format_base_offset(u64::MAX), "18446744073709551615");
    assert_eq!(log_file_name(2), "00000000000000000002.log");
    assert_eq!(index_file_name(2), "00000000000000000002.index");
}

// A partition directory joins base directory, topic and id.
#[test]
fn test_partition_dir_name() {
    assert_eq!(format_u64(0), "0");
    assert_eq!(format_u64(105), "105");
    assert_eq!(
        partition_dir(&"/tmp/ba".to_string(), &"t".to_string(), 2),
        "/tmp/ba/t-2"
    );
}
