use scan2blob::destination::{ConfigDestination, Destination, Uploader};
use scan2blob::util::{str_eq, system_time_to_utc_rfc3339, BlobStorageSpec, LiteralOrEnvironmentVariable};

#[test]
fn stringify_systemtime() {
    let t = std::time::SystemTime::UNIX_EPOCH
        + std::time::Duration::from_secs_f64(1758764290.005006);
    let d = t.duration_since(std::time::SystemTime::UNIX_EPOCH).unwrap();
    let s = system_time_to_utc_rfc3339(d.as_secs(), d.subsec_millis());
    assert_eq!(s, "2025-09-25T01:38:10.005Z");

    let t = std::time::SystemTime::UNIX_EPOCH
        + std::time::Duration::from_secs_f64(1758764290.500600);
    let d = t.duration_since(std::time::SystemTime::UNIX_EPOCH).unwrap();
    let s = system_time_to_utc_rfc3339(d.as_secs(), d.subsec_millis());
    assert_eq!(s, "2025-09-25T01:38:10.500Z");
}

#[test]
fn timestamps_are_zero_padded() {
    assert_eq!(system_time_to_utc_rfc3339(0, 0), "1970-01-01T00:00:00.000Z");
    assert_eq!(system_time_to_utc_rfc3339(0, 42), "1970-01-01T00:00:00.042Z");
    assert_eq!(system_time_to_utc_rfc3339(0, 999), "1970-01-01T00:00:00.999Z");
}

#[test]
fn string_equality_follows_contents() {
    assert!(str_eq("hello", "hello"));
    assert!(!str_eq("hello", "hell"));
    assert!(!str_eq("", "x"));
    assert!(str_eq("", ""));
}

fn test_destination() -> Destination {
    let cfg = ConfigDestination {
        blob_storage_spec: BlobStorageSpec {
            storage_account: "acct".to_string(),
            container: "scans".to_string(),
            sas: LiteralOrEnvironmentVariable::Literal("SECRET-REDACTED".to_string()),
            prefix: "in/".to_string(),
        },
        initial_chunk_size: 2,
        max_chunk_size: 8,
    };
    Destination::new("office", &cfg).unwrap()
}

#[test]
fn blob_names_carry_prefix_timestamp_hint_and_suffix() {
    let d = test_destination();
    let with_hint = d.blob_name(1758764290, 5, &Some("jane".to_string()), ".pdf");
    assert_eq!(with_hint, "in/2025-09-25T01:38:10.005Z-jane.pdf");
    let without_hint = d.blob_name(1758764290, 5, &None, ".pdf");
    assert_eq!(without_hint, "in/2025-09-25T01:38:10.005Z.pdf");
}

#[test]
fn destination_refuses_unusable_chunk_sizes() {
    let mut cfg = ConfigDestination {
        blob_storage_spec: BlobStorageSpec {
            storage_account: "acct".to_string(),
            container: "scans".to_string(),
            sas: LiteralOrEnvironmentVariable::Literal("SECRET-REDACTED".to_string()),
            prefix: "".to_string(),
        },
        initial_chunk_size: 0,
        max_chunk_size: 8,
    };
    assert!(Destination::new("office", &cfg).is_err());
    cfg.initial_chunk_size = 16;
    assert!(Destination::new("office", &cfg).is_err());
    cfg.max_chunk_size = 16;
    assert!(Destination::new("office", &cfg).is_ok());
}

#[test]
fn block_ids_count_up_in_big_endian() {
    let mut uploader = Uploader::new("in/blob.pdf".to_string(), "application/pdf".to_string());
    let a = uploader.next_block_id();
    let b = uploader.next_block_id();
    let c = uploader.next_block_id();
    assert_eq!(a, vec![0u8, 0u8]);
    assert_eq!(b, vec![0u8, 1u8]);
    assert_eq!(c, vec![0u8, 2u8]);
    for _ in 0..300 {
        uploader.next_block_id();
    }
    let later = uploader.next_block_id();
    assert_eq!(later, vec![1u8, 47u8]);
    let commit = uploader.commit(vec![0xd4u8; 16]);
    assert_eq!(commit.block_ids.len(), 304);
    assert_eq!(commit.block_ids[0], vec![0u8, 0u8]);
    assert_eq!(commit.block_ids[303], vec![1u8, 47u8]);
    assert_eq!(commit.content_md5, vec![0xd4u8; 16]);
    assert_eq!(commit.content_type, "application/pdf");
}

#[test]
fn chunker_pair_follows_the_destination_policy() {
    let d = test_destination();
    let (writer, _reader, _shared) = d.make_chunker();
    assert_eq!(writer.chunk_size, 2);
    assert_eq!(writer.max_chunk_size, 8);
    assert_eq!(writer.max_num_chunks, 50000);
}
