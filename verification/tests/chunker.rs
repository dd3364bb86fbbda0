use scan2blob::chunker::{self, ChunkOrEof, ChunkerShared, Reader, Writer};

// md5 of the empty input
const HASH_EMPTY: [u8; 16] = [
    0xd4u8, 0x1du8, 0x8cu8, 0xd9u8, 0x8fu8, 0x00u8, 0xb2u8, 0x04u8, 0xe9u8, 0x80u8, 0x09u8,
    0x98u8, 0xecu8, 0xf8u8, 0x42u8, 0x7eu8,
];
// md5 of "Hello, world!"
const HASH_HELLO_WORLD: [u8; 16] = [
    0x6cu8, 0xd3u8, 0x55u8, 0x6du8, 0xebu8, 0x0du8, 0xa5u8, 0x4bu8, 0xcau8, 0x06u8, 0x0bu8,
    0x4cu8, 0x39u8, 0x47u8, 0x98u8, 0x39u8,
];

/// Feeds `data` into the writer, letting the reader drain one chunk
/// whenever the writer runs out of buffers, as the two tasks would
/// interleave in a running deployment.
fn pump_write(
    writer: &mut Writer,
    reader: &mut Reader,
    shared: &mut ChunkerShared,
    data: &[u8],
    chunks: &mut Vec<Vec<u8>>,
) {
    let mut off: usize = 0;
    while off < data.len() {
        let n = writer.write(shared, &data[off..]).expect("write failed");
        off += n;
        if off < data.len() {
            match reader.get_next_chunk(shared).expect("reader failed") {
                Some(ChunkOrEof::Chunk(c)) => chunks.push(c),
                Some(ChunkOrEof::Eof(_)) => panic!("eof before finalize"),
                None => panic!("reader pending while writer starved"),
            }
        }
    }
}

/// Drains the reader to end of stream, returning the digest.
fn drain_to_eof(
    reader: &mut Reader,
    shared: &mut ChunkerShared,
    chunks: &mut Vec<Vec<u8>>,
) -> Vec<u8> {
    loop {
        match reader.get_next_chunk(shared).expect("reader failed") {
            Some(ChunkOrEof::Chunk(c)) => chunks.push(c),
            Some(ChunkOrEof::Eof(d)) => return d,
            None => panic!("reader pending after finalize"),
        }
    }
}

fn finish_both(writer: &mut Writer, reader: &mut Reader, shared: &mut ChunkerShared) {
    reader.finalize(shared).expect("reader finalize failed");
    match writer.finalize_poll(shared) {
        Some(Ok(())) => {}
        other => panic!("writer finalize did not succeed: {:?}", other.is_some()),
    }
}

#[test]
fn write_zero_bytes_creates_no_chunks() {
    let (mut writer, mut reader, mut shared) = chunker::new(1, 4, 10);
    writer.finalize(&mut shared).unwrap();
    let mut chunks: Vec<Vec<u8>> = Vec::new();
    let digest = drain_to_eof(&mut reader, &mut shared, &mut chunks);
    assert_eq!(chunks.len(), 0);
    assert_eq!(digest.as_slice(), &HASH_EMPTY);
    finish_both(&mut writer, &mut reader, &mut shared);
}

#[test]
fn long_writes_get_split_up() {
    let (mut writer, mut reader, mut shared) = chunker::new(1, 4, 10);
    let mut chunks: Vec<Vec<u8>> = Vec::new();
    pump_write(&mut writer, &mut reader, &mut shared, b"Hello, world!", &mut chunks);
    writer.finalize(&mut shared).unwrap();
    let digest = drain_to_eof(&mut reader, &mut shared, &mut chunks);
    let expected: Vec<&[u8]> = vec![b"H", b"el", b"lo, ", b"worl", b"d!"];
    assert_eq!(chunks.len(), expected.len());
    for (chunk, want) in chunks.iter().zip(expected.iter()) {
        assert_eq!(chunk.as_slice(), *want);
    }
    assert_eq!(digest.as_slice(), &HASH_HELLO_WORLD);
    finish_both(&mut writer, &mut reader, &mut shared);
}

#[test]
fn short_writes_get_aggregated() {
    let (mut writer, mut reader, mut shared) = chunker::new(2, 8, 10);
    let mut chunks: Vec<Vec<u8>> = Vec::new();
    for c in b"Hello, world!" {
        pump_write(&mut writer, &mut reader, &mut shared, &[*c], &mut chunks);
    }
    writer.finalize(&mut shared).unwrap();
    let digest = drain_to_eof(&mut reader, &mut shared, &mut chunks);
    let expected: Vec<&[u8]> = vec![b"He", b"llo,", b" world!"];
    assert_eq!(chunks.len(), expected.len());
    for (chunk, want) in chunks.iter().zip(expected.iter()) {
        assert_eq!(chunk.as_slice(), *want);
    }
    assert_eq!(digest.as_slice(), &HASH_HELLO_WORLD);
    finish_both(&mut writer, &mut reader, &mut shared);
}

#[test]
fn writer_goes_away_and_never_calls_finalize() {
    let (mut writer, mut reader, mut shared) = chunker::new(2, 8, 10);
    let mut chunks: Vec<Vec<u8>> = Vec::new();
    pump_write(&mut writer, &mut reader, &mut shared, b"Hello, world!", &mut chunks);
    writer.abandon(&mut shared);
    // The shipped chunks were "He" and "llo,"; the tail was still buffered.
    let expected: Vec<&[u8]> = vec![b"He", b"llo,"];
    assert_eq!(chunks.len(), expected.len());
    for (chunk, want) in chunks.iter().zip(expected.iter()) {
        assert_eq!(chunk.as_slice(), *want);
    }
    let result = reader.get_next_chunk(&mut shared);
    assert!(result.is_err());
}

#[test]
fn reader_reads_data_but_goes_away_before_finalize() {
    let (mut writer, mut reader, mut shared) = chunker::new(2, 8, 10);
    let mut chunks: Vec<Vec<u8>> = Vec::new();
    pump_write(&mut writer, &mut reader, &mut shared, b"Hello, world!", &mut chunks);
    writer.finalize(&mut shared).unwrap();
    let digest = drain_to_eof(&mut reader, &mut shared, &mut chunks);
    let expected: Vec<&[u8]> = vec![b"He", b"llo,", b" world!"];
    assert_eq!(chunks.len(), expected.len());
    for (chunk, want) in chunks.iter().zip(expected.iter()) {
        assert_eq!(chunk.as_slice(), *want);
    }
    assert_eq!(digest.as_slice(), &HASH_HELLO_WORLD);
    reader.abandon(&mut shared);
    let result = writer.finalize_poll(&mut shared);
    assert!(matches!(result, Some(Err(_))));
}

#[test]
fn reader_goes_away_before_fully_reading_data() {
    let (mut writer, mut reader, mut shared) = chunker::new(2, 8, 10);
    let data: &[u8] = b"Hello, world!";
    // The writer ships what fits in the two buffers, then starves.
    let n = writer.write(&mut shared, data).unwrap();
    assert!(n < data.len());
    match reader.get_next_chunk(&mut shared).unwrap() {
        Some(ChunkOrEof::Chunk(c)) => assert_eq!(c.as_slice(), b"He"),
        _ => panic!("expected a chunk"),
    }
    reader.abandon(&mut shared);
    let result = writer.write(&mut shared, &data[n..]);
    assert!(result.is_err());
}

#[test]
fn exactly_max_chunk_count_is_ok() {
    let (mut writer, mut reader, mut shared) = chunker::new(2, 4, 4);
    let mut chunks: Vec<Vec<u8>> = Vec::new();
    pump_write(&mut writer, &mut reader, &mut shared, b"Hello, world!", &mut chunks);
    writer.finalize(&mut shared).unwrap();
    let digest = drain_to_eof(&mut reader, &mut shared, &mut chunks);
    let expected: Vec<&[u8]> = vec![b"He", b"llo,", b" wor", b"ld!"];
    assert_eq!(chunks.len(), expected.len());
    for (chunk, want) in chunks.iter().zip(expected.iter()) {
        assert_eq!(chunk.as_slice(), *want);
    }
    assert_eq!(digest.as_slice(), &HASH_HELLO_WORLD);
    finish_both(&mut writer, &mut reader, &mut shared);
}

#[test]
fn one_more_than_max_chunk_count_is_not_ok() {
    let (mut writer, mut reader, mut shared) = chunker::new(2, 4, 3);
    let data: &[u8] = b"Hello, world!";
    let mut off: usize = 0;
    let mut saw_writer_error = false;
    for _ in 0..10 {
        match writer.write(&mut shared, &data[off..]) {
            Ok(n) => {
                off += n;
                assert!(off < data.len(), "cap should have been exceeded");
                match reader.get_next_chunk(&mut shared) {
                    Ok(Some(ChunkOrEof::Chunk(_))) => {}
                    Ok(_) => panic!("unexpected reader outcome"),
                    Err(_) => panic!("reader errored before the writer hit the cap"),
                }
            }
            Err(e) => {
                assert_eq!(e.message, "Exceeded maximum file size");
                saw_writer_error = true;
                break;
            }
        }
    }
    assert!(saw_writer_error);
    for _ in 0..10 {
        if reader.get_next_chunk(&mut shared).is_err() {
            // Good!
            return;
        }
    }
    panic!("Got too many chunks and never saw an error");
}

#[test]
fn digest_tracks_only_delivered_bytes() {
    // One byte through a fresh pair: the digest at end of stream is the
    // digest of exactly that byte, so a hasher that ignored its input or
    // hashed something else would be caught here.
    let (mut writer, mut reader, mut shared) = chunker::new(4, 4, 4);
    writer.write(&mut shared, b"a").unwrap();
    writer.finalize(&mut shared).unwrap();
    let mut chunks: Vec<Vec<u8>> = Vec::new();
    let digest = drain_to_eof(&mut reader, &mut shared, &mut chunks);
    assert_eq!(chunks.len(), 1);
    assert_eq!(chunks[0].as_slice(), b"a");
    // md5 of "a"
    let want: [u8; 16] = [
        0x0cu8, 0xc1u8, 0x75u8, 0xb9u8, 0xc0u8, 0xf1u8, 0xb6u8, 0xa8u8, 0x31u8, 0xc3u8, 0x99u8,
        0xe2u8, 0x69u8, 0x77u8, 0x26u8, 0x61u8,
    ];
    assert_eq!(digest.as_slice(), &want);
    finish_both(&mut writer, &mut reader, &mut shared);
}
