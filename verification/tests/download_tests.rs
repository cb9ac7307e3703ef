use streamdl::downloader::{download, ChunkArrival, StreamingDownloader, TransportError};
use streamdl::errors::DownloadError;

fn ok_chunk(bytes: &[u8], at_ms: u64) -> ChunkArrival {
    ChunkArrival { chunk: Ok(bytes.to_vec()), at_ms }
}

fn failed_chunk(at_ms: u64) -> ChunkArrival {
    ChunkArrival { chunk: Err(TransportError), at_ms }
}

#[test]
fn success_writes_every_byte_in_order() {
    let events = vec![
        ok_chunk(b"abc", 0),
        ok_chunk(b"", 100),
        ok_chunk(b"defgh", 200),
        ok_chunk(b"ij", 300),
    ];
    let mut sink: Vec<u8> = Vec::new();
    let (result, _lines) = download(&events, 10, 0, &mut sink);
    assert_eq!(result, Ok(10));
    assert_eq!(sink, b"abcdefghij");
}

#[test]
fn progress_is_emitted_when_an_interval_has_passed() {
    let events = vec![ok_chunk(b"abc", 0), ok_chunk(b"de", 1000)];
    let mut sink: Vec<u8> = Vec::new();
    let (result, lines) = download(&events, 5, 0, &mut sink);
    assert_eq!(result, Ok(5));
    assert_eq!(lines, vec!["Downloading [5 B/5 B]".to_string()]);
}

#[test]
fn a_dense_stream_emits_at_most_once_per_interval() {
    let mut events = Vec::new();
    for i in 0..100u64 {
        events.push(ok_chunk(b"x", i * 100));
    }
    let mut sink: Vec<u8> = Vec::new();
    let (result, lines) = download(&events, 100, 0, &mut sink);
    assert_eq!(result, Ok(100));
    // Calls at 0, 100, ..., 9900 ms with a one-second gate: emissions at
    // 1000, 2000, ..., 9000 ms.
    assert_eq!(lines.len(), 9);
    assert_eq!(sink.len(), 100);
}

#[test]
fn rerunning_replaces_prior_sink_contents() {
    let mut sink: Vec<u8> = Vec::new();
    let first = vec![ok_chunk(b"first run contents", 0)];
    let (result, _) = download(&first, 18, 0, &mut sink);
    assert_eq!(result, Ok(18));
    assert_eq!(sink, b"first run contents");

    let second = vec![ok_chunk(b"xy", 0)];
    let (result, _) = download(&second, 2, 0, &mut sink);
    assert_eq!(result, Ok(2));
    // Truncate semantics: the earlier, longer contents are fully replaced.
    assert_eq!(sink, b"xy");
}

#[test]
fn read_error_keeps_exactly_the_prior_chunks() {
    let events = vec![
        ok_chunk(b"one", 0),
        ok_chunk(b"two", 100),
        ok_chunk(b"three", 200),
        failed_chunk(300),
        ok_chunk(b"never", 400),
    ];
    let mut sink: Vec<u8> = Vec::new();
    let (result, _lines) = download(&events, 100, 0, &mut sink);
    assert_eq!(result, Err(DownloadError::StreamReadError));
    assert_eq!(sink, b"onetwothree");
}

#[test]
fn immediate_read_error_writes_nothing() {
    let events = vec![failed_chunk(0)];
    let mut sink: Vec<u8> = Vec::new();
    let (result, lines) = download(&events, 100, 0, &mut sink);
    assert_eq!(result, Err(DownloadError::StreamReadError));
    assert!(sink.is_empty());
    assert!(lines.is_empty());
}

#[test]
fn declared_total_of_the_binary_fetch_drives_the_display() {
    // The declared length, not the bytes seen so far, is the right-hand
    // side of every status line.
    let events = vec![ok_chunk(&[7u8; 1536], 2000)];
    let mut sink: Vec<u8> = Vec::new();
    let (result, lines) = download(&events, 1024 * 1024, 0, &mut sink);
    assert_eq!(result, Ok(1536));
    assert_eq!(lines, vec!["Downloading [1.50 KB/1.00 MB]".to_string()]);
}

#[test]
fn twelve_thousand_bytes_in_arbitrary_chunks() {
    let payload: Vec<u8> = (0..12345u32).map(|i| (i % 251) as u8).collect();
    let mut events = Vec::new();
    let mut offset = 0usize;
    let mut width = 1usize;
    let mut at_ms = 0u64;
    while offset < payload.len() {
        let end = (offset + width).min(payload.len());
        events.push(ok_chunk(&payload[offset..end], at_ms));
        offset = end;
        width = width * 2 + 1;
        at_ms += 700;
    }
    let mut sink: Vec<u8> = Vec::new();
    let (result, _lines) = download(&events, 12345, 0, &mut sink);
    assert_eq!(result, Ok(12345));
    assert_eq!(sink, payload);
}

#[test]
fn per_chunk_core_counts_and_throttles() {
    let mut core = StreamingDownloader::new(100, 0);
    assert_eq!(core.bytes_downloaded(), 0);
    assert_eq!(core.record_chunk(30, 500), None);
    assert_eq!(core.bytes_downloaded(), 30);
    let line = core.record_chunk(30, 1000);
    assert_eq!(line, Some("Downloading [60 B/100 B]".to_string()));
    assert_eq!(core.record_chunk(40, 1500), None);
    assert_eq!(core.bytes_downloaded(), 100);
}
