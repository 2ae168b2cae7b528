use switch_index::stream::{StreamSession, DEFAULT_CHUNK_SIZE};

fn content_of(n: usize) -> Vec<u8> {
    let mut c = Vec::with_capacity(n);
    for i in 0..n {
        c.push((i % 251) as u8);
    }
    c
}

/// Drives a session over `content`, honoring each requested read size,
/// and returns the concatenation of the emitted chunks.
fn drain(declared: u64, content: &[u8]) -> Vec<u8> {
    let mut session = StreamSession::new(declared);
    let mut out = Vec::new();
    let mut pos = 0usize;
    while let Some(size) = session.request_size() {
        let end = (pos + size).min(content.len());
        let data = content[pos..end].to_vec();
        pos = end;
        match session.accept_read(data) {
            Some(chunk) => out.extend_from_slice(&chunk),
            None => break,
        }
    }
    out
}

#[test]
fn streams_exact_content_at_each_size() {
    for n in [0usize, 1, 8191, 8192, 8193, 1_000_000] {
        let content = content_of(n);
        let out = drain(n as u64, &content);
        assert_eq!(out.len(), n);
        assert_eq!(out, content);
    }
}

#[test]
fn request_size_is_bounded() {
    let session = StreamSession::new(100_000);
    assert_eq!(session.request_size(), Some(DEFAULT_CHUNK_SIZE));
    let session = StreamSession::new(10);
    assert_eq!(session.request_size(), Some(10));
    let session = StreamSession::new(0);
    assert_eq!(session.request_size(), None);
}

#[test]
fn early_end_of_file_ends_the_stream_short() {
    let mut session = StreamSession::new(10);
    let chunk = session.accept_read(vec![1, 2, 3, 4]).expect("chunk");
    assert_eq!(chunk, vec![1, 2, 3, 4]);
    assert_eq!(session.request_size(), Some(6));
    assert_eq!(session.accept_read(Vec::new()), None);
    assert_eq!(session.request_size(), None);
}

#[test]
fn overlong_read_is_truncated_to_the_declared_length() {
    let mut session = StreamSession::new(3);
    let chunk = session.accept_read(vec![9, 8, 7, 6, 5]).expect("chunk");
    assert_eq!(chunk, vec![9, 8, 7]);
    assert_eq!(session.request_size(), None);
}

#[test]
fn emitted_total_never_exceeds_declared_length() {
    let content = content_of(20_000);
    let out = drain(12_345, &content);
    assert_eq!(out.len(), 12_345);
    assert_eq!(&out[..], &content[..12_345]);
}
