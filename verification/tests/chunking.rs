use linechunks::ChunkError;
use linechunks::FailingSource;
use linechunks::LineChunks;
use linechunks::ReadError;
use linechunks::SliceSource;

/// Drain an engine over an in-memory source, returning every chunk it
/// emitted and the error that ended it, if any.
fn chunk_all(chunksize: usize, data: &[u8]) -> (Vec<Vec<u8>>, Option<ChunkError>) {
    let mut engine = LineChunks::new(chunksize, SliceSource::new(data.to_vec()));
    drain(&mut engine)
}

fn drain<R: linechunks::ByteSource>(engine: &mut LineChunks<R>) -> (Vec<Vec<u8>>, Option<ChunkError>) {
    let mut chunks = Vec::new();
    let mut error = None;
    loop {
        match engine.next() {
            None => break,
            Some(Ok(c)) => chunks.push(c),
            Some(Err(e)) => {
                assert!(error.is_none(), "a second error item after the first");
                error = Some(e);
            }
        }
    }
    (chunks, error)
}

fn concat(chunks: &[Vec<u8>]) -> Vec<u8> {
    let mut out = Vec::new();
    for c in chunks {
        out.extend_from_slice(c);
    }
    out
}

#[test]
fn scenario_chunk_size_eight() {
    let input = b"12345\n1234567890\n12\n";
    assert_eq!(input.len(), 20);
    let (chunks, error) = chunk_all(8, input);
    assert!(error.is_none());
    let total: usize = chunks.iter().map(|c| c.len()).sum();
    assert_eq!(total, 20);
    for (i, c) in chunks.iter().enumerate() {
        if i + 1 < chunks.len() {
            assert!(c.len() >= 6);
            assert_eq!(*c.last().unwrap(), b'\n');
        }
    }
    assert_eq!(concat(&chunks), input.to_vec());
    assert_eq!(chunks, vec![b"12345\n".to_vec(), b"1234567890\n12\n".to_vec()]);
}

#[test]
fn empty_input_yields_zero_items() {
    let mut engine = LineChunks::new(8, SliceSource::new(Vec::new()));
    assert!(engine.next().is_none());
    assert!(engine.next().is_none());
}

#[test]
fn oversized_unterminated_input_fails_once() {
    let mut engine = LineChunks::new(4, SliceSource::new(vec![b'a'; 20]));
    engine.max_line(10);
    let (chunks, error) = drain(&mut engine);
    assert!(chunks.is_empty());
    assert_eq!(error, Some(ChunkError::LineTooLong { len: 12 }));
    assert!(engine.next().is_none());
}

#[test]
fn default_max_line_bound_trips() {
    let (chunks, error) = chunk_all(8, &vec![b'0'; 300]);
    assert!(chunks.is_empty());
    assert_eq!(error, Some(ChunkError::LineTooLong { len: 264 }));
}

#[test]
fn immediate_source_failure() {
    let mut engine = LineChunks::new(4, FailingSource::new(b"abc".to_vec(), 7));
    let (chunks, error) = drain(&mut engine);
    assert!(chunks.is_empty());
    assert_eq!(
        error,
        Some(ChunkError::SourceFailure { err: ReadError { code: 7 } })
    );
    assert!(engine.next().is_none());
}

#[test]
fn mid_stream_source_failure() {
    let mut engine = LineChunks::new(4, FailingSource::new(b"hello\nworld".to_vec(), 100));
    engine.min_chunk(3);
    let (chunks, error) = drain(&mut engine);
    assert_eq!(chunks, vec![b"hello\n".to_vec()]);
    assert_eq!(
        error,
        Some(ChunkError::SourceFailure { err: ReadError { code: 100 } })
    );
    assert!(engine.next().is_none());
}

#[test]
fn short_chunks_grow_to_the_floor() {
    let input = b"a\nb\nc\nd\ne\nf\n";
    let mut engine = LineChunks::new(4, SliceSource::new(input.to_vec()));
    engine.min_chunk(6);
    let (chunks, error) = drain(&mut engine);
    assert!(error.is_none());
    assert_eq!(chunks, vec![b"a\nb\nc\nd\n".to_vec(), b"e\nf\n".to_vec()]);
    for (i, c) in chunks.iter().enumerate() {
        if i + 1 < chunks.len() {
            assert!(c.len() >= 6);
        }
        assert_eq!(*c.last().unwrap(), b'\n');
    }
    assert_eq!(concat(&chunks), input.to_vec());
}

#[test]
fn terminal_chunk_may_lack_terminator() {
    let input = b"abc\ndefg";
    let (chunks, error) = chunk_all(4, input);
    assert!(error.is_none());
    assert_eq!(chunks, vec![b"abc\n".to_vec(), b"defg".to_vec()]);
    assert_eq!(concat(&chunks), input.to_vec());
}

#[test]
fn lossless_reassembly_of_many_lines() {
    let mut input = Vec::new();
    for i in 0..500 {
        input.extend_from_slice(format!("word-{i}\n").as_bytes());
    }
    let (chunks, error) = chunk_all(64, &input);
    assert!(error.is_none());
    for c in &chunks {
        assert!(!c.is_empty());
        assert_eq!(*c.last().unwrap(), b'\n');
    }
    assert_eq!(concat(&chunks), input);
}

#[test]
fn one_long_line_grows_past_chunksize() {
    let mut input = vec![b'x'; 50];
    input.push(b'\n');
    input.extend_from_slice(b"tail\n");
    let (chunks, error) = chunk_all(8, &input);
    assert!(error.is_none());
    assert_eq!(concat(&chunks), input);
    assert!(chunks[0].len() > 8);
    assert_eq!(*chunks[0].last().unwrap(), b'\n');
}

#[test]
fn chunksize_one_still_aligns() {
    let input = b"ab\ncd\n";
    let (chunks, error) = chunk_all(1, input);
    assert!(error.is_none());
    assert_eq!(chunks, vec![b"ab\n".to_vec(), b"cd\n".to_vec()]);
    assert_eq!(concat(&chunks), input.to_vec());
}

#[test]
fn huge_chunksize_emits_one_terminal_chunk() {
    let input = b"a\nb\nc\n";
    let (chunks, error) = chunk_all(1usize << 40, input);
    assert!(error.is_none());
    assert_eq!(chunks, vec![input.to_vec()]);
}
