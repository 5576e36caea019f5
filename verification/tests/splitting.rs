use linechunks::LineChunks;
use linechunks::LineSplitParse;
use linechunks::SliceSource;

/// Split a chunk with the identity transform and collect the lines.
fn lines_of(chunk: &[u8]) -> Vec<Vec<u8>> {
    let mut split = LineSplitParse::new(chunk.to_vec(), |s: &[u8]| s.to_vec());
    let mut out = Vec::new();
    while let Some(line) = split.next() {
        out.push(line);
    }
    out
}

#[test]
fn blank_lines_are_skipped() {
    assert_eq!(
        lines_of(b"a\nb\n\nc"),
        vec![b"a".to_vec(), b"b".to_vec(), b"c".to_vec()]
    );
}

#[test]
fn missing_trailing_terminator() {
    assert_eq!(lines_of(b"a\nb"), vec![b"a".to_vec(), b"b".to_vec()]);
}

#[test]
fn trailing_terminator_leaves_no_empty_tail() {
    assert_eq!(lines_of(b"a\n"), vec![b"a".to_vec()]);
}

#[test]
fn empty_chunk_has_no_lines() {
    assert_eq!(lines_of(b""), Vec::<Vec<u8>>::new());
}

#[test]
fn only_terminators_yield_nothing() {
    assert_eq!(lines_of(b"\n\n\n"), Vec::<Vec<u8>>::new());
}

#[test]
fn exhausted_splitter_stays_exhausted() {
    let mut split = LineSplitParse::new(b"one\n".to_vec(), |s: &[u8]| s.len());
    assert_eq!(split.next(), Some(3));
    assert_eq!(split.next(), None);
    assert_eq!(split.next(), None);
}

#[test]
fn transform_sees_each_line_once() {
    let mut split = LineSplitParse::new(b"ab\ncdef\n\ng".to_vec(), |s: &[u8]| s.len());
    assert_eq!(split.next(), Some(2));
    assert_eq!(split.next(), Some(4));
    assert_eq!(split.next(), Some(1));
    assert_eq!(split.next(), None);
}

#[test]
fn transform_may_skip_lines() {
    let mut split = LineSplitParse::new(
        b"keep\nno\nkeep2\n".to_vec(),
        |s: &[u8]| if s.starts_with(b"keep") { Some(s.to_vec()) } else { None },
    );
    let mut kept = Vec::new();
    while let Some(item) = split.next() {
        if let Some(line) = item {
            kept.push(line);
        }
    }
    assert_eq!(kept, vec![b"keep".to_vec(), b"keep2".to_vec()]);
}

#[test]
fn chunked_words_split_back_to_the_input_lines() {
    let mut input = Vec::new();
    let mut expected = Vec::new();
    for i in 0..200 {
        let word = format!("entry-{i}");
        expected.push(word.as_bytes().to_vec());
        input.extend_from_slice(word.as_bytes());
        input.push(b'\n');
    }
    let mut engine = LineChunks::new(32, SliceSource::new(input.clone()));
    let mut collected: Vec<Vec<u8>> = Vec::new();
    loop {
        match engine.next() {
            None => break,
            Some(Err(e)) => panic!("unexpected error {e:?}"),
            Some(Ok(chunk)) => {
                assert_eq!(*chunk.last().unwrap(), b'\n');
                let mut split = LineSplitParse::new(chunk, |s: &[u8]| s.to_vec());
                while let Some(line) = split.next() {
                    assert!(!line.is_empty());
                    assert!(!line.contains(&b'\n'));
                    collected.push(line);
                }
            }
        }
    }
    assert_eq!(collected, expected);
}
