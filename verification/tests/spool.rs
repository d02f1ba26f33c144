use helixrack::handler::ResponseBody;
use helixrack::spool::{
    BodyAccumulator, BodyReader, SpoolStep, MISSING_CHUNK, REENTRANT_READ, SPOOL_THRESHOLD_BYTES,
};

/// Reads a body whose file, if it gets one, is a vector.
fn read_body(reader: &mut BodyReader<Vec<u8>>, chunks: &[Vec<u8>]) -> Result<ResponseBody<Vec<u8>>, String> {
    reader.begin().map_err(str::to_string)?;
    for chunk in chunks {
        match reader.collect_chunk(Some(chunk)).map_err(str::to_string)? {
            SpoolStep::Buffered => {}
            SpoolStep::Spill => {
                let mut file = reader.buffered().to_vec();
                file.extend_from_slice(chunk);
                reader.spilled(file);
            }
            SpoolStep::Append => {
                let mut file = reader.file().expect("a file").clone();
                file.extend_from_slice(chunk);
                reader.spilled(file);
            }
        }
    }
    reader.conclude(Ok(()))
}

#[test]
fn read_body_rejects_reentrant_calls() {
    let mut reader = BodyReader::<Vec<u8>>::new();
    assert_eq!(reader.begin(), Ok(()));
    assert_eq!(reader.collect_chunk(Some(b"half")), Ok(SpoolStep::Buffered));
    let result = read_body(&mut reader, &[b"chunk".to_vec()]);
    assert_eq!(result.err().as_deref(), Some(REENTRANT_READ));
    assert!(reader.reading());
    assert_eq!(reader.buffered(), b"half");
}

#[test]
fn read_body_succeeds_normally_and_resets_the_guard_afterward() {
    let mut reader = BodyReader::new();
    let result = read_body(&mut reader, &[b"a".to_vec(), b"b".to_vec()])
        .expect("a non-reentrant call should succeed");
    match result {
        ResponseBody::InMemory(bytes) => assert_eq!(bytes, b"ab"),
        ResponseBody::Spooled(_) => panic!("a 2-byte body is far under the threshold"),
    }
    assert!(!reader.reading(), "the guard must reset after a normal call completes");
    assert!(reader.buffered().is_empty());
}

#[test]
fn read_body_spills_to_a_tempfile_past_the_threshold() {
    let chunk_len = SPOOL_THRESHOLD_BYTES;
    let mut reader = BodyReader::new();
    let result = read_body(&mut reader, &[vec![b'x'; chunk_len], vec![b'y'; chunk_len]])
        .expect("a non-reentrant call should succeed");
    let contents = match result {
        ResponseBody::Spooled(file) => file,
        ResponseBody::InMemory(bytes) => {
            panic!("expected Spooled, got InMemory({} bytes)", bytes.len())
        }
    };
    let mut expected = vec![b'x'; chunk_len];
    expected.extend(vec![b'y'; chunk_len]);
    assert_eq!(contents, expected);
    assert!(reader.file().is_none());
}

#[test]
fn a_body_at_the_threshold_stays_in_memory() {
    let mut reader = BodyReader::new();
    let at = read_body(&mut reader, &[vec![1; SPOOL_THRESHOLD_BYTES - 1], vec![2]]);
    match at {
        Ok(ResponseBody::InMemory(bytes)) => assert_eq!(bytes.len(), SPOOL_THRESHOLD_BYTES),
        other => panic!("expected a body in memory, got {other:?}"),
    }
    let past = read_body(&mut reader, &[vec![1; SPOOL_THRESHOLD_BYTES], vec![2], vec![3, 4]]);
    match past {
        Ok(ResponseBody::Spooled(file)) => {
            assert_eq!(file.len(), SPOOL_THRESHOLD_BYTES + 3);
            assert_eq!(file[SPOOL_THRESHOLD_BYTES..], [2, 3, 4]);
        }
        other => panic!("expected a spooled body, got {other:?}"),
    }
}

#[test]
fn a_missing_chunk_is_refused() {
    let mut reader = BodyReader::<()>::new();
    reader.begin().expect("a reading");
    assert_eq!(reader.collect_chunk(None), Err(MISSING_CHUNK));
    assert_eq!(MISSING_CHUNK, "Rack body#each yielded with no argument");
    assert!(reader.reading());
}

#[test]
fn an_abandoned_body_leaves_nothing_behind() {
    let mut reader = BodyReader::<()>::new();
    reader.begin().expect("a reading");
    reader.collect_chunk(Some(b"lost")).expect("a step");
    reader.abandon();
    assert!(!reader.reading());
    assert!(reader.buffered().is_empty());
    reader.begin().expect("another reading");
    match reader.finish() {
        ResponseBody::InMemory(bytes) => assert!(bytes.is_empty()),
        ResponseBody::Spooled(_) => panic!("nothing was spooled"),
    }
}

#[test]
fn a_chunk_that_is_to_be_written_changes_nothing_yet() {
    let mut accumulator = BodyAccumulator::InMemory(b"kept".to_vec());
    assert_eq!(accumulator.spool_chunk(&vec![0; SPOOL_THRESHOLD_BYTES]), SpoolStep::Spill);
    assert_eq!(accumulator.buffered(), b"kept");
    accumulator.spilled(9u8);
    assert_eq!(accumulator.file(), Some(&9));
    assert!(accumulator.buffered().is_empty());
    assert_eq!(accumulator.spool_chunk(b"more"), SpoolStep::Append);
    assert_eq!(accumulator.file(), Some(&9));
}

#[test]
fn the_refusal_says_why() {
    assert_eq!(
        REENTRANT_READ,
        "HelixRack: a Rack response body's #each triggered another request body read on \
         the same thread before the first one finished -- refusing rather than silently \
         corrupting either body"
    );
}

#[test]
fn an_error_is_handed_on_and_leaves_the_reader_at_rest() {
    let mut reader = BodyReader::<Vec<u8>>::new();
    reader.begin().expect("a reading");
    reader.collect_chunk(Some(b"half a body")).expect("a step");
    assert_eq!(reader.conclude(Err("each raised")).err(), Some("each raised"));
    assert!(!reader.reading());
    match read_body(&mut reader, &[b"next".to_vec()]) {
        Ok(ResponseBody::InMemory(bytes)) => assert_eq!(bytes, b"next"),
        other => panic!("expected the next body alone, got {other:?}"),
    }
}
