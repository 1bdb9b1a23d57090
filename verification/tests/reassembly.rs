use cai::sse::{SseResponse, SseStreamError, SseStreamReader};

#[test]
fn parse_sse_streams() {
    let mut sut = SseStreamReader::new();
    let stream = "event: content_block_delta\ndata: dddd\n\n";

    let chunk = sut.maybe_parse(stream).unwrap();

    assert_eq!(
        chunk.unwrap(),
        vec![
            SseResponse::Event("content_block_delta".to_string()),
            SseResponse::Data("dddd".to_string())
        ]
    );

    let mut sut = SseStreamReader::new();
    let stream = "data: {\"id\":1}\r\n\r\nevent: message\r\n\r\ndata: {\"id\":2}\r\n\r\n";

    let chunk = sut.maybe_parse(stream).unwrap();

    assert_eq!(
        chunk.unwrap(),
        vec![
            SseResponse::Data("{\"id\":1}".to_string()),
            SseResponse::Event("message".to_string()),
            SseResponse::Data("{\"id\":2}".to_string())
        ]
    );

    let mut sut = SseStreamReader::new();
    let stream = "data: {\"id\":1}\n\nevent: message\n\ndata: {\"id\":2}\n\n";
    let chunk = sut.maybe_parse(stream).unwrap();
    assert_eq!(
        chunk.unwrap(),
        vec![
            SseResponse::Data("{\"id\":1}".to_string()),
            SseResponse::Event("message".to_string()),
            SseResponse::Data("{\"id\":2}".to_string())
        ]
    );
    let interrupted_stream = "data: {\"id\":1}\n\ndata:";
    let none = sut.maybe_parse(interrupted_stream).unwrap();
    assert_eq!(none, None);

    let continuation_stream = " {\"id\":2}\n\n";
    let chunk = sut.maybe_parse(continuation_stream).unwrap();
    assert_eq!(
        chunk.unwrap(),
        vec![
            SseResponse::Data("{\"id\":1}".to_string()),
            SseResponse::Data("{\"id\":2}".to_string())
        ]
    );
}

#[test]
fn chunk_ending_on_a_delimiter_buffers_nothing() {
    let mut reader = SseStreamReader::new();
    let frames = reader.maybe_parse("data: x\n\n").unwrap().unwrap();
    assert_eq!(frames, vec![SseResponse::Data("x".to_string())]);
    // nothing was buffered: the next chunk parses on its own
    let frames = reader.maybe_parse("data: y\n\n").unwrap().unwrap();
    assert_eq!(frames, vec![SseResponse::Data("y".to_string())]);
}

#[test]
fn malformed_record_fails_the_stream() {
    let mut reader = SseStreamReader::new();
    let err = reader.maybe_parse("foo: bar\n\n");
    assert_eq!(
        err,
        Err(SseStreamError::Malformed("foo: bar".to_string()))
    );
}

#[test]
fn reassembly_limit_is_enforced() {
    let mut reader = SseStreamReader::new();
    for _ in 0..10 {
        // never a complete record: each chunk is buffered
        assert_eq!(reader.maybe_parse("x").unwrap(), None);
    }
    assert_eq!(reader.maybe_parse("x"), Err(SseStreamError::LimitExceeded));
}

#[test]
fn fragmentation_at_every_boundary_matches_one_pass() {
    let payload = "event: message\ndata: hi\n\ndata: {\"id\":1}\n\nretry: 5\n\n";
    let one_pass = SseResponse::from_chunk(payload).unwrap();

    let boundaries: Vec<usize> = (0..=payload.len()).collect();
    for cut in boundaries {
        if !payload.is_char_boundary(cut) {
            continue;
        }
        let mut reader = SseStreamReader::new();
        let mut collected: Vec<SseResponse> = Vec::new();
        for part in [&payload[..cut], &payload[cut..]] {
            if let Some(frames) = reader.maybe_parse(part).unwrap() {
                collected.extend(frames);
            }
        }
        assert_eq!(collected, one_pass, "split at byte {cut} diverged");
    }
}
