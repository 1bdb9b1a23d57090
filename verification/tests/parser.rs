use cai::sse::{SseResponse, SseResponseParseError};

#[test]
fn parse_sse_response() {
    let data = "data:{\"id\":1}\n\ndata:{\"id\":2}\n\n";
    let res = SseResponse::from_chunk(data).unwrap();
    assert_eq!(
        res,
        vec![
            SseResponse::Data("{\"id\":1}".to_string()),
            SseResponse::Data("{\"id\":2}".to_string())
        ]
    );
}

#[test]
fn cases_where_sse_response_is_interrupted() {
    let data = "data:{\"id\":1}\n\nd";
    let err = SseResponse::from_chunk(data);
    assert_eq!(
        err,
        Err(SseResponseParseError::InterruptedData(
            "data:{\"id\":1}\n\nd".to_string()
        ))
    );

    let interrupted_stream = "data: {\"id\":1}\n\ndata:";
    let err = SseResponse::from_chunk(interrupted_stream);

    assert_eq!(
        err,
        Err(SseResponseParseError::InterruptedData(
            "data: {\"id\":1}\n\ndata:".to_string()
        ))
    );
}

#[test]
fn event_record_with_packed_data_yields_two_frames() {
    let frames = SseResponse::from_chunk("event: content_block_delta\ndata: hi\n\n").unwrap();
    assert_eq!(
        frames,
        vec![
            SseResponse::Event("content_block_delta".to_string()),
            SseResponse::Data("hi".to_string())
        ]
    );
}

#[test]
fn event_data_split_happens_at_first_occurrence_only() {
    let frames = SseResponse::from_chunk("event: a\ndata: b\ndata: c\n\n").unwrap();
    assert_eq!(
        frames,
        vec![
            SseResponse::Event("a".to_string()),
            SseResponse::Data("b\ndata: c".to_string())
        ]
    );
}

#[test]
fn crlf_delimiter_wins_even_when_lf_lf_appears_inside_a_value() {
    let frames = SseResponse::from_chunk("data: a\n\nb\r\n\r\n").unwrap();
    assert_eq!(frames, vec![SseResponse::Data("a\n\nb".to_string())]);
}

#[test]
fn id_and_retry_records_are_classified() {
    let frames = SseResponse::from_chunk("id: 7\n\nretry: 100\n\n").unwrap();
    assert_eq!(
        frames,
        vec![SseResponse::Id("7".to_string()), SseResponse::Retry(100)]
    );
    assert_eq!(frames[0].id(), Some("7"));
    assert_eq!(frames[1].retry(), Some(100));
    assert_eq!(frames[0].data(), None);
    assert_eq!(frames[0].event(), None);
}

#[test]
fn unparseable_retry_value_is_dropped() {
    let frames = SseResponse::from_chunk("retry: abc\n\ndata: x\n\n").unwrap();
    assert_eq!(frames, vec![SseResponse::Data("x".to_string())]);
    let frames = SseResponse::from_chunk("retry: 99999999999\n\n").unwrap();
    assert_eq!(frames, Vec::new());
}

#[test]
fn retry_value_accepts_one_leading_plus_sign() {
    let frames = SseResponse::from_chunk("retry: +100\n\n").unwrap();
    assert_eq!(frames, vec![SseResponse::Retry(100)]);
    let frames = SseResponse::from_chunk("retry: ++1\n\n").unwrap();
    assert_eq!(frames, Vec::new());
}

#[test]
fn unknown_prefix_is_a_hard_parse_failure() {
    let err = SseResponse::from_chunk("foo: bar\n\n");
    assert_eq!(
        err,
        Err(SseResponseParseError::InvalidFormat("foo: bar".to_string()))
    );
}

#[test]
fn empty_chunk_yields_no_frames() {
    assert_eq!(SseResponse::from_chunk("").unwrap(), Vec::new());
    assert_eq!(SseResponse::from_chunk("\n\n\n\n").unwrap(), Vec::new());
}
