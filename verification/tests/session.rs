use cai::clients::gai::AdapterKind;
use cai::handlers::{BoundedRecorder, Recorder};
use cai::stream::{StreamPhase, StreamSession};

#[test]
fn session_delivers_normalized_deltas_to_the_sink() {
    let mut session = StreamSession::new(AdapterKind::Claude);
    let mut sink = Recorder::new();
    assert_eq!(session.current_phase(), StreamPhase::Open);

    let chunk = "data: {\"type\":\"content_block_delta\",\"index\":0,\"delta\":{\"type\":\"text_delta\",\"text\":\"Hel\"}}\n\n";
    session.on_chunk(chunk, &mut sink).unwrap();
    assert_eq!(session.current_phase(), StreamPhase::Receiving);

    let chunk = "data: {\"type\":\"content_block_delta\",\"index\":0,\"delta\":{\"type\":\"text_delta\",\"text\":\"lo\"}}\n\n";
    session.on_chunk(chunk, &mut sink).unwrap();

    session.close();
    assert_eq!(session.current_phase(), StreamPhase::Closed);
    assert_eq!(sink.message(), "Hello");
}

#[test]
fn done_sentinel_terminates_without_delivering_that_frame() {
    let mut session = StreamSession::new(AdapterKind::OpenAi);
    let mut sink = Recorder::new();
    session.on_chunk("data: [DONE]\n\n", &mut sink).unwrap();
    assert_eq!(session.current_phase(), StreamPhase::Terminating);
    assert_eq!(sink.message(), "");
    session.close();
    assert_eq!(session.current_phase(), StreamPhase::Closed);
}

#[test]
fn frames_after_termination_are_not_delivered() {
    let mut session = StreamSession::new(AdapterKind::OpenAi);
    let mut sink = Recorder::new();
    let chunk = "data: {\"choices\":[{\"delta\":{\"content\":\"A\"}}],\"created\":1,\"id\":\"x\",\"model\":\"m\",\"object\":\"o\"}\n\ndata: [DONE]\n\ndata: {\"choices\":[{\"delta\":{\"content\":\"B\"}}],\"created\":1,\"id\":\"x\",\"model\":\"m\",\"object\":\"o\"}\n\n";
    session.on_chunk(chunk, &mut sink).unwrap();
    assert_eq!(session.current_phase(), StreamPhase::Terminating);
    assert_eq!(sink.message(), "A");
}

#[test]
fn fragmented_chunks_are_reassembled_before_delivery() {
    let mut session = StreamSession::new(AdapterKind::Gemini);
    let mut sink = Recorder::new();
    session
        .on_chunk("data: {\"candidates\":[{\"content\":{\"par", &mut sink)
        .unwrap();
    assert_eq!(session.current_phase(), StreamPhase::Receiving);
    assert_eq!(sink.message(), "");
    session
        .on_chunk("ts\":[{\"text\":\"Hi\"}],\"role\":\"model\"}}]}\n\n", &mut sink)
        .unwrap();
    assert_eq!(sink.message(), "Hi");
}

#[test]
fn sink_failure_fails_the_whole_request() {
    let mut session = StreamSession::new(AdapterKind::OpenAi);
    let mut sink = BoundedRecorder::new(1);
    let chunk = "data: {\"choices\":[{\"delta\":{\"content\":\"AB\"}}],\"created\":1,\"id\":\"x\",\"model\":\"m\",\"object\":\"o\"}\n\n";
    assert!(session.on_chunk(chunk, &mut sink).is_err());
    assert_eq!(session.current_phase(), StreamPhase::Failed);
    assert_eq!(sink.message(), "");
}

#[test]
fn failed_delivery_stops_after_the_accepted_prefix() {
    let mut session = StreamSession::new(AdapterKind::OpenAi);
    // one-character capacity: the first delta fits, the second is rejected
    let mut sink = BoundedRecorder::new(1);
    let chunk = "data: {\"choices\":[{\"delta\":{\"content\":\"A\"}}],\"created\":1,\"id\":\"x\",\"model\":\"m\",\"object\":\"o\"}\n\ndata: {\"choices\":[{\"delta\":{\"content\":\"BC\"}}],\"created\":1,\"id\":\"x\",\"model\":\"m\",\"object\":\"o\"}\n\ndata: {\"choices\":[{\"delta\":{\"content\":\"D\"}}],\"created\":1,\"id\":\"x\",\"model\":\"m\",\"object\":\"o\"}\n\n";
    assert!(session.on_chunk(chunk, &mut sink).is_err());
    assert_eq!(session.current_phase(), StreamPhase::Failed);
    // only the deltas before the rejected one were delivered; the third,
    // though it would have fit, was never handed to the sink
    assert_eq!(sink.message(), "A");
}

#[test]
fn malformed_record_fails_the_request() {
    let mut session = StreamSession::new(AdapterKind::OpenAi);
    let mut sink = Recorder::new();
    let err = session.on_chunk("foo: bar\n\n", &mut sink);
    assert!(err.is_err());
    assert_eq!(session.current_phase(), StreamPhase::Failed);
    assert_eq!(sink.message(), "");
}
