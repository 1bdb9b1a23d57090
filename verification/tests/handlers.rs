use cai::handlers::{BoundedRecorder, Fanout, Recorder};
use cai::MutHandler;

#[test]
fn recode_stream() {
    let mut sut = Recorder::new();

    let streams = vec!["1,", "2,", "3!"];

    for stream in streams {
        sut.handle_mut(stream).unwrap();
    }

    let message = sut.message();
    assert_eq!(message, "1,2,3!");
}

#[test]
fn recorder_take_resets_the_transcript() {
    let mut sut = Recorder::new();
    sut.handle_mut("hello").unwrap();
    assert_eq!(sut.take(), "hello");
    assert_eq!(sut.message(), "");
}

#[test]
fn fanout_delivers_to_every_member_in_order() {
    let members = vec![Recorder::new(), Recorder::new(), Recorder::new()];
    let mut fanout = Fanout::new(members);
    fanout.handle_mut("a").unwrap();
    fanout.handle_mut("b").unwrap();
    for recorder in fanout.into_members() {
        assert_eq!(recorder.message(), "ab");
    }
}

#[test]
fn bounded_recorder_rejects_fragments_past_its_capacity() {
    let mut sink = BoundedRecorder::new(4);
    sink.handle_mut("abc").unwrap();
    assert!(sink.handle_mut("de").is_err());
    assert_eq!(sink.message(), "abc");
    sink.handle_mut("d").unwrap();
    assert_eq!(sink.message(), "abcd");
}

#[test]
fn fanout_short_circuits_at_the_first_failing_member() {
    let members = vec![
        BoundedRecorder::new(100),
        BoundedRecorder::new(2),
        BoundedRecorder::new(100),
    ];
    let mut fanout = Fanout::new(members);
    fanout.handle_mut("ok").unwrap();
    assert!(fanout.handle_mut("no").is_err());
    let members = fanout.into_members();
    // the first member saw the second fragment, the second rejected it,
    // and the third was never invoked for it
    assert_eq!(members[0].message(), "okno");
    assert_eq!(members[1].message(), "ok");
    assert_eq!(members[2].message(), "ok");
}
