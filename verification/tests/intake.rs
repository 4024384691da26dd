use plate::connection::{Intake, ReadOutcome, Stage, Step};

fn data(s: &[u8]) -> ReadOutcome {
    ReadOutcome::Data(s.to_vec())
}

#[test]
fn closed_before_anything_answers_nothing() {
    let mut i = Intake::new();
    assert!(matches!(i.on_read(ReadOutcome::Closed), Step::ClosedEmpty));
    assert!(i.is_finished());
}

#[test]
fn head_in_two_reads() {
    let mut i = Intake::new();
    assert!(matches!(i.on_read(data(b"GET / HTTP/1.1\r\nHo")), Step::ReadMore));
    match i.on_read(data(b"st: x\r\n\r\n")) {
        Step::Ready(t) => assert_eq!(t, "GET / HTTP/1.1\r\nHost: x\r\n\r\n"),
        _ => panic!("expected a request"),
    }
    assert!(i.is_finished());
}

#[test]
fn body_is_awaited() {
    let mut i = Intake::new();
    assert!(matches!(i.on_read(data(b"POST / HTTP/1.1\r\nContent-Length: 5\r\n\r\nab")), Step::ReadMore));
    assert!(matches!(i.on_read(data(b"c")), Step::ReadMore));
    match i.on_read(data(b"de")) {
        Step::Ready(t) => assert_eq!(t, "POST / HTTP/1.1\r\nContent-Length: 5\r\n\r\nabcde"),
        _ => panic!("expected a request"),
    }
}

#[test]
fn whole_request_in_one_read_is_ready() {
    let mut i = Intake::new();
    match i.on_read(data(b"POST /f HTTP/1.1\r\nContent-Length: 1\r\n\r\nx")) {
        Step::Ready(t) => assert_eq!(t, "POST /f HTTP/1.1\r\nContent-Length: 1\r\n\r\nx"),
        _ => panic!("expected a request"),
    }
    assert!(i.is_finished());
}

#[test]
fn body_length_counted_in_bytes_after_head() {
    let mut i = Intake::new();
    // "\u{e9}" takes two bytes.
    assert!(matches!(i.on_read(data("PUT / HTTP/1.1\r\nContent-Length: 3\r\n\r\n\u{e9}".as_bytes())), Step::ReadMore));
    assert!(matches!(i.on_read(data(b"z")), Step::Ready(_)));
}

#[test]
fn failed_last_read_answers_nothing() {
    let mut i = Intake::new();
    assert!(matches!(i.on_read(data(b"POST / HTTP/1.1\r\nContent-Length: 5\r\n\r\n")), Step::ReadMore));
    assert!(matches!(i.on_read(ReadOutcome::Failed), Step::ReadMore));
    assert!(matches!(i.on_read(ReadOutcome::Closed), Step::Ready(_)));
    let mut i = Intake::new();
    assert!(matches!(i.on_read(ReadOutcome::Failed), Step::ReadMore));
    assert!(matches!(i.on_read(data(b"GET / HTTP/1.1\r\n\r\n")), Step::Ready(_)));
}

#[test]
fn closing_during_head_ends_reading() {
    let mut i = Intake::new();
    assert!(matches!(i.on_read(data(b"GET / HTTP/1.1\r\nHost: x\r\n")), Step::ReadMore));
    assert!(matches!(i.on_read(ReadOutcome::Closed), Step::Ready(_)));
    let mut i = Intake::new();
    assert!(matches!(i.on_read(data(b"GET / HTTP/1.1")), Step::ReadMore));
    assert!(matches!(i.on_read(ReadOutcome::Closed), Step::Malformed));
}

#[test]
fn invalid_utf8_is_malformed() {
    let mut i = Intake::new();
    assert!(matches!(i.on_read(data(&[0x47, 0xff, 0x0d, 0x0a])), Step::Malformed));
    assert!(i.is_finished());
}

#[test]
fn bad_content_length_is_malformed() {
    let mut i = Intake::new();
    assert!(matches!(i.on_read(data(b"GET / HTTP/1.1\r\nContent-Length: x\r\n\r\n")), Step::Malformed));
}

#[test]
fn bytes_accumulate() {
    let mut i = Intake::new();
    let _ = i.on_read(data(b"GET / HT"));
    let _ = i.on_read(ReadOutcome::Failed);
    let _ = i.on_read(data(b"TP/1.1"));
    assert_eq!(i.bytes().as_slice(), b"GET / HTTP/1.1");
    let _ = Stage::Start;
}

#[test]
fn reading_ends_once() {
    let mut i = Intake::new();
    let mut ends = 0;
    for chunk in [&b"GET / HT"[..], &b"TP/1.1\r\n"[..], &b"\r\n"[..]] {
        if i.is_finished() {
            break;
        }
        match i.on_read(data(chunk)) {
            Step::ReadMore => {}
            _ => ends += 1,
        }
    }
    assert_eq!(ends, 1);
    assert!(i.is_finished());
}
