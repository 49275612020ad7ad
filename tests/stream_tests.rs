use jsrt::stream::{ClientStream, Phase, ReadOutcome, StreamFailure, StreamStep};

fn bytes(s: &str) -> ReadOutcome {
    ReadOutcome::Bytes(s.as_bytes().to_vec())
}

#[test]
fn response_head_then_body_then_end() {
    let mut s = ClientStream::new();
    let steps = s.feed(bytes("HTTP/1.1 200 OK\r\nContent-Length: 5\r\n\r\nhello"));
    assert_eq!(steps.len(), 2);
    match &steps[0] {
        StreamStep::Ready { status, headers } => {
            assert_eq!(*status, 200);
            assert_eq!(headers.get("content-length").unwrap(), "5");
        }
        _ => panic!("expected the head first"),
    }
    match &steps[1] {
        StreamStep::Data(b) => assert_eq!(b, &b"hello".to_vec()),
        _ => panic!("expected the body"),
    }
    let end = s.feed(ReadOutcome::Eof);
    assert!(matches!(end.as_slice(), [StreamStep::End]));
    assert!(s.phase() == Phase::Done);
    assert!(s.feed(bytes("late")).is_empty());
    assert!(s.feed(ReadOutcome::Eof).is_empty());
}

#[test]
fn head_split_across_reads() {
    let mut s = ClientStream::new();
    assert!(s.feed(bytes("HTTP/1.1 404 Not")).is_empty());
    let steps = s.feed(bytes(" Found\r\n\r\n"));
    assert_eq!(steps.len(), 1);
    assert!(matches!(steps[0], StreamStep::Ready { status: 404, .. }));
    let more = s.feed(bytes("ab"));
    assert!(matches!(more.as_slice(), [StreamStep::Data(b)] if b == b"ab"));
    let end = s.feed(ReadOutcome::Bytes(Vec::new()));
    assert!(matches!(end.as_slice(), [StreamStep::End]));
}

#[test]
fn data_keeps_network_order() {
    let mut s = ClientStream::new();
    let mut body = Vec::new();
    for part in ["HTTP/1.1 200 OK\r\n\r\n1", "23", "456"] {
        for step in s.feed(bytes(part)) {
            if let StreamStep::Data(b) = step {
                body.extend(b);
            }
        }
    }
    assert_eq!(body, b"123456".to_vec());
}

#[test]
fn bad_head_is_an_error() {
    let mut s = ClientStream::new();
    let steps = s.feed(bytes("garbage\r\n\r\n"));
    assert!(matches!(steps.as_slice(), [StreamStep::Error(StreamFailure::BadHead)]));
    assert!(s.feed(bytes("HTTP/1.1 200 OK\r\n\r\n")).is_empty());
}

#[test]
fn close_before_head_is_an_error() {
    let mut s = ClientStream::new();
    assert!(s.feed(bytes("HTTP/1.1 2")).is_empty());
    let steps = s.feed(ReadOutcome::Eof);
    assert!(matches!(steps.as_slice(), [StreamStep::Error(StreamFailure::ClosedEarly)]));
}

#[test]
fn read_failure_ends_stream_with_error() {
    let mut s = ClientStream::new();
    s.feed(bytes("HTTP/1.1 200 OK\r\n\r\n"));
    let steps = s.feed(ReadOutcome::Failed("reset by peer".to_string()));
    match steps.as_slice() {
        [StreamStep::Error(StreamFailure::Io(e))] => assert_eq!(e, "reset by peer"),
        _ => panic!("expected an io error"),
    }
    assert!(s.feed(ReadOutcome::Eof).is_empty());
}
