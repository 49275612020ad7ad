use jsrt::headers::HeaderList;
use jsrt::request::Request;
use jsrt::runtime::{
    failure_text, listen_address, read_finished, stream_envelope, timer_fired, write_finished, Dispatch,
    Envelope, GetError, Runtime, ScriptArg, Task,
};
use jsrt::client::{RequestOptions, UrlError};
use jsrt::stream::{StreamFailure, StreamStep};

fn called(d: &Dispatch) -> Vec<usize> {
    d.invocations.iter().map(|i| i.callback).collect()
}

fn op_of(t: &Task) -> usize {
    match t {
        Task::Sleep { op, .. } | Task::ReadFile { op, .. } | Task::WriteFile { op, .. } | Task::Fetch { op, .. } => *op,
    }
}

fn arg_text(a: &ScriptArg) -> Option<&str> {
    match a {
        ScriptArg::Text(t) => Some(t.as_str()),
        _ => None,
    }
}

#[test]
fn timeout_runs_only_when_fired_and_once() {
    let mut rt = Runtime::new();
    let task = rt.set_timeout(0).unwrap();
    match &task {
        Task::Sleep { delay_ms, repeat, .. } => {
            assert_eq!(*delay_ms, 0);
            assert!(!*repeat);
        }
        _ => panic!("expected a sleep"),
    }
    let op = op_of(&task);
    let d = rt.dispatch(timer_fired(op));
    assert_eq!(called(&d), vec![op]);
    assert!(d.invocations[0].args.is_empty());
    assert_eq!(d.release, vec![op]);
    let again = rt.dispatch(timer_fired(op));
    assert!(again.invocations.is_empty());
}

#[test]
fn interval_fires_every_time() {
    let mut rt = Runtime::new();
    let op = op_of(&rt.set_interval(10).unwrap());
    for _ in 0..3 {
        let d = rt.dispatch(timer_fired(op));
        assert_eq!(called(&d), vec![op]);
        assert!(d.release.is_empty());
    }
}

#[test]
fn timers_in_arrival_order() {
    let mut rt = Runtime::new();
    let b = op_of(&rt.set_timeout(50).unwrap());
    let a = op_of(&rt.set_timeout(10).unwrap());
    let first = rt.dispatch(timer_fired(a));
    let second = rt.dispatch(timer_fired(b));
    assert_eq!(called(&first), vec![a]);
    assert_eq!(called(&second), vec![b]);
}

#[test]
fn read_of_empty_file_gives_null_and_empty_text() {
    let mut rt = Runtime::new();
    let task = rt.read_file("/tmp/empty".to_string()).unwrap();
    let op = op_of(&task);
    let d = rt.dispatch(read_finished(op, Ok(Vec::new())));
    assert_eq!(called(&d), vec![op]);
    let args = &d.invocations[0].args;
    assert_eq!(args.len(), 2);
    assert!(matches!(args[0], ScriptArg::Null));
    assert_eq!(arg_text(&args[1]), Some(""));
}

#[test]
fn read_error_gives_error_and_undefined() {
    let mut rt = Runtime::new();
    let op = op_of(&rt.read_file("/no/such".to_string()).unwrap());
    let d = rt.dispatch(read_finished(op, Err("No such file or directory".to_string())));
    let args = &d.invocations[0].args;
    assert_eq!(arg_text(&args[0]), Some("No such file or directory"));
    assert!(matches!(args[1], ScriptArg::Undefined));
    assert!(rt.dispatch(read_finished(op, Ok(b"late".to_vec()))).invocations.is_empty());
}

#[test]
fn write_then_read_round_trips_text() {
    let mut rt = Runtime::new();
    let task = rt.write_file("/tmp/rt-test".to_string(), "payload-ϕ").unwrap();
    let (op, bytes) = match task {
        Task::WriteFile { op, path, bytes } => {
            assert_eq!(path, "/tmp/rt-test");
            (op, bytes)
        }
        _ => panic!("expected a write"),
    };
    assert_eq!(bytes, "payload-ϕ".as_bytes().to_vec());
    let d = rt.dispatch(write_finished(op, Ok(())));
    assert_eq!(d.invocations[0].args.len(), 1);
    assert!(matches!(d.invocations[0].args[0], ScriptArg::Null));
    let rop = op_of(&rt.read_file("/tmp/rt-test".to_string()).unwrap());
    let r = rt.dispatch(read_finished(rop, Ok(bytes)));
    assert_eq!(arg_text(&r.invocations[0].args[1]), Some("payload-ϕ"));
}

#[test]
fn read_replaces_invalid_utf8() {
    let mut rt = Runtime::new();
    let op = op_of(&rt.read_file("f".to_string()).unwrap());
    let d = rt.dispatch(read_finished(op, Ok(vec![b'a', 0xff, b'b'])));
    assert_eq!(arg_text(&d.invocations[0].args[1]), Some("a\u{fffd}b"));
}

#[test]
fn write_error_gives_error_only() {
    let mut rt = Runtime::new();
    let op = op_of(&rt.write_file("/ro/x".to_string(), "x").unwrap());
    let d = rt.dispatch(write_finished(op, Err("denied".to_string())));
    assert_eq!(d.invocations[0].args.len(), 1);
    assert_eq!(arg_text(&d.invocations[0].args[0]), Some("denied"));
}

#[test]
fn completion_of_wrong_kind_calls_nothing() {
    let mut rt = Runtime::new();
    let op = op_of(&rt.read_file("f".to_string()).unwrap());
    assert!(rt.dispatch(write_finished(op, Ok(()))).invocations.is_empty());
    assert!(rt.dispatch(timer_fired(op)).invocations.is_empty());
    assert!(rt.dispatch(timer_fired(999)).invocations.is_empty());
    assert_eq!(called(&rt.dispatch(read_finished(op, Ok(Vec::new())))), vec![op]);
}

#[test]
fn server_handler_gets_request_and_fresh_response() {
    let mut rt = Runtime::new();
    let handler = rt.create_server().unwrap();
    let req = Request::new("GET".to_string(), "/ping".to_string(), HeaderList::new(), Vec::new());
    let d = rt.dispatch(Envelope::Accept { request: req, connection: 7, handler });
    assert_eq!(called(&d), vec![handler]);
    match (&d.invocations[0].args[0], &d.invocations[0].args[1]) {
        (ScriptArg::Request(r), ScriptArg::Response { response, connection }) => {
            assert_eq!(r.get_url(), "/ping");
            assert_eq!(*connection, 7);
            assert_eq!(response.status_code(), 200);
            assert!(!response.is_finished());
        }
        _ => panic!("expected a request and a response"),
    }
    let req2 = Request::new("GET".to_string(), "/".to_string(), HeaderList::new(), Vec::new());
    assert_eq!(called(&rt.dispatch(Envelope::Accept { request: req2, connection: 8, handler })), vec![handler]);
}

#[test]
fn accept_for_unknown_handler_calls_nothing() {
    let mut rt = Runtime::new();
    let op = op_of(&rt.set_timeout(1).unwrap());
    let req = Request::new("GET".to_string(), "/".to_string(), HeaderList::new(), Vec::new());
    assert!(rt.dispatch(Envelope::Accept { request: req, connection: 1, handler: op }).invocations.is_empty());
}

#[test]
fn client_stream_listeners_in_order_and_nothing_after_end() {
    let mut rt = Runtime::new();
    let task = rt.http_get("http://127.0.0.1:18080/").unwrap();
    let op = op_of(&task);
    match &task {
        Task::Fetch { target, bytes, .. } => {
            assert_eq!(target.port, 18080);
            assert_eq!(
                String::from_utf8(bytes.clone()).unwrap(),
                "GET / HTTP/1.1\r\nHost: 127.0.0.1\r\nConnection: close\r\n\r\n"
            );
        }
        _ => panic!("expected a fetch"),
    }
    assert!(rt.on(op, "data".to_string()).is_none());
    let mut h = HeaderList::new();
    h.set("Content-Length".to_string(), "5".to_string());
    let ready = rt.dispatch(Envelope::ClientResponseReady { op, status: 200, headers: h });
    assert_eq!(called(&ready), vec![op]);
    match &ready.invocations[0].args[0] {
        ScriptArg::Message { id, status, headers } => {
            assert_eq!(*id, op);
            assert_eq!(*status, 200);
            assert_eq!(headers.get("content-length").unwrap(), "5");
        }
        _ => panic!("expected a message"),
    }
    let d1 = rt.on(op, "data".to_string()).unwrap();
    let d2 = rt.on(op, "data".to_string()).unwrap();
    let e1 = rt.on(op, "end".to_string()).unwrap();
    let chunk = rt.dispatch(Envelope::StreamData { op, chunk: b"hel".to_vec() });
    assert_eq!(called(&chunk), vec![d1, d2]);
    assert_eq!(arg_text(&chunk.invocations[1].args[0]), Some("hel"));
    let chunk2 = rt.dispatch(Envelope::StreamData { op, chunk: b"lo".to_vec() });
    assert_eq!(called(&chunk2), vec![d1, d2]);
    let end = rt.dispatch(Envelope::StreamEnd { op });
    assert_eq!(called(&end), vec![e1]);
    assert!(end.invocations[0].args.is_empty());
    assert_eq!(end.release, vec![d1, d2, e1]);
    assert!(rt.dispatch(Envelope::StreamData { op, chunk: b"x".to_vec() }).invocations.is_empty());
    assert!(rt.dispatch(Envelope::StreamEnd { op }).invocations.is_empty());
    assert!(rt.on(op, "data".to_string()).is_none());
}

#[test]
fn stream_error_goes_to_error_listeners() {
    let mut rt = Runtime::new();
    let op = op_of(&rt.http_get("http://localhost/").unwrap());
    rt.dispatch(Envelope::ClientResponseReady { op, status: 500, headers: HeaderList::new() });
    let data = rt.on(op, "data".to_string()).unwrap();
    let err = rt.on(op, "error".to_string()).unwrap();
    let d = rt.dispatch(Envelope::StreamError { op, error: "reset".to_string() });
    assert_eq!(called(&d), vec![err]);
    assert_eq!(arg_text(&d.invocations[0].args[0]), Some("reset"));
    assert_eq!(d.release, vec![data, err]);
    assert!(d.follow_up.is_none());
}

#[test]
fn stream_error_without_listener_is_dropped() {
    let mut rt = Runtime::new();
    let op = op_of(&rt.http_get("http://localhost/").unwrap());
    rt.dispatch(Envelope::ClientResponseReady { op, status: 200, headers: HeaderList::new() });
    let d = rt.dispatch(Envelope::StreamError { op, error: "reset".to_string() });
    assert!(d.invocations.is_empty());
    assert!(d.follow_up.is_none());
}

#[test]
fn failure_before_response_reaches_error_listener() {
    let mut rt = Runtime::new();
    let op = op_of(&rt.http_get("http://localhost:1/").unwrap());
    let d = rt.dispatch(Envelope::StreamError { op, error: "connection refused".to_string() });
    assert_eq!(called(&d), vec![op]);
    match &d.invocations[0].args[0] {
        ScriptArg::Message { id, status, headers } => {
            assert_eq!(*id, op);
            assert_eq!(*status, 0);
            assert_eq!(headers.len(), 0);
        }
        _ => panic!("expected a message"),
    }
    assert_eq!(d.release, vec![op]);
    let err = rt.on(op, "error".to_string()).unwrap();
    let next = d.follow_up.unwrap();
    let e = rt.dispatch(next);
    assert_eq!(called(&e), vec![err]);
    assert_eq!(arg_text(&e.invocations[0].args[0]), Some("connection refused"));
    assert_eq!(e.release, vec![err]);
    assert!(rt.dispatch(Envelope::ClientResponseReady { op, status: 200, headers: HeaderList::new() }).invocations.is_empty());
    assert!(rt.dispatch(Envelope::StreamError { op, error: "again".to_string() }).invocations.is_empty());
}

#[test]
fn close_before_response_reaches_end_listener() {
    let mut rt = Runtime::new();
    let op = op_of(&rt.http_get("http://localhost/").unwrap());
    let d = rt.dispatch(Envelope::StreamEnd { op });
    assert_eq!(called(&d), vec![op]);
    let end = rt.on(op, "end".to_string()).unwrap();
    let e = rt.dispatch(d.follow_up.unwrap());
    assert_eq!(called(&e), vec![end]);
    assert!(e.follow_up.is_none());
}

#[test]
fn connect_failure_envelope_carries_io_text() {
    match stream_envelope(2, StreamStep::Error(StreamFailure::ClosedEarly)) {
        Envelope::StreamError { op, error } => {
            assert_eq!(op, 2);
            assert_eq!(error, "connection closed before the response head");
        }
        _ => panic!("expected an error"),
    }
}

#[test]
fn http_get_rejects_bad_urls() {
    let mut rt = Runtime::new();
    assert_eq!(rt.http_get("::nope").err(), Some(GetError::Url(UrlError::Malformed)));
    assert_eq!(rt.slot_count(), 0);
}

#[test]
fn http_request_takes_a_slot() {
    let mut rt = Runtime::new();
    let options = RequestOptions {
        hostname: "localhost".to_string(),
        port: Some("9000".to_string()),
        method: Some("POST".to_string()),
        path: Some("/x".to_string()),
        headers: HeaderList::new(),
    };
    let c = rt.http_request(options).unwrap();
    assert_eq!(c.op, 0);
    assert_eq!(c.target.port, 9000);
    assert_eq!(c.request.get_method(), "POST");
    let ready = rt.dispatch(Envelope::ClientResponseReady { op: c.op, status: 201, headers: HeaderList::new() });
    assert_eq!(called(&ready), vec![c.op]);
}

#[test]
fn listen_defaults() {
    let (h, p) = listen_address(None, None);
    assert_eq!(h, "127.0.0.1");
    assert_eq!(p, 8000);
    let (h, p) = listen_address(Some(18080), Some("0.0.0.0".to_string()));
    assert_eq!(h, "0.0.0.0");
    assert_eq!(p, 18080);
}

#[test]
fn stream_steps_become_envelopes() {
    assert!(matches!(stream_envelope(3, StreamStep::End), Envelope::StreamEnd { op: 3 }));
    match stream_envelope(3, StreamStep::Data(b"x".to_vec())) {
        Envelope::StreamData { op, chunk } => {
            assert_eq!(op, 3);
            assert_eq!(chunk, b"x".to_vec());
        }
        _ => panic!("expected data"),
    }
    match stream_envelope(4, StreamStep::Error(StreamFailure::Io("boom".to_string()))) {
        Envelope::StreamError { op, error } => {
            assert_eq!(op, 4);
            assert_eq!(error, "boom");
        }
        _ => panic!("expected an error"),
    }
    assert_eq!(failure_text(StreamFailure::BadHead), "invalid HTTP response head");
    assert_eq!(failure_text(StreamFailure::ClosedEarly), "connection closed before the response head");
}
