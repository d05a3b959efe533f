use cloudcam::codec::{decode, Decoded};
use cloudcam::fetch_add_1;
use cloudcam::message::{Header, Request, Response};
use cloudcam::session::{keepalive_secs, transport_header, Action, Controller, Event, Phase};

fn response_with(headers: &str) -> Response {
    let text = format!("RTSP/1.0 200 OK\r\n{}\r\n", headers);
    match decode(text.as_bytes()) {
        Decoded::Complete(r, _) => r,
        other => panic!("bad test response: {:?}", other),
    }
}

fn sent(a: Action) -> Request {
    match a {
        Action::Send(r) => r,
        other => panic!("expected a request, got {:?}", other),
    }
}

fn header(r: &Request, i: usize) -> (String, String) {
    match &r.headers[i] {
        Header::Generic { name, value } => (name.clone(), value.clone()),
        other => panic!("unexpected header {:?}", other),
    }
}

#[test]
fn session_id_and_timeout() {
    let r = response_with("Session: abc123;timeout=30\r\n");
    assert_eq!(r.session(), "abc123");
    assert_eq!(r.session_timeout(), 30);
}

#[test]
fn session_timeout_defaults_to_sixty() {
    let r = response_with("Session: abc123\r\n");
    assert_eq!(r.session(), "abc123");
    assert_eq!(r.session_timeout(), 60);
}

#[test]
fn session_timeout_after_space() {
    let r = response_with("Session: abc123; timeout=30\r\n");
    assert_eq!(r.session(), "abc123");
    assert_eq!(r.session_timeout(), 30);
}

#[test]
fn session_timeout_unparsable() {
    let r = response_with("Session: abc;timeout=soon\r\n");
    assert_eq!(r.session_timeout(), 60);
    let r = response_with("Session: abc;timeout=99999999999999999999999\r\n");
    assert_eq!(r.session_timeout(), 60);
}

#[test]
fn no_session_header() {
    let r = response_with("CSeq: 1\r\n");
    assert_eq!(r.session_raw(), "");
    assert_eq!(r.session(), "");
    assert_eq!(r.session_timeout(), 60);
}

#[test]
fn fetch_add_1_counts_up() {
    let mut c: usize = 1;
    assert_eq!(fetch_add_1(&mut c), 1);
    assert_eq!(fetch_add_1(&mut c), 2);
    assert_eq!(c, 3);
}

#[test]
fn keepalive_is_three_quarters() {
    assert_eq!(keepalive_secs(20), 15);
    assert_eq!(keepalive_secs(60), 45);
    assert_eq!(keepalive_secs(1), 0);
    assert_eq!(keepalive_secs(u64::MAX), 13835058055282163711);
}

#[test]
fn transport_names_the_port_pair() {
    assert_eq!(transport_header((40010, 40011)), "RTP/AVP;unicast;client_port=40010-40011");
}

#[test]
fn cseq_runs_one_to_five() {
    let uri = "rtsp://cam/axis-media/media.amp";
    let mut c = Controller::new(uri, (40010, 40011));
    let mut seqs = Vec::new();
    let mut methods = Vec::new();
    let events = vec![
        Event::Connected,
        Event::Response(response_with("CSeq: 1\r\n")),
        Event::Response(response_with("CSeq: 2\r\n")),
        Event::Response(response_with("CSeq: 3\r\nSession: S1\r\n")),
    ];
    for ev in events {
        let req = sent(c.step(ev));
        methods.push(req.method.clone());
        seqs.push(header(&req, 0).1);
    }
    assert!(matches!(c.step(Event::Response(response_with("Session: S1;timeout=8\r\n"))), Action::Wait(6)));
    let req = sent(c.step(Event::Tick));
    methods.push(req.method.clone());
    seqs.push(header(&req, 0).1);
    assert_eq!(methods, vec!["OPTIONS", "DESCRIBE", "SETUP", "PLAY", "GET_PARAMETER"]);
    assert_eq!(seqs, vec!["1", "2", "3", "4", "5"]);
    assert_eq!(c.c_seq, 6);
}

#[test]
fn end_to_end_keepalive_schedule() {
    let uri = "rtsp://cam/stream";
    let mut c = Controller::new(uri, (40000, 40001));
    sent(c.step(Event::Connected));
    sent(c.step(Event::Response(response_with("CSeq: 1\r\n"))));
    let setup = sent(c.step(Event::Response(response_with("CSeq: 2\r\n"))));
    assert_eq!(header(&setup, 1), ("Transport".to_string(), "RTP/AVP;unicast;client_port=40000-40001".to_string()));
    let play = sent(c.step(Event::Response(response_with("CSeq: 3\r\nSession: XYZ;timeout=20\r\n"))));
    assert_eq!(play.method, "PLAY");
    assert_eq!(header(&play, 1), ("Session".to_string(), "XYZ".to_string()));
    assert_eq!(header(&play, 2), ("Range".to_string(), "npt=0.000-".to_string()));
    let wait = c.step(Event::Response(response_with("CSeq: 4\r\nSession: XYZ;timeout=20\r\n")));
    assert!(matches!(wait, Action::Wait(15)));
    assert_eq!(c.phase, Phase::Playing);
    let keepalive = sent(c.step(Event::Tick));
    assert_eq!(keepalive.method, "GET_PARAMETER");
    assert_eq!(header(&keepalive, 1), ("Session".to_string(), "XYZ".to_string()));
    assert!(matches!(c.step(Event::Response(response_with("CSeq: 5\r\n"))), Action::Wait(15)));
}

#[test]
fn failure_terminates() {
    let mut c = Controller::new("rtsp://cam/", (40000, 40001));
    sent(c.step(Event::Connected));
    assert!(matches!(c.step(Event::Failed), Action::Stop));
    assert_eq!(c.phase, Phase::Terminated);
    assert!(matches!(c.step(Event::Tick), Action::Stop));
}

#[test]
fn stop_during_keepalive() {
    let mut c = Controller::new("rtsp://cam/", (40000, 40001));
    assert!(matches!(c.step(Event::Stop), Action::Stop));
    assert_eq!(c.phase, Phase::Terminated);
}

#[test]
fn out_of_order_event_terminates() {
    let mut c = Controller::new("rtsp://cam/", (40000, 40001));
    assert!(matches!(c.step(Event::Tick), Action::Stop));
    let mut c = Controller::new("rtsp://cam/", (40000, 40001));
    assert!(matches!(c.step(Event::Response(response_with(""))), Action::Stop));
}

#[test]
fn request_constructors() {
    let r = Request::play("rtsp://h/", 4, "sid".to_string());
    assert_eq!(r.version, (1, 0));
    assert!(r.body.is_empty());
    assert_eq!(header(&r, 0), ("CSeq".to_string(), "4".to_string()));
    let r = Request::pause("rtsp://h/", 7, "sid");
    assert_eq!(r.method, "PAUSE");
    assert_eq!(header(&r, 1), ("Session".to_string(), "sid".to_string()));
    let r = Request::record("rtsp://h/", 8, "sid");
    assert_eq!(r.method, "RECORD");
    let r = Request::get_parameter("rtsp://h/", 123456, "sid".to_string());
    assert_eq!(header(&r, 0), ("CSeq".to_string(), "123456".to_string()));
}

#[test]
fn session_timeout_bare_number() {
    let r = response_with("Session: abc;30\r\n");
    assert_eq!(r.session(), "abc");
    assert_eq!(r.session_timeout(), 30);
    let r = response_with("Session: abc;timeout=\r\n");
    assert_eq!(r.session_timeout(), 60);
}

#[test]
fn has_session_header() {
    assert!(response_with("Session: x\r\n").has_session());
    assert!(response_with("Session: \r\n").has_session());
    assert!(!response_with("CSeq: 3\r\n").has_session());
}

#[test]
fn setup_answer_without_session_ends_the_run() {
    let mut c = Controller::new("rtsp://cam/", (40000, 40001));
    sent(c.step(Event::Connected));
    sent(c.step(Event::Response(response_with("CSeq: 1\r\n"))));
    sent(c.step(Event::Response(response_with("CSeq: 2\r\n"))));
    assert!(matches!(c.step(Event::Response(response_with("CSeq: 3\r\n"))), Action::Stop));
    assert_eq!(c.phase, Phase::Terminated);
    assert_eq!(c.c_seq, 4);
}

#[test]
fn session_timeout_only_spaces_after_separator() {
    let r = response_with("Session: abc123;;30\r\n");
    assert_eq!(r.session(), "abc123");
    assert_eq!(r.session_timeout(), 60);
    let r = response_with("Session: abc123 ;timeout=30\r\n");
    assert_eq!(r.session_timeout(), 60);
    let r = response_with("Session: abc123;  timeout=45\r\n");
    assert_eq!(r.session_timeout(), 45);
}
