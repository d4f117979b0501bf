use phaneros::remote_listener::{
    backoff_delay_ms, event_request_headers, events_url, next_backoff_step, parse_event_id, parse_event_stream, record_event,
    take_line, trim_line_end, EventFrame, EventStreamParser, RemoteListenerEvent, ReconnectState, RootChangedPayload,
};

fn lines(text: &[&str]) -> Vec<String> {
    text.iter().map(|s| s.to_string()).collect()
}

#[test]
fn a_root_changed_frame_becomes_an_event() {
    let frames = parse_event_stream(&lines(&[
        "event: root-changed",
        "id: 7",
        "data: {\"drive_id\":\"notes\",",
        "data: \"root\":\"abc\",\"at\":5}",
        "",
    ]));
    assert_eq!(frames.len(), 1);
    assert_eq!(frames[0].id, 7);
    assert_eq!(frames[0].payload, "{\"drive_id\":\"notes\",\n\"root\":\"abc\",\"at\":5}");
}

#[test]
fn other_frames_and_comments_are_skipped() {
    let frames = parse_event_stream(&lines(&[
        ": keep-alive",
        "event: ping",
        "id: 1",
        "data: x",
        "",
        "event: root-changed",
        "data: y",
        "",
        "event: root-changed",
        "id: 3",
        "",
    ]));
    assert!(frames.is_empty());
}

#[test]
fn the_last_frame_counts_without_a_blank_line() {
    let frames = parse_event_stream(&lines(&["event:root-changed", "id:9", "data:z"]));
    assert_eq!(frames.len(), 1);
    assert_eq!(frames[0].id, 9);
    assert_eq!(frames[0].payload, "z");
}

#[test]
fn the_field_ends_at_the_first_colon() {
    let mut parser = EventStreamParser::new();
    assert!(parser.feed_line("event: root-changed").is_none());
    assert!(parser.feed_line("id: 4").is_none());
    assert!(parser.feed_line("data:  a:b").is_none());
    let frame = parser.feed_line("").unwrap();
    assert_eq!(frame.payload, " a:b");
    assert!(parser.finish().is_none());
}

#[test]
fn event_ids_are_non_negative_integers() {
    let id = |s: &str| parse_event_id(&s.chars().collect::<Vec<char>>());
    assert_eq!(id("42"), Some(42));
    assert_eq!(id("+42"), Some(42));
    assert_eq!(id("-0"), Some(0));
    assert_eq!(id("-5"), None);
    assert_eq!(id(""), None);
    assert_eq!(id("+"), None);
    assert_eq!(id("4x"), None);
    assert_eq!(id("9223372036854775807"), Some(i64::MAX));
    assert_eq!(id("9223372036854775808"), None);
    for s in ["0", "17", "-1", "99999999999999999999", " 3", "3 ", "00012"] {
        assert_eq!(id(s), s.parse::<i64>().ok().filter(|v| *v >= 0), "id {:?}", s);
    }
}

#[test]
fn a_decoded_payload_moves_the_last_event_id() {
    let frame = EventFrame { id: 12, payload: String::new() };
    let mut last = Some(3);
    assert!(record_event(&frame, None, &mut last).is_none());
    assert_eq!(last, Some(3));
    let event = record_event(
        &frame,
        Some(RootChangedPayload { drive_id: "notes".to_string(), root: "abc".to_string(), at: 99 }),
        &mut last,
    );
    assert_eq!(
        event,
        Some(RemoteListenerEvent { id: 12, drive_id: "notes".to_string(), root: "abc".to_string(), at: 99 })
    );
    assert_eq!(last, Some(12));
}

#[test]
fn the_events_url_drops_trailing_slashes() {
    assert_eq!(events_url("http://store:8080//", "notes"), "http://store:8080/api/drives/notes/events");
    assert_eq!(events_url("http://store", "a"), "http://store/api/drives/a/events");
}

#[test]
fn reconnection_backs_off_to_two_seconds() {
    let mut step = 0;
    let mut delays = Vec::new();
    for _ in 0..6 {
        delays.push(backoff_delay_ms(step));
        step = next_backoff_step(step);
    }
    assert_eq!(delays, vec![250, 500, 1000, 2000, 2000, 2000]);
}

#[test]
fn lines_are_taken_off_the_buffer() {
    let mut buf = b"one\r\ntwo\nthr".to_vec();
    assert_eq!(take_line(&mut buf), Some(b"one\r".to_vec()));
    assert_eq!(take_line(&mut buf), Some(b"two".to_vec()));
    assert_eq!(take_line(&mut buf), None);
    assert_eq!(buf, b"thr".to_vec());
    assert_eq!(trim_line_end("one\r\n\r"), "one");
}

#[test]
fn event_requests_carry_the_token_and_the_last_event() {
    let h = event_request_headers("tok", None);
    assert_eq!(
        h,
        vec![
            ("Authorization".to_string(), "Bearer tok".to_string()),
            ("Accept".to_string(), "text/event-stream".to_string()),
        ]
    );
    let h = event_request_headers("tok", Some(42));
    assert_eq!(h[2], ("Last-Event-ID".to_string(), "42".to_string()));
    let h = event_request_headers("tok", Some(-7));
    assert_eq!(h[2].1, (-7i64).to_string());
    let h = event_request_headers("tok", Some(i64::MIN));
    assert_eq!(h[2].1, i64::MIN.to_string());
}

#[test]
fn reconnecting_backs_off_and_starts_over_after_a_connection() {
    let mut st = ReconnectState::new();
    assert_eq!(st.disconnected(), 250);
    assert_eq!(st.disconnected(), 500);
    assert_eq!(st.disconnected(), 1000);
    assert_eq!(st.disconnected(), 2000);
    assert_eq!(st.disconnected(), 2000);
    st.connected();
    assert_eq!(st.backoff_step, 0);
    assert_eq!(st.disconnected(), 250);
}
