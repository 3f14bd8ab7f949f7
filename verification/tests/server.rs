use speck::dev::server::{answer_input_request, http_step, HttpStep, InputAnswer};
use speck::dev::protocol::{BrowserInput, ControlMessage, Frame, Key, FRAME_HEIGHT, FRAME_WIDTH};
use speck::dev::server::{
    answer_head, bad_request, fixed_answer, frame_answer, input_answer_for, FrameSnapshot, input_response, route, Route, parse_after, parse_u64, FrameStore, InputControl, InputResult, InputStep, ViewerState,
    INPUT_LEASE_TIMEOUT_MS,
};

fn heartbeat(client: &str) -> BrowserInput {
    BrowserInput::Heartbeat { client: client.into() }
}

fn key(client: &str, key: Key, down: bool) -> BrowserInput {
    BrowserInput::Key { client: client.into(), key, down }
}

fn connected() -> InputControl {
    let mut controls = InputControl::new();
    controls.connect_game(1);
    controls
}

#[test]
fn advertised_dimensions_match_protocol() {
    assert_eq!(FRAME_WIDTH, 320);
    assert_eq!(FRAME_HEIGHT, 180);
}

#[test]
fn disconnect_and_expired_controller_lease_release_all_keys() {
    let mut controls = connected();
    assert!(matches!(
        controls.apply(&heartbeat("viewer-1"), 1, 100),
        InputStep::Done(InputResult::Accepted)
    ));
    assert!(!controls.lease_expired(100 + INPUT_LEASE_TIMEOUT_MS - 1));
    assert!(controls.lease_expired(100 + INPUT_LEASE_TIMEOUT_MS + 20));
    controls.end_lease(true);
    assert!(controls.has_game());

    assert!(matches!(
        controls.apply(&heartbeat("viewer-2"), 1, 2000),
        InputStep::Done(InputResult::Accepted)
    ));
    controls.disconnect_game();
    assert!(matches!(
        controls.apply(&heartbeat("viewer-2"), 1, 2001),
        InputStep::Done(InputResult::GameUnavailable)
    ));
}

#[test]
fn only_one_viewer_controls_a_game() {
    let mut controls = connected();
    match controls.apply(&key("viewer-1", Key::Left, true), 1, 10) {
        InputStep::Send(message) => {
            assert_eq!(message, ControlMessage::Key { key: Key::Left, down: true });
            assert_eq!(controls.finish_send(true, false), InputResult::Accepted);
        }
        InputStep::Done(_) => panic!("the first viewer should take control"),
    }
    assert!(matches!(
        controls.apply(&key("viewer-2", Key::Right, true), 1, 11),
        InputStep::Done(InputResult::Busy)
    ));
    match controls.apply(&BrowserInput::ReleaseAll { client: "viewer-1".into() }, 1, 12) {
        InputStep::Send(message) => {
            assert_eq!(message, ControlMessage::ReleaseAll);
            assert_eq!(controls.finish_send(true, true), InputResult::Accepted);
        }
        InputStep::Done(_) => panic!("the controller may release its keys"),
    }
    assert!(matches!(
        controls.apply(&key("viewer-2", Key::Right, true), 1, 13),
        InputStep::Send(_)
    ));
}

#[test]
fn input_of_an_earlier_run_is_refused() {
    let mut controls = connected();
    controls.connect_game(2);
    assert!(matches!(
        controls.apply(&key("viewer-1", Key::W, true), 1, 5),
        InputStep::Done(InputResult::StaleGeneration)
    ));
    assert!(matches!(
        controls.apply(&BrowserInput::UnsupportedKey { client: "viewer-1".into() }, 2, 6),
        InputStep::Done(InputResult::Ignored)
    ));
}

#[test]
fn failed_send_disconnects_the_game() {
    let mut controls = connected();
    assert!(matches!(controls.apply(&key("v", Key::S, false), 1, 1), InputStep::Send(_)));
    assert_eq!(controls.finish_send(false, false), InputResult::GameUnavailable);
    assert!(!controls.has_game());
}

#[test]
fn frame_sequences_keep_increasing_across_runs() {
    let mut store = FrameStore::new();
    store.publish(Frame { sequence: 5, pixels: vec![1, 2, 3] });
    assert_eq!(store.latest_sequence(), Some(5));
    assert!(!store.keeps_waiting(4));
    assert!(store.keeps_waiting(5));
    let snapshot = store.snapshot_after(4);
    assert_eq!(snapshot.frame.map(|f| (f.sequence, f.pixels)), Some((5, vec![1, 2, 3])));

    store.begin_run();
    assert_eq!(store.generation(), 1);
    assert_eq!(store.latest_sequence(), None);
    store.publish(Frame { sequence: 1, pixels: vec![9] });
    assert_eq!(store.latest_sequence(), Some(6));

    store.set_state(ViewerState::Building);
    assert_eq!(store.latest_sequence(), None);
    assert!(!store.keeps_waiting(0));
    store.stop();
    assert_eq!(store.snapshot_after(0).state, ViewerState::Stopped);
}

#[test]
fn viewer_states_have_wire_names() {
    assert_eq!(ViewerState::Running.wire(true), "live");
    assert_eq!(ViewerState::Running.wire(false), "running");
    assert_eq!(ViewerState::BuildFailed.wire(false), "error");
    assert_eq!(ViewerState::Stopped.wire(false), "stopped");
}

#[test]
fn after_parameter_is_read_from_the_query() {
    assert_eq!(parse_after(b""), Ok(0));
    assert_eq!(parse_after(b"?"), Ok(0));
    assert_eq!(parse_after(b"?after=17"), Ok(17));
    assert_eq!(parse_after(b"?x=1&after=+8&after=9"), Ok(8));
    assert_eq!(parse_after(b"?x=1"), Ok(0));
    assert_eq!(
        parse_after(b"?after=-1"),
        Err("`after` frame sequence must be an unsigned integer".to_string())
    );
    assert_eq!(parse_u64(b"18446744073709551615"), Some(u64::MAX));
    assert_eq!(parse_u64(b"18446744073709551616"), None);
    assert_eq!(parse_u64(b"+"), None);
    assert_eq!(parse_u64(b""), None);
}

#[test]
fn requests_are_routed_by_method_and_path() {
    assert_eq!(route("GET", "/"), Ok(Route::Viewer));
    assert_eq!(route("POST", "/"), Ok(Route::NotFound));
    assert_eq!(route("GET", "/favicon.ico"), Ok(Route::Favicon));
    assert_eq!(route("GET", "/frame"), Ok(Route::Frame { after: 0 }));
    assert_eq!(route("GET", "/frame?after=12"), Ok(Route::Frame { after: 12 }));
    assert_eq!(route("GET", "/frames"), Ok(Route::NotFound));
    assert_eq!(
        route("GET", "/frame?after=x"),
        Err("`after` frame sequence must be an unsigned integer".to_string())
    );
    assert_eq!(route("GET", "/input?generation=3"), Ok(Route::InputMethodNotAllowed));
    assert_eq!(route("POST", "/input?generation=3"), Ok(Route::Input { generation: 3 }));
    assert_eq!(route("POST", "/input"), Ok(Route::InputWithoutGeneration));
    assert_eq!(route("POST", "/input?generation=-1"), Ok(Route::InputWithoutGeneration));
    assert_eq!(route("POST", "/inputs"), Ok(Route::NotFound));
    assert_eq!(route("PUT", "/input?generation=3"), Ok(Route::InputMethodNotAllowed));
    assert_eq!(input_response(InputResult::Busy), ("409 Conflict", "another viewer currently controls input\n"));
    assert_eq!(input_response(InputResult::Ignored), ("204 No Content", ""));
    assert_eq!(
        input_response(InputResult::StaleGeneration),
        ("412 Precondition Failed", "input belongs to a previous game run\n")
    );
    assert_eq!(
        input_response(InputResult::GameUnavailable),
        ("503 Service Unavailable", "game input is not connected\n")
    );
}

#[test]
fn frame_answers_carry_state_generation_and_frame_headers() {
    let frame = Frame { sequence: 7, pixels: vec![1, 2, 3] };
    let answer = frame_answer(FrameSnapshot { frame: Some(frame), state: ViewerState::Running, generation: 3 });
    assert_eq!(answer.status, "200 OK");
    assert_eq!(answer.body, vec![1, 2, 3]);
    let head = answer_head(&answer);
    assert_eq!(
        head,
        "HTTP/1.1 200 OK\r\nContent-Type: application/octet-stream\r\nContent-Length: 3\r\nConnection: close\r\nCache-Control: no-store\r\nX-Speck-State: live\r\nX-Speck-Generation: 3\r\nX-Speck-Sequence: 7\r\nX-Speck-Width: 320\r\nX-Speck-Height: 180\r\nX-Speck-Format: RGB8\r\n\r\n"
    );
    let empty = frame_answer(FrameSnapshot { frame: None, state: ViewerState::Building, generation: 12 });
    assert_eq!(empty.status, "204 No Content");
    assert!(empty.body.is_empty());
    assert_eq!(
        empty.headers,
        vec![
            ("Cache-Control".to_string(), "no-store".to_string()),
            ("X-Speck-State".to_string(), "building".to_string()),
            ("X-Speck-Generation".to_string(), "12".to_string()),
        ]
    );
}

#[test]
fn fixed_answers_match_their_routes() {
    let not_found = fixed_answer(Route::NotFound).expect("not found has an answer");
    assert_eq!(not_found.status, "404 Not Found");
    assert_eq!(not_found.body, b"not found\n".to_vec());
    let method = fixed_answer(Route::InputMethodNotAllowed).expect("405 has an answer");
    assert_eq!(method.status, "405 Method Not Allowed");
    assert_eq!(method.headers, vec![("Allow".to_string(), "POST".to_string())]);
    assert_eq!(method.body, b"input requires POST\n".to_vec());
    let missing = fixed_answer(Route::InputWithoutGeneration).expect("400 has an answer");
    assert_eq!(missing.body, b"input requires a run generation\n".to_vec());
    let favicon = fixed_answer(Route::Favicon).expect("favicon has an answer");
    assert_eq!(favicon.status, "204 No Content");
    assert!(fixed_answer(Route::Frame { after: 0 }).is_none());
    let bad = bad_request("malformed HTTP request line");
    assert_eq!(bad.status, "400 Bad Request");
    assert_eq!(bad.body, b"malformed HTTP request line\n".to_vec());
    let busy = input_answer_for(InputResult::Busy);
    assert_eq!(busy.status, "409 Conflict");
    assert_eq!(busy.body, b"another viewer currently controls input\n".to_vec());
    assert_eq!(
        answer_head(&busy),
        "HTTP/1.1 409 Conflict\r\nContent-Type: text/plain\r\nContent-Length: 40\r\nConnection: close\r\n\r\n"
    );
}

#[test]
fn input_requests_are_parsed_then_applied() {
    let mut controls = InputControl::new();
    match answer_input_request(&mut controls, 1, b"missing-fields", 5) {
        InputAnswer::Answer(answer) => {
            assert_eq!(answer.status, "400 Bad Request");
            assert_eq!(answer.content_type, "text/plain");
            assert!(answer.body.ends_with(b"\n"));
        }
        InputAnswer::Send(_) => panic!("a refused body is answered at once"),
    }
    match answer_input_request(&mut controls, 1, b"viewer-1 down ArrowLeft", 5) {
        InputAnswer::Answer(answer) => assert_eq!(answer.status, "503 Service Unavailable"),
        InputAnswer::Send(_) => panic!("no game is connected"),
    }
    controls.connect_game(1);
    match answer_input_request(&mut controls, 2, b"viewer-1 down ArrowLeft", 6) {
        InputAnswer::Answer(answer) => assert_eq!(answer.status, "412 Precondition Failed"),
        InputAnswer::Send(_) => panic!("a stale generation is answered at once"),
    }
    match answer_input_request(&mut controls, 1, b"viewer-1 down ArrowLeft", 7) {
        InputAnswer::Send(message) => assert_eq!(message, ControlMessage::Key { key: Key::Left, down: true }),
        InputAnswer::Answer(answer) => panic!("expected a message to send, got {}", answer.status),
    }
}

#[test]
fn http_steps_follow_the_route() {
    assert!(matches!(http_step("GET", "/"), HttpStep::Viewer));
    assert!(matches!(http_step("GET", "/frame?after=5"), HttpStep::AwaitFrame { after: 5 }));
    assert!(matches!(http_step("POST", "/input?generation=3"), HttpStep::Input { generation: 3 }));
    match http_step("PUT", "/input?generation=3") {
        HttpStep::Answer(answer) => {
            assert_eq!(answer.status, "405 Method Not Allowed");
            assert_eq!(answer.headers, vec![("Allow".to_string(), "POST".to_string())]);
        }
        _ => panic!("other methods on /input are not allowed"),
    }
    match http_step("GET", "/missing") {
        HttpStep::Answer(answer) => assert_eq!(answer.status, "404 Not Found"),
        _ => panic!("unknown paths are not found"),
    }
    match http_step("POST", "/input") {
        HttpStep::Answer(answer) => assert_eq!(answer.status, "400 Bad Request"),
        _ => panic!("input needs a generation"),
    }
    match http_step("GET", "/frame?after=x") {
        HttpStep::Answer(answer) => assert_eq!(answer.status, "400 Bad Request"),
        _ => panic!("a bad query is refused"),
    }
}
