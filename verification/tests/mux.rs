use sumer::host::failure::HostError;
use sumer::host::mux::{
    build_frame, raise_concurrency, Admission, Dispatch, Mux, MuxViolation, Reader, ReplyOutcome,
    Terminal, Transcript, WaitOutcome, WriteOutcome, HELLO_ID, OUTBOUND_QUEUE_CAPACITY,
};
use sumer::host::supervise::{
    child_env, is_env_allowed, on_close_timeout, on_exit, on_kill, split_argv,
};
use sumer::wire::failure::{ErrorBody, ProtocolViolationKind, WireErrorCode};
use sumer::wire::frame::{FrameDecoder, MAX_FRAME_BYTES};
use sumer::wire::json::JsonObject;
use sumer::wire::timestamp::Rfc3339;
use tokio::sync::Semaphore;

/// A connection whose hello was sent and answered.
fn greeted() -> (Mux, Reader) {
    let mut mux = Mux::new();
    let mut reader = Reader::new();
    assert!(matches!(mux.dispatch(false), Dispatch::Send { id: HELLO_ID }));
    assert_eq!(reader.on_chunk(&mut mux, &vec![Some(HELLO_ID)], None), None);
    assert!(reader.hello_done);
    (mux, reader)
}

fn send(mux: &mut Mux) -> u64 {
    match mux.dispatch(false) {
        Dispatch::Send { id } => id,
        Dispatch::Refused(e) => panic!("expected an id, got {e:?}"),
    }
}

#[test]
fn id_exhaustion_is_an_explicit_outcome_not_a_panic() {
    let mut mux = Mux::starting_at(u64::MAX);
    assert!(matches!(
        mux.dispatch(false),
        Dispatch::Refused(HostError::IdsExhausted)
    ));
    assert_eq!(mux.issue(), None);
    let mut last = Mux::starting_at(u64::MAX - 1);
    assert_eq!(last.issue(), Some(u64::MAX - 1));
    assert_eq!(last.issue(), None);
}

#[test]
fn queued_request_expires_before_ever_being_sent() {
    let (mut mux, _) = greeted();
    let occupying = send(&mut mux);
    assert!(matches!(
        mux.judge_queued(true),
        Admission::Refused(HostError::Timeout)
    ));
    assert!(matches!(
        mux.dispatch(true),
        Dispatch::Refused(HostError::Timeout)
    ));
    assert_eq!(
        send(&mut mux),
        occupying + 1,
        "a request that was never sent takes no id"
    );
    assert!(matches!(mux.judge_queued(false), Admission::Admitted));
}

#[test]
fn pre_hello_stdout_output_kills_the_handshake() {
    let mut mux = Mux::new();
    let mut reader = Reader::new();
    send(&mut mux);
    assert_eq!(
        reader.on_chunk(&mut mux, &vec![None], None),
        Some(ProtocolViolationKind::PreHelloOutput)
    );
    assert_eq!(mux.violation(), Some(ProtocolViolationKind::PreHelloOutput));
    let mut other = Mux::new();
    let mut early = Reader::new();
    send(&mut other);
    assert_eq!(
        early.on_frame(&mut other, Some(7)),
        Err(ProtocolViolationKind::PreHelloOutput)
    );
    assert_eq!(
        early.on_chunk(&mut other, &vec![], Some(ProtocolViolationKind::OversizeFrame)),
        Some(ProtocolViolationKind::PreHelloOutput)
    );
}

#[test]
fn garbage_on_stdout_is_a_fatal_violation() {
    let (mut mux, mut reader) = greeted();
    send(&mut mux);
    let fatal = reader.on_chunk(&mut mux, &vec![None], None);
    assert_eq!(fatal, Some(ProtocolViolationKind::NotJson));
    let finish = mux.finish(Terminal::Violation(ProtocolViolationKind::NotJson));
    assert!(finish.won);
    assert_eq!(finish.resolved, vec![1]);
    assert!(matches!(
        mux.terminal_error(),
        HostError::ProtocolViolation(ProtocolViolationKind::NotJson)
    ));
}

#[test]
fn oversize_frame_is_a_fatal_violation() {
    let (mut mux, mut reader) = greeted();
    send(&mut mux);
    let mut decoder = FrameDecoder::new();
    let chunk = vec![b'x'; MAX_FRAME_BYTES + 1];
    let (frames, fault) = decoder.push(&chunk);
    assert!(frames.is_empty());
    assert_eq!(fault, Some(ProtocolViolationKind::OversizeFrame));
    assert_eq!(
        reader.on_chunk(&mut mux, &vec![], fault),
        Some(ProtocolViolationKind::OversizeFrame)
    );
}

#[test]
fn never_issued_id_is_a_fatal_violation() {
    let (mut mux, mut reader) = greeted();
    send(&mut mux);
    assert_eq!(
        reader.on_chunk(&mut mux, &vec![Some(9999)], None),
        Some(ProtocolViolationKind::UnknownId)
    );
    assert_eq!(mux.deliver(9999), Err(MuxViolation::UnknownId));
}

#[test]
fn duplicate_reply_is_a_fatal_violation() {
    let (mut mux, mut reader) = greeted();
    let id = send(&mut mux);
    assert_eq!(
        reader.on_frame(&mut mux, Some(id)),
        Ok(ReplyOutcome::Delivered),
        "the first, legitimate reply must still be delivered"
    );
    assert_eq!(
        reader.on_chunk(&mut mux, &vec![Some(id)], None),
        Some(ProtocolViolationKind::DuplicateId)
    );
    mux.finish(Terminal::Violation(ProtocolViolationKind::DuplicateId));
    assert!(matches!(
        mux.dispatch(false),
        Dispatch::Refused(HostError::ProtocolViolation(
            ProtocolViolationKind::DuplicateId
        ))
    ));
}

#[test]
fn crash_mid_request_resolves_as_adapter_crashed() {
    let (mut mux, _) = greeted();
    let id = send(&mut mux);
    let finish = mux.finish(on_exit(Some(3), true, None));
    assert_eq!(finish.resolved, vec![id]);
    match mux.settle(id, WaitOutcome::Ended(Terminal::Crashed(Some(3)))) {
        Err(HostError::AdapterCrashed { status }) => assert_eq!(status, Some(3)),
        other => panic!("expected AdapterCrashed, got {other:?}"),
    }
}

#[test]
fn hang_past_deadline_times_out() {
    let (mut mux, _) = greeted();
    let id = send(&mut mux);
    assert!(matches!(
        mux.settle(id, WaitOutcome::Elapsed),
        Err(HostError::Timeout)
    ));
}

#[test]
fn tombstoned_reply_is_discarded_and_the_connection_survives() {
    let (mut mux, mut reader) = greeted();
    let first = send(&mut mux);
    assert!(mux.settle(first, WaitOutcome::Elapsed).is_err());
    let second = send(&mut mux);
    assert_eq!(reader.on_frame(&mut mux, Some(second)), Ok(ReplyOutcome::Delivered));
    assert_eq!(
        reader.on_frame(&mut mux, Some(first)),
        Ok(ReplyOutcome::Discarded),
        "a late reply to an id that was given up on is dropped"
    );
    assert_eq!(mux.violation(), None);
    let third = send(&mut mux);
    assert_eq!(reader.on_chunk(&mut mux, &vec![Some(third)], None), None);
}

#[test]
fn a_write_the_adapter_never_drains_expires_with_its_deadline() {
    let (mut mux, _) = greeted();
    let waiting = send(&mut mux);
    let id = send(&mut mux);
    let finish = mux.on_write(id, WriteOutcome::Elapsed).unwrap();
    assert!(finish.won);
    assert_eq!(finish.resolved, vec![waiting], "the cut id is given up on");
    assert!(
        matches!(
            mux.dispatch(false),
            Dispatch::Refused(HostError::AdapterCrashed { status: None })
        ),
        "a partial frame must end the connection"
    );
}

#[test]
fn a_failed_write_reports_the_real_terminal_reason_not_a_guess() {
    let (mut mux, mut reader) = greeted();
    let first = send(&mut mux);
    let second = send(&mut mux);
    assert!(
        mux.on_write(second, WriteOutcome::Broken).is_none(),
        "a broken pipe alone tells nobody anything"
    );
    assert!(mux.on_write(first, WriteOutcome::Written).is_none());
    assert_eq!(reader.on_frame(&mut mux, Some(first)), Ok(ReplyOutcome::Delivered));
    assert_eq!(
        reader.on_chunk(&mut mux, &vec![Some(first)], None),
        Some(ProtocolViolationKind::DuplicateId)
    );
    let finish = mux.finish(Terminal::Violation(ProtocolViolationKind::DuplicateId));
    assert_eq!(finish.resolved, vec![second]);
    assert!(matches!(
        mux.settle(second, WaitOutcome::Abandoned),
        Err(HostError::ProtocolViolation(ProtocolViolationKind::DuplicateId))
    ));
}

#[test]
fn a_violation_wins_over_an_immediately_following_exit() {
    let reason = on_exit(Some(3), true, Some(Some(ProtocolViolationKind::NotJson)));
    assert_eq!(reason, Terminal::Violation(ProtocolViolationKind::NotJson));
    let (mut mux, _) = greeted();
    assert!(mux.finish(reason).won);
    assert!(!mux.finish(Terminal::Crashed(Some(3))).won, "the first reason sticks");
    assert_eq!(mux.terminal(), Some(reason));
}

#[test]
fn an_established_violation_outranks_a_process_that_already_exited() {
    assert_eq!(
        on_exit(Some(0), false, Some(Some(ProtocolViolationKind::NotJson))),
        Terminal::Violation(ProtocolViolationKind::NotJson)
    );
    assert_eq!(
        on_kill(Some(Some(ProtocolViolationKind::NotJson))),
        Some(Terminal::Violation(ProtocolViolationKind::NotJson))
    );
    assert_eq!(on_kill(Some(None)), None, "a deliberate shutdown says nothing");
    assert_eq!(on_kill(None), None);
}

#[test]
fn the_first_violation_stays_on_record() {
    let (mut mux, _) = greeted();
    mux.record_violation(ProtocolViolationKind::DuplicateId);
    mux.record_violation(ProtocolViolationKind::NotJson);
    assert_eq!(mux.violation(), Some(ProtocolViolationKind::DuplicateId));
    mux.finish(Terminal::Crashed(None));
    assert_eq!(mux.violation(), Some(ProtocolViolationKind::DuplicateId));
}

#[test]
fn an_adapter_that_exits_at_stdin_eof_closes_cleanly() {
    let (mut mux, reader) = greeted();
    assert_eq!(reader.on_end(&mut mux, 0), None);
    assert_eq!(on_exit(Some(0), true, None), Terminal::Crashed(Some(0)));
    assert_eq!(mux.violation(), None);
}

#[test]
fn an_adapter_that_ignores_stdin_eof_is_a_protocol_violation() {
    assert_eq!(
        on_close_timeout(false),
        Terminal::Violation(ProtocolViolationKind::StdinEofIgnored)
    );
}

#[test]
fn trailing_garbage_with_a_newline_is_caught_at_the_close() {
    let (mut mux, mut reader) = greeted();
    let mut decoder = FrameDecoder::new();
    let (frames, fault) = decoder.push(b"} not a frame, and not the answer to anything\n");
    assert_eq!(frames, vec!["} not a frame, and not the answer to anything".to_owned()]);
    assert_eq!(fault, None);
    assert_eq!(
        reader.on_chunk(&mut mux, &vec![None], fault),
        Some(ProtocolViolationKind::NotJson)
    );
}

#[test]
fn trailing_garbage_without_a_newline_is_caught_at_the_close() {
    let (mut mux, reader) = greeted();
    let mut decoder = FrameDecoder::new();
    let (frames, fault) = decoder.push(b"} not a frame, and not the answer to anything");
    assert!(frames.is_empty() && fault.is_none());
    assert_eq!(
        reader.on_end(&mut mux, decoder.pending_bytes()),
        Some(ProtocolViolationKind::UnterminatedFrame)
    );
    assert_eq!(mux.violation(), Some(ProtocolViolationKind::UnterminatedFrame));
    assert_eq!(
        Reader::new().on_end(&mut mux, 1),
        Some(ProtocolViolationKind::PreHelloOutput)
    );
}

#[test]
fn a_writer_that_outlives_the_adapter_is_not_a_clean_close() {
    assert_eq!(
        on_exit(Some(0), false, None),
        Terminal::Violation(ProtocolViolationKind::StdoutHeldOpen)
    );
}

#[test]
fn an_exited_adapter_is_never_blamed_for_ignoring_stdin_eof() {
    assert_eq!(
        on_close_timeout(true),
        Terminal::Violation(ProtocolViolationKind::StdoutHeldOpen)
    );
}

/// Two requests to an adapter that takes `max_in_flight` at a time: for each, how
/// many replies had come in when it was sent.
fn arrival_markers(max_in_flight: u32) -> Vec<String> {
    let (mut mux, mut reader) = greeted();
    let permits = Semaphore::new(1);
    permits.add_permits(raise_concurrency(max_in_flight) as usize);
    let mut in_flight = Vec::new();
    let mut markers = Vec::new();
    let mut answered = 0;
    while markers.len() < 2 {
        match permits.try_acquire() {
            Ok(permit) => {
                markers.push(answered.to_string());
                in_flight.push((send(&mut mux), permit));
            }
            Err(_) => {
                let (id, permit) = in_flight.remove(0);
                assert_eq!(reader.on_chunk(&mut mux, &vec![Some(id)], None), None);
                assert!(mux.settle(id, WaitOutcome::Replied).is_ok());
                answered += 1;
                drop(permit);
            }
        }
    }
    markers.sort();
    markers
}

#[test]
fn serial_adapter_never_receives_a_second_request_before_answering_the_first() {
    assert_eq!(
        arrival_markers(1),
        vec!["0".to_owned(), "1".to_owned()],
        "serial: the second request must arrive only after the first was answered"
    );
    assert_eq!(arrival_markers(0), vec!["0".to_owned(), "1".to_owned()]);
}

#[test]
fn concurrent_adapter_can_receive_both_requests_before_either_is_answered() {
    let markers = arrival_markers(2);
    assert!(
        markers.iter().all(|m| m == "0"),
        "concurrent: both requests should reach the adapter before either reply, got {markers:?}"
    );
    let (mut mux, mut reader) = greeted();
    let (a, b) = (send(&mut mux), send(&mut mux));
    assert_eq!(reader.on_chunk(&mut mux, &vec![Some(b), Some(a)], None), None);
}

#[test]
fn spawn_rejects_empty_argv() {
    assert_eq!(split_argv(&vec![]), Err("empty adapter argv".to_owned()));
    let argv = vec!["adapter".to_owned(), "--flag".to_owned()];
    let (program, args) = split_argv(&argv).unwrap();
    assert_eq!(program, "adapter");
    assert_eq!(args, &["--flag".to_owned()]);
}

fn pair(key: &str, value: &str) -> (String, String) {
    (key.to_owned(), value.to_owned())
}

#[test]
fn env_allowlist_hides_unlisted_variables() {
    let host = vec![
        pair("PATH", "/bin"),
        pair("SUMER_HOST_TEST_SECRET", "leak-if-broken"),
        pair("LANG", "C"),
    ];
    let env = child_env(&host, vec![]);
    assert_eq!(env, vec![pair("PATH", "/bin"), pair("LANG", "C")]);
    assert!(!is_env_allowed("SUMER_HOST_TEST_SECRET"));
    for key in ["PATH", "HOME", "LANG", "LC_ALL", "TMPDIR"] {
        assert!(is_env_allowed(key));
    }
}

#[test]
fn extra_env_is_forwarded() {
    let env = child_env(
        &vec![pair("HOME", "/root")],
        vec![pair("SUMER_HOST_TEST_EXTRA", "yes")],
    );
    assert_eq!(env, vec![pair("HOME", "/root"), pair("SUMER_HOST_TEST_EXTRA", "yes")]);
}

#[test]
fn frames_do_not_depend_on_how_the_bytes_arrive() {
    let bytes = b"{\"id\":0}\n\n{\"id\":1}\npart";
    let mut whole = FrameDecoder::new();
    let (frames, fault) = whole.push(bytes);
    assert_eq!(fault, None);
    let mut pieces = FrameDecoder::new();
    let mut collected: Vec<String> = Vec::new();
    for byte in bytes.iter() {
        let (mut some, fault) = pieces.push(&[*byte]);
        assert_eq!(fault, None);
        collected.append(&mut some);
    }
    assert_eq!(frames, collected);
    assert_eq!(frames[0], "{\"id\":0}");
    assert_eq!(whole.pending_bytes(), 4);
    assert_eq!(pieces.pending_bytes(), 4);
}

#[test]
fn bytes_that_are_no_text_are_no_frame() {
    let mut decoder = FrameDecoder::new();
    let (frames, fault) = decoder.push(b"ok\n\xff\xfe\n");
    assert_eq!(frames, vec!["ok".to_owned()]);
    assert!(fault.is_some());
}

#[test]
fn a_request_is_one_json_line() {
    let params = JsonObject::parse("{\"resources\":[\"a\"]}").unwrap();
    assert_eq!(
        build_frame(12, "history.read", &params),
        "{\"id\":12,\"op\":\"history.read\",\"params\":{\"resources\":[\"a\"]}}\n"
    );
    assert_eq!(OUTBOUND_QUEUE_CAPACITY, 64);
}

#[test]
fn a_transcript_keeps_dispatch_order_and_fills_replies_in() {
    let mut transcript = Transcript::new();
    let a = transcript.push("hello".to_owned(), JsonObject::empty());
    let b = transcript.push("resources.list".to_owned(), JsonObject::empty());
    let at = Rfc3339::new("2026-01-01T00:00:00Z").unwrap();
    transcript.fill(b, "{\"id\":1}".to_owned(), at.clone());
    transcript.fill(99, "lost".to_owned(), at);
    let seen = transcript.snapshot();
    assert_eq!((a, b, seen.len()), (0, 1, 2));
    assert!(seen[0].frame.is_none());
    assert_eq!(seen[1].frame.as_deref(), Some("{\"id\":1}"));
    assert_eq!(seen[1].op, "resources.list");
}

#[test]
fn failures_say_what_happened() {
    let wire = HostError::Wire(ErrorBody::new(
        WireErrorCode::UnsupportedProtocol,
        "nope".to_owned(),
    ));
    assert!(wire.to_string().starts_with("adapter error "));
    assert!(wire.to_string().ends_with(": nope"));
    assert_eq!(HostError::Timeout.to_string(), "request timed out");
    assert_eq!(
        HostError::AdapterCrashed { status: Some(-3) }.to_string(),
        "adapter crashed (status Some(-3))"
    );
    assert_eq!(
        HostError::AdapterCrashed { status: None }.to_string(),
        "adapter crashed (status None)"
    );
    assert_eq!(
        HostError::Spawn("no such file".to_owned()).to_string(),
        "could not spawn adapter: no such file"
    );
    assert_eq!(
        HostError::IdsExhausted.to_string(),
        "adapter connection ran out of request ids"
    );
    assert!(HostError::ProtocolViolation(ProtocolViolationKind::NotJson)
        .to_string()
        .starts_with("protocol violation: "));
}
