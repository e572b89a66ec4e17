use virgil::orchestrator::AfterTranscript;
use virgil::orchestrator::InferMode;
use virgil::orchestrator::Orchestrator;
use virgil::orchestrator::Phase;
use virgil::orchestrator::WINDOW_QUEUE_CAPACITY;

#[test]
fn wake_word_session_scenario() {
    // Init with wake words ["Hey"]; a stub inference double supplies the
    // transcripts below.
    let mut orch = Orchestrator::new(vec!["Hey".to_string()]);
    assert_eq!(orch.phase(), Phase::Idle);
    orch.start_listening();
    assert_eq!(orch.phase(), Phase::PassiveListening);

    // One second of 16 kHz mono silence: transcript is empty, no wake
    // word, the session stays passive.
    let silence = vec![0i32; 16000];
    assert!(orch.window_ready(silence));
    let (window, mode) = orch.poll_queue().unwrap();
    assert_eq!(window.len(), 16000);
    assert_eq!(mode, InferMode::Passive);
    assert_eq!(orch.phase(), Phase::EvaluatingWakeWord);
    assert!(matches!(orch.transcript_ready(""), AfterTranscript::Resume));
    assert_eq!(orch.phase(), Phase::PassiveListening);

    // A window whose (stubbed) transcript is "hey there": the wake word
    // matches, the session turns active.
    assert!(orch.window_ready(vec![1i32; 16000]));
    let (_window, mode) = orch.poll_queue().unwrap();
    assert_eq!(mode, InferMode::Passive);
    match orch.transcript_ready("hey there") {
        AfterTranscript::ReinferActive { detection } => {
            assert!(detection.detected);
            assert_eq!(detection.start_idx, Some(0));
            assert_eq!(detection.end_idx, Some(3));
        },
        other => panic!("expected active reinference, got {:?}", other),
    }
    assert_eq!(orch.phase(), Phase::ActiveTranscribing);

    // The active pass over the same window produces the transcript,
    // which is delivered, and the session returns to passive listening.
    match orch.transcript_ready("hey there") {
        AfterTranscript::Deliver { text } => assert_eq!(text, "hey there"),
        other => panic!("expected delivery, got {:?}", other),
    }
    assert_eq!(orch.phase(), Phase::PassiveListening);
    assert_eq!(orch.transcript_so_far(), "hey there");
}

#[test]
fn windows_outside_a_session_are_dropped() {
    let mut orch = Orchestrator::new(vec!["Hey".to_string()]);
    assert!(!orch.window_ready(vec![1, 2, 3]));
    assert_eq!(orch.queued(), 0);
    assert_eq!(orch.dropped_windows(), 1);
    assert!(orch.poll_queue().is_none());
}

#[test]
fn full_queue_drops_the_oldest_window() {
    let mut orch = Orchestrator::new(Vec::new());
    orch.start_listening();
    for i in 0..WINDOW_QUEUE_CAPACITY {
        assert!(orch.window_ready(vec![i as i32]));
    }
    assert_eq!(orch.queued(), WINDOW_QUEUE_CAPACITY);
    assert_eq!(orch.dropped_windows(), 0);
    assert!(orch.window_ready(vec![99]));
    assert_eq!(orch.queued(), WINDOW_QUEUE_CAPACITY);
    assert_eq!(orch.dropped_windows(), 1);
    // The head is now the second window pushed.
    let (window, _mode) = orch.poll_queue().unwrap();
    assert_eq!(window, vec![1]);
}

#[test]
fn windows_are_evaluated_in_arrival_order() {
    let mut orch = Orchestrator::new(Vec::new());
    orch.start_listening();
    assert!(orch.window_ready(vec![10]));
    assert!(orch.window_ready(vec![20]));
    let (first, _) = orch.poll_queue().unwrap();
    assert_eq!(first, vec![10]);
    assert!(matches!(orch.transcript_ready("quiet"), AfterTranscript::Resume));
    let (second, _) = orch.poll_queue().unwrap();
    assert_eq!(second, vec![20]);
}

#[test]
fn per_window_failure_resumes_listening() {
    let mut orch = Orchestrator::new(vec!["Hey".to_string()]);
    orch.start_listening();
    assert!(orch.window_ready(vec![0; 4]));
    orch.poll_queue().unwrap();
    orch.inference_failed(false);
    assert_eq!(orch.phase(), Phase::PassiveListening);
}

#[test]
fn fatal_failure_stops_the_session() {
    let mut orch = Orchestrator::new(vec!["Hey".to_string()]);
    orch.start_listening();
    assert!(orch.window_ready(vec![0; 4]));
    assert!(orch.window_ready(vec![1; 4]));
    orch.poll_queue().unwrap();
    orch.inference_failed(true);
    assert_eq!(orch.phase(), Phase::Stopped);
    assert_eq!(orch.queued(), 0);
    assert!(!orch.window_ready(vec![2; 4]));
}

#[test]
fn active_timeout_forces_passive_listening() {
    let mut orch = Orchestrator::new(vec!["Hey".to_string()]);
    orch.start_listening();
    assert!(orch.window_ready(vec![0; 4]));
    orch.poll_queue().unwrap();
    assert!(matches!(
        orch.transcript_ready("hey"),
        AfterTranscript::ReinferActive { .. }
    ));
    assert_eq!(orch.phase(), Phase::ActiveTranscribing);
    orch.active_timeout();
    assert_eq!(orch.phase(), Phase::PassiveListening);
    assert_eq!(orch.transcript_so_far(), "");
}

#[test]
fn stop_is_terminal() {
    let mut orch = Orchestrator::new(vec!["Hey".to_string()]);
    orch.start_listening();
    assert!(orch.window_ready(vec![0; 4]));
    orch.stop();
    assert_eq!(orch.phase(), Phase::Stopped);
    assert_eq!(orch.queued(), 0);
    assert!(orch.poll_queue().is_none());
}
