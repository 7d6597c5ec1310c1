use rustyai::decode::DecodedEvent;
use rustyai::pump::{close, pump_events, sentinel_text, step, StreamPhase};

#[test]
fn sentinel_matches_the_wire_literal() {
    assert_eq!(sentinel_text(), "[DONE]".to_string());
}

#[test]
fn streaming_delta_is_sent_verbatim() {
    let (phase, out) = step(
        StreamPhase::Streaming,
        &DecodedEvent::Delta("frag".to_string()),
    );
    assert_eq!(phase, StreamPhase::Streaming);
    assert_eq!(out, Some("frag".to_string()));
}

#[test]
fn done_sends_the_sentinel_and_completes() {
    let (phase, out) = step(StreamPhase::Streaming, &DecodedEvent::Done);
    assert_eq!(phase, StreamPhase::Completed);
    assert_eq!(out, Some("[DONE]".to_string()));
}

#[test]
fn ignored_sends_nothing() {
    let (phase, out) = step(StreamPhase::Streaming, &DecodedEvent::Ignored);
    assert_eq!(phase, StreamPhase::Streaming);
    assert_eq!(out, None);
}

#[test]
fn terminal_phases_absorb_everything() {
    for phase in [StreamPhase::Completed, StreamPhase::Closed] {
        let (p1, o1) = step(phase, &DecodedEvent::Delta("x".to_string()));
        assert_eq!(p1, phase);
        assert_eq!(o1, None);
        let (p2, o2) = step(phase, &DecodedEvent::Done);
        assert_eq!(p2, phase);
        assert_eq!(o2, None);
        assert_eq!(close(phase), phase);
    }
}

#[test]
fn close_without_done_leaves_no_sentinel() {
    assert_eq!(close(StreamPhase::Streaming), StreamPhase::Closed);
}

#[test]
fn deltas_after_the_first_done_are_never_sent() {
    let events = vec![
        DecodedEvent::Delta("a".to_string()),
        DecodedEvent::Ignored,
        DecodedEvent::Delta("b".to_string()),
        DecodedEvent::Done,
        DecodedEvent::Delta("late".to_string()),
        DecodedEvent::Done,
    ];
    let (phase, sends) = pump_events(StreamPhase::Streaming, &events);
    assert_eq!(
        sends,
        vec!["a".to_string(), "b".to_string(), "[DONE]".to_string()]
    );
    assert_eq!(phase, StreamPhase::Completed);
}

#[test]
fn bounded_channel_refuses_rather_than_drops_when_full() {
    // Capacity 2: the third send is refused outright (an async sender
    // would suspend here instead), and nothing already queued is lost
    // or overwritten.
    let (tx, mut rx) = tokio::sync::mpsc::channel::<String>(2);
    tx.try_send("a".to_string()).unwrap();
    tx.try_send("b".to_string()).unwrap();
    let refused = tx.try_send("c".to_string());
    assert!(matches!(
        refused,
        Err(tokio::sync::mpsc::error::TrySendError::Full(ref v)) if v == "c"
    ));
    // Once the consumer takes one value, capacity frees up again.
    assert_eq!(rx.try_recv().unwrap(), "a".to_string());
    tx.try_send("c".to_string()).unwrap();
    assert_eq!(rx.try_recv().unwrap(), "b".to_string());
    assert_eq!(rx.try_recv().unwrap(), "c".to_string());
}

#[test]
fn channel_delivers_in_send_order() {
    let (tx, mut rx) = tokio::sync::mpsc::channel::<String>(8);
    for s in ["one", "two", "three", "[DONE]"] {
        tx.try_send(s.to_string()).unwrap();
    }
    drop(tx);
    let mut got: Vec<String> = Vec::new();
    while let Ok(v) = rx.try_recv() {
        got.push(v);
    }
    assert_eq!(
        got,
        vec![
            "one".to_string(),
            "two".to_string(),
            "three".to_string(),
            "[DONE]".to_string()
        ]
    );
}
