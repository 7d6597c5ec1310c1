use rustyai::decode::{decode_chunks, DecodedEvent, FrameDecoder};
use rustyai::pump::{close, pump_events, StreamPhase};

fn strings(v: &[&str]) -> Vec<String> {
    v.iter().map(|s| s.to_string()).collect()
}

fn sends_of(chunks: &[&str]) -> (StreamPhase, Vec<String>) {
    let events = decode_chunks(&strings(chunks));
    pump_events(StreamPhase::Streaming, &events)
}

#[test]
fn single_chunk_delta_then_done() {
    let events = decode_chunks(&strings(&[
        "data: {\"choices\":[{\"delta\":{\"content\":\"Hi\"}}]}",
        "data: [DONE]",
    ]));
    assert_eq!(events.len(), 2);
    assert!(matches!(&events[0], DecodedEvent::Delta(t) if t == "Hi"));
    assert!(matches!(&events[1], DecodedEvent::Done));
    let (phase, sends) = pump_events(StreamPhase::Streaming, &events);
    assert_eq!(sends, vec!["Hi".to_string(), "[DONE]".to_string()]);
    assert_eq!(phase, StreamPhase::Completed);
}

#[test]
fn split_mid_frame_reassembled() {
    let (phase, sends) = sends_of(&[
        "data: {\"choices\":[{\"de",
        "lta\":{\"content\":\"Yo\"}}]}data: [DONE]",
    ]);
    assert_eq!(sends, vec!["Yo".to_string(), "[DONE]".to_string()]);
    assert_eq!(phase, StreamPhase::Completed);
}

#[test]
fn frame_without_content_sends_only_sentinel() {
    let events = decode_chunks(&strings(&["data: {\"id\":\"x\"}data: [DONE]"]));
    assert_eq!(events.len(), 2);
    assert!(matches!(&events[0], DecodedEvent::Ignored));
    assert!(matches!(&events[1], DecodedEvent::Done));
    let (phase, sends) = pump_events(StreamPhase::Streaming, &events);
    assert_eq!(sends, vec!["[DONE]".to_string()]);
    assert_eq!(phase, StreamPhase::Completed);
}

#[test]
fn transport_failure_after_one_delta_sends_no_sentinel() {
    // One complete delta frame arrives, then the connection dies: the
    // consumer gets that delta and the channel closes without a sentinel.
    let mut d = FrameDecoder::new();
    let mut events = d.push_text("data: {\"choices\":[{\"delta\":{\"content\":\"one\"}}]}\n\n");
    // The frame is only completed by the next marker.
    events.extend(d.push_text("data: "));
    assert_eq!(events.len(), 1);
    assert!(matches!(&events[0], DecodedEvent::Delta(t) if t == "one"));
    let (phase, sends) = pump_events(StreamPhase::Streaming, &events);
    assert_eq!(sends, vec!["one".to_string()]);
    assert_eq!(phase, StreamPhase::Streaming);
    // The read failed: the producer closes without sending a sentinel.
    assert_eq!(close(phase), StreamPhase::Closed);
}

#[test]
fn chunking_leaves_no_trace() {
    let whole = "data: {\"choices\":[{\"delta\":{\"content\":\"ab\"}}]}data: {\"choices\":[{\"delta\":{\"content\":\"cd\"}}]}data: [DONE]";
    let one = sends_of(&[whole]);
    let per_byte: Vec<String> = whole.chars().map(|c| c.to_string()).collect();
    let per_byte_refs: Vec<&str> = per_byte.iter().map(|s| s.as_str()).collect();
    let two = sends_of(&per_byte_refs);
    let three = sends_of(&[&whole[..7], &whole[7..29], &whole[29..]]);
    let expected = vec!["ab".to_string(), "cd".to_string(), "[DONE]".to_string()];
    assert_eq!(one.1, expected);
    assert_eq!(two.1, expected);
    assert_eq!(three.1, expected);
    assert_eq!(one.0, StreamPhase::Completed);
    assert_eq!(two.0, StreamPhase::Completed);
    assert_eq!(three.0, StreamPhase::Completed);
}

#[test]
fn sentinel_split_across_chunks_sends_exactly_one_terminal() {
    // The sentinel frame is cut in two, and a delta frame follows it:
    // exactly one sentinel goes out, and nothing after it.
    let (phase, sends) = sends_of(&[
        "data: [DO",
        "NE]\n\ndata: {\"choices\":[{\"delta\":{\"content\":\"late\"}}]}",
    ]);
    assert_eq!(sends, vec!["[DONE]".to_string()]);
    assert_eq!(phase, StreamPhase::Completed);
}

#[test]
fn second_done_frame_sends_nothing_further() {
    let (phase, sends) = sends_of(&["data: [DONE]\n\ndata: [DONE]"]);
    assert_eq!(sends, vec!["[DONE]".to_string()]);
    assert_eq!(phase, StreamPhase::Completed);
}

#[test]
fn malformed_json_is_dropped_and_stream_continues() {
    let events = decode_chunks(&strings(&[
        "data: this is not json {",
        "data: {\"choices\":[{\"delta\":{\"content\":\"ok\"}}]}",
        "data: [DONE]",
    ]));
    assert_eq!(events.len(), 3);
    assert!(matches!(&events[0], DecodedEvent::Ignored));
    assert!(matches!(&events[1], DecodedEvent::Delta(t) if t == "ok"));
    assert!(matches!(&events[2], DecodedEvent::Done));
    let (_, sends) = pump_events(StreamPhase::Streaming, &events);
    assert_eq!(sends, vec!["ok".to_string(), "[DONE]".to_string()]);
}

#[test]
fn whitespace_only_frames_are_discarded() {
    let events = decode_chunks(&strings(&["data: \n\ndata:  \t\r\n data: [DONE]\n\n"]));
    assert_eq!(events.len(), 1);
    assert!(matches!(&events[0], DecodedEvent::Done));
}

#[test]
fn content_extraction_reads_the_nested_field_not_the_frame() {
    // If extraction handed the frame text back unchanged, the delta
    // would be the whole JSON object instead of the content field.
    let events = decode_chunks(&strings(&[
        "data: {\"id\":\"z\",\"choices\":[{\"delta\":{\"content\":\"only this\"}}]}",
        "data: [DONE]",
    ]));
    assert!(matches!(&events[0], DecodedEvent::Delta(t) if t == "only this"));
}

#[test]
fn content_must_be_a_string_to_count() {
    let events = decode_chunks(&strings(&[
        "data: {\"choices\":[{\"delta\":{\"content\":42}}]}",
        "data: [DONE]",
    ]));
    assert_eq!(events.len(), 2);
    assert!(matches!(&events[0], DecodedEvent::Ignored));
}

#[test]
fn incremental_pushes_hold_back_the_partial_frame() {
    let mut d = FrameDecoder::new();
    let none = d.push_text("data: {\"choices\":[{\"delta\":{\"content\":\"Hi\"}}]}");
    assert!(none.is_empty());
    let one = d.push_text("data: [DONE]");
    assert_eq!(one.len(), 1);
    assert!(matches!(&one[0], DecodedEvent::Delta(t) if t == "Hi"));
    let last = d.finish();
    assert_eq!(last.len(), 1);
    assert!(matches!(&last[0], DecodedEvent::Done));
}

#[test]
fn invalid_bytes_are_replaced_never_fatal() {
    let mut d = FrameDecoder::new();
    let mut events = d.push_chunk(b"data: {\"bad\": \"\xff\xfe\"}");
    events.extend(d.push_chunk(b"data: [DONE]"));
    events.extend(d.finish());
    assert_eq!(events.len(), 2);
    // The first frame survives lossy decoding; with no content field it
    // is ignored, and the stream still terminates cleanly.
    assert!(matches!(&events[0], DecodedEvent::Ignored));
    assert!(matches!(&events[1], DecodedEvent::Done));
}

#[test]
fn multibyte_content_survives() {
    let events = decode_chunks(&strings(&[
        "data: {\"choices\":[{\"delta\":{\"content\":\"h\u{e9}llo \u{2192} \u{1f30d}\"}}]}",
        "data: [DONE]",
    ]));
    assert!(matches!(&events[0], DecodedEvent::Delta(t) if t == "héllo → 🌍"));
}

#[test]
fn marker_split_across_chunks_is_not_lost() {
    let (phase, sends) = sends_of(&[
        "data: {\"choices\":[{\"delta\":{\"content\":\"x\"}}]}da",
        "ta: [DONE]",
    ]);
    assert_eq!(sends, vec!["x".to_string(), "[DONE]".to_string()]);
    assert_eq!(phase, StreamPhase::Completed);
}
