use gptrs::decode::{decode, DecodeError};
use gptrs::frame::{encode_field, parse_frame, parse_line, Frame, LineOutcome};
use gptrs::sse::SSEIterator;
use gptrs::stream::{StreamEngine, StreamEvent};

fn collect_frames(s: &mut SSEIterator) -> Vec<Vec<u8>> {
    s.take_frames()
}

#[test]
fn split_finds_each_frame_once() {
    let mut s = SSEIterator::new();
    s.push(b"data: a\n\ndata: b\n\ndata: c".to_vec());
    let frames = collect_frames(&mut s);
    assert_eq!(frames, vec![b"data: a".to_vec(), b"data: b".to_vec()]);
    // The tail without its blank line stays buffered.
    assert_eq!(collect_frames(&mut s), Vec::<Vec<u8>>::new());
    s.push(b"\n\n".to_vec());
    assert_eq!(collect_frames(&mut s), vec![b"data: c".to_vec()]);
}

#[test]
fn split_handles_crlf_terminators() {
    let mut s = SSEIterator::new();
    s.push(b"data: x\r\n\r\ndata: y\r\n\r\n".to_vec());
    let frames = collect_frames(&mut s);
    assert_eq!(frames, vec![b"data: x\r".to_vec(), b"data: y\r".to_vec()]);
}

#[test]
fn split_is_chunking_independent() {
    let body: &[u8] = b"data: one\n\nevent: tick\ndata: two\ndata: three\n\nid: 7\n\nrest";
    let mut whole = SSEIterator::new();
    whole.push(body.to_vec());
    let all_at_once = whole.take_frames();

    for cut in 0..body.len() {
        let mut split = SSEIterator::new();
        split.push(body[..cut].to_vec());
        let mut frames = split.take_frames();
        split.push(body[cut..].to_vec());
        frames.extend(split.take_frames());
        assert_eq!(frames, all_at_once, "differs when cut at {}", cut);
    }
}

#[test]
fn parse_line_fields() {
    let mut f = Frame::new();
    assert_eq!(parse_line(b"data: hello", &mut f), LineOutcome::Continue);
    assert_eq!(f.data, b"hello\n".to_vec());
    assert_eq!(parse_line(b"data:  spaced", &mut f), LineOutcome::Continue);
    // Only one leading space is dropped from a value.
    assert_eq!(f.data, b"hello\n spaced\n".to_vec());
    assert_eq!(parse_line(b"event: message", &mut f), LineOutcome::Continue);
    assert_eq!(f.event, Some(b"message".to_vec()));
    assert_eq!(parse_line(b"id: 42", &mut f), LineOutcome::Continue);
    assert_eq!(f.id, Some(b"42".to_vec()));
    assert_eq!(parse_line(b"ignored: field", &mut f), LineOutcome::Continue);
    assert_eq!(parse_line(b"", &mut f), LineOutcome::FrameComplete);
    // Nothing after the colon: an empty value.
    assert_eq!(parse_line(b"event:", &mut f), LineOutcome::Continue);
    assert_eq!(f.event, Some(Vec::new()));
    // No colon at all: the whole line is the field name, the value empty,
    // so a bare `data` line appends just its separator.
    assert_eq!(parse_line(b"data", &mut f), LineOutcome::Continue);
    assert_eq!(f.data, b"hello\n spaced\n\n".to_vec());
}

#[test]
fn parse_line_is_pure() {
    let mut f1 = Frame::new();
    let mut f2 = Frame::new();
    let r1 = parse_line(b"data: same", &mut f1);
    let r2 = parse_line(b"data: same", &mut f2);
    assert_eq!(r1, r2);
    assert_eq!(f1.data, f2.data);
    assert_eq!(f1.event, f2.event);
    assert_eq!(f1.id, f2.id);
}

#[test]
fn parse_line_retry() {
    let mut f = Frame::new();
    assert_eq!(parse_line(b"retry: 1500", &mut f), LineOutcome::SetRetryHint(1500));
    assert_eq!(parse_line(b"retry: soon", &mut f), LineOutcome::Continue);
    assert_eq!(parse_line(b"retry:", &mut f), LineOutcome::Continue);
    // A value too large for 64 bits is ignored, not an error.
    assert_eq!(
        parse_line(b"retry: 99999999999999999999999999", &mut f),
        LineOutcome::Continue
    );
    assert_eq!(
        parse_line(b"retry: 18446744073709551615", &mut f),
        LineOutcome::SetRetryHint(u64::MAX)
    );
}

#[test]
fn encoded_fields_parse_back() {
    let mut raw = encode_field(b"data", b"{\"k\":1}");
    raw.extend(encode_field(b"data", b"second"));
    raw.extend(encode_field(b"id", b"9"));
    let (frame, hint) = parse_frame(&raw);
    assert_eq!(frame.data, b"{\"k\":1}\nsecond\n".to_vec());
    assert_eq!(frame.id, Some(b"9".to_vec()));
    assert_eq!(frame.event, None);
    assert_eq!(hint, None);
}

#[test]
fn empty_frame_text_has_no_fields() {
    let (frame, hint) = parse_frame(b"");
    assert_eq!(frame.data, Vec::<u8>::new());
    assert_eq!(frame.id, None);
    assert_eq!(frame.event, None);
    assert_eq!(hint, None);
}

#[test]
fn decode_done_sentinel_ends_stream() {
    // The frame's data payload, with the separator its data line left.
    assert_eq!(decode(b"[DONE]\n"), Ok(None));
    assert_eq!(decode(b"[DONE]"), Ok(None));
}

#[test]
fn decode_reads_first_choice() {
    let r = decode(b"{\"choices\":[{\"delta\":{\"content\":\"Hi\"}}]}\n").unwrap().unwrap();
    assert_eq!(r.content, Some(String::from("Hi")));
    assert_eq!(r.finish_reason, None);

    let two = decode(
        b"{\"choices\":[{\"delta\":{\"content\":\"first\"}},{\"delta\":{\"content\":\"last\"}}]}",
    )
    .unwrap()
    .unwrap();
    assert_eq!(two.content, Some(String::from("first")));
}

#[test]
fn decode_reads_finish_reason() {
    let r = decode(b"{\"choices\":[{\"delta\":{},\"finish_reason\":\"stop\"}]}\n")
        .unwrap()
        .unwrap();
    assert_eq!(r.content, None);
    assert_eq!(r.finish_reason, Some(String::from("stop")));
}

#[test]
fn decode_empty_delta_is_graceful_end() {
    assert_eq!(decode(b"{\"choices\":[{\"delta\":{}}]}\n"), Ok(None));
}

#[test]
fn decode_malformed_payloads() {
    assert_eq!(decode(b"{not json"), Err(DecodeError::Malformed));
    assert_eq!(decode(b""), Err(DecodeError::Malformed));
    assert_eq!(decode(b"{\"choices\":[]}"), Err(DecodeError::Malformed));
    assert_eq!(decode(b"{\"choices\":7}"), Err(DecodeError::Malformed));
    assert_eq!(decode(b"[1,2,3]"), Err(DecodeError::Malformed));
    assert_eq!(decode(b"\xff\xfe"), Err(DecodeError::Malformed));
}

#[test]
fn engine_splits_tokens_across_chunks() {
    // One chunk arrives whole; the next is split in the middle of a field
    // name, and the engine still reassembles it.
    let mut e = StreamEngine::new();
    let evs = e.feed(b"data: {\"choices\":[{\"delta\":{\"content\":\"Hi\"}}]}\n\n".to_vec());
    assert_eq!(evs.len(), 1);
    match &evs[0] {
        StreamEvent::Token { text, first } => {
            assert_eq!(text, "Hi");
            assert!(*first);
        }
        StreamEvent::End => panic!("expected a token"),
    }

    let evs = e.feed(b"dat".to_vec());
    assert!(evs.is_empty());
    let evs = e.feed(b"a: {\"choices\":[{\"delta\":{\"content\":\" there\"}}]}\n\n".to_vec());
    assert_eq!(evs.len(), 1);
    match &evs[0] {
        StreamEvent::Token { text, first } => {
            assert_eq!(text, " there");
            assert!(!*first);
        }
        StreamEvent::End => panic!("expected a token"),
    }
}

#[test]
fn engine_and_accumulator_reassemble_split_chunks() {
    // Two network chunks; the second is cut inside the field name.  The
    // transcript must still end with the reply assembled in order.
    let mut e = StreamEngine::new();
    let mut h = gptrs::chat::History::new();
    let mut chunks: Vec<Vec<u8>> = Vec::new();
    chunks.push(b"data: {\"choices\":[{\"delta\":{\"content\":\"Hi\"}}]}\n\n".to_vec());
    chunks.push(b"dat".to_vec());
    chunks.push(b"a: {\"choices\":[{\"delta\":{\"content\":\" there\"}}]}\n\n".to_vec());
    for chunk in chunks {
        for ev in e.feed(chunk) {
            match ev {
                StreamEvent::Token { text, first } => h.push_stream(&text, first),
                StreamEvent::End => h.clear_message(),
            }
        }
    }
    assert_eq!(h.messages().len(), 1);
    assert_eq!(h.last().unwrap().content, String::from("Hi there"));
}

#[test]
fn encoded_data_decodes_back_to_the_delta() {
    // A delta written as a wire frame and read back through the splitter,
    // the field parser and the decoder comes out unchanged.
    let mut s = SSEIterator::new();
    let mut wire = encode_field(b"data", b"{\"choices\":[{\"delta\":{\"content\":\"round trip\"}}]}");
    wire.extend(b"\r\n".to_vec());
    s.push(wire);
    let frames = s.take_frames();
    assert_eq!(frames.len(), 1);
    let (frame, _) = parse_frame(&frames[0]);
    let delta = decode(&frame.data).unwrap().unwrap();
    assert_eq!(delta.content, Some(String::from("round trip")));
}

#[test]
fn engine_skips_malformed_frames() {
    let mut e = StreamEngine::new();
    let evs = e.feed(b"data: {not json\n\ndata: {\"choices\":[{\"delta\":{\"content\":\"ok\"}}]}\n\n".to_vec());
    assert_eq!(evs.len(), 1);
    match &evs[0] {
        StreamEvent::Token { text, first } => {
            assert_eq!(text, "ok");
            assert!(*first);
        }
        StreamEvent::End => panic!("expected a token"),
    }
}

#[test]
fn engine_ends_on_sentinel() {
    let mut e = StreamEngine::new();
    let evs = e.feed(b"data: [DONE]\n\n".to_vec());
    assert_eq!(evs.len(), 1);
    assert!(matches!(evs[0], StreamEvent::End));
}

#[test]
fn engine_keeps_retry_hint() {
    let mut e = StreamEngine::new();
    assert_eq!(e.retry_hint(), None);
    let evs = e.feed(b"retry: 250\ndata: [DONE]\n\n".to_vec());
    assert_eq!(evs.len(), 1);
    assert_eq!(e.retry_hint(), Some(250));
}
