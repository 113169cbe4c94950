use std::collections::VecDeque;
use tradingview_stream::frame::WebSocket;
use tradingview_stream::{DecodeOutcome, WebsocketError};

/// Takes the mask off a client frame: clears the mask bit, drops the four mask
/// bytes and XORs the payload back.
fn strip_mask(frame: &[u8]) -> Vec<u8> {
    let code = frame[1] & 0x7f;
    let header = match code {
        0..=125 => 2,
        126 => 4,
        _ => 10,
    };
    let mask = &frame[header..header + 4];
    let mut out = vec![frame[0], code];
    out.extend_from_slice(&frame[2..header]);
    for (i, b) in frame[header + 4..].iter().enumerate() {
        out.push(b ^ mask[i % 4]);
    }
    out
}

fn decode_all(bytes: &[u8]) -> (Result<DecodeOutcome, WebsocketError>, VecDeque<u8>) {
    let mut buffer: VecDeque<u8> = bytes.iter().copied().collect();
    let r = WebSocket::decode_websocket_frame(&mut buffer);
    (r, buffer)
}

fn round_trip(text: &str) {
    let frame = WebSocket::encode_masked_text_frame(text, [0x12, 0x34, 0x56, 0x78]);
    let (r, rest) = decode_all(&strip_mask(&frame));
    assert_eq!(r, Ok(DecodeOutcome::Complete(text.to_string())));
    assert!(rest.is_empty());
}

#[test]
fn round_trip_empty_payload() {
    round_trip("");
}

#[test]
fn round_trip_short_and_non_ascii_payloads() {
    round_trip("hello");
    round_trip("prix: 42 €, ~m~ ünïcödé");
}

#[test]
fn round_trip_across_length_boundaries() {
    for n in [124usize, 125, 126, 127, 65535, 65536, 70000] {
        round_trip(&"x".repeat(n));
    }
}

#[test]
fn round_trip_with_random_mask() {
    let text = "~m~5~m~~h~42";
    let frame = WebSocket::encode_websocket_text_frame(text);
    assert_eq!(frame.len(), 2 + 4 + text.len());
    let (r, _) = decode_all(&strip_mask(&frame));
    assert_eq!(r, Ok(DecodeOutcome::Complete(text.to_string())));
}

#[test]
fn masking_xors_each_byte_with_mask_by_position() {
    let frame = WebSocket::encode_masked_text_frame("abcde", [1, 2, 3, 4]);
    assert_eq!(
        frame,
        vec![0x81, 0x85, 1, 2, 3, 4, b'a' ^ 1, b'b' ^ 2, b'c' ^ 3, b'd' ^ 4, b'e' ^ 1]
    );
}

#[test]
fn zero_length_payload_encodes_length_zero() {
    let frame = WebSocket::encode_masked_text_frame("", [9, 9, 9, 9]);
    assert_eq!(frame, vec![0x81, 0x80, 9, 9, 9, 9]);
}

#[test]
fn length_130_uses_two_byte_form() {
    let text = "a".repeat(130);
    let frame = WebSocket::encode_masked_text_frame(&text, [0, 0, 0, 0]);
    assert_eq!(frame[1], 0x80 | 126);
    assert_eq!(&frame[2..4], &[0x00, 0x82]);
    assert_eq!(frame.len(), 2 + 2 + 4 + 130);
}

#[test]
fn length_70000_uses_eight_byte_form() {
    let text = "a".repeat(70_000);
    let frame = WebSocket::encode_masked_text_frame(&text, [0, 0, 0, 0]);
    assert_eq!(frame[1], 0x80 | 127);
    assert_eq!(&frame[2..10], &70_000u64.to_be_bytes());
    assert_eq!(frame.len(), 2 + 8 + 4 + 70_000);
}

#[test]
fn length_125_uses_direct_form() {
    let text = "a".repeat(125);
    let frame = WebSocket::encode_masked_text_frame(&text, [0, 0, 0, 0]);
    assert_eq!(frame[1], 0x80 | 125);
    assert_eq!(frame.len(), 2 + 4 + 125);
}

#[test]
fn incremental_decode_one_byte_at_a_time() {
    let text = "x".repeat(300);
    let mut stream = strip_mask(&WebSocket::encode_masked_text_frame(&text, [7, 7, 7, 7]));
    let frame_len = stream.len();
    stream.extend_from_slice(&[0x81, 0x03, b'a']);
    let mut ws = WebSocket::new();
    let mut completed = 0;
    for (i, b) in stream.iter().enumerate() {
        ws.feed(&[*b]);
        let r = ws.next_frame();
        if i + 1 < frame_len {
            assert_eq!(r, Ok(DecodeOutcome::Incomplete), "byte {}", i);
        } else if i + 1 == frame_len {
            assert_eq!(r, Ok(DecodeOutcome::Complete(text.clone())));
            completed += 1;
        } else {
            assert_eq!(r, Ok(DecodeOutcome::Incomplete));
        }
    }
    assert_eq!(completed, 1);
    ws.feed(&[b'b', b'c']);
    assert_eq!(ws.next_frame(), Ok(DecodeOutcome::Complete("abc".to_string())));
    assert_eq!(ws.next_frame(), Ok(DecodeOutcome::Incomplete));
}

#[test]
fn incremental_decode_in_uneven_chunks_keeps_following_bytes() {
    let text = "y".repeat(70_000);
    let mut stream = strip_mask(&WebSocket::encode_masked_text_frame(&text, [1, 2, 3, 4]));
    let frame_len = stream.len();
    stream.extend_from_slice(&[0x81, 0x02, b'o', b'k', 0x81]);
    let mut ws = WebSocket::new();
    let mut fed = 0;
    let mut seen = Vec::new();
    for chunk in stream.chunks(977) {
        ws.feed(chunk);
        fed += chunk.len();
        loop {
            match ws.next_frame() {
                Ok(DecodeOutcome::Complete(s)) => seen.push((fed >= frame_len, s)),
                Ok(DecodeOutcome::Incomplete) => break,
                other => panic!("unexpected {:?}", other),
            }
        }
    }
    assert_eq!(seen.len(), 2);
    assert_eq!(seen[0], (true, text));
    assert_eq!(seen[1].1, "ok");
    assert_eq!(ws.next_frame(), Ok(DecodeOutcome::Incomplete));
    ws.feed(&[0x01, b'!']);
    assert_eq!(ws.next_frame(), Ok(DecodeOutcome::Complete("!".to_string())));
}

#[test]
fn decoder_reads_sixteen_bit_extended_length() {
    let mut bytes = vec![0x81, 126, 0x00, 0x80];
    bytes.extend(std::iter::repeat(b'z').take(128));
    bytes.push(0xAA);
    let (r, rest) = decode_all(&bytes);
    assert_eq!(r, Ok(DecodeOutcome::Complete("z".repeat(128))));
    assert_eq!(rest, VecDeque::from(vec![0xAA]));
}

#[test]
fn decoder_accepts_non_minimal_eight_byte_length() {
    let mut bytes = vec![0x81, 127, 0, 0, 0, 0, 0, 0, 0, 3];
    bytes.extend_from_slice(b"abc");
    let (r, rest) = decode_all(&bytes);
    assert_eq!(r, Ok(DecodeOutcome::Complete("abc".to_string())));
    assert!(rest.is_empty());
}

#[test]
fn short_buffers_are_incomplete_and_untouched() {
    for bytes in [vec![], vec![0x81], vec![0x81, 126, 0x00], vec![0x81, 5, b'a', b'b'], vec![0x88, 0x02, 0x03]] {
        let (r, rest) = decode_all(&bytes);
        assert_eq!(r, Ok(DecodeOutcome::Incomplete));
        assert_eq!(rest, VecDeque::from(bytes.clone()));
    }
}

#[test]
fn close_frame_yields_status_code_and_drops_four_bytes() {
    let (r, rest) = decode_all(&[0x88, 0x02, 0x03, 0xE8, 0x81]);
    assert_eq!(r, Ok(DecodeOutcome::CloseSignal(1000)));
    assert_eq!(rest, VecDeque::from(vec![0x81]));
}

#[test]
fn unsupported_opcode_is_an_error_and_leaves_buffer() {
    let (r, rest) = decode_all(&[0x82, 0x01, 0x00]);
    assert_eq!(r, Err(WebsocketError::FrameDecodeError));
    assert_eq!(rest, VecDeque::from(vec![0x82, 0x01, 0x00]));
}

#[test]
fn malformed_utf8_is_a_decode_error() {
    let (r, rest) = decode_all(&[0x81, 0x02, 0xFF, 0xFE]);
    assert_eq!(r, Err(WebsocketError::FrameDecodeError));
    assert_eq!(rest.len(), 4);
}

#[test]
fn upgrade_response_check() {
    assert!(WebSocket::upgrade_accepted("HTTP/1.1 101 Switching Protocols\r\nUpgrade: websocket\r\n\r\n"));
    assert!(!WebSocket::upgrade_accepted("HTTP/1.1 400 Bad Request\r\n\r\n"));
    assert!(!WebSocket::upgrade_accepted("101 Switching Protocol"));
    assert!(!WebSocket::upgrade_accepted(""));
}

#[test]
fn websocket_error_messages() {
    assert_eq!(WebsocketError::ReadError.message(), "Read error");
    assert_eq!(WebsocketError::FrameDecodeError.message(), "Frame decode error");
    assert_eq!(WebsocketError::TlsConnectError.message(), "TLS connect error");
    assert_eq!(WebsocketError::StringConversionError.message(), "String conversion error");
}

#[test]
fn batch_frames_keep_message_order() {
    let messages = vec!["~m~1~m~a".to_string(), "".to_string(), "x".repeat(200)];
    let frames = WebSocket::encode_batch(&messages);
    assert_eq!(frames.len(), 3);
    for (frame, message) in frames.iter().zip(messages.iter()) {
        let (r, rest) = decode_all(&strip_mask(frame));
        assert_eq!(r, Ok(DecodeOutcome::Complete(message.clone())));
        assert!(rest.is_empty());
    }
}
