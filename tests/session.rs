use std::collections::VecDeque;
use tradingview_stream::envelope::{split_envelopes, wrap_envelope};
use tradingview_stream::{DecodeOutcome, SessionState, TradingviewApi, TradingviewError, WebSocket};

const HELLO: &str = r#"{"session_id":"<0.1.2>","timestamp":1,"release":"registry:5000/prod:1","studies_metadata_hash":"x","protocol":"json"}"#;

fn bootstrap() -> Vec<String> {
    vec![
        r#"{"m":"set_auth_token","p":["unauthorized_user_token"]}"#.to_string(),
        r#"{"m":"quote_create_session","p":["quote_session_id"]}"#.to_string(),
        r#"{"m":"quote_set_fields","p":["quote_session_id","lp","lp_time"]}"#.to_string(),
        r#"{"m":"quote_add_symbols","p":["quote_session_id","={\"symbol\":\"CRYPTO:BTCUSD\"}"]}"#.to_string(),
        r#"{"m":"quote_fast_symbols","p":["quote_session_id","INDEX:BTCUSD"]}"#.to_string(),
        r#"{"m":"chart_create_session","p":["chart_session_id",""]}"#.to_string(),
        r#"{"m":"resolve_symbol","p":["chart_session_id","symbol_id","x"]}"#.to_string(),
        r#"{"m":"create_series","p":["chart_session_id","series_id","study_parent_id","symbol_id","1",300,""]}"#.to_string(),
        r#"{"m":"create_study","p":["chart_session_id","study_id","study_parent_id","series_id","Script@tv-scripting-101!",{}]}"#.to_string(),
    ]
}

#[test]
fn first_hello_sends_bootstrap_batch_once() {
    let mut api = TradingviewApi::new(bootstrap());
    assert_eq!(api.state(), SessionState::AwaitingHello);
    let out = api.handle_payload(&wrap_envelope(HELLO)).unwrap();
    let expected: Vec<String> = bootstrap().iter().map(|c| wrap_envelope(c)).collect();
    assert_eq!(out.len(), 9);
    assert_eq!(out, expected);
    assert_eq!(out[0], format!("~m~{}~m~{}", bootstrap()[0].len(), bootstrap()[0]));
    assert_eq!(api.state(), SessionState::Bootstrapped);
    let again = api.handle_payload(&wrap_envelope(HELLO)).unwrap();
    assert!(again.is_empty());
    assert_eq!(api.state(), SessionState::Streaming);
}

#[test]
fn two_hellos_in_one_payload_send_batch_once() {
    let mut api = TradingviewApi::new(bootstrap());
    let payload = format!("{}{}", wrap_envelope(HELLO), wrap_envelope(HELLO));
    let out = api.handle_payload(&payload).unwrap();
    assert_eq!(out.len(), 9);
}

#[test]
fn ping_is_answered_with_same_literal() {
    let mut api = TradingviewApi::new(bootstrap());
    let out = api.handle_payload("~m~5~m~~h~42").unwrap();
    assert_eq!(out, vec!["~m~5~m~~h~42".to_string()]);
    assert_eq!(api.state(), SessionState::AwaitingHello);

    let frame = WebSocket::encode_masked_text_frame(&out[0], [0xA1, 0xB2, 0xC3, 0xD4]);
    let mut plain = vec![frame[0], frame[1] & 0x7f];
    for (i, b) in frame[6..].iter().enumerate() {
        plain.push(b ^ [0xA1, 0xB2, 0xC3, 0xD4][i % 4]);
    }
    let mut buffer: VecDeque<u8> = plain.into_iter().collect();
    let decoded = WebSocket::decode_websocket_frame(&mut buffer).unwrap();
    let text = match decoded {
        DecodeOutcome::Complete(t) => t,
        other => panic!("unexpected {:?}", other),
    };
    assert_eq!(split_envelopes(&text), vec!["~h~42"]);
}

#[test]
fn data_messages_send_nothing_and_move_to_streaming() {
    let mut api = TradingviewApi::new(bootstrap());
    api.handle_payload(&wrap_envelope(HELLO)).unwrap();
    let data = r#"{"m":"qsd","p":["qs",{"n":"CRYPTO:BTCUSD","v":{"lp":64000.5}}]}"#;
    let payload = format!("{}{}", wrap_envelope(data), wrap_envelope("~h~9"));
    let out = api.handle_payload(&payload).unwrap();
    assert_eq!(out, vec![wrap_envelope("~h~9")]);
    assert_eq!(api.state(), SessionState::Streaming);
}

#[test]
fn data_before_hello_keeps_waiting() {
    let mut api = TradingviewApi::new(bootstrap());
    let out = api.handle_payload(&wrap_envelope(r#"{"m":"quote_completed","p":["qs","X"]}"#)).unwrap();
    assert!(out.is_empty());
    assert_eq!(api.state(), SessionState::AwaitingHello);
    let out = api.handle_payload(&wrap_envelope(HELLO)).unwrap();
    assert_eq!(out.len(), 9);
}

#[test]
fn empty_segment_sends_nothing() {
    let mut api = TradingviewApi::new(bootstrap());
    let out = api.handle_payload("~m~0~m~").unwrap();
    assert!(out.is_empty());
    assert_eq!(api.state(), SessionState::AwaitingHello);
}

#[test]
fn critical_error_terminates_with_exact_body() {
    let mut api = TradingviewApi::new(bootstrap());
    api.handle_payload(&wrap_envelope(HELLO)).unwrap();
    let body = r#"{"m":"critical_error","p":["cs","bad request"]}"#;
    let payload = format!("{}{}", wrap_envelope(body), wrap_envelope("~h~3"));
    assert_eq!(
        api.handle_payload(&payload),
        Err(TradingviewError::CriticalError(body.to_string()))
    );
    assert_eq!(api.state(), SessionState::Terminated);
    assert_eq!(api.handle_payload("~m~4~m~~h~1"), Err(TradingviewError::Terminated));
    assert_eq!(api.handle_payload(""), Err(TradingviewError::Terminated));
}

#[test]
fn protocol_and_study_errors_terminate() {
    let mut api = TradingviewApi::new(bootstrap());
    let body = r#"{"m":"protocol_error","p":["wrong data"]}"#;
    assert_eq!(
        api.handle_payload(&wrap_envelope(body)),
        Err(TradingviewError::ProtocolError(body.to_string()))
    );
    let mut api = TradingviewApi::new(bootstrap());
    let body = r#"{"m":"study_error","p":["cs","st","x"]}"#;
    assert_eq!(
        api.handle_payload(&wrap_envelope(body)),
        Err(TradingviewError::StudyError(body.to_string()))
    );
    assert_eq!(api.state(), SessionState::Terminated);
}

#[test]
fn unclassifiable_message_terminates_with_parse_error() {
    let mut api = TradingviewApi::new(bootstrap());
    assert_eq!(api.handle_payload("~m~3~m~{x}"), Err(TradingviewError::ParseError));
    assert_eq!(api.state(), SessionState::Terminated);
}
