use tradingview_stream::protocol::{classify_shape, determine_incoming_message_type, method_type};
use tradingview_stream::{JsonShape, MessageType, MethodField, TradingviewError};

fn shape() -> JsonShape {
    JsonShape {
        release: false,
        method: MethodField::Absent,
        bid_size: false,
        description: false,
        local_popularity: false,
        last_price_time: false,
        last_price: false,
        series_update: false,
        study_update: false,
    }
}

#[test]
fn ping_literal_is_ping() {
    assert_eq!(determine_incoming_message_type("~h~42"), Ok(MessageType::Ping(42)));
    assert_eq!(determine_incoming_message_type("~h~007"), Ok(MessageType::Ping(7)));
}

#[test]
fn ping_literal_anywhere_wins_over_json() {
    assert_eq!(
        determine_incoming_message_type("{\"release\":\"~h~5\"}"),
        Ok(MessageType::Ping(5))
    );
}

#[test]
fn ping_id_too_large_is_parse_error() {
    assert_eq!(
        determine_incoming_message_type("~h~999999999999999999999999"),
        Err(TradingviewError::ParseError)
    );
}

#[test]
fn empty_message_is_empty() {
    assert_eq!(determine_incoming_message_type(""), Ok(MessageType::Empty));
}

#[test]
fn not_json_is_parse_error() {
    assert_eq!(determine_incoming_message_type("hello"), Err(TradingviewError::ParseError));
    assert_eq!(determine_incoming_message_type("~h~"), Err(TradingviewError::ParseError));
}

#[test]
fn release_marker_precedes_method() {
    assert_eq!(
        determine_incoming_message_type(r#"{"release":"registry.x","m":"critical_error","p":[]}"#),
        Ok(MessageType::ConnectedToServer)
    );
    let mut s = shape();
    s.release = true;
    s.method = MethodField::Text("critical_error".to_string());
    s.bid_size = true;
    assert_eq!(classify_shape(&s), Ok(MessageType::ConnectedToServer));
    s.method = MethodField::NotText;
    assert_eq!(classify_shape(&s), Ok(MessageType::ConnectedToServer));
}

#[test]
fn known_methods_are_classified() {
    let cases = [
        ("protocol_error", MessageType::ProtocolError),
        ("study_error", MessageType::StudyError),
        ("critical_error", MessageType::CriticalError),
        ("quote_completed", MessageType::QuoteCompleted),
        ("series_loading", MessageType::SeriesLoading),
        ("symbol_resolved", MessageType::SymbolResolved),
        ("timescale_update", MessageType::TimescaleUpdate),
        ("series_completed", MessageType::SeriesCompleted),
        ("study_completed", MessageType::StudyCompleted),
        ("study_loading", MessageType::StudyLoading),
    ];
    for (name, kind) in cases {
        let msg = format!(r#"{{"m":"{}","p":["cs",{{"v":{{"lp":1}}}}]}}"#, name);
        assert_eq!(determine_incoming_message_type(&msg), Ok(kind));
        assert_eq!(method_type(&name.to_string()), Some(kind));
    }
    assert_eq!(method_type(&"qsd".to_string()), None);
}

#[test]
fn data_paths_are_classified_in_order() {
    let cases = [
        (r#"{"m":"qsd","p":["qs",{"v":{"bid_size":1,"description":"d","lp":2}}]}"#, MessageType::QsdBidAsk),
        (r#"{"m":"qsd","p":["qs",{"v":{"description":"d","lp":2}}]}"#, MessageType::QsdDescription),
        (r#"{"m":"qsd","p":["qs",{"v":{"local_popularity":{},"lp":2}}]}"#, MessageType::QsdLocalPopularity),
        (r#"{"m":"qsd","p":["qs",{"v":{"lp_time":5,"lp":2}}]}"#, MessageType::QsdLastPriceTime),
        (r#"{"m":"qsd","p":["qs",{"v":{"lp":2}}]}"#, MessageType::QsdLastPrice),
        (r#"{"m":"du","p":["cs",{"series_id":{"s":[]}}]}"#, MessageType::SeriesUpdate),
        (r#"{"m":"du","p":["cs",{"study_id":{"st":[]}}]}"#, MessageType::StudyUpdate),
    ];
    for (msg, kind) in cases {
        assert_eq!(determine_incoming_message_type(msg), Ok(kind), "{}", msg);
    }
}

#[test]
fn unknown_shape_is_parse_error() {
    assert_eq!(
        determine_incoming_message_type(r#"{"m":"qsd","p":["qs",{"v":{"ch":1}}]}"#),
        Err(TradingviewError::ParseError)
    );
    assert_eq!(determine_incoming_message_type("[1,2]"), Err(TradingviewError::ParseError));
    assert_eq!(classify_shape(&shape()), Err(TradingviewError::ParseError));
}

#[test]
fn non_string_method_goes_on_to_data_paths() {
    assert_eq!(
        determine_incoming_message_type(r#"{"m":5,"p":["qs",{"v":{"lp":2}}]}"#),
        Ok(MessageType::QsdLastPrice)
    );
    assert_eq!(
        determine_incoming_message_type(r#"{"m":5,"p":["qs",{"v":{"ch":2}}]}"#),
        Err(TradingviewError::ParseError)
    );
    let mut s = shape();
    s.method = MethodField::NotText;
    assert_eq!(classify_shape(&s), Err(TradingviewError::ParseError));
    s.last_price = true;
    assert_eq!(classify_shape(&s), Ok(MessageType::QsdLastPrice));
}

#[test]
fn unknown_method_uses_first_present_path() {
    assert_eq!(
        determine_incoming_message_type(r#"{"m":"qsd","p":["qs",{"v":{"lp":3,"lp_time":2}}]}"#),
        Ok(MessageType::QsdLastPriceTime)
    );
}

#[test]
fn unknown_method_falls_through_to_paths() {
    let mut s = shape();
    s.method = MethodField::Text("qsd".to_string());
    s.series_update = true;
    s.study_update = true;
    assert_eq!(classify_shape(&s), Ok(MessageType::SeriesUpdate));
    s.method = MethodField::Text("study_loading".to_string());
    assert_eq!(classify_shape(&s), Ok(MessageType::StudyLoading));
}

#[test]
fn tradingview_error_messages() {
    assert_eq!(TradingviewError::ParseError.message(), "Parse error");
    assert_eq!(TradingviewError::SendError.message(), "Send error");
    assert_eq!(
        TradingviewError::CriticalError("{\"m\":\"critical_error\"}".to_string()).message(),
        "critical_error: {\"m\":\"critical_error\"}"
    );
}
