use crate::envelope::{chars_of, decimal_value, find_ping, parse_decimal, ping_digits};
use crate::json::{json_accepts, json_has_path, json_string_at, JsonDocument};
use vstd::prelude::*;
use vstd::string::*;

verus! {

/// Failures of the protocol side.
#[derive(Debug, PartialEq, Eq)]
pub enum TradingviewError {
    /// A message that is not JSON, or whose shape is none of the known kinds.
    ParseError,
    SerializationError,
    SendError,
    ReceiveError,
    /// The server reported a protocol error; its message, unchanged.
    ProtocolError(String),
    /// The server reported a study error; its message, unchanged.
    StudyError(String),
    /// The server reported a critical error; its message, unchanged.
    CriticalError(String),
    /// The engine had already stopped on an earlier failure.
    Terminated,
}

/// `TradingviewError` with its texts as character sequences.
pub enum ErrorView {
    Parse,
    Serialization,
    Send,
    Receive,
    Protocol(Seq<char>),
    Study(Seq<char>),
    Critical(Seq<char>),
    Terminated,
}

impl View for TradingviewError {
    type V = ErrorView;

    open spec fn view(&self) -> ErrorView {
        match self {
            TradingviewError::ParseError => ErrorView::Parse,
            TradingviewError::SerializationError => ErrorView::Serialization,
            TradingviewError::SendError => ErrorView::Send,
            TradingviewError::ReceiveError => ErrorView::Receive,
            TradingviewError::ProtocolError(s) => ErrorView::Protocol(s@),
            TradingviewError::StudyError(s) => ErrorView::Study(s@),
            TradingviewError::CriticalError(s) => ErrorView::Critical(s@),
            TradingviewError::Terminated => ErrorView::Terminated,
        }
    }
}

/// The text that describes each protocol failure; a failure the server
/// reported carries the server's message after the description.
pub open spec fn tradingview_error_text(e: ErrorView) -> Seq<char> {
    match e {
        ErrorView::Parse => "Parse error"@,
        ErrorView::Serialization => "Serialization error"@,
        ErrorView::Send => "Send error"@,
        ErrorView::Receive => "Receive error"@,
        ErrorView::Protocol(body) => "protocol_error: "@ + body,
        ErrorView::Study(body) => "study_error: "@ + body,
        ErrorView::Critical(body) => "critical_error: "@ + body,
        ErrorView::Terminated => "Engine terminated"@,
    }
}

impl TradingviewError {
    /// The text that describes this failure.
    pub fn message(&self) -> (r: String)
        ensures
            r@ == tradingview_error_text(self@),
    {
        match self {
            TradingviewError::ParseError => String::from_str("Parse error"),
            TradingviewError::SerializationError => String::from_str("Serialization error"),
            TradingviewError::SendError => String::from_str("Send error"),
            TradingviewError::ReceiveError => String::from_str("Receive error"),
            TradingviewError::ProtocolError(body) => {
                String::from_str("protocol_error: ").concat(body.as_str())
            },
            TradingviewError::StudyError(body) => {
                String::from_str("study_error: ").concat(body.as_str())
            },
            TradingviewError::CriticalError(body) => {
                String::from_str("critical_error: ").concat(body.as_str())
            },
            TradingviewError::Terminated => String::from_str("Engine terminated"),
        }
    }
}

/// The kind of one message from the server.
#[derive(Debug, Clone, Copy, PartialEq, Eq, Structural)]
pub enum MessageType {
    ConnectedToServer,
    Ping(usize),
    ProtocolError,
    Empty,
    QsdBidAsk,
    QsdDescription,
    QsdLocalPopularity,
    QuoteCompleted,
    SeriesLoading,
    SymbolResolved,
    TimescaleUpdate,
    SeriesCompleted,
    StudyCompleted,
    StudyError,
    CriticalError,
    StudyLoading,
    SeriesUpdate,
    StudyUpdate,
    QsdLastPriceTime,
    QsdLastPrice,
}

/// The `m` field of a JSON message.
#[derive(Debug)]
pub enum MethodField {
    /// There is no `m` field (or it is `null`).
    Absent,
    /// The `m` field holds this string.
    Text(String),
    /// The `m` field holds something other than a string.
    NotText,
}

/// `MethodField` with its text as a character sequence.
pub enum MethodView {
    Absent,
    Text(Seq<char>),
    NotText,
}

/// What the classifier reads from a JSON message: which marker paths it has,
/// and its `m` field.
#[derive(Debug)]
pub struct JsonShape {
    /// `release`
    pub release: bool,
    /// `m`
    pub method: MethodField,
    /// `p.1.v.bid_size`
    pub bid_size: bool,
    /// `p.1.v.description`
    pub description: bool,
    /// `p.1.v.local_popularity`
    pub local_popularity: bool,
    /// `p.1.v.lp_time`
    pub last_price_time: bool,
    /// `p.1.v.lp`
    pub last_price: bool,
    /// `p.1.series_id.s`
    pub series_update: bool,
    /// `p.1.study_id.st`
    pub study_update: bool,
}

/// `JsonShape` with the method text as a character sequence.
pub struct ShapeView {
    pub release: bool,
    pub method: MethodView,
    pub bid_size: bool,
    pub description: bool,
    pub local_popularity: bool,
    pub last_price_time: bool,
    pub last_price: bool,
    pub series_update: bool,
    pub study_update: bool,
}

impl View for JsonShape {
    type V = ShapeView;

    open spec fn view(&self) -> ShapeView {
        ShapeView {
            release: self.release,
            method: match self.method {
                MethodField::Absent => MethodView::Absent,
                MethodField::Text(s) => MethodView::Text(s@),
                MethodField::NotText => MethodView::NotText,
            },
            bid_size: self.bid_size,
            description: self.description,
            local_popularity: self.local_popularity,
            last_price_time: self.last_price_time,
            last_price: self.last_price,
            series_update: self.series_update,
            study_update: self.study_update,
        }
    }
}

/// The kind that a known method name stands for.
pub open spec fn method_kind(m: Seq<char>) -> Option<MessageType> {
    if m == "protocol_error"@ {
        Some(MessageType::ProtocolError)
    } else if m == "study_error"@ {
        Some(MessageType::StudyError)
    } else if m == "critical_error"@ {
        Some(MessageType::CriticalError)
    } else if m == "quote_completed"@ {
        Some(MessageType::QuoteCompleted)
    } else if m == "series_loading"@ {
        Some(MessageType::SeriesLoading)
    } else if m == "symbol_resolved"@ {
        Some(MessageType::SymbolResolved)
    } else if m == "timescale_update"@ {
        Some(MessageType::TimescaleUpdate)
    } else if m == "series_completed"@ {
        Some(MessageType::SeriesCompleted)
    } else if m == "study_completed"@ {
        Some(MessageType::StudyCompleted)
    } else if m == "study_loading"@ {
        Some(MessageType::StudyLoading)
    } else {
        None
    }
}

/// The kind of a JSON message of the given shape, tested in a fixed order:
/// the release marker, then the method name, then the data paths. An `m`
/// field that is absent, not a string, or none of the known names goes on to
/// the data paths. `None` where the shape fits no kind.
pub open spec fn shape_kind(shape: ShapeView) -> Option<MessageType> {
    if shape.release {
        Some(MessageType::ConnectedToServer)
    } else if shape.method matches MethodView::Text(m) && method_kind(m) is Some {
        method_kind(shape.method->Text_0)
    } else if shape.bid_size {
        Some(MessageType::QsdBidAsk)
    } else if shape.description {
        Some(MessageType::QsdDescription)
    } else if shape.local_popularity {
        Some(MessageType::QsdLocalPopularity)
    } else if shape.last_price_time {
        Some(MessageType::QsdLastPriceTime)
    } else if shape.last_price {
        Some(MessageType::QsdLastPrice)
    } else if shape.series_update {
        Some(MessageType::SeriesUpdate)
    } else if shape.study_update {
        Some(MessageType::StudyUpdate)
    } else {
        None
    }
}

/// The shape of the JSON document `text`.
pub open spec fn shape_of(text: Seq<char>) -> ShapeView {
    ShapeView {
        release: json_has_path(text, "release"@),
        method: if json_has_path(text, "m"@) {
            match json_string_at(text, "m"@) {
                Some(s) => MethodView::Text(s),
                None => MethodView::NotText,
            }
        } else {
            MethodView::Absent
        },
        bid_size: json_has_path(text, "p.1.v.bid_size"@),
        description: json_has_path(text, "p.1.v.description"@),
        local_popularity: json_has_path(text, "p.1.v.local_popularity"@),
        last_price_time: json_has_path(text, "p.1.v.lp_time"@),
        last_price: json_has_path(text, "p.1.v.lp"@),
        series_update: json_has_path(text, "p.1.series_id.s"@),
        study_update: json_has_path(text, "p.1.study_id.st"@),
    }
}

/// The kind of one message from the server: a ping literal anywhere in it
/// makes it a ping; an empty message is empty; anything else must be JSON of
/// a known shape.
pub open spec fn incoming_kind(m: Seq<char>) -> Result<MessageType, ErrorView> {
    match ping_digits(m) {
        Some(d) => if decimal_value(d) <= usize::MAX {
            Ok(MessageType::Ping(decimal_value(d) as usize))
        } else {
            Err(ErrorView::Parse)
        },
        None => if m.len() == 0 {
            Ok(MessageType::Empty)
        } else if !json_accepts(m) {
            Err(ErrorView::Parse)
        } else {
            match shape_kind(shape_of(m)) {
                Some(k) => Ok(k),
                None => Err(ErrorView::Parse),
            }
        },
    }
}

/// Tests whether `m` holds the same text as `lit`.
fn text_is(m: &String, lit: &str) -> (r: bool)
    ensures
        r == (m@ == lit@),
{
    let l = String::from_str(lit);
    m.eq(&l)
}

/// The kind that a known method name stands for.
pub fn method_type(m: &String) -> (r: Option<MessageType>)
    ensures
        r == method_kind(m@),
{
    if text_is(m, "protocol_error") {
        Some(MessageType::ProtocolError)
    } else if text_is(m, "study_error") {
        Some(MessageType::StudyError)
    } else if text_is(m, "critical_error") {
        Some(MessageType::CriticalError)
    } else if text_is(m, "quote_completed") {
        Some(MessageType::QuoteCompleted)
    } else if text_is(m, "series_loading") {
        Some(MessageType::SeriesLoading)
    } else if text_is(m, "symbol_resolved") {
        Some(MessageType::SymbolResolved)
    } else if text_is(m, "timescale_update") {
        Some(MessageType::TimescaleUpdate)
    } else if text_is(m, "series_completed") {
        Some(MessageType::SeriesCompleted)
    } else if text_is(m, "study_completed") {
        Some(MessageType::StudyCompleted)
    } else if text_is(m, "study_loading") {
        Some(MessageType::StudyLoading)
    } else {
        None
    }
}

/// Classifies a JSON message by its shape; a method field that names no known
/// method (or is not a string) goes on to the data paths, and a shape that fits
/// no kind is a parse error.
pub fn classify_shape(shape: &JsonShape) -> (r: Result<MessageType, TradingviewError>)
    ensures
        match shape_kind(shape@) {
            Some(k) => r == Ok::<MessageType, TradingviewError>(k),
            None => r == Err::<MessageType, TradingviewError>(TradingviewError::ParseError),
        },
{
    if shape.release {
        return Ok(MessageType::ConnectedToServer);
    }
    if let MethodField::Text(m) = &shape.method {
        if let Some(k) = method_type(m) {
            return Ok(k);
        }
    }
    if shape.bid_size {
        Ok(MessageType::QsdBidAsk)
    } else if shape.description {
        Ok(MessageType::QsdDescription)
    } else if shape.local_popularity {
        Ok(MessageType::QsdLocalPopularity)
    } else if shape.last_price_time {
        Ok(MessageType::QsdLastPriceTime)
    } else if shape.last_price {
        Ok(MessageType::QsdLastPrice)
    } else if shape.series_update {
        Ok(MessageType::SeriesUpdate)
    } else if shape.study_update {
        Ok(MessageType::StudyUpdate)
    } else {
        Err(TradingviewError::ParseError)
    }
}

/// Reads the shape of a parsed JSON message.
fn read_shape(doc: &JsonDocument) -> (r: JsonShape)
    ensures
        r@ == shape_of(doc.source()),
{
    let method = if doc.has_path("m") {
        match doc.string_at("m") {
            Some(s) => MethodField::Text(s),
            None => MethodField::NotText,
        }
    } else {
        MethodField::Absent
    };
    JsonShape {
        release: doc.has_path("release"),
        method,
        bid_size: doc.has_path("p.1.v.bid_size"),
        description: doc.has_path("p.1.v.description"),
        local_popularity: doc.has_path("p.1.v.local_popularity"),
        last_price_time: doc.has_path("p.1.v.lp_time"),
        last_price: doc.has_path("p.1.v.lp"),
        series_update: doc.has_path("p.1.series_id.s"),
        study_update: doc.has_path("p.1.study_id.st"),
    }
}

/// Classifies one message from the server.
pub fn determine_incoming_message_type(message: &str) -> (r: Result<MessageType, TradingviewError>)
    ensures
        match r {
            Ok(k) => incoming_kind(message@) == Ok::<MessageType, ErrorView>(k),
            Err(e) => incoming_kind(message@) == Err::<MessageType, ErrorView>(e@),
        },
{
    let chars = chars_of(message);
    if let Some((from, to)) = find_ping(&chars) {
        return match parse_decimal(&chars, from, to) {
            Some(id) => Ok(MessageType::Ping(id)),
            None => Err(TradingviewError::ParseError),
        };
    }
    if chars.len() == 0 {
        return Ok(MessageType::Empty);
    }
    match JsonDocument::parse(message) {
        None => Err(TradingviewError::ParseError),
        Some(doc) => {
            let shape = read_shape(&doc);
            classify_shape(&shape)
        },
    }
}

/// The release marker is tested before the method field: a JSON message that
/// has it is a server hello, whatever its `m` field holds.
pub proof fn lemma_release_marker_first(m: Seq<char>)
    requires
        ping_digits(m) is None,
        m.len() > 0,
        json_accepts(m),
        json_has_path(m, "release"@),
    ensures
        incoming_kind(m) == Ok::<MessageType, ErrorView>(MessageType::ConnectedToServer),
{
}

} // verus!
