use json_dotpath::DotPaths;
use vstd::prelude::*;

verus! {

#[verifier::external_type_specification]
#[verifier::external_body]
pub struct ExValue(serde_json::Value);

/// Whether `serde_json` reads `text` as one JSON value.
pub uninterp spec fn json_accepts(text: Seq<char>) -> bool;

/// Whether the JSON document `text` holds a value other than `null` under the dotted `path`.
pub uninterp spec fn json_has_path(text: Seq<char>, path: Seq<char>) -> bool;

/// The string that the JSON document `text` holds under the dotted `path`;
/// `None` where there is none, or where the value there is not a string.
pub uninterp spec fn json_string_at(text: Seq<char>, path: Seq<char>) -> Option<Seq<char>>;

/// A parsed JSON document together with the text it was parsed from.
pub(crate) struct JsonDocument {
    text: String,
    value: serde_json::Value,
}

impl JsonDocument {
    /// The text the document was parsed from.
    pub(crate) closed spec fn source(&self) -> Seq<char> {
        self.text@
    }

    /// Relies on `serde_json::from_str::<Value>`: whether it accepts a text
    /// depends on that text alone. The document keeps the text beside the value.
    #[verifier::external_body]
    pub(crate) fn parse(text: &str) -> (r: Option<JsonDocument>)
        ensures
            r is Some <==> json_accepts(text@),
            r matches Some(d) ==> d.source() == text@,
    {
        match serde_json::from_str::<serde_json::Value>(text) {
            Ok(value) => Some(JsonDocument { text: text.to_string(), value }),
            Err(_) => None,
        }
    }

    /// Relies on `json_dotpath::DotPaths::dot_has` over the value parsed from
    /// `source()`: the answer depends on that text and on the path alone.
    #[verifier::external_body]
    pub(crate) fn has_path(&self, path: &str) -> (r: bool)
        ensures
            r == json_has_path(self.source(), path@),
    {
        self.value.dot_has(path)
    }

    /// Relies on `json_dotpath::DotPaths::dot_get::<String>` over the value
    /// parsed from `source()`; a failed conversion and a missing value both give `None`.
    #[verifier::external_body]
    pub(crate) fn string_at(&self, path: &str) -> (r: Option<String>)
        ensures
            match r {
                Some(s) => json_string_at(self.source(), path@) == Some(s@),
                None => json_string_at(self.source(), path@) is None,
            },
    {
        self.value.dot_get::<String>(path).ok().flatten()
    }
}

} // verus!
