//! Generic document forms read by outside parsers: the JSON document tree, and the events of
//! an XML text.
use vstd::prelude::*;

verus! {

#[verifier::external_type_specification]
#[verifier::external_body]
pub struct ExJsonValue(json::JsonValue);

/// A JSON value: the form in which a parsed document arrives.
pub enum JsonNode {
    Null,
    Bool(bool),
    /// A number, as its decimal notation.
    Number(String),
    Text(String),
    Array(Vec<JsonNode>),
    /// The members of an object, in order; keys are unique.
    Object(Vec<(String, JsonNode)>),
}

/// The value that the JSON text `text` denotes, or `None` if it is not valid JSON.
pub uninterp spec fn json_document(text: Seq<char>) -> Option<JsonNode>;

/// Relies on `json::parse`: it reads JSON text into a value, or fails on text that is not
/// JSON; the outcome depends on the text alone.
#[verifier::external_body]
pub(crate) fn parse_json(text: &str) -> (r: Result<JsonNode, json::Error>)
    ensures
        r is Ok <==> json_document(text@) is Some,
        r matches Ok(v) ==> json_document(text@) == Some(v),
{
    json::parse(text).map(|v| node_of(&v))
}

/// Relies on `json::JsonValue`'s variants: the same value, member for member.
#[verifier::external_body]
fn node_of(v: &json::JsonValue) -> JsonNode {
    match v {
        json::JsonValue::Null => JsonNode::Null,
        json::JsonValue::Boolean(b) => JsonNode::Bool(*b),
        json::JsonValue::Number(n) => JsonNode::Number(n.to_string()),
        json::JsonValue::Short(s) => JsonNode::Text(s.as_str().to_string()),
        json::JsonValue::String(s) => JsonNode::Text(s.clone()),
        json::JsonValue::Array(items) => JsonNode::Array(items.iter().map(node_of).collect()),
        json::JsonValue::Object(o) => JsonNode::Object(
            o.iter().map(|(k, x)| (k.to_string(), node_of(x))).collect(),
        ),
    }
}

#[verifier::external_type_specification]
#[verifier::external_body]
pub struct ExXmlEvent(xml::reader::XmlEvent);

/// One event of an XML text, with names reduced to their local part.
pub enum XmlEvt {
    /// An opening tag: its name and its attributes as (name, value).
    Start(String, Vec<(String, String)>),
    /// A closing tag.
    End(String),
    /// Text.
    Characters(String),
    /// White space between tags.
    Whitespace(String),
    /// Anything else: declarations, comments, processing instructions, CDATA.
    Other,
}

/// The events of the XML text `text` in document order, up to the first error; and whether
/// there is one.
pub uninterp spec fn xml_events_of(text: Seq<char>) -> (Seq<XmlEvt>, bool);

/// Relies on xml-rs's `EventReader`: it reads the events of `text` in document order and stops
/// at the first error, which it hands out last; the outcome depends on the text alone.
#[verifier::external_body]
pub(crate) fn xml_events(text: &str) -> (r: (Vec<XmlEvt>, Option<xml::reader::Error>))
    ensures
        (r.0@, r.1 is Some) == xml_events_of(text@),
{
    let mut events = Vec::new();
    for ev in xml::reader::EventReader::from_str(text) {
        match ev {
            Ok(e) => events.push(xml_event_of(e)),
            Err(e) => return (events, Some(e)),
        }
    }
    (events, None)
}

/// Relies on xml-rs's `XmlEvent` variants: the same event, with local names.
#[verifier::external_body]
fn xml_event_of(e: xml::reader::XmlEvent) -> XmlEvt {
    match e {
        xml::reader::XmlEvent::StartElement { name, attributes, .. } => XmlEvt::Start(
            name.local_name,
            attributes.into_iter().map(|a| (a.name.local_name, a.value)).collect(),
        ),
        xml::reader::XmlEvent::EndElement { name } => XmlEvt::End(name.local_name),
        xml::reader::XmlEvent::Characters(s) => XmlEvt::Characters(s),
        xml::reader::XmlEvent::Whitespace(s) => XmlEvt::Whitespace(s),
        _ => XmlEvt::Other,
    }
}

} // verus!
