//! Europeana newspapers: JSON files whose `contentAsText` array holds the text of an edition.
use vstd::prelude::*;

use crate::document::{json_document, parse_json, JsonNode};
use crate::input_source::{Entity, PositionType, TransformationError};
use crate::text::{append_str, string_of};
use crate::textfilter::member;

verus! {

/// The text of one element of `contentAsText`: a string as it is, a number, a boolean or null
/// as written in JSON. A nested array or object is refused (`None`): writing it back as JSON
/// text is the work of the JSON crate's serializer, which the parsed tree does not carry, and
/// the editions hold text only.
pub open spec fn item_text(v: JsonNode) -> Option<Seq<char>> {
    match v {
        JsonNode::Text(s) => Some(s@),
        JsonNode::Number(t) => Some(t@),
        JsonNode::Bool(b) => Some(
            if b {
                "true"@
            } else {
                "false"@
            },
        ),
        JsonNode::Null => Some("null"@),
        _ => None,
    }
}

/// The texts of `items`, one after the other.
pub open spec fn items_text(items: Seq<JsonNode>) -> Option<Seq<char>>
    decreases items.len(),
{
    if items.len() == 0 {
        Some(Seq::empty())
    } else {
        match (items_text(items.drop_last()), item_text(items.last())) {
            (Some(a), Some(b)) => Some(a + b),
            _ => None,
        }
    }
}

/// The text of an edition: the texts of the elements of the array under `contentAsText` in a
/// top-level object.
pub open spec fn edition_text(doc: JsonNode) -> Option<Seq<char>> {
    match doc {
        JsonNode::Object(fields) => match member(fields@, "contentAsText"@) {
            Some(k) => if 0 <= k < fields.len() {
                match fields[k].1 {
                    JsonNode::Array(items) => items_text(items@),
                    _ => None,
                }
            } else {
                None
            },
            None => None,
        },
        _ => None,
    }
}

/// Europeana newspaper editions.
pub struct Europeana;


/// The text of a parsed edition; see `edition_text`. It fails with a structural error where the
/// document is not an object, has no `contentAsText` array, or that array holds an array or an
/// object.
pub fn edition_content(doc: &JsonNode) -> (r: Result<String, TransformationError>)
    ensures
        match edition_text(*doc) {
            Some(t) => r matches Ok(s) && s@ == t,
            None => r matches Err(TransformationError::ErrorneousStructure(_, _)),
        },
{
    let fields = match doc {
        JsonNode::Object(fields) => fields,
        _ => {
            return Err(
                TransformationError::ErrorneousStructure(
                    String::from_str("expected a JSON document with an object at the top level"),
                    PositionType::Unknown,
                ),
            );
        },
    };
    let key = String::from_str("contentAsText");
    let mut k: usize = 0;
    let mut found: Option<usize> = None;
    while k < fields.len()
        invariant_except_break
            found is None,
        invariant
            0 <= k <= fields.len(),
            key@ == "contentAsText"@,
            member(fields@, "contentAsText"@) == crate::textfilter::member_from(
                fields@,
                "contentAsText"@,
                k as int,
            ),
        ensures
            found matches Some(f) ==> member(fields@, "contentAsText"@) == Some(f as int) && f
                < fields.len(),
            found is None ==> member(fields@, "contentAsText"@) is None,
        decreases fields.len() - k,
    {
        if fields[k].0 == key {
            found = Some(k);
            break;
        }
        k = k + 1;
    }
    let items = match found {
        Some(f) => match &fields[f].1 {
            JsonNode::Array(items) => items,
            _ => {
                return Err(
                    TransformationError::ErrorneousStructure(
                        String::from_str("expected a JSON array under the \"contentAsText\" key"),
                        PositionType::Unknown,
                    ),
                );
            },
        },
        None => {
            return Err(
                TransformationError::ErrorneousStructure(
                    String::from_str("expected a JSON array under the \"contentAsText\" key"),
                    PositionType::Unknown,
                ),
            );
        },
    };
    assert(edition_text(*doc) == items_text(items@));
    let mut out: Vec<char> = Vec::new();
    let mut i: usize = 0;
    while i < items.len()
        invariant
            0 <= i <= items.len(),
            edition_text(*doc) == items_text(items@),
            items_text(items@.take(i as int)) == Some(out@),
        decreases items.len() - i,
    {
        assert(items@.take(i + 1 as int).drop_last() == items@.take(i as int));
        assert(items@.take(i + 1 as int).last() == items@[i as int]);
        match &items[i] {
            JsonNode::Text(s) => append_str(&mut out, s.as_str()),
            JsonNode::Number(t) => append_str(&mut out, t.as_str()),
            JsonNode::Bool(b) => {
                if *b {
                    append_str(&mut out, "true");
                } else {
                    append_str(&mut out, "false");
                }
            },
            JsonNode::Null => append_str(&mut out, "null"),
            _ => {
                proof {
                    lemma_items_text_fails(items@, i as int);
                }
                return Err(
                    TransformationError::ErrorneousStructure(
                        String::from_str("expected text under the \"contentAsText\" key"),
                        PositionType::Unknown,
                    ),
                );
            },
        }
        i = i + 1;
    }
    assert(items@.take(items.len() as int) == items@);
    Ok(string_of(&out))
}

/// Once an element has no text, neither has any longer prefix.
proof fn lemma_items_text_fails(items: Seq<JsonNode>, i: int)
    requires
        0 <= i < items.len(),
        item_text(items[i]) is None,
    ensures
        items_text(items) is None,
    decreases items.len(),
{
    if i < items.len() - 1 {
        lemma_items_text_fails(items.drop_last(), i);
    }
}

/// The text of the edition in the JSON file `edition_js`, keeping its position; see
/// `edition_content`. Text that is not JSON fails with a JSON error; errors carry the entity's
/// position.
pub fn parse_edition(edition_js: &Entity) -> (r: Result<Entity, TransformationError>)
    ensures
        match json_document(edition_js.content@) {
            None => r matches Err(TransformationError::JsonError(_, p)) && p == edition_js.position,
            Some(doc) => match edition_text(doc) {
                Some(t) => r matches Ok(e) && e.content@ == t && e.position == edition_js.position,
                None => r matches Err(TransformationError::ErrorneousStructure(_, p)) && p
                    == edition_js.position,
            },
        },
{
    match parse_json(edition_js.content.as_str()) {
        Err(e) => Err(TransformationError::JsonError(e, edition_js.position.duplicate())),
        Ok(doc) => match edition_content(&doc) {
            Ok(text) => Ok(Entity { content: text, position: edition_js.position.duplicate() }),
            Err(e) => {
                let mut e = e;
                e.inject_position(edition_js.position.duplicate());
                Err(e)
            },
        },
    }
}

} // verus!
