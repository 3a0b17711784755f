use vstd::prelude::*;
use crate::text::{chars_of, eq_chars};

verus! {

/// The kind of a member's value in a JSON object, as the logic reads it.
pub enum JsonKind {
    Str(String),
    Object,
    Other,
}

/// The kind of a member's value, as a value.
pub enum JsonKindView {
    Str(Seq<char>),
    Object,
    Other,
}

impl View for JsonKind {
    type V = JsonKindView;

    open spec fn view(&self) -> JsonKindView {
        match self {
            JsonKind::Str(s) => JsonKindView::Str(s@),
            JsonKind::Object => JsonKindView::Object,
            JsonKind::Other => JsonKindView::Other,
        }
    }
}

/// One member of a JSON object.
pub struct JsonMember {
    pub key: String,
    pub value: JsonKind,
}

pub open spec fn members_view(ms: Seq<JsonMember>) -> Seq<(Seq<char>, JsonKindView)> {
    ms.map_values(|m: JsonMember| (m.key@, m.value@))
}

/// What parsing a text as JSON gives, as the logic reads it.
pub enum JsonParse {
    /// The text is not JSON.
    Invalid,
    /// JSON, but not an object.
    NotObject,
    /// An object, with its members in the parser's order.
    Object(Vec<JsonMember>),
}

/// What parsing gives, as a value.
pub enum JsonParseView {
    Invalid,
    NotObject,
    Object(Seq<(Seq<char>, JsonKindView)>),
}

impl View for JsonParse {
    type V = JsonParseView;

    open spec fn view(&self) -> JsonParseView {
        match self {
            JsonParse::Invalid => JsonParseView::Invalid,
            JsonParse::NotObject => JsonParseView::NotObject,
            JsonParse::Object(ms) => JsonParseView::Object(members_view(ms@)),
        }
    }
}

/// What `serde_json` makes of the text `s`.
pub uninterp spec fn json_parse_of(s: Seq<char>) -> JsonParseView;

/// The members of the JSON object that `s` holds, or `None` where `s` is not
/// one JSON object.
pub open spec fn json_members_of(s: Seq<char>) -> Option<Seq<(Seq<char>, JsonKindView)>> {
    match json_parse_of(s) {
        JsonParseView::Object(ms) => Some(ms),
        _ => None,
    }
}

/// Relies on `serde_json::from_str` (into `serde_json::Value`): parses `s`;
/// for an object, hands back each member's key and the kind of its value.
/// The outcome depends on the text alone.
#[verifier::external_body]
pub(crate) fn parse_json(s: &str) -> (r: JsonParse)
    ensures
        r@ == json_parse_of(s@),
{
    match serde_json::from_str::<serde_json::Value>(s) {
        Ok(serde_json::Value::Object(map)) => JsonParse::Object(
            map.into_iter().map(|(key, v)| JsonMember {
                key,
                value: match v {
                    serde_json::Value::String(t) => JsonKind::Str(t),
                    serde_json::Value::Object(_) => JsonKind::Object,
                    _ => JsonKind::Other,
                },
            }).collect(),
        ),
        Ok(_) => JsonParse::NotObject,
        Err(_) => JsonParse::Invalid,
    }
}

/// The members of the JSON object that `s` holds.
pub fn parse_object_members(s: &str) -> (r: Option<Vec<JsonMember>>)
    ensures
        r is Some == json_members_of(s@) is Some,
        r is Some ==> members_view(r->0@) == json_members_of(s@)->0,
{
    match parse_json(s) {
        JsonParse::Object(ms) => Some(ms),
        _ => None,
    }
}

/// The value kind of the first member named `key`.
pub open spec fn member(ms: Seq<(Seq<char>, JsonKindView)>, key: Seq<char>) -> Option<JsonKindView>
    decreases ms.len(),
{
    if ms.len() == 0 {
        None
    } else if ms[0].0 == key {
        Some(ms[0].1)
    } else {
        member(ms.drop_first(), key)
    }
}

pub fn find_member<'a>(ms: &'a Vec<JsonMember>, key: &str) -> (r: Option<&'a JsonKind>)
    ensures
        r is Some == member(members_view(ms@), key@) is Some,
        r is Some ==> r->0@ == member(members_view(ms@), key@)->0,
{
    let k = chars_of(key);
    let mut i: usize = 0;
    assert(members_view(ms@).subrange(0, ms@.len() as int) =~= members_view(ms@));
    while i < ms.len()
        invariant
            k@ == key@,
            i <= ms@.len(),
            member(members_view(ms@), key@) == member(
                members_view(ms@).subrange(i as int, ms@.len() as int),
                key@,
            ),
        decreases ms@.len() - i,
    {
        let ghost rest = members_view(ms@).subrange(i as int, ms@.len() as int);
        assert(rest[0] == (ms@[i as int].key@, ms@[i as int].value@));
        if eq_chars(chars_of(ms[i].key.as_str()).as_slice(), k.as_slice()) {
            return Some(&ms[i].value);
        }
        assert(rest.drop_first() =~= members_view(ms@).subrange(i + 1, ms@.len() as int));
        i = i + 1;
    }
    None
}

} // verus!
