//! JSON documents in the library's own form, read from and written to text
//! by serde_json.
use vstd::prelude::*;

use crate::kv::pairs_map;

verus! {

/// A JSON value.
#[derive(Debug)]
pub enum Json {
    Null,
    Bool(bool),
    /// A number, by its `i64` reading: `None` for one that has none (a
    /// fraction, or an integer beyond the range of `i64`).
    Number(Option<i64>),
    Str(String),
    Array(Vec<Json>),
    /// An object's members in order; where a name occurs twice, the later
    /// member counts.
    Object(Vec<(String, Json)>),
}

/// What a JSON value stands for: an object as the map from each member
/// name to its value.
pub enum JsonTree {
    Null,
    Bool(bool),
    Number(Option<i64>),
    Str(Seq<char>),
    Array(Seq<JsonTree>),
    Object(Map<Seq<char>, JsonTree>),
}

/// The meaning of a JSON value.
pub open spec fn json_tree(j: Json) -> JsonTree
    decreases j,
{
    match j {
        Json::Null => JsonTree::Null,
        Json::Bool(b) => JsonTree::Bool(b),
        Json::Number(n) => JsonTree::Number(n),
        Json::Str(s) => JsonTree::Str(s@),
        Json::Array(items) => JsonTree::Array(items_tree(items@)),
        Json::Object(members) => JsonTree::Object(members_tree(members@)),
    }
}

/// The meanings of the items of an array.
pub open spec fn items_tree(s: Seq<Json>) -> Seq<JsonTree>
    decreases s,
{
    if s.len() == 0 {
        Seq::empty()
    } else {
        items_tree(s.subrange(0, s.len() - 1)).push(json_tree(s[s.len() - 1]))
    }
}

/// The map of an object's members: a later member for a name replaces an
/// earlier one.
pub open spec fn members_tree(s: Seq<(String, Json)>) -> Map<Seq<char>, JsonTree>
    decreases s,
{
    if s.len() == 0 {
        Map::empty()
    } else {
        members_tree(s.subrange(0, s.len() - 1)).insert(
            s[s.len() - 1].0@,
            json_tree(s[s.len() - 1].1),
        )
    }
}

impl View for Json {
    type V = JsonTree;

    open spec fn view(&self) -> JsonTree {
        json_tree(*self)
    }
}

/// The members of an object, each name with the meaning of its value.
pub open spec fn member_trees(s: Seq<(String, Json)>) -> Seq<(Seq<char>, JsonTree)> {
    s.map_values(|m: (String, Json)| (m.0@, json_tree(m.1)))
}

/// An object's map is that of its list of members.
pub proof fn lemma_members_tree(s: Seq<(String, Json)>)
    ensures
        members_tree(s) == pairs_map(member_trees(s)),
    decreases s.len(),
{
    if s.len() > 0 {
        let p = s.subrange(0, s.len() - 1);
        lemma_members_tree(p);
        assert(member_trees(s).drop_last() =~= member_trees(p));
    }
}

/// The `i64` reading of a JSON value (`Value::as_i64`).
pub open spec fn tree_int(t: JsonTree) -> Option<i64> {
    match t {
        JsonTree::Number(n) => n,
        _ => None,
    }
}

/// The member `name` of a JSON object (`Value::get`); none for a value
/// that is not an object.
pub open spec fn tree_member(t: JsonTree, name: Seq<char>) -> Option<JsonTree> {
    match t {
        JsonTree::Object(m) => if m.contains_key(name) {
            Some(m[name])
        } else {
            None
        },
        _ => None,
    }
}

/// The member `name` of an object's members: the last one of that name.
pub fn find_member<'a>(members: &'a Vec<(String, Json)>, name: &str) -> (r: Option<&'a Json>)
    ensures
        match r {
            Some(v) => members_tree(members@).contains_key(name@) && members_tree(members@)[name@]
                == v@,
            None => !members_tree(members@).contains_key(name@),
        },
{
    let ghost s = member_trees(members@);
    proof {
        lemma_members_tree(members@);
    }
    let mut i: usize = members.len();
    while i > 0
        invariant
            i <= members@.len(),
            s == member_trees(members@),
            members_tree(members@) == pairs_map(s),
            forall|j: int| i <= j < s.len() ==> #[trigger] s[j].0 != name@,
        decreases i,
    {
        let same = crate::text::str_eq(members[i - 1].0.as_str(), name);
        if same {
            proof {
                assert(s[i - 1] == (members@[i - 1].0@, json_tree(members@[i - 1].1)));
                crate::kv::lemma_pairs_map_last(s, name@, i - 1);
            }
            return Some(&members[i - 1].1);
        }
        i = i - 1;
    }
    proof {
        crate::kv::lemma_pairs_map_absent(s, name@);
    }
    None
}

/// The `i64` reading of a JSON value.
pub fn json_int(v: &Json) -> (r: Option<i64>)
    ensures
        r == tree_int(v@),
{
    match v {
        Json::Number(n) => *n,
        _ => None,
    }
}

/// The member `name` of a JSON value, when it is an object.
pub fn json_member<'a>(v: &'a Json, name: &str) -> (r: Option<&'a Json>)
    ensures
        match r {
            Some(m) => tree_member(v@, name@) == Some(m@),
            None => tree_member(v@, name@) is None,
        },
{
    match v {
        Json::Object(members) => find_member(members, name),
        _ => None,
    }
}

/// Whether serde_json reads the written text of a value back as that value:
/// every number has its `i64` reading, and arrays and objects nest at most
/// `depth` deep (serde_json refuses to read more than 127 levels).
pub open spec fn json_writable(t: JsonTree, depth: nat) -> bool
    decreases depth,
{
    match t {
        JsonTree::Number(n) => n is Some,
        JsonTree::Array(items) => depth > 0 && forall|i: int|
            0 <= i < items.len() ==> json_writable(#[trigger] items[i], (depth - 1) as nat),
        JsonTree::Object(m) => depth > 0 && forall|k: Seq<char>|
            #[trigger] m.contains_key(k) ==> json_writable(m[k], (depth - 1) as nat),
        _ => true,
    }
}

/// The nesting that written values may have and still be read back.
pub open spec fn json_depth_limit() -> nat {
    100
}

// ---------------------------------------------------------------------------
// serde_json
// ---------------------------------------------------------------------------
/// serde_json's `Value`, opaque here: it only passes between the two
/// conversions below.
#[verifier::external_type_specification]
#[verifier::external_body]
pub struct ExJsonValue(serde_json::Value);

/// What serde_json reads from `text`: `None` when the text is not a JSON
/// document.
pub uninterp spec fn json_value(text: Seq<char>) -> Option<JsonTree>;

/// The compact text that serde_json writes for a value.
pub uninterp spec fn json_text_of(t: JsonTree) -> Seq<char>;

/// serde_json's value in the library's form, variant by variant, for
/// `parse_json`: a number by `Number::as_i64`, an object's members in the
/// order of its map. Nothing is stated of it apart from what `parse_json`
/// states of its result.
#[verifier::external_body]
fn json_from_value(v: &serde_json::Value) -> Json {
    match v {
        serde_json::Value::Null => Json::Null,
        serde_json::Value::Bool(b) => Json::Bool(*b),
        serde_json::Value::Number(n) => Json::Number(n.as_i64()),
        serde_json::Value::String(s) => Json::Str(s.clone()),
        serde_json::Value::Array(xs) => Json::Array(xs.iter().map(json_from_value).collect()),
        serde_json::Value::Object(m) => Json::Object(
            m.iter().map(|(k, x)| (k.clone(), json_from_value(x))).collect(),
        ),
    }
}

/// The library's value as serde_json's, variant by variant, for
/// `json_text`: a number without an `i64` reading as `null` (`Value::from`
/// of an `Option`), an object's members inserted in order with
/// `Map::insert`, so that a later member replaces an earlier one. Nothing
/// is stated of it apart from what `json_text` states of its result.
#[verifier::external_body]
fn value_from_json(j: &Json) -> serde_json::Value {
    match j {
        Json::Null => serde_json::Value::Null,
        Json::Bool(b) => serde_json::Value::Bool(*b),
        Json::Number(n) => serde_json::Value::from(*n),
        Json::Str(s) => serde_json::Value::String(s.clone()),
        Json::Array(xs) => serde_json::Value::Array(xs.iter().map(value_from_json).collect()),
        Json::Object(ms) => {
            let mut m = serde_json::Map::new();
            for (k, x) in ms.iter() {
                m.insert(k.clone(), value_from_json(x));
            }
            serde_json::Value::Object(m)
        },
    }
}

/// `serde_json::from_str::<Value>(text).ok()`, converted to the library's
/// form. The contract claims that the result's meaning is what serde_json
/// reads from the text, a function of the text alone (`json_value`), and
/// that the result is none exactly when serde_json refuses the text.
#[verifier::external_body]
pub(crate) fn parse_json(text: &str) -> (r: Option<Json>)
    ensures
        match r {
            Some(v) => json_value(text@) == Some(v@),
            None => json_value(text@) is None,
        },
{
    serde_json::from_str::<serde_json::Value>(text).ok().map(|v| json_from_value(&v))
}

/// `Value::to_string()` (serde_json's `Display`, compact) of the value
/// converted to serde_json's form. The contract claims that the text is a
/// function of the value's meaning (`json_text_of`), and that
/// `serde_json::from_str` reads it back as that meaning where every number
/// has its `i64` reading and the nesting stays within serde_json's limit:
/// strings are escaped and unescaped, integers written and read exactly,
/// and an object's members kept by name, a later member for a name
/// replacing an earlier one.
#[verifier::external_body]
pub(crate) fn json_text(v: &Json) -> (out: String)
    ensures
        out@ == json_text_of(v@),
        json_writable(v@, json_depth_limit()) ==> json_value(out@) == Some(v@),
{
    value_from_json(v).to_string()
}

} // verus!
