//! JSON text, read and written by `serde_json`.
//!
//! What `serde_json` does is not verified here. Its values are opaque to the
//! verifier; this module says of them only what a value holds, one level at
//! a time, and gives a name to the text of a value and to the value of a
//! text. The conversions between `serde_json::Value` and [`Json`] are
//! verified against those statements.
//!
//! An object is taken to hold a map, without an order of its entries. That
//! is how `serde_json` holds it as long as its feature `preserve_order` is
//! off: the entries are then kept by key, and two objects with the same
//! entries are written as the same text.
use crate::json::{item_models, models, Json, JsonValue};
use crate::textmap::{
    distinct_keys, lemma_pairs_dom, lemma_pairs_ends, lemma_pairs_index, lemma_pairs_step,
    lemma_sorted_distinct, pairs_map, sorted_keys, TextKey, TextMap,
};
use vstd::prelude::*;

verus! {

/// `serde_json::Value`, any JSON value.
#[verifier::external_type_specification]
#[verifier::external_body]
pub struct ExValue(serde_json::Value);

/// `serde_json::Number`, a JSON number.
#[verifier::external_type_specification]
#[verifier::external_body]
pub struct ExNumber(serde_json::Number);

/// `serde_json::Error`, why a text could not be read or a value not written.
#[verifier::external_type_specification]
#[verifier::external_body]
pub struct ExError(serde_json::Error);

/// `Number::clone`, derived in `serde_json`: the copy is the same number.
pub assume_specification[ <serde_json::Number as Clone>::clone ](n: &serde_json::Number) -> (r:
    serde_json::Number)
    ensures
        r == *n,
;

/// The JSON value that a `serde_json::Value` holds.
pub uninterp spec fn value_tree(v: serde_json::Value) -> JsonValue;

/// The JSON value that `serde_json::from_str` reads from a text, if it
/// accepts the text.
pub uninterp spec fn text_tree(text: Seq<char>) -> Option<JsonValue>;

/// The text that `serde_json::to_string` writes for a JSON value, if it
/// writes one.
pub uninterp spec fn tree_text(tree: JsonValue) -> Option<Seq<char>>;

/// The text that `serde_json::to_string_pretty` writes for a JSON value, if
/// it writes one.
pub uninterp spec fn tree_text_pretty(tree: JsonValue) -> Option<Seq<char>>;

/// One level of a `serde_json::Value`: which variant it is, and what that
/// variant holds.
enum Peeled {
    Null,
    Bool(bool),
    Number(serde_json::Number),
    Str(String),
    Array(Vec<serde_json::Value>),
    Object(Vec<(String, serde_json::Value)>),
}

/// The JSON values that a sequence of `serde_json` values holds.
pub open spec fn value_trees(items: Seq<serde_json::Value>) -> Seq<JsonValue> {
    Seq::new(items.len(), |i: int| value_tree(items[i]))
}

/// The JSON values that the values of a map hold.
pub open spec fn field_trees(fields: Map<Seq<char>, serde_json::Value>) -> Map<
    Seq<char>,
    JsonValue,
> {
    Map::new(|k: Seq<char>| fields.contains_key(k), |k: Seq<char>| value_tree(fields[k]))
}

impl Peeled {
    /// The JSON value that the peeled value holds.
    spec fn tree(self) -> JsonValue {
        match self {
            Peeled::Null => JsonValue::Null,
            Peeled::Bool(b) => JsonValue::Bool(b),
            Peeled::Number(n) => JsonValue::Number(n),
            Peeled::Str(s) => JsonValue::Str(s@),
            Peeled::Array(items) => JsonValue::Array(value_trees(items@)),
            Peeled::Object(entries) => JsonValue::Object(field_trees(pairs_map(entries@))),
        }
    }
}

/// Takes a `serde_json::Value` apart by matching on its variants. The
/// contract claims that the parts hold what the value held, and that the
/// entries of an object come with no key twice, which is how
/// `serde_json::Map` hands them out.
#[verifier::external_body]
fn peel(v: serde_json::Value) -> (p: Peeled)
    ensures
        p.tree() == value_tree(v),
        p matches Peeled::Object(entries) ==> distinct_keys(entries@),
{
    match v {
        serde_json::Value::Null => Peeled::Null,
        serde_json::Value::Bool(b) => Peeled::Bool(b),
        serde_json::Value::Number(n) => Peeled::Number(n),
        serde_json::Value::String(s) => Peeled::Str(s),
        serde_json::Value::Array(items) => Peeled::Array(items),
        serde_json::Value::Object(fields) => Peeled::Object(fields.into_iter().collect()),
    }
}

/// Builds a `serde_json::Value` from its parts with the variant's
/// constructor. The contract claims that the value holds what the parts
/// held; the entries of an object are to come with no key twice.
#[verifier::external_body]
fn wrap(p: Peeled) -> (v: serde_json::Value)
    requires
        p matches Peeled::Object(entries) ==> distinct_keys(entries@),
    ensures
        value_tree(v) == p.tree(),
{
    match p {
        Peeled::Null => serde_json::Value::Null,
        Peeled::Bool(b) => serde_json::Value::Bool(b),
        Peeled::Number(n) => serde_json::Value::Number(n),
        Peeled::Str(s) => serde_json::Value::String(s),
        Peeled::Array(items) => serde_json::Value::Array(items),
        Peeled::Object(entries) => serde_json::Value::Object(entries.into_iter().collect()),
    }
}

/// `serde_json::from_str` at the type `serde_json::Value`. The contract
/// names what it reads: the result depends on the text alone.
#[verifier::external_body]
fn read_value(text: &str) -> (r: Result<serde_json::Value, serde_json::Error>)
    ensures
        match r {
            Ok(v) => text_tree(text@) == Some(value_tree(v)),
            Err(_) => text_tree(text@) is None,
        },
{
    serde_json::from_str::<serde_json::Value>(text)
}

/// `serde_json::to_string` on a `serde_json::Value`. The contract names
/// what it comes to: whether a text is written, and which, depends on what
/// the value holds and on nothing else. It does not claim that writing
/// succeeds.
#[verifier::external_body]
fn write_value(v: &serde_json::Value) -> (r: Result<String, serde_json::Error>)
    ensures
        match r {
            Ok(s) => tree_text(value_tree(*v)) == Some(s@),
            Err(_) => tree_text(value_tree(*v)) is None,
        },
{
    serde_json::to_string(v)
}

/// `serde_json::to_string_pretty` on a `serde_json::Value`. The contract
/// names what it comes to: whether a text is written, and which, depends on
/// what the value holds and on nothing else. It does not claim that writing
/// succeeds.
#[verifier::external_body]
fn write_value_pretty(v: &serde_json::Value) -> (r: Result<String, serde_json::Error>)
    ensures
        match r {
            Ok(s) => tree_text_pretty(value_tree(*v)) == Some(s@),
            Err(_) => tree_text_pretty(value_tree(*v)) is None,
        },
{
    serde_json::to_string_pretty(v)
}

/// The message of a `serde_json::Error`, as its `Display` writes it. Nothing
/// is claimed of the message.
#[verifier::external_body]
fn error_message(e: &serde_json::Error) -> (r: String) {
    e.to_string()
}

impl Json {
    /// The value that a `serde_json::Value` holds, as a [`Json`].
    pub fn from_value(v: serde_json::Value) -> (j: Json)
        ensures
            j@ == value_tree(v),
        decreases value_tree(v),
    {
        let ghost tree = value_tree(v);
        match peel(v) {
            Peeled::Null => Json::Null,
            Peeled::Bool(b) => Json::Bool(b),
            Peeled::Number(n) => Json::Number(n),
            Peeled::Str(s) => Json::Str(s),
            Peeled::Array(items) => {
                let ghost all = items@;
                let mut out: Vec<Json> = Vec::new();
                proof {
                    let trees = value_trees(all);
                    assert forall|j: int| 0 <= j < all.len() implies decreases_to!(tree => value_tree(#[trigger] all[j])) by {
                        assert(trees[j] == value_tree(all[j]));
                        assert(tree == JsonValue::Array(trees));
                        assert(tree->Array_0 == trees);
                        assert(decreases_to!(tree => tree->Array_0));
                        vstd::seq::axiom_seq_index_decreases(trees, j);
                        assert(decreases_to!(trees => trees[j]));
                    }
                }
                for item in it: items
                    invariant
                        it.seq() == all,
                        tree == value_tree(v),
                        forall|j: int|
                            0 <= j < all.len() ==> decreases_to!(tree => value_tree(#[trigger] all[j])),
                        out@.len() == it.index(),
                        forall|j: int| 0 <= j < out@.len() ==> (#[trigger] out@[j])@ == value_tree(all[j]),
                {
                    let j = Json::from_value(item);
                    out.push(j);
                }
                proof {
                    Json::lemma_array_view(out);
                    assert(item_models(out@) =~= value_trees(all));
                }
                Json::Array(out)
            },
            Peeled::Object(entries) => {
                let ghost all = entries@;
                let ghost fields = pairs_map(all);
                let mut out: TextMap<String, Json> = TextMap::new();
                proof {
                    lemma_pairs_ends(all);
                    assert(models(out@) =~= field_trees(pairs_map(all.take(0))));
                    lemma_pairs_dom(all);
                    assert(field_trees(fields).dom() =~= fields.dom());
                    assert forall|j: int| 0 <= j < all.len() implies decreases_to!(tree => value_tree((#[trigger] all[j]).1)) by {
                        lemma_pairs_index(all, j);
                        assert(field_trees(fields)[all[j].0@] == value_tree(all[j].1));
                        assert(tree == JsonValue::Object(field_trees(fields)));
                        assert(decreases_to!(tree => tree->Object_0));
                        vstd::map::axiom_map_index_decreases_finite(field_trees(fields), all[j].0@);
                    }
                }
                for entry in it: entries
                    invariant
                        it.seq() == all,
                        tree == value_tree(v),
                        forall|j: int|
                            0 <= j < all.len() ==> decreases_to!(tree => value_tree((#[trigger] all[j]).1)),
                        models(out@) == field_trees(pairs_map(all.take(it.index() as int))),
                {
                    let ghost i = it.index() as int;
                    proof {
                        lemma_pairs_step(all, i);
                    }
                    let (key, value) = entry;
                    let j = Json::from_value(value);
                    let ghost before = out@;
                    out.insert(key, j);
                    proof {
                        let prev = pairs_map(all.take(i));
                        assert(models(before.insert(key@, j)) =~= models(before).insert(key@, j@));
                        assert(field_trees(prev.insert(key@, value)) =~= field_trees(prev).insert(
                            key@,
                            value_tree(value),
                        ));
                    }
                }
                proof {
                    lemma_pairs_ends(all);
                    Json::lemma_object_view(out);
                }
                Json::Object(out)
            },
        }
    }

    /// A `serde_json::Value` that holds this value.
    pub fn to_value(&self) -> (v: serde_json::Value)
        ensures
            value_tree(v) == self@,
        decreases self,
    {
        match self {
            Json::Null => wrap(Peeled::Null),
            Json::Bool(b) => wrap(Peeled::Bool(*b)),
            Json::Number(n) => wrap(Peeled::Number(n.clone())),
            Json::Str(s) => wrap(Peeled::Str(s.clone())),
            Json::Array(items) => {
                let mut out: Vec<serde_json::Value> = Vec::new();
                let mut i: usize = 0;
                while i < items.len()
                    invariant
                        i <= items@.len(),
                        out@.len() == i,
                        decreases_to!(*self => *items),
                        forall|j: int| 0 <= j < i ==> value_tree(#[trigger] out@[j]) == items@[j]@,
                    decreases items@.len() - i,
                {
                    proof {
                        vstd::std_specs::vec::axiom_vec_index_decreases(*items, i as int);
                    }
                    let v = items[i].to_value();
                    out.push(v);
                    i += 1;
                }
                proof {
                    Json::lemma_array_view(*items);
                    assert(value_trees(out@) =~= item_models(items@));
                }
                wrap(Peeled::Array(out))
            },
            Json::Object(fields) => {
                let entries = fields.entries();
                let mut out: Vec<(String, serde_json::Value)> = Vec::new();
                let mut i: usize = 0;
                proof {
                    lemma_pairs_ends(entries@);
                    assert(out@ =~= out@.take(0));
                    assert(field_trees(pairs_map(out@)) =~= models(pairs_map(entries@.take(0))));
                }
                while i < entries.len()
                    invariant
                        i <= entries@.len(),
                        out@.len() == i,
                        entries@ == fields.spec_entries(),
                        sorted_keys(entries@),
                        decreases_to!(*self => *fields),
                        forall|j: int| 0 <= j < i ==> (#[trigger] out@[j]).0@ == entries@[j].0@,
                        field_trees(pairs_map(out@)) == models(pairs_map(entries@.take(i as int))),
                    decreases entries@.len() - i,
                {
                    proof {
                        fields.lemma_entry_decreases(i as int);
                        lemma_pairs_step(entries@, i as int);
                    }
                    let key = entries[i].0.clone();
                    let v = entries[i].1.to_value();
                    let ghost before = out@;
                    out.push((key, v));
                    proof {
                        assert(out@.drop_last() =~= before);
                        let prev = pairs_map(entries@.take(i as int));
                        let e = entries@[i as int];
                        assert(field_trees(pairs_map(before).insert(key@, v)) =~= field_trees(
                            pairs_map(before),
                        ).insert(key@, value_tree(v)));
                        assert(models(prev.insert(e.0@, e.1)) =~= models(prev).insert(e.0@, e.1@));
                    }
                    i += 1;
                }
                proof {
                    lemma_pairs_ends(entries@);
                    Json::lemma_object_view(*fields);
                    lemma_sorted_distinct(entries@);
                    assert forall|a: int, b: int| 0 <= a < b < out@.len() implies (
                    #[trigger] out@[a]).0.text() != (#[trigger] out@[b]).0.text() by {
                        assert(entries@[a].0.text() != entries@[b].0.text());
                    }
                }
                wrap(Peeled::Object(out))
            },
        }
    }

    /// Reads a JSON text. The error is `serde_json`'s message.
    pub fn parse(text: &str) -> (r: Result<Json, String>)
        ensures
            match r {
                Ok(j) => text_tree(text@) == Some(j@),
                Err(_) => text_tree(text@) is None,
            },
    {
        match read_value(text) {
            Ok(v) => Ok(Json::from_value(v)),
            Err(e) => Err(error_message(&e)),
        }
    }

    /// Writes the value as JSON text on one line: the text that
    /// `serde_json` writes for the value, and an error exactly where it
    /// writes none. The error is `serde_json`'s message.
    pub fn to_text(&self) -> (r: Result<String, String>)
        ensures
            match r {
                Ok(s) => tree_text(self@) == Some(s@),
                Err(_) => tree_text(self@) is None,
            },
    {
        let v = self.to_value();
        match write_value(&v) {
            Ok(s) => Ok(s),
            Err(e) => Err(error_message(&e)),
        }
    }

    /// Writes the value as indented JSON text: the text that `serde_json`
    /// writes for the value, and an error exactly where it writes none. The
    /// error is `serde_json`'s message.
    pub fn to_text_pretty(&self) -> (r: Result<String, String>)
        ensures
            match r {
                Ok(s) => tree_text_pretty(self@) == Some(s@),
                Err(_) => tree_text_pretty(self@) is None,
            },
    {
        let v = self.to_value();
        match write_value_pretty(&v) {
            Ok(s) => Ok(s),
            Err(e) => Err(error_message(&e)),
        }
    }
}

} // verus!
