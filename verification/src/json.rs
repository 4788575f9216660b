//! JSON values as this library holds them.
//!
//! [`Json`] is the value that executable code works on; [`JsonValue`] is its
//! mathematical model, in which an object is a `Map` and so has no order.
use crate::textmap::{lemma_pairs_ends, lemma_pairs_step, pairs_map, TextMap};
use vstd::prelude::*;

verus! {

/// The mathematical model of a JSON value.
pub enum JsonValue {
    Null,
    Bool(bool),
    Number(serde_json::Number),
    Str(Seq<char>),
    Array(Seq<JsonValue>),
    Object(Map<Seq<char>, JsonValue>),
}

/// A JSON value.
#[derive(Debug, PartialEq, Eq)]
pub enum Json {
    Null,
    Bool(bool),
    Number(serde_json::Number),
    Str(String),
    Array(Vec<Json>),
    Object(TextMap<String, Json>),
}

impl View for Json {
    type V = JsonValue;

    open spec fn view(&self) -> JsonValue
        decreases self,
    {
        match self {
            Json::Null => JsonValue::Null,
            Json::Bool(b) => JsonValue::Bool(*b),
            Json::Number(n) => JsonValue::Number(*n),
            Json::Str(s) => JsonValue::Str(s@),
            Json::Array(items) => JsonValue::Array(
                Seq::new(
                    items@.len(),
                    |i: int|
                        if 0 <= i < items@.len() {
                            items@[i]@
                        } else {
                            JsonValue::Null
                        },
                ),
            ),
            Json::Object(fields) => JsonValue::Object(
                Map::new(
                    |k: Seq<char>| fields@.contains_key(k),
                    |k: Seq<char>|
                        if fields@.contains_key(k) {
                            proof {
                                fields.lemma_value_decreases(k);
                            }
                            fields@[k]@
                        } else {
                            JsonValue::Null
                        },
                ),
            ),
        }
    }
}

/// The models of the values of a map.
pub open spec fn models(fields: Map<Seq<char>, Json>) -> Map<Seq<char>, JsonValue> {
    Map::new(|k: Seq<char>| fields.contains_key(k), |k: Seq<char>| fields[k]@)
}

/// The models of the items of a sequence.
pub open spec fn item_models(items: Seq<Json>) -> Seq<JsonValue> {
    Seq::new(items.len(), |i: int| items[i]@)
}

impl Json {
    /// The model of an array is the sequence of the models of its items.
    pub proof fn lemma_array_view(items: Vec<Json>)
        ensures
            Json::Array(items)@ == JsonValue::Array(item_models(items@)),
    {
        assert(Json::Array(items)@->Array_0 =~= item_models(items@));
    }

    /// The model of an object is the map of the models of its fields.
    pub proof fn lemma_object_view(fields: TextMap<String, Json>)
        ensures
            Json::Object(fields)@ == JsonValue::Object(models(fields@)),
    {
        assert(Json::Object(fields)@->Object_0 =~= models(fields@));
    }

    /// Whether the value is `null`.
    pub fn is_null(&self) -> (b: bool)
        ensures
            b == (self@ is Null),
    {
        match self {
            Json::Null => true,
            _ => false,
        }
    }

    /// A copy of the value.
    fn duplicate(&self) -> (r: Json)
        ensures
            r@ == self@,
        decreases self,
    {
        match self {
            Json::Null => Json::Null,
            Json::Bool(b) => Json::Bool(*b),
            Json::Number(n) => Json::Number(n.clone()),
            Json::Str(s) => Json::Str(s.clone()),
            Json::Array(items) => {
                let mut out: Vec<Json> = Vec::new();
                let mut i: usize = 0;
                while i < items.len()
                    invariant
                        i <= items@.len(),
                        out@.len() == i,
                        decreases_to!(*self => *items),
                        forall|j: int| 0 <= j < i ==> (#[trigger] out@[j])@ == items@[j]@,
                    decreases items@.len() - i,
                {
                    proof {
                        vstd::std_specs::vec::axiom_vec_index_decreases(*items, i as int);
                    }
                    let copy = items[i].duplicate();
                    out.push(copy);
                    i += 1;
                }
                proof {
                    Json::lemma_array_view(*items);
                    Json::lemma_array_view(out);
                    assert(item_models(out@) =~= item_models(items@));
                }
                Json::Array(out)
            },
            Json::Object(fields) => {
                let entries = fields.entries();
                let mut out: TextMap<String, Json> = TextMap::new();
                let mut i: usize = 0;
                proof {
                    lemma_pairs_ends(entries@);
                    assert(models(out@) =~= models(pairs_map(entries@.take(0))));
                }
                while i < entries.len()
                    invariant
                        i <= entries@.len(),
                        entries@ == fields.spec_entries(),
                        decreases_to!(*self => *fields),
                        models(out@) == models(pairs_map(entries@.take(i as int))),
                    decreases entries@.len() - i,
                {
                    proof {
                        fields.lemma_entry_decreases(i as int);
                        lemma_pairs_step(entries@, i as int);
                    }
                    let key = entries[i].0.clone();
                    let copy = entries[i].1.duplicate();
                    let ghost before = out@;
                    out.insert(key, copy);
                    proof {
                        let prev = pairs_map(entries@.take(i as int));
                        let e = entries@[i as int];
                        assert(models(before.insert(e.0@, copy)) =~= models(before).insert(
                            e.0@,
                            copy@,
                        ));
                        assert(models(prev.insert(e.0@, e.1)) =~= models(prev).insert(e.0@, e.1@));
                    }
                    i += 1;
                }
                proof {
                    lemma_pairs_ends(entries@);
                    Json::lemma_object_view(*fields);
                    Json::lemma_object_view(out);
                }
                Json::Object(out)
            },
        }
    }
}

impl Clone for Json {
    fn clone(&self) -> (r: Self)
        ensures
            r@ == self@,
    {
        self.duplicate()
    }
}

} // verus!
