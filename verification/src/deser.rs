//! The capture of extensions: every field of a document that the schema does
//! not own, whatever the version of the schema.
use crate::error::{ParseError, ParseErrorView};
use crate::generation::{BOOTSPEC_NAMESPACE, SPECIALISATION_NAMESPACE};
use crate::json::{models, Json, JsonValue};
use crate::text::{
    has_prefix, lemma_text_before_irreflexive, lemma_text_before_transitive, text_before,
};
use crate::textmap::{
    enumerates, lemma_pairs_ends, lemma_pairs_step, pairs_map, sorted_keys, TextKey, TextMap,
};
use crate::v1::{BOOTSPEC_KEY, SPECIALISATION_KEY};
use crate::Extensions;
use vstd::prelude::*;

verus! {

/// The schema owns the key: the key begins with one of the two namespaces
/// of the schema, whatever version follows.
pub open spec fn is_schema_owned(key: Seq<char>) -> bool {
    BOOTSPEC_NAMESPACE@.is_prefix_of(key) || SPECIALISATION_NAMESPACE@.is_prefix_of(key)
}

/// The extensions among the fields of a document: the fields whose key the
/// schema does not own.
pub open spec fn extensions_of(fields: Map<Seq<char>, JsonValue>) -> Map<Seq<char>, JsonValue> {
    Map::new(|k: Seq<char>| fields.contains_key(k) && !is_schema_owned(k), |k: Seq<char>| fields[k])
}

/// Some value of the map is `null`.
pub open spec fn has_null(m: Map<Seq<char>, JsonValue>) -> bool {
    exists|k: Seq<char>| m.contains_key(k) && (#[trigger] m[k]) is Null
}

/// The schema owns the two keys of version 1.
pub proof fn lemma_v1_keys_owned()
    ensures
        is_schema_owned(BOOTSPEC_KEY@),
        is_schema_owned(SPECIALISATION_KEY@),
{
    reveal_strlit("org.nixos.bootspec.v1");
    reveal_strlit("org.nixos.specialisation.v1");
    reveal_strlit("org.nixos.bootspec.");
    reveal_strlit("org.nixos.specialisation.");
    assert(BOOTSPEC_NAMESPACE@ =~= BOOTSPEC_KEY@.subrange(0, 19));
    assert(SPECIALISATION_NAMESPACE@ =~= SPECIALISATION_KEY@.subrange(0, 25));
}

/// Whether the schema owns the key.
pub fn owns_key(key: &str) -> (b: bool)
    ensures
        b == is_schema_owned(key@),
{
    has_prefix(key, BOOTSPEC_NAMESPACE) || has_prefix(key, SPECIALISATION_NAMESPACE)
}

/// Among the values of the map that are `null`, that of `key` is the first
/// in the order of the keys.
pub open spec fn least_null(m: Map<Seq<char>, JsonValue>, key: Seq<char>) -> bool {
    &&& m.contains_key(key)
    &&& m[key] is Null
    &&& forall|other: Seq<char>| #[trigger]
        m.contains_key(other) && m[other] is Null ==> other == key || text_before(key, other)
}

/// No two keys are the first of those whose values are `null`.
pub proof fn lemma_least_null_unique(m: Map<Seq<char>, JsonValue>, a: Seq<char>, b: Seq<char>)
    requires
        least_null(m, a),
        least_null(m, b),
    ensures
        a == b,
{
    if a != b {
        assert(m.contains_key(b) && m[b] is Null);
        assert(m.contains_key(a) && m[a] is Null);
        assert(text_before(a, b));
        assert(text_before(b, a));
        lemma_text_before_transitive(a, b, a);
        lemma_text_before_irreflexive(a);
    }
}

/// What capturing the extensions of a document comes to: the extensions,
/// none of them `null`, or the error that names the first extension that
/// is `null`, in the order of the names.
pub open spec fn capture_result(fields: Map<Seq<char>, JsonValue>) -> Result<
    Map<Seq<char>, JsonValue>,
    ParseErrorView,
> {
    let extensions = extensions_of(fields);
    if has_null(extensions) {
        Err(ParseErrorView::NullExtension(choose|key: Seq<char>| least_null(extensions, key)))
    } else {
        Ok(extensions)
    }
}

/// Captures the extensions of a document from the fields of its object:
/// a copy of every field whose key the schema does not own. An extension
/// that is `null` is an error, which names it.
pub fn skip_generation_fields(fields: &TextMap<String, Json>) -> (r: Result<Extensions, ParseError>)
    ensures
        match r {
            Ok(extensions) => capture_result(models(fields@)) == Ok::<
                Map<Seq<char>, JsonValue>,
                ParseErrorView,
            >(models(extensions@)),
            Err(e) => capture_result(models(fields@)) == Err::<
                Map<Seq<char>, JsonValue>,
                ParseErrorView,
            >(e@),
        },
        r matches Err(ParseError::NullExtension(k)) ==> least_null(
            extensions_of(models(fields@)),
            k@,
        ),
{
    let entries = fields.entries();
    let mut extensions: Extensions = TextMap::new();
    let mut i: usize = 0;
    proof {
        lemma_pairs_ends(entries@);
        assert(models(extensions@) =~= extensions_of(models(pairs_map(entries@.take(0)))));
    }
    while i < entries.len()
        invariant
            i <= entries@.len(),
            pairs_map(entries@) == fields@,
            enumerates(entries@, fields@),
            sorted_keys(entries@),
            models(extensions@) == extensions_of(models(pairs_map(entries@.take(i as int)))),
            forall|a: int|
                0 <= a < i ==> is_schema_owned((#[trigger] entries@[a]).0@) || !(entries@[a].1@
                    is Null),
        decreases entries@.len() - i,
    {
        proof {
            lemma_pairs_step(entries@, i as int);
        }
        let ghost prev = pairs_map(entries@.take(i as int));
        let ghost e = entries@[i as int];
        let ghost next = prev.insert(e.0@, e.1);
        proof {
            assert(models(next) =~= models(prev).insert(e.0@, e.1@));
        }
        if !owns_key(entries[i].0.as_str()) {
            if entries[i].1.is_null() {
                proof {
                    let all = extensions_of(models(fields@));
                    assert(fields@.contains_key(e.0.text()) && fields@[e.0.text()] == e.1);
                    assert(all.contains_key(e.0@));
                    assert(all[e.0@] is Null);
                    assert forall|other: Seq<char>| #[trigger]
                        all.contains_key(other) && all[other] is Null implies other == e.0@
                        || text_before(e.0@, other) by {
                        let a = choose|a: int|
                            0 <= a < entries@.len() && (#[trigger] entries@[a]).0.text() == other;
                        assert(fields@[entries@[a].0.text()] == entries@[a].1);
                        if a > i {
                            assert(text_before(entries@[i as int].0.text(), entries@[a].0.text()));
                        }
                    }
                    assert(least_null(all, e.0@));
                    let chosen = choose|key: Seq<char>| least_null(all, key);
                    lemma_least_null_unique(all, chosen, e.0@);
                }
                return Err(ParseError::NullExtension(entries[i].0.clone()));
            }
            let ghost before = extensions@;
            let copy = entries[i].1.clone();
            extensions.insert(entries[i].0.clone(), copy);
            proof {
                assert(models(before.insert(e.0@, copy)) =~= models(before).insert(e.0@, copy@));
                assert(extensions_of(models(prev).insert(e.0@, e.1@)) =~= extensions_of(
                    models(prev),
                ).insert(e.0@, e.1@));
            }
        } else {
            proof {
                assert(extensions_of(models(prev).insert(e.0@, e.1@)) =~= extensions_of(
                    models(prev),
                ));
            }
        }
        i += 1;
    }
    proof {
        lemma_pairs_ends(entries@);
        let all = extensions_of(models(fields@));
        assert forall|k: Seq<char>| all.contains_key(k) implies !((#[trigger] all[k]) is Null) by {
            let a = choose|a: int|
                0 <= a < entries@.len() && (#[trigger] entries@[a]).0.text() == k;
            assert(fields@[entries@[a].0.text()] == entries@[a].1);
        }
    }
    Ok(extensions)
}

} // verus!
