//! The generation of a document, whatever the version of its schema, and
//! the choice of the version by the document's tag.
//!
//! A document of version `n` holds its boot specification under the key
//! `org.nixos.bootspec.v` followed by `n` in decimal: that key is the tag.
//! The version is chosen by the tag before anything else of the document is
//! read.
use crate::error::{comes_to, BootspecError, ParseError, ParseErrorView};
use crate::json::{models, Json, JsonValue};
use crate::jsontext::text_tree;
use crate::text::{after_prefix, decimal_u64, decimal_value, lemma_decimal_digit, parse_decimal};
use crate::textmap::{TextKey, TextMap};
use crate::v1::{
    generation_fields, generation_result, GenerationV1, GenerationV1View, BOOTSPEC_KEY,
};
use vstd::prelude::*;

verus! {

/// What every key that holds a boot specification begins with, whatever the
/// version.
pub const BOOTSPEC_NAMESPACE: &'static str = "org.nixos.bootspec.";

/// What every key that holds specialisations begins with, whatever the
/// version.
pub const SPECIALISATION_NAMESPACE: &'static str = "org.nixos.specialisation.";

/// What comes before the version number in the key that tags a document.
pub const VERSION_PREFIX: &'static str = "org.nixos.bootspec.v";

/// The version that a key tags a document with, if the key is a tag: the
/// prefix followed by a decimal that fits in 64 bits.
pub open spec fn key_version(key: Seq<char>) -> Option<u64> {
    if VERSION_PREFIX@.is_prefix_of(key) {
        decimal_u64(key.skip(VERSION_PREFIX@.len() as int))
    } else {
        None
    }
}

/// Some key of the object tags it with version `v`.
pub open spec fn has_version(fields: Map<Seq<char>, JsonValue>, v: u64) -> bool {
    exists|k: Seq<char>| fields.contains_key(k) && #[trigger] key_version(k) == Some(v)
}

/// `v` is the newest version that a key of the object tags it with.
pub open spec fn newest_version(fields: Map<Seq<char>, JsonValue>, v: u64) -> bool {
    has_version(fields, v) && forall|w: u64| has_version(fields, w) ==> w <= v
}

/// What the tag of a document says.
#[derive(Clone, Copy, Debug, PartialEq, Eq)]
pub enum VersionTag {
    /// The document is tagged with version 1.
    V1,
    /// The document is not tagged with a supported version; this is the
    /// newest version that it is tagged with.
    Unsupported(u64),
    /// The document is not an object, or no key of it is a tag.
    Missing,
}

/// The tag of a document. A tag of a supported version counts before any
/// other; without one, the newest tag counts.
pub open spec fn document_tag(tree: JsonValue) -> VersionTag {
    if tree is Object {
        let f = tree->Object_0;
        if f.contains_key(BOOTSPEC_KEY@) {
            VersionTag::V1
        } else if exists|v: u64| newest_version(f, v) {
            VersionTag::Unsupported(choose|v: u64| newest_version(f, v))
        } else {
            VersionTag::Missing
        }
    } else {
        VersionTag::Missing
    }
}

/// The key of version 1 is the one key that tags a document with version 1.
pub proof fn lemma_v1_key(key: Seq<char>)
    ensures
        key_version(BOOTSPEC_KEY@) == Some(1u64),
        key_version(key) == Some(1u64) ==> key == BOOTSPEC_KEY@,
{
    reveal_strlit("org.nixos.bootspec.v1");
    reveal_strlit("org.nixos.bootspec.v");
    let p = VERSION_PREFIX@;
    let k = BOOTSPEC_KEY@;
    assert(p.len() == 20 && k.len() == 21);
    assert(p =~= k.subrange(0, 20));
    let digits = k.skip(20);
    assert(digits =~= seq!['1']);
    assert(digits.drop_last() =~= Seq::<char>::empty());
    assert(decimal_value(digits.drop_last()) == 0);
    assert(decimal_value(digits) == 1);
    if key_version(key) == Some(1u64) {
        let rest = key.skip(20);
        lemma_decimal_digit(rest);
        assert(rest =~= seq!['1']);
        assert(key =~= key.subrange(0, 20) + rest);
        assert(key =~= k);
    }
}

/// A document that is tagged with an unsupported version is not tagged with
/// version 1.
pub proof fn lemma_unsupported_is_not_v1(tree: JsonValue, v: u64)
    requires
        document_tag(tree) == VersionTag::Unsupported(v),
    ensures
        v != 1,
        has_version(tree->Object_0, v),
{
    let f = tree->Object_0;
    let w = choose|w: u64| newest_version(f, w);
    assert(newest_version(f, w));
    if w == 1 {
        let k = choose|k: Seq<char>| f.contains_key(k) && #[trigger] key_version(k) == Some(1u64);
        lemma_v1_key(k);
    }
}

/// The version that a key tags a document with, if the key is a tag.
pub fn key_version_of(key: &str) -> (r: Option<u64>)
    ensures
        r == key_version(key@),
{
    match after_prefix(key, VERSION_PREFIX) {
        Some(digits) => parse_decimal(&digits),
        None => None,
    }
}

/// Finds the tag of a document among the fields of its object.
pub fn tag_of_fields(fields: &TextMap<String, Json>) -> (tag: VersionTag)
    ensures
        tag == document_tag(JsonValue::Object(models(fields@))),
{
    let ghost f = models(fields@);
    if fields.contains_key(BOOTSPEC_KEY) {
        return VersionTag::V1;
    }
    let entries = fields.entries();
    let mut newest: Option<u64> = None;
    let mut i: usize = 0;
    while i < entries.len()
        invariant
            i <= entries@.len(),
            forall|j: int|
                0 <= j < i ==> match key_version((#[trigger] entries@[j]).0@) {
                    Some(w) => newest is Some && w <= newest->0,
                    None => true,
                },
            newest matches Some(v) ==> exists|j: int|
                0 <= j < i && key_version((#[trigger] entries@[j]).0@) == Some(v),
        decreases entries@.len() - i,
    {
        match key_version_of(entries[i].0.as_str()) {
            Some(w) => {
                let better = match newest {
                    Some(v) => w > v,
                    None => true,
                };
                if better {
                    newest = Some(w);
                }
            },
            None => {},
        }
        i += 1;
    }
    proof {
        assert forall|w: u64| has_version(f, w) implies newest is Some && w <= newest->0 by {
            let k = choose|k: Seq<char>| f.contains_key(k) && #[trigger] key_version(k) == Some(w);
            assert(fields@.contains_key(k));
            let j = choose|j: int| 0 <= j < entries@.len() && (#[trigger] entries@[j]).0.text() == k;
            assert(key_version(entries@[j].0@) == Some(w));
        }
    }
    match newest {
        Some(v) => {
            proof {
                let j = choose|j: int|
                    0 <= j < entries@.len() && key_version((#[trigger] entries@[j]).0@) == Some(v);
                assert(fields@.contains_key(entries@[j].0.text()));
                assert(f.contains_key(entries@[j].0@));
                assert(has_version(f, v));
                assert(newest_version(f, v));
                let c = choose|c: u64| newest_version(f, c);
                assert(newest_version(f, c));
                assert(c == v);
            }
            VersionTag::Unsupported(v)
        },
        None => {
            proof {
                assert forall|v: u64| !newest_version(f, v) by {}
            }
            VersionTag::Missing
        },
    }
}

/// The model of a generation of some version.
pub enum GenerationView {
    V1(GenerationV1View),
}

impl GenerationView {
    /// The number of the version of the schema.
    pub open spec fn version(self) -> u64 {
        match self {
            GenerationView::V1(_) => 1,
        }
    }

    /// The schema-owned fields of the JSON object that holds the
    /// generation.
    pub open spec fn fields(self) -> Map<Seq<char>, JsonValue> {
        match self {
            GenerationView::V1(g) => generation_fields(g),
        }
    }

    /// The JSON value that holds the generation.
    pub open spec fn tree(self) -> JsonValue {
        JsonValue::Object(self.fields())
    }
}

/// A generation, in whichever version of the schema its document was
/// written.
#[derive(Debug, PartialEq, Eq)]
#[non_exhaustive]
pub enum Generation {
    V1(GenerationV1),
}

impl View for Generation {
    type V = GenerationView;

    open spec fn view(&self) -> GenerationView {
        match self {
            Generation::V1(g) => GenerationView::V1(g@),
        }
    }
}

/// What reading the generation of a document comes to: the generation, or
/// the error that says why there is none. The version is chosen by the tag
/// alone; a document that is not tagged with a supported version is read
/// against no schema.
pub open spec fn versioned_generation_result(tree: JsonValue) -> Result<
    GenerationView,
    ParseErrorView,
> {
    match document_tag(tree) {
        VersionTag::V1 => match generation_result(tree) {
            Ok(g) => Ok(GenerationView::V1(g)),
            Err(m) => Err(ParseErrorView::SchemaMismatch(m)),
        },
        VersionTag::Unsupported(v) => Err(ParseErrorView::UnsupportedVersion(v)),
        VersionTag::Missing => Err(ParseErrorView::MissingVersion),
    }
}

/// What reading a JSON text comes to, where reading the JSON value of a
/// text comes to `model`: a text that is not JSON is a syntax error, and
/// any other text comes to what its JSON value comes to.
pub open spec fn text_comes_to<T: View>(
    text: Seq<char>,
    r: Result<T, ParseError>,
    model: spec_fn(JsonValue) -> Result<T::V, ParseErrorView>,
) -> bool {
    match text_tree(text) {
        Some(tree) => comes_to(r, model(tree)),
        None => r matches Err(ParseError::Syntax(_)),
    }
}

impl Generation {
    /// The number of the version of the schema.
    pub fn version(&self) -> (v: u64)
        ensures
            v == self@.version(),
    {
        match self {
            Generation::V1(_) => crate::v1::SCHEMA_VERSION,
        }
    }

    /// Reads the generation of a document, of whichever supported version
    /// the document is tagged with.
    pub fn from_json(j: &Json) -> (r: Result<Generation, ParseError>)
        ensures
            comes_to(r, versioned_generation_result(j@)),
    {
        let fields = match j {
            Json::Object(fields) => fields,
            _ => {
                return Err(ParseError::MissingVersion);
            },
        };
        proof {
            Json::lemma_object_view(*fields);
        }
        match tag_of_fields(fields) {
            VersionTag::V1 => match GenerationV1::from_json(j) {
                Ok(g) => Ok(Generation::V1(g)),
                Err(m) => Err(ParseError::SchemaMismatch(m)),
            },
            VersionTag::Unsupported(v) => Err(ParseError::UnsupportedVersion(v)),
            VersionTag::Missing => Err(ParseError::MissingVersion),
        }
    }

    /// Reads the generation of a document from a JSON text. A text that is
    /// not JSON is a syntax error, and any other text comes to what its
    /// JSON value comes to.
    pub fn from_json_str(text: &str) -> (r: Result<Generation, ParseError>)
        ensures
            text_comes_to(text@, r, |tree: JsonValue| versioned_generation_result(tree)),
    {
        match Json::parse(text) {
            Ok(j) => Generation::from_json(&j),
            Err(message) => Err(ParseError::Syntax(message)),
        }
    }

    /// The schema-owned fields of the JSON object that holds this
    /// generation.
    pub fn fields_json(&self) -> (fields: TextMap<String, Json>)
        ensures
            models(fields@) == self@.fields(),
    {
        match self {
            Generation::V1(g) => g.fields_json(),
        }
    }

    /// The JSON value that holds this generation.
    pub fn to_json(&self) -> (j: Json)
        ensures
            j@ == self@.tree(),
    {
        let fields = self.fields_json();
        proof {
            Json::lemma_object_view(fields);
        }
        Json::Object(fields)
    }
}

/// What reading a generation of version 1 comes to, whatever the tag of the
/// document.
pub open spec fn v1_result(tree: JsonValue) -> Result<GenerationV1View, ParseErrorView> {
    match generation_result(tree) {
        Ok(g) => Ok(g),
        Err(m) => Err(ParseErrorView::SchemaMismatch(m)),
    }
}

impl Clone for Generation {
    fn clone(&self) -> (r: Self)
        ensures
            r@ == self@,
    {
        match self {
            Generation::V1(g) => Generation::V1(g.clone()),
        }
    }
}

impl GenerationV1 {
    /// Reads a generation of version 1 from a JSON text. A text that is not
    /// JSON is a syntax error, and any other text comes to what its JSON
    /// value comes to.
    pub fn from_json_str(text: &str) -> (r: Result<GenerationV1, ParseError>)
        ensures
            text_comes_to(text@, r, |tree: JsonValue| v1_result(tree)),
    {
        match Json::parse(text) {
            Ok(j) => match GenerationV1::from_json(&j) {
                Ok(g) => Ok(g),
                Err(m) => Err(ParseError::SchemaMismatch(m)),
            },
            Err(message) => Err(ParseError::Syntax(message)),
        }
    }
}

impl TryFrom<Generation> for GenerationV1 {
    type Error = BootspecError;

    /// The generation of version 1 that a generation of some version is.
    fn try_from(value: Generation) -> (r: Result<GenerationV1, BootspecError>) {
        match value {
            Generation::V1(g) => Ok(g),
        }
    }
}

impl vstd::std_specs::convert::TryFromSpecImpl<Generation> for GenerationV1 {
    open spec fn obeys_try_from_spec() -> bool {
        true
    }

    open spec fn try_from_spec(value: Generation) -> Result<GenerationV1, BootspecError> {
        match value {
            Generation::V1(g) => Ok(g),
        }
    }
}

} // verus!
