//! Bootspec documents: the record of how one configuration of an
//! operating system is booted, with the extensions that others attached to
//! it.
pub mod deser;
pub mod error;
pub mod generation;
pub mod gensynth;
pub mod json;
pub mod jsontext;
pub mod laws;
pub mod synth;
pub mod text;
pub mod textmap;
pub mod trees;
pub mod v1;

use crate::deser::{
    capture_result, extensions_of, is_schema_owned, least_null, skip_generation_fields,
};
use crate::error::{
    comes_to, BootspecError, BootspecErrorView, ParseError, ParseErrorView, SynthesizeError,
    SynthesizeErrorView,
};
use crate::gensynth::{FrameView, GenerationSynthesis};
use crate::v1::GenerationV1;
use crate::generation::{
    text_comes_to, versioned_generation_result, Generation, GenerationView,
};
use crate::json::{models, Json, JsonValue};
use crate::jsontext::{tree_text, tree_text_pretty};
use crate::textmap::{lemma_pairs_ends, lemma_pairs_step, pairs_map, TextKey, TextMap};
use vstd::prelude::*;

verus! {

/// The name of a specialisation.
#[derive(Debug, Default, Clone, PartialEq, Eq, Hash)]
pub struct SpecialisationName(pub String);

impl View for SpecialisationName {
    type V = Seq<char>;

    open spec fn view(&self) -> Seq<char> {
        self.0@
    }
}

impl SpecialisationName {
    /// The name, as text.
    pub fn to_string(&self) -> (r: String)
        ensures
            r@ == self@,
    {
        self.0.clone()
    }
}

impl TextKey for SpecialisationName {
    open spec fn text(&self) -> Seq<char> {
        self.0@
    }

    fn as_text(&self) -> (r: &str) {
        self.0.as_str()
    }

    fn same_key(&self) -> (r: Self) {
        SpecialisationName(self.0.clone())
    }
}

/// The root directory of a system configuration, as a path.
#[derive(Debug, Default, Clone, PartialEq, Eq)]
pub struct SystemConfigurationRoot(pub String);

impl View for SystemConfigurationRoot {
    type V = Seq<char>;

    open spec fn view(&self) -> Seq<char> {
        self.0@
    }
}

/// The name of the file that holds a bootspec document.
pub const JSON_FILENAME: &'static str = "boot.json";

/// The extensions of a document: what others attached to it, by name.
pub type Extensions = TextMap<String, Json>;

/// The generation of the newest version of the schema.
pub type BootSpec = v1::GenerationV1;

/// The specialisations of the newest version of the schema.
pub type Specialisations = v1::SpecialisationsV1;

/// The number of the newest version of the schema.
pub const SCHEMA_VERSION: u64 = v1::SCHEMA_VERSION;

/// The model of a document.
pub struct BootJsonView {
    pub generation: GenerationView,
    pub extensions: Map<Seq<char>, JsonValue>,
}

impl BootJsonView {
    /// The document is valid: the schema owns the key of no extension, and
    /// no extension is `null`.
    pub open spec fn wf(self) -> bool {
        forall|k: Seq<char>| #[trigger]
            self.extensions.contains_key(k) ==> !is_schema_owned(k) && !(self.extensions[k] is Null)
    }

    /// The fields of the JSON object that holds the document: the
    /// schema-owned fields of the generation and the extensions, in one
    /// object. Where the schema owns the key of an extension, the
    /// schema-owned field stands.
    pub open spec fn fields(self) -> Map<Seq<char>, JsonValue> {
        self.extensions.union_prefer_right(self.generation.fields())
    }

    /// The JSON value that holds the document.
    pub open spec fn tree(self) -> JsonValue {
        JsonValue::Object(self.fields())
    }
}

/// A bootspec document: a generation and the extensions that
/// came with it.
#[derive(Debug, PartialEq, Eq)]
pub struct BootJson {
    pub generation: Generation,
    pub extensions: Extensions,
}

impl View for BootJson {
    type V = BootJsonView;

    open spec fn view(&self) -> BootJsonView {
        BootJsonView { generation: self.generation@, extensions: models(self.extensions@) }
    }
}

impl Clone for BootJson {
    fn clone(&self) -> (r: Self)
        ensures
            r@ == self@,
    {
        let generation = self.generation.clone();
        let extensions = self.extensions.clone();
        proof {
            assert(models(extensions@) =~= models(self.extensions@));
        }
        BootJson { generation, extensions }
    }
}

/// What reading a document from the JSON value that holds it comes to: the
/// document, or the error that says why there is none. The generation is
/// that of the version that the value is tagged with; the extensions are
/// the fields of the object whose key the schema does not own. The
/// generation is read first: an error of it comes before that of an
/// extension that is `null`.
pub open spec fn document_result(tree: JsonValue) -> Result<BootJsonView, ParseErrorView> {
    match versioned_generation_result(tree) {
        Ok(generation) => match capture_result(tree->Object_0) {
            Ok(extensions) => Ok(BootJsonView { generation, extensions }),
            Err(e) => Err(e),
        },
        Err(e) => Err(e),
    }
}

/// The document that a JSON value holds, if it holds one.
pub open spec fn document_of(tree: JsonValue) -> Option<BootJsonView> {
    match document_result(tree) {
        Ok(doc) => Some(doc),
        Err(_) => None,
    }
}

impl BootJson {
    /// Reads a document from the JSON value that holds it.
    pub fn from_json(j: &Json) -> (r: Result<BootJson, ParseError>)
        ensures
            comes_to(r, document_result(j@)),
            r matches Ok(doc) ==> doc@.wf(),
            r matches Err(ParseError::NullExtension(k)) ==> least_null(
                extensions_of(j@->Object_0),
                k@,
            ),
    {
        let generation = match Generation::from_json(j) {
            Ok(g) => g,
            Err(e) => {
                return Err(e);
            },
        };
        let fields = match j {
            Json::Object(fields) => fields,
            _ => {
                return Err(ParseError::MissingVersion);
            },
        };
        proof {
            Json::lemma_object_view(*fields);
        }
        match skip_generation_fields(fields) {
            Ok(extensions) => Ok(BootJson { generation, extensions }),
            Err(e) => Err(e),
        }
    }

    /// The JSON value that holds this document.
    pub fn to_json(&self) -> (j: Json)
        ensures
            j@ == self@.tree(),
    {
        let entries = self.extensions.entries();
        let mut fields: TextMap<String, Json> = TextMap::new();
        let mut i: usize = 0;
        proof {
            lemma_pairs_ends(entries@);
            assert(models(fields@) =~= models(pairs_map(entries@.take(0))));
        }
        while i < entries.len()
            invariant
                i <= entries@.len(),
                models(fields@) == models(pairs_map(entries@.take(i as int))),
            decreases entries@.len() - i,
        {
            proof {
                lemma_pairs_step(entries@, i as int);
            }
            let ghost prev = pairs_map(entries@.take(i as int));
            let ghost e = entries@[i as int];
            let ghost before = fields@;
            let copy = entries[i].1.clone();
            fields.insert(entries[i].0.clone(), copy);
            proof {
                assert(models(before.insert(e.0@, copy)) =~= models(before).insert(e.0@, copy@));
                assert(models(prev.insert(e.0@, e.1)) =~= models(prev).insert(e.0@, e.1@));
            }
            i += 1;
        }
        proof {
            lemma_pairs_ends(entries@);
        }
        let own = self.generation.fields_json();
        let own_entries = own.entries();
        let ghost base = fields@;
        let mut k: usize = 0;
        proof {
            lemma_pairs_ends(own_entries@);
            assert(models(fields@) =~= models(base).union_prefer_right(
                models(pairs_map(own_entries@.take(0))),
            ));
        }
        while k < own_entries.len()
            invariant
                k <= own_entries@.len(),
                models(fields@) == models(base).union_prefer_right(
                    models(pairs_map(own_entries@.take(k as int))),
                ),
            decreases own_entries@.len() - k,
        {
            proof {
                lemma_pairs_step(own_entries@, k as int);
            }
            let ghost prev = pairs_map(own_entries@.take(k as int));
            let ghost e = own_entries@[k as int];
            let ghost before = fields@;
            let copy = own_entries[k].1.clone();
            fields.insert(own_entries[k].0.clone(), copy);
            proof {
                assert(models(before.insert(e.0@, copy)) =~= models(before).insert(e.0@, copy@));
                assert(models(prev.insert(e.0@, e.1)) =~= models(prev).insert(e.0@, e.1@));
                assert(models(base).union_prefer_right(models(prev).insert(e.0@, e.1@)) =~= models(
                    base,
                ).union_prefer_right(models(prev)).insert(e.0@, e.1@));
            }
            k += 1;
        }
        proof {
            lemma_pairs_ends(own_entries@);
            Json::lemma_object_view(fields);
        }
        Json::Object(fields)
    }

    /// Begins the synthesis of a document of the newest version of the
    /// schema from the configuration root at the given path.
    pub fn synthesize_latest(generation_path: &str) -> (r: Result<
        GenerationSynthesis,
        BootspecError,
    >)
        ensures
            r matches Ok(s) && s@ == seq![FrameView::start(generation_path@)],
    {
        BootJson::synthesize_version(generation_path, SCHEMA_VERSION)
    }

    /// Begins the synthesis of a document of the given version of the
    /// schema from the configuration root at the given path. A version
    /// that cannot be synthesized is an error, and nothing is asked about
    /// the root.
    pub fn synthesize_version(generation_path: &str, version: u64) -> (r: Result<
        GenerationSynthesis,
        BootspecError,
    >)
        ensures
            match r {
                Ok(s) => version == SCHEMA_VERSION && s@ == seq![
                    FrameView::start(generation_path@),
                ],
                Err(e) => version != SCHEMA_VERSION && e@ == BootspecErrorView::Synthesize(
                    SynthesizeErrorView::UnsupportedVersion(version),
                ),
            },
    {
        if version == v1::SCHEMA_VERSION {
            Ok(GenerationV1::synthesize(generation_path))
        } else {
            Err(BootspecError::Synthesize(SynthesizeError::UnsupportedVersion(version)))
        }
    }

    /// The document of a generation that was synthesized: the generation,
    /// and no extension.
    pub fn synthesized(generation: GenerationV1) -> (doc: BootJson)
        ensures
            doc@ == (BootJsonView {
                generation: GenerationView::V1(generation@),
                extensions: Map::empty(),
            }),
            doc@.wf(),
    {
        let extensions: Extensions = TextMap::new();
        assert(models(extensions@) =~= Map::<Seq<char>, JsonValue>::empty());
        BootJson { generation: Generation::V1(generation), extensions }
    }

    /// Reads a document from a JSON text.
    pub fn from_json_str(text: &str) -> (r: Result<BootJson, ParseError>)
        ensures
            text_comes_to(text@, r, |tree: JsonValue| document_result(tree)),
            r matches Ok(doc) ==> doc@.wf(),
    {
        match Json::parse(text) {
            Ok(j) => BootJson::from_json(&j),
            Err(message) => Err(ParseError::Syntax(message)),
        }
    }

    /// Writes the document as JSON text on one line: the text of the JSON
    /// value that holds the document. Where no text is written for that
    /// value, the error holds the cause as it was reported.
    pub fn to_json_string(&self) -> (r: Result<String, BootspecError>)
        ensures
            match r {
                Ok(s) => tree_text(self@.tree()) == Some(s@),
                Err(e) => tree_text(self@.tree()) is None && e@ is Io,
            },
    {
        match self.to_json().to_text() {
            Ok(s) => Ok(s),
            Err(message) => Err(BootspecError::Io(message)),
        }
    }

    /// Writes the document as indented JSON text: the text of the JSON
    /// value that holds the document. Where no text is written for that
    /// value, the error holds the cause as it was reported.
    pub fn to_json_string_pretty(&self) -> (r: Result<String, BootspecError>)
        ensures
            match r {
                Ok(s) => tree_text_pretty(self@.tree()) == Some(s@),
                Err(e) => tree_text_pretty(self@.tree()) is None && e@ is Io,
            },
    {
        match self.to_json().to_text_pretty() {
            Ok(s) => Ok(s),
            Err(message) => Err(BootspecError::Io(message)),
        }
    }
}

} // verus!
