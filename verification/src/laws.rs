//! What holds of reading and writing documents, whatever the document.
use crate::deser::{capture_result, extensions_of, lemma_v1_keys_owned};
use crate::error::ParseErrorView;
use crate::generation::{
    document_tag, lemma_unsupported_is_not_v1, versioned_generation_result, GenerationView,
    VersionTag,
};
use crate::json::JsonValue;
use crate::v1::{
    generation_fields, lemma_generation_keys, lemma_generation_reads_own_fields,
    lemma_generation_round_trip, BOOTSPEC_KEY, SPECIALISATION_KEY,
};
use crate::{document_result, BootJsonView};
use vstd::prelude::*;

verus! {

/// A generation is read back from the JSON value that holds it, as the
/// generation of the version that it was written in.
pub proof fn lemma_generation_round_trip_versioned(generation: GenerationView)
    ensures
        versioned_generation_result(generation.tree()) == Ok::<GenerationView, ParseErrorView>(
            generation,
        ),
{
    lemma_generation_keys();
    match generation {
        GenerationView::V1(g) => {
            lemma_generation_round_trip(g);
        },
    }
}

/// A valid document is read back from the JSON value that holds it: the
/// same generation and the same extensions, each with the value that it
/// had.
pub proof fn lemma_document_round_trip(doc: BootJsonView)
    requires
        doc.wf(),
    ensures
        document_result(doc.tree()) == Ok::<BootJsonView, ParseErrorView>(doc),
{
    lemma_generation_keys();
    lemma_v1_keys_owned();
    let own = doc.generation.fields();
    let fields = doc.fields();
    match doc.generation {
        GenerationView::V1(g) => {
            lemma_generation_round_trip(g);
            lemma_generation_reads_own_fields(fields, own);
            assert(own.dom() =~= set![BOOTSPEC_KEY@, SPECIALISATION_KEY@]);
        },
    }
    assert(versioned_generation_result(doc.tree()) == Ok::<GenerationView, ParseErrorView>(
        doc.generation,
    ));
    assert(extensions_of(fields) =~= doc.extensions);
}

/// In a document that was read, the schema owns the key of no extension and
/// no extension is `null`; so no key is both that of an extension and that
/// of a schema-owned field.
pub proof fn lemma_no_overlap(tree: JsonValue)
    requires
        document_result(tree) is Ok,
    ensures
        document_result(tree)->Ok_0.wf(),
        document_result(tree)->Ok_0.extensions.dom().disjoint(
            document_result(tree)->Ok_0.generation.fields().dom(),
        ),
{
    lemma_v1_keys_owned();
    let doc = document_result(tree)->Ok_0;
    assert(capture_result(tree->Object_0) is Ok);
    assert(doc.extensions == extensions_of(tree->Object_0));
    match doc.generation {
        GenerationView::V1(g) => {
            assert(generation_fields(g).dom() =~= set![BOOTSPEC_KEY@, SPECIALISATION_KEY@]);
        },
    }
}

/// Reading a document that is tagged with an unsupported version comes to
/// one thing only: the error that names the version. The document is read
/// against no schema, and the version is not a supported one.
pub proof fn lemma_unsupported_version(tree: JsonValue, v: u64)
    requires
        document_tag(tree) == VersionTag::Unsupported(v),
    ensures
        v != crate::SCHEMA_VERSION,
        versioned_generation_result(tree) == Err::<GenerationView, ParseErrorView>(
            ParseErrorView::UnsupportedVersion(v),
        ),
        document_result(tree) == Err::<BootJsonView, ParseErrorView>(
            ParseErrorView::UnsupportedVersion(v),
        ),
{
    lemma_unsupported_is_not_v1(tree, v);
}

} // verus!
