use bootspec::error::{Expected, Mismatch, ParseError};
use bootspec::generation::{key_version_of, Generation};
use bootspec::json::Json;
use bootspec::deser::{owns_key, skip_generation_fields};
use bootspec::textmap::TextMap;
use bootspec::v1::{BootSpecV1, GenerationV1, SpecialisationsV1};
use bootspec::{BootJson, Extensions, SpecialisationName, SystemConfigurationRoot};

fn bootspec(label: &str) -> BootSpecV1 {
    BootSpecV1 {
        label: String::from(label),
        kernel: String::from("/kernel"),
        kernel_params: vec![String::from("quiet"), String::from("loglevel=4")],
        init: String::from("/init"),
        initrd: None,
        initrd_secrets: Some(String::from("/secrets")),
        system: String::from("aarch64-linux"),
        toplevel: SystemConfigurationRoot(String::from("/top")),
    }
}

fn text(s: &str) -> Json {
    Json::Str(String::from(s))
}

fn object(entries: Vec<(&str, Json)>) -> Json {
    Json::Object(TextMap::from_entries(
        entries
            .into_iter()
            .map(|(key, value)| (String::from(key), value))
            .collect(),
    ))
}

fn minimal() -> &'static str {
    r#"{
        "org.nixos.bootspec.v1": {
            "label": "l", "kernel": "/k", "kernelParams": [], "init": "/i",
            "system": "s", "toplevel": "/t"
        },
        "org.nixos.specialisation.v1": {}
    }"#
}

fn with_bootspec_field(field: &str) -> String {
    format!(
        r#"{{ "org.nixos.bootspec.v1": {{
            "label": "l", "kernel": "/k", "kernelParams": [], "init": "/i",
            "system": "s", "toplevel": "/t", {} }} }}"#,
        field
    )
}

fn mismatch(path: &[&str], expected: Expected) -> ParseError {
    ParseError::SchemaMismatch(Mismatch {
        path: path.iter().map(ToString::to_string).collect(),
        expected,
    })
}

#[test]
fn round_trip_of_a_document_with_extensions_and_specialisations() {
    let mut inner = SpecialisationsV1::new();
    inner.insert(
        SpecialisationName(String::from("deep")),
        GenerationV1 {
            bootspec: bootspec("deep"),
            specialisations: SpecialisationsV1::new(),
        },
    );
    let mut specialisations = SpecialisationsV1::new();
    specialisations.insert(
        SpecialisationName(String::from("zeta")),
        GenerationV1 {
            bootspec: bootspec("zeta"),
            specialisations: inner,
        },
    );
    specialisations.insert(
        SpecialisationName(String::from("alpha")),
        GenerationV1 {
            bootspec: bootspec("alpha"),
            specialisations: SpecialisationsV1::new(),
        },
    );
    let mut extensions = Extensions::new();
    extensions.insert(
        String::from("org.zzz"),
        object(vec![
            ("b", Json::Array(vec![Json::Bool(true), Json::Null, text("x")])),
            ("a", object(vec![])),
        ]),
    );
    extensions.insert(String::from("com.example"), text("plain"));
    extensions.insert(String::from(""), Json::Bool(false));
    let document = BootJson {
        generation: Generation::V1(GenerationV1 {
            bootspec: bootspec("top"),
            specialisations,
        }),
        extensions,
    };

    let value = document.to_json();
    assert_eq!(BootJson::from_json(&value).unwrap(), document);

    let line = document.to_json_string().unwrap();
    assert_eq!(BootJson::from_json_str(&line).unwrap(), document);
    let pretty = document.to_json_string_pretty().unwrap();
    assert_ne!(line, pretty);
    assert_eq!(BootJson::from_json_str(&pretty).unwrap(), document);
    assert_eq!(document.clone(), document);
}

#[test]
fn round_trip_keeps_numbers_as_they_were() {
    let json = r#"{
        "org.nixos.bootspec.v1": {
            "label": "l", "kernel": "/k", "kernelParams": [], "init": "/i",
            "system": "s", "toplevel": "/t"
        },
        "org.numbers": [1, -2, 2.5, 18446744073709551615, 1e300]
    }"#;
    let document = BootJson::from_json_str(json).unwrap();
    let written = document.to_json_string().unwrap();
    assert!(written.contains("[1,-2,2.5,18446744073709551615,"), "{}", written);
    assert_eq!(BootJson::from_json_str(&written).unwrap(), document);
}

#[test]
fn written_document_is_one_flat_object() {
    let mut extensions = Extensions::new();
    extensions.insert(String::from("org.test"), text("x"));
    let document = BootJson {
        generation: Generation::V1(GenerationV1 {
            bootspec: bootspec("top"),
            specialisations: SpecialisationsV1::new(),
        }),
        extensions,
    };
    assert_eq!(
        document.to_json_string().unwrap(),
        concat_all(&[
            r#"{"org.nixos.bootspec.v1":{"init":"/init","initrd":null,"initrdSecrets":"/secrets","#,
            r#""kernel":"/kernel","kernelParams":["quiet","loglevel=4"],"label":"top","#,
            r#""system":"aarch64-linux","toplevel":"/top"},"#,
            r#""org.nixos.specialisation.v1":{},"org.test":"x"}"#,
        ])
    );
}

fn concat_all(parts: &[&str]) -> String {
    parts.iter().map(ToString::to_string).collect()
}

#[test]
fn written_document_without_extensions_has_the_two_schema_fields_only() {
    let document = BootJson {
        generation: Generation::V1(GenerationV1 {
            bootspec: bootspec("top"),
            specialisations: SpecialisationsV1::new(),
        }),
        extensions: Extensions::new(),
    };
    match document.to_json() {
        Json::Object(fields) => {
            assert_eq!(fields.len(), 2);
            assert!(fields.contains_key("org.nixos.bootspec.v1"));
            assert!(fields.contains_key("org.nixos.specialisation.v1"));
        }
        other => panic!("not an object: {:?}", other),
    }
}

#[test]
fn schema_owned_field_stands_where_an_extension_has_its_key() {
    let mut extensions = Extensions::new();
    extensions.insert(String::from("org.nixos.bootspec.v1"), text("intruder"));
    let document = BootJson {
        generation: Generation::V1(GenerationV1 {
            bootspec: bootspec("top"),
            specialisations: SpecialisationsV1::new(),
        }),
        extensions,
    };
    let read = BootJson::from_json(&document.to_json()).unwrap();
    assert_eq!(read.generation, document.generation);
    assert!(read.extensions.is_empty());
}

#[test]
fn minimal_document() {
    let document = BootJson::from_json_str(minimal()).unwrap();
    assert_eq!(document.generation.version(), 1);
    assert!(document.extensions.is_empty());
    assert_eq!(document.extensions.len(), 0);
}

#[test]
fn nested_specialisation_with_extension_at_top_level_only() {
    let json = r#"{
        "org.nixos.bootspec.v1": {
            "label": "l", "kernel": "/k", "kernelParams": [], "init": "/i",
            "system": "s", "toplevel": "/t"
        },
        "org.nixos.specialisation.v1": {
            "spec": {
                "org.nixos.bootspec.v1": {
                    "label": "inner", "kernel": "/k", "kernelParams": [], "init": "/i",
                    "system": "s", "toplevel": "/t"
                },
                "org.inner": { "ignored": true }
            }
        },
        "org.outer": { "kept": true }
    }"#;
    let document = BootJson::from_json_str(json).unwrap();
    let Generation::V1(generation) = &document.generation else {
        unreachable!()
    };
    assert_eq!(generation.specialisations.len(), 1);
    assert_eq!(document.extensions.len(), 1);
    assert_eq!(
        document.extensions.get("org.outer"),
        Some(&object(vec![("kept", Json::Bool(true))]))
    );
    let spec = generation
        .specialisations
        .get(&SpecialisationName(String::from("spec")))
        .unwrap();
    assert_eq!(spec.bootspec.label, "inner");
    assert!(spec.specialisations.is_empty());
    assert!(!document.to_json_string().unwrap().contains("org.inner"));
}

#[test]
fn no_key_is_both_schema_owned_and_an_extension() {
    let json = r#"{
        "org.nixos.bootspec.v1": {
            "label": "l", "kernel": "/k", "kernelParams": [], "init": "/i",
            "system": "s", "toplevel": "/t"
        },
        "org.nixos.bootspec.v2": { "new": "fields" },
        "org.nixos.bootspec.": 1,
        "org.nixos.specialisation.v7": null,
        "org.nixos.bootspec": "not in the namespace",
        "org.nixos": {}
    }"#;
    let document = BootJson::from_json_str(json).unwrap();
    assert_eq!(document.generation.version(), 1);
    let keys: Vec<&String> = document.extensions.entries().iter().map(|e| &e.0).collect();
    assert_eq!(keys, vec!["org.nixos", "org.nixos.bootspec"]);
    for key in keys {
        assert!(!owns_key(key));
    }
    assert!(owns_key("org.nixos.bootspec.v1"));
    assert!(owns_key("org.nixos.specialisation.v1"));
    assert!(owns_key("org.nixos.bootspec.v2"));
    assert!(owns_key("org.nixos.specialisation."));
    assert!(!owns_key("org.nixos.specialisation"));
    assert!(!owns_key(""));
}

#[test]
fn null_extension_is_rejected_by_name() {
    let json = r#"{
        "org.nixos.bootspec.v1": {
            "label": "l", "kernel": "/k", "kernelParams": [], "init": "/i",
            "system": "s", "toplevel": "/t"
        },
        "org.example": null
    }"#;
    let error = BootJson::from_json_str(json).unwrap_err();
    assert_eq!(error, ParseError::NullExtension(String::from("org.example")));
    assert!(error.message().contains("org.example"));
    assert_eq!(
        error.message(),
        "org.example was null, but null extensions are not allowed"
    );
}

#[test]
fn null_inside_an_extension_is_kept() {
    let fields = TextMap::from_entries(vec![
        (String::from("org.a"), object(vec![("hi", Json::Null)])),
        (String::from("org.nixos.bootspec.v1"), Json::Null),
        (String::from("org.b"), Json::Array(vec![Json::Null])),
    ]);
    let extensions = skip_generation_fields(&fields).unwrap();
    assert_eq!(extensions.len(), 2);
    assert_eq!(
        extensions.get("org.a"),
        Some(&object(vec![("hi", Json::Null)]))
    );
    assert_eq!(extensions.get("org.nixos.bootspec.v1"), None);
}

#[test]
fn error_of_the_generation_comes_before_that_of_an_extension() {
    let json = r#"{ "org.nixos.bootspec.v1": 3, "org.example": null }"#;
    assert_eq!(
        BootJson::from_json_str(json).unwrap_err(),
        mismatch(&["org.nixos.bootspec.v1"], Expected::Object)
    );
}

#[test]
fn unsupported_version_is_named() {
    let json = r#"{ "org.nixos.bootspec.v99": {}, "org.nixos.specialisation.v99": {} }"#;
    let error = BootJson::from_json_str(json).unwrap_err();
    assert_eq!(error, ParseError::UnsupportedVersion(99));
    assert!(error.message().contains("99"));
    assert_eq!(
        error.message(),
        "unsupported bootspec version 99: data did not match any variant of the supported schemas"
    );
    assert_eq!(
        Generation::from_json_str(json).unwrap_err(),
        ParseError::UnsupportedVersion(99)
    );
}

#[test]
fn unsupported_version_is_not_read_against_version_1() {
    let json = r#"{
        "org.nixos.bootspec.v2": {
            "label": "l", "kernel": "/k", "kernelParams": [], "init": "/i",
            "system": "s", "toplevel": "/t"
        },
        "org.nixos.specialisation.v1": {},
        "org.example": null
    }"#;
    assert_eq!(
        BootJson::from_json_str(json).unwrap_err(),
        ParseError::UnsupportedVersion(2)
    );
}

#[test]
fn newest_of_several_unsupported_versions_is_named() {
    let json = r#"{
        "org.nixos.bootspec.v3": {},
        "org.nixos.bootspec.v10": {},
        "org.nixos.bootspec.v9": {},
        "org.nixos.bootspec.v18446744073709551615": {},
        "org.nixos.bootspec.v18446744073709551616": {}
    }"#;
    assert_eq!(
        BootJson::from_json_str(json).unwrap_err(),
        ParseError::UnsupportedVersion(u64::MAX)
    );
}

#[test]
fn supported_version_counts_before_a_newer_one() {
    let json = r#"{
        "org.nixos.bootspec.v1": {
            "label": "l", "kernel": "/k", "kernelParams": [], "init": "/i",
            "system": "s", "toplevel": "/t"
        },
        "org.nixos.bootspec.v2": {}
    }"#;
    assert_eq!(BootJson::from_json_str(json).unwrap().generation.version(), 1);
}

#[test]
fn missing_or_invalid_version() {
    for json in [
        r#"{}"#,
        r#"[]"#,
        r#""org.nixos.bootspec.v1""#,
        r#"{ "org.example": {} }"#,
        r#"{ "org.nixos.bootspec.v": {} }"#,
        r#"{ "org.nixos.bootspec.v01": {} }"#,
        r#"{ "org.nixos.bootspec.v1 ": {} }"#,
        r#"{ "org.nixos.bootspec.v+1": {} }"#,
        r#"{ "org.nixos.bootspec.vx": {} }"#,
        r#"{ "org.nixos.bootspec.v18446744073709551616": {} }"#,
        r#"{ "org.nixos.specialisation.v1": {} }"#,
    ] {
        let error = BootJson::from_json_str(json).unwrap_err();
        assert_eq!(error, ParseError::MissingVersion, "{}", json);
        assert_eq!(error.message(), "missing or invalid bootspec version");
    }
}

#[test]
fn version_of_a_key() {
    assert_eq!(key_version_of("org.nixos.bootspec.v1"), Some(1));
    assert_eq!(key_version_of("org.nixos.bootspec.v0"), Some(0));
    assert_eq!(key_version_of("org.nixos.bootspec.v120"), Some(120));
    assert_eq!(key_version_of("org.nixos.bootspec.v00"), None);
    assert_eq!(key_version_of("org.nixos.bootspec.v"), None);
    assert_eq!(key_version_of("org.nixos.specialisation.v1"), None);
    assert_eq!(key_version_of("org.nixos.bootspec.v1x"), None);
}

#[test]
fn text_that_is_not_json() {
    let error = BootJson::from_json_str("{ not json").unwrap_err();
    assert!(matches!(error, ParseError::Syntax(_)));
    assert!(error.message().starts_with("invalid JSON: "));
    assert!(matches!(
        Generation::from_json_str("").unwrap_err(),
        ParseError::Syntax(_)
    ));
    assert!(matches!(
        GenerationV1::from_json_str("[1,").unwrap_err(),
        ParseError::Syntax(_)
    ));
}

#[test]
fn schema_mismatch_names_the_place() {
    let cases: Vec<(String, Vec<&str>, Expected)> = vec![
        (
            String::from(r#"{ "org.nixos.bootspec.v1": [] }"#),
            vec!["org.nixos.bootspec.v1"],
            Expected::Object,
        ),
        (
            String::from(r#"{ "org.nixos.bootspec.v1": {} }"#),
            vec!["org.nixos.bootspec.v1", "label"],
            Expected::Field,
        ),
        (
            String::from(r#"{ "org.nixos.bootspec.v1": { "label": 1 } }"#),
            vec!["org.nixos.bootspec.v1", "label"],
            Expected::Text,
        ),
        (
            String::from(r#"{ "org.nixos.bootspec.v1": { "label": "l" } }"#),
            vec!["org.nixos.bootspec.v1", "kernel"],
            Expected::Field,
        ),
        (
            String::from(r#"{ "org.nixos.bootspec.v1": { "label": "l", "kernel": "/k" } }"#),
            vec!["org.nixos.bootspec.v1", "kernelParams"],
            Expected::Field,
        ),
        (
            String::from(
                r#"{ "org.nixos.bootspec.v1": { "label": "l", "kernel": "/k", "kernelParams": "a b" } }"#,
            ),
            vec!["org.nixos.bootspec.v1", "kernelParams"],
            Expected::TextList,
        ),
        (
            String::from(
                r#"{ "org.nixos.bootspec.v1": { "label": "l", "kernel": "/k", "kernelParams": ["a", 1] } }"#,
            ),
            vec!["org.nixos.bootspec.v1", "kernelParams"],
            Expected::TextList,
        ),
        (
            with_bootspec_field(r#""initrd": 7"#),
            vec!["org.nixos.bootspec.v1", "initrd"],
            Expected::Text,
        ),
        (
            with_bootspec_field(r#""initrdSecrets": []"#),
            vec!["org.nixos.bootspec.v1", "initrdSecrets"],
            Expected::Text,
        ),
        (
            format!(
                r#"{{ "org.nixos.bootspec.v1": {}, "org.nixos.specialisation.v1": [] }}"#,
                r#"{ "label": "l", "kernel": "/k", "kernelParams": [], "init": "/i", "system": "s", "toplevel": "/t" }"#
            ),
            vec!["org.nixos.specialisation.v1"],
            Expected::Object,
        ),
        (
            format!(
                r#"{{ "org.nixos.bootspec.v1": {}, "org.nixos.specialisation.v1": {{ "x": {{ "org.nixos.bootspec.v1": {{ "label": "l", "kernel": false }} }} }} }}"#,
                r#"{ "label": "l", "kernel": "/k", "kernelParams": [], "init": "/i", "system": "s", "toplevel": "/t" }"#
            ),
            vec![
                "org.nixos.specialisation.v1",
                "x",
                "org.nixos.bootspec.v1",
                "kernel",
            ],
            Expected::Text,
        ),
        (
            format!(
                r#"{{ "org.nixos.bootspec.v1": {}, "org.nixos.specialisation.v1": {{ "x": {{}} }} }}"#,
                r#"{ "label": "l", "kernel": "/k", "kernelParams": [], "init": "/i", "system": "s", "toplevel": "/t" }"#
            ),
            vec!["org.nixos.specialisation.v1", "x", "org.nixos.bootspec.v1"],
            Expected::Field,
        ),
        (
            format!(
                r#"{{ "org.nixos.bootspec.v1": {}, "org.nixos.specialisation.v1": {{ "x": 1 }} }}"#,
                r#"{ "label": "l", "kernel": "/k", "kernelParams": [], "init": "/i", "system": "s", "toplevel": "/t" }"#
            ),
            vec!["org.nixos.specialisation.v1", "x"],
            Expected::Object,
        ),
    ];
    for (json, path, expected) in cases {
        assert_eq!(
            BootJson::from_json_str(&json).unwrap_err(),
            mismatch(&path, expected),
            "{}",
            json
        );
    }
}

#[test]
fn schema_mismatch_messages() {
    assert_eq!(
        mismatch(&["org.nixos.specialisation.v1"], Expected::Object).message(),
        "invalid bootspec document at `org.nixos.specialisation.v1`: expected a map"
    );
    assert_eq!(
        mismatch(&["org.nixos.bootspec.v1", "kernel"], Expected::Field).message(),
        "invalid bootspec document at `org.nixos.bootspec.v1 > kernel`: missing field"
    );
    assert_eq!(
        mismatch(&["a", "b", "c"], Expected::TextList).message(),
        "invalid bootspec document at `a > b > c`: expected a sequence of strings"
    );
    assert_eq!(
        mismatch(&[], Expected::Text).message(),
        "invalid bootspec document: expected a string"
    );
}

#[test]
fn generation_of_version_1_is_read_without_a_tag_check() {
    assert_eq!(
        GenerationV1::from_json_str("[]").unwrap_err(),
        mismatch(&[], Expected::Object)
    );
    assert_eq!(
        GenerationV1::from_json_str("{}").unwrap_err(),
        mismatch(&["org.nixos.bootspec.v1"], Expected::Field)
    );
    let generation = GenerationV1::from_json_str(minimal()).unwrap();
    assert_eq!(generation.bootspec.label, "l");
    assert_eq!(generation.bootspec.initrd, None);
    assert_eq!(
        GenerationV1::from_json(&generation.to_json()).unwrap(),
        generation
    );
}

#[test]
fn boot_specification_alone() {
    let value = bootspec("alone").to_json();
    assert_eq!(BootSpecV1::from_json(&value).unwrap(), bootspec("alone"));
    assert_eq!(
        BootSpecV1::from_json(&Json::Null).unwrap_err(),
        Mismatch {
            path: vec![],
            expected: Expected::Object
        }
    );
}

#[test]
fn optional_fields_and_unknown_fields() {
    let document =
        BootJson::from_json_str(&with_bootspec_field(r#""initrd": null, "unknown": [1, 2]"#))
            .unwrap();
    let Generation::V1(generation) = &document.generation else {
        unreachable!()
    };
    assert_eq!(generation.bootspec.initrd, None);
    assert_eq!(generation.bootspec.initrd_secrets, None);
    assert!(generation.specialisations.is_empty());
    let with = BootJson::from_json_str(&with_bootspec_field(r#""initrd": "/initrd""#)).unwrap();
    let Generation::V1(generation) = &with.generation else {
        unreachable!()
    };
    assert_eq!(generation.bootspec.initrd, Some(String::from("/initrd")));
}

#[test]
fn generation_written_alone_is_tagged() {
    let generation = Generation::V1(GenerationV1 {
        bootspec: bootspec("top"),
        specialisations: SpecialisationsV1::new(),
    });
    let value = generation.to_json();
    assert_eq!(Generation::from_json(&value).unwrap(), generation);
    assert_eq!(generation.clone(), generation);
    assert_eq!(
        generation.fields_json().entries().len(),
        2
    );
}

#[test]
fn first_of_several_faults_is_named() {
    let good = r#"{ "label": "l", "kernel": "/k", "kernelParams": [], "init": "/i", "system": "s", "toplevel": "/t" }"#;
    let cases: Vec<(String, Vec<&str>, Expected)> = vec![
        (
            String::from(r#"{ "org.nixos.bootspec.v1": { "toplevel": 1, "kernel": 2, "label": "l" } }"#),
            vec!["org.nixos.bootspec.v1", "kernel"],
            Expected::Text,
        ),
        (
            String::from(
                r#"{ "org.nixos.bootspec.v1": { "label": "l", "kernel": "/k", "kernelParams": [], "init": "/i", "initrdSecrets": 1, "initrd": 2 } }"#,
            ),
            vec!["org.nixos.bootspec.v1", "initrd"],
            Expected::Text,
        ),
        (
            String::from(r#"{ "org.nixos.bootspec.v1": {}, "org.nixos.specialisation.v1": 7 }"#),
            vec!["org.nixos.bootspec.v1", "label"],
            Expected::Field,
        ),
        (
            format!(
                r#"{{ "org.nixos.bootspec.v1": {}, "org.nixos.specialisation.v1": {{ "z": 1, "m": {{ "org.nixos.bootspec.v1": {} }}, "b": [], "a": {{ "org.nixos.bootspec.v1": {} }} }} }}"#,
                good, good, good
            ),
            vec!["org.nixos.specialisation.v1", "b"],
            Expected::Object,
        ),
    ];
    for (json, path, expected) in cases {
        assert_eq!(
            BootJson::from_json_str(&json).unwrap_err(),
            mismatch(&path, expected),
            "{}",
            json
        );
    }
}

#[test]
fn first_of_several_null_extensions_is_named() {
    let json = r#"{
        "org.nixos.bootspec.v1": {
            "label": "l", "kernel": "/k", "kernelParams": [], "init": "/i",
            "system": "s", "toplevel": "/t"
        },
        "org.z": null,
        "org.b": null,
        "org.a": 1,
        "org.c": null
    }"#;
    assert_eq!(
        BootJson::from_json_str(json).unwrap_err(),
        ParseError::NullExtension(String::from("org.b"))
    );
}
