use bootspec::error::{BootspecError, SynthesizeError};
use bootspec::gensynth::{GenerationProgress, GenerationSynthesis};
use bootspec::synth::{Listed, Progress, Reply, Request, Stage, Synthesis};
use bootspec::v1::{BootSpecV1, GenerationV1};
use bootspec::{BootJson, SpecialisationName, SystemConfigurationRoot, JSON_FILENAME, SCHEMA_VERSION};

/// A configuration root that exists in this file only.
struct Scaffold {
    root: String,
    system: String,
    system_version: String,
    kernel_version: String,
    kernel_params: Vec<String>,
    specialisations: Vec<String>,
    other_files: Vec<String>,
}

fn join(base: &str, name: &str) -> String {
    format!("{}/{}", base, name)
}

impl Scaffold {
    fn files(&self, root: &str) -> Vec<(String, String)> {
        let mut files = vec![
            (join(root, "nixos-version"), self.system_version.clone()),
            (join(root, "system"), self.system.clone()),
            (join(root, "kernel-modules/bzImage"), String::new()),
            (join(root, "kernel-params"), self.kernel_params.join(" ")),
            (join(root, "init"), String::new()),
            (join(root, "initrd"), String::new()),
            (join(root, "append-initrd-secrets"), String::new()),
        ];
        for name in &self.other_files {
            files.push((join(root, name), String::new()));
        }
        files
    }

    fn roots(&self) -> Vec<String> {
        let mut roots = vec![self.root.clone()];
        for name in &self.specialisations {
            roots.push(join(&join(&self.root, "specialisation"), name));
        }
        roots
    }

    fn answer(&self, request: &Request) -> Reply {
        let missing = || Reply::Failed(String::from("No such file or directory (os error 2)"));
        for root in self.roots() {
            let modules = join(&root, "kernel-modules/lib/modules");
            match request {
                Request::Canonicalize(path) => {
                    if *path == root
                        || *path == modules
                        || self.files(&root).iter().any(|(file, _)| file == path)
                    {
                        return Reply::Text(path.clone());
                    }
                }
                Request::ReadText(path) => {
                    if let Some((_, text)) = self.files(&root).iter().find(|(file, _)| file == path)
                    {
                        return Reply::Text(text.clone());
                    }
                }
                Request::FirstEntry(path) => {
                    if *path == modules {
                        return Reply::Text(self.kernel_version.clone());
                    }
                }
                Request::Exists(path) => {
                    if self.files(&root).iter().any(|(file, _)| file == path) {
                        return Reply::Flag(true);
                    }
                }
                Request::ListDir(path) => {
                    if *path == join(&self.root, "specialisation") {
                        return Reply::Entries(
                            self.specialisations
                                .iter()
                                .map(|name| Listed::Name(name.clone()))
                                .collect(),
                        );
                    }
                }
            }
        }
        match request {
            Request::Exists(_) => Reply::Flag(false),
            _ => missing(),
        }
    }

    fn bootspec(&self, generation: &str) -> Result<BootSpecV1, BootspecError> {
        let mut synthesis = BootSpecV1::synthesize(generation);
        loop {
            let reply = self.answer(&synthesis.request());
            match synthesis.advance(reply) {
                Progress::Next(next) => synthesis = next,
                Progress::Done(bootspec) => return Ok(bootspec),
                Progress::Failed(error) => return Err(error),
            }
        }
    }

    fn generation(&self) -> Result<GenerationV1, BootspecError> {
        self.run(GenerationV1::synthesize(&self.root))
    }

    fn run(&self, mut synthesis: GenerationSynthesis) -> Result<GenerationV1, BootspecError> {
        loop {
            let reply = self.answer(&synthesis.request());
            match synthesis.advance(reply) {
                GenerationProgress::Next(next) => synthesis = next,
                GenerationProgress::Done(generation) => return Ok(generation),
                GenerationProgress::Failed(error) => return Err(error),
            }
        }
    }
}

fn scaffold(
    system: &str,
    system_version: &str,
    kernel_version: &str,
    kernel_params: &Vec<String>,
    specialisations: Option<Vec<&str>>,
    specialisations_have_boot_spec: bool,
) -> Scaffold {
    let specialisations: Vec<String> = specialisations
        .unwrap_or_default()
        .iter()
        .map(ToString::to_string)
        .collect();
    let mut other_files = Vec::new();
    if specialisations_have_boot_spec {
        for name in &specialisations {
            other_files.push(format!("specialisation/{}/{}", name, JSON_FILENAME));
        }
    }
    Scaffold {
        root: String::from("/tmp/generation"),
        system: system.to_string(),
        system_version: system_version.to_string(),
        kernel_version: kernel_version.to_string(),
        kernel_params: kernel_params.clone(),
        specialisations,
        other_files,
    }
}

fn params() -> Vec<String> {
    [
        "udev.log_priority=3",
        "systemd.unified_cgroup_hierarchy=1",
        "loglevel=4",
    ]
    .iter()
    .map(ToString::to_string)
    .collect::<Vec<_>>()
}

#[test]
fn no_bootspec_no_specialisation() {
    let system = String::from("x86_64-linux");
    let system_version = String::from("test-version-1");
    let kernel_version = String::from("1.1.1-test1");
    let kernel_params = params();

    let fake = scaffold(
        &system,
        &system_version,
        &kernel_version,
        &kernel_params,
        None,
        false,
    );
    let generation = fake.root.clone();
    let spec = fake.bootspec(&generation).unwrap();

    assert_eq!(
        spec,
        BootSpecV1 {
            system,
            label: "NixOS test-version-1 (Linux 1.1.1-test1)".into(),
            kernel: join(&generation, "kernel-modules/bzImage"),
            kernel_params,
            init: join(&generation, "init"),
            initrd: Some(join(&generation, "initrd")),
            initrd_secrets: Some(join(&generation, "append-initrd-secrets")),
            toplevel: SystemConfigurationRoot(generation),
        }
    );
}

#[test]
fn no_bootspec_with_specialisation_no_bootspec() {
    let system = String::from("x86_64-linux");
    let system_version = String::from("test-version-2");
    let kernel_version = String::from("1.1.1-test2");
    let kernel_params = params();
    let specialisations = vec!["spec1", "spec2"];

    let fake = scaffold(
        &system,
        &system_version,
        &kernel_version,
        &kernel_params,
        Some(specialisations),
        false,
    );

    fake.bootspec(&fake.root).unwrap();

    let generation = fake.generation().unwrap();
    assert_eq!(generation.specialisations.len(), 2);
    let spec1 = generation
        .specialisations
        .get(&SpecialisationName(String::from("spec1")))
        .unwrap();
    assert_eq!(
        spec1.bootspec.toplevel,
        SystemConfigurationRoot(String::from("/tmp/generation/specialisation/spec1"))
    );
    assert!(spec1.specialisations.is_empty());
}

#[test]
fn with_bootspec_no_specialisation() {
    let system = String::from("x86_64-linux");
    let system_version = String::from("test-version-3");
    let kernel_version = String::from("1.1.1-test3");
    let kernel_params = params();

    let mut fake = scaffold(
        &system,
        &system_version,
        &kernel_version,
        &kernel_params,
        None,
        false,
    );
    fake.other_files.push(String::from(JSON_FILENAME));
    let generation = fake.root.clone();

    let spec = fake.bootspec(&generation).unwrap();

    assert_eq!(
        spec,
        BootSpecV1 {
            system,
            label: "NixOS test-version-3 (Linux 1.1.1-test3)".into(),
            kernel: join(&generation, "kernel-modules/bzImage"),
            kernel_params,
            init: join(&generation, "init"),
            initrd: Some(join(&generation, "initrd")),
            initrd_secrets: Some(join(&generation, "append-initrd-secrets")),
            toplevel: SystemConfigurationRoot(generation)
        }
    );
}

#[test]
fn with_bootspec_with_specialisations_with_bootspec() {
    let system = String::from("x86_64-linux");
    let system_version = String::from("test-version-4");
    let kernel_version = String::from("1.1.1-test4");
    let kernel_params = params();
    let specialisations = vec!["spec1", "spec2"];

    let mut fake = scaffold(
        &system,
        &system_version,
        &kernel_version,
        &kernel_params,
        Some(specialisations),
        true,
    );
    fake.other_files
        .push(format!("bootspec/{}", JSON_FILENAME));

    fake.bootspec(&fake.root).unwrap();
}

/// Drives a synthesis with the given replies, one for each request.
fn drive(replies: Vec<Reply>) -> (Vec<Request>, Progress) {
    let mut synthesis = BootSpecV1::synthesize("given");
    let mut asked = Vec::new();
    let mut replies = replies.into_iter();
    loop {
        asked.push(synthesis.request());
        let reply = replies.next().expect("a reply for each request");
        match synthesis.advance(reply) {
            Progress::Next(next) => synthesis = next,
            end => return (asked, end),
        }
    }
}

fn text(s: &str) -> Reply {
    Reply::Text(String::from(s))
}

#[test]
fn synthesis_asks_the_well_known_paths_in_order() {
    let (asked, end) = drive(vec![
        text("/root"),
        text("23.05"),
        text("x86_64-linux"),
        text("/store/kernel/bzImage"),
        text("/store/modules"),
        text("6.1.0"),
        text("a b"),
        Reply::Flag(true),
        text("/store/initrd"),
        Reply::Flag(true),
    ]);
    assert_eq!(
        asked,
        vec![
            Request::Canonicalize(String::from("given")),
            Request::ReadText(String::from("/root/nixos-version")),
            Request::ReadText(String::from("/root/system")),
            Request::Canonicalize(String::from("/root/kernel-modules/bzImage")),
            Request::Canonicalize(String::from("/root/kernel-modules/lib/modules")),
            Request::FirstEntry(String::from("/store/modules")),
            Request::ReadText(String::from("/root/kernel-params")),
            Request::Exists(String::from("/root/initrd")),
            Request::Canonicalize(String::from("/root/initrd")),
            Request::Exists(String::from("/root/append-initrd-secrets")),
        ]
    );
    assert_eq!(
        end,
        Progress::Done(BootSpecV1 {
            label: String::from("NixOS 23.05 (Linux 6.1.0)"),
            kernel: String::from("/store/kernel/bzImage"),
            kernel_params: vec![String::from("a"), String::from("b")],
            init: String::from("/root/init"),
            initrd: Some(String::from("/store/initrd")),
            initrd_secrets: Some(String::from("/root/append-initrd-secrets")),
            system: String::from("x86_64-linux"),
            toplevel: SystemConfigurationRoot(String::from("/root")),
        })
    );
}

#[test]
fn synthesis_of_another_system_asks_for_image() {
    let (asked, end) = drive(vec![
        text("/root"),
        text("23.05"),
        text("aarch64-linux"),
        Reply::Failed(String::from("gone")),
    ]);
    assert_eq!(
        asked[3],
        Request::Canonicalize(String::from("/root/kernel-modules/Image"))
    );
    assert_eq!(
        end,
        Progress::Failed(BootspecError::Synthesize(SynthesizeError::Canonicalize {
            path: String::from("/root/kernel-modules/Image"),
            err: String::from("gone"),
        }))
    );
}

#[test]
fn synthesis_without_initrd_and_secrets() {
    let (asked, end) = drive(vec![
        text("/root"),
        text("23.05"),
        text("x86_64-linux"),
        text("/k"),
        text("/m"),
        text("6.1.0"),
        text(""),
        Reply::Flag(false),
        Reply::Flag(false),
    ]);
    assert_eq!(asked.len(), 9);
    match end {
        Progress::Done(bootspec) => {
            assert_eq!(bootspec.initrd, None);
            assert_eq!(bootspec.initrd_secrets, None);
            assert_eq!(bootspec.kernel_params, vec![String::new()]);
        }
        other => panic!("unexpected end: {:?}", other),
    }
}

#[test]
fn synthesis_is_a_function_of_the_replies() {
    let replies = vec![
        text("/root"),
        text("23.05"),
        text("x86_64-linux"),
        text("/k"),
        text("/m"),
        text("6.1.0"),
        text("quiet  splash"),
        Reply::Flag(false),
        Reply::Flag(true),
    ];
    let (_, first) = drive(replies.clone());
    let (_, second) = drive(replies);
    assert_eq!(first, second);
    match first {
        Progress::Done(bootspec) => assert_eq!(
            bootspec.kernel_params,
            vec![String::from("quiet"), String::new(), String::from("splash")]
        ),
        other => panic!("unexpected end: {:?}", other),
    }
}

#[test]
fn synthesis_root_cannot_be_canonicalized() {
    let (_, end) = drive(vec![Reply::Failed(String::from("denied"))]);
    assert_eq!(
        end,
        Progress::Failed(BootspecError::Synthesize(SynthesizeError::Canonicalize {
            path: String::from("given"),
            err: String::from("denied"),
        }))
    );
}

#[test]
fn synthesis_version_file_cannot_be_read() {
    let (_, end) = drive(vec![text("/root"), Reply::Failed(String::from("denied"))]);
    let error = BootspecError::Synthesize(SynthesizeError::ReadPath {
        path: String::from("/root/nixos-version"),
        err: String::from("denied"),
    });
    assert_eq!(
        error.message(),
        "failed to synthesize: failed to read /root/nixos-version: denied"
    );
    assert_eq!(end, Progress::Failed(error));
}

fn until_kernel_version(last: Reply) -> Progress {
    let (_, end) = drive(vec![
        text("/root"),
        text("23.05"),
        text("x86_64-linux"),
        text("/k"),
        text("/store/modules"),
        last,
    ]);
    end
}

#[test]
fn synthesis_without_kernel_version_directory() {
    let error =
        BootspecError::Synthesize(SynthesizeError::MissingKernelVersionDir(String::from(
            "/store/modules",
        )));
    assert_eq!(
        error.message(),
        "failed to synthesize: could not find kernel version dir in /store/modules"
    );
    assert_eq!(until_kernel_version(Reply::NoEntry), Progress::Failed(error));
}

#[test]
fn synthesis_kernel_modules_cannot_be_listed() {
    assert_eq!(
        until_kernel_version(Reply::Failed(String::from("denied"))),
        Progress::Failed(BootspecError::Synthesize(SynthesizeError::ReadPath {
            path: String::from("/store/modules"),
            err: String::from("denied"),
        }))
    );
    assert_eq!(
        until_kernel_version(Reply::EntryFailed(String::from("broken"))),
        Progress::Failed(BootspecError::Synthesize(SynthesizeError::ReadPath {
            path: String::from("/store/modules"),
            err: String::from("broken"),
        }))
    );
}

#[test]
fn synthesis_kernel_version_name_is_invalid() {
    let no_name = BootspecError::InvalidFileName(String::from("/store/modules/.."));
    assert_eq!(no_name.message(), "/store/modules/.. had an invalid file name");
    assert_eq!(
        until_kernel_version(Reply::InvalidFileName(String::from("/store/modules/.."))),
        Progress::Failed(no_name)
    );
    let no_utf8 = BootspecError::InvalidUtf8(String::from("/store/modules/?"));
    assert_eq!(no_utf8.message(), "/store/modules/? contained invalid UTF8");
    assert_eq!(
        until_kernel_version(Reply::InvalidUtf8(String::from("/store/modules/?"))),
        Progress::Failed(no_utf8)
    );
}

#[test]
fn synthesis_kernel_params_cannot_be_read() {
    let (_, end) = drive(vec![
        text("/root"),
        text("23.05"),
        text("x86_64-linux"),
        text("/k"),
        text("/m"),
        text("6.1.0"),
        Reply::Failed(String::from("denied")),
    ]);
    let error = BootspecError::Synthesize(SynthesizeError::ReadPath {
        path: String::from("/root/kernel-params"),
        err: String::from("denied"),
    });
    assert_eq!(
        error.message(),
        "failed to synthesize: failed to read /root/kernel-params: denied"
    );
    assert_eq!(end, Progress::Failed(error));
}

#[test]
fn synthesis_initrd_cannot_be_canonicalized() {
    let (_, end) = drive(vec![
        text("/root"),
        text("23.05"),
        text("x86_64-linux"),
        text("/k"),
        text("/m"),
        text("6.1.0"),
        text("quiet"),
        Reply::Flag(true),
        Reply::Failed(String::from("loop")),
    ]);
    assert_eq!(
        end,
        Progress::Failed(BootspecError::Synthesize(SynthesizeError::Canonicalize {
            path: String::from("/root/initrd"),
            err: String::from("loop"),
        }))
    );
}

#[test]
fn synthesis_reply_that_does_not_answer() {
    let (_, end) = drive(vec![Reply::Flag(true)]);
    assert_eq!(
        end,
        Progress::Failed(BootspecError::Io(String::from(
            "the reply does not answer the request"
        )))
    );
    let (_, end) = drive(vec![text("/root"), Reply::NoEntry]);
    assert_eq!(
        end,
        Progress::Failed(BootspecError::Io(String::from(
            "the reply does not answer the request"
        )))
    );
}

#[test]
fn synthesis_starts_at_the_root() {
    let synthesis: Synthesis = BootSpecV1::synthesize("some/where");
    assert_eq!(synthesis.stage, Stage::Root);
    assert_eq!(
        synthesis.request(),
        Request::Canonicalize(String::from("some/where"))
    );
}

#[test]
fn synthesize_version_checks_the_version_first() {
    let started = BootJson::synthesize_version("/root", SCHEMA_VERSION).unwrap();
    assert_eq!(started, GenerationV1::synthesize("/root"));
    assert_eq!(BootJson::synthesize_latest("/root").unwrap(), started);
    assert_eq!(
        started.request(),
        Request::Canonicalize(String::from("/root"))
    );

    let error = BootJson::synthesize_version("/root", 2).unwrap_err();
    assert_eq!(
        error,
        BootspecError::Synthesize(SynthesizeError::UnsupportedVersion(2))
    );
    assert_eq!(
        error.message(),
        "failed to synthesize: unsupported schema version 2"
    );
}

#[test]
fn synthesized_document_has_no_extension() {
    let fake = scaffold("x86_64-linux", "v", "k", &params(), Some(vec!["b", "a"]), false);
    let generation = fake.generation().unwrap();
    let names = generation.specialisations.keys();
    assert_eq!(
        names,
        vec![
            SpecialisationName(String::from("a")),
            SpecialisationName(String::from("b"))
        ]
    );
    let document = BootJson::synthesized(generation.clone());
    assert!(document.extensions.is_empty());
    assert_eq!(document.generation.version(), 1);
    let text = document.to_json_string_pretty().unwrap();
    assert_eq!(BootJson::from_json_str(&text).unwrap(), document);
}

/// Drives the synthesis of a generation with the given replies.
fn drive_generation(replies: Vec<Reply>) -> (Vec<Request>, GenerationProgress) {
    let mut synthesis = GenerationV1::synthesize("given");
    let mut asked = Vec::new();
    let mut replies = replies.into_iter();
    loop {
        asked.push(synthesis.request());
        let reply = replies.next().expect("a reply for each request");
        match synthesis.advance(reply) {
            GenerationProgress::Next(next) => synthesis = next,
            end => return (asked, end),
        }
    }
}

fn root_replies(root: &str, label: &str) -> Vec<Reply> {
    vec![
        text(root),
        text(label),
        text("x86_64-linux"),
        text("/k"),
        text("/m"),
        text("6"),
        text("quiet"),
        Reply::Flag(false),
        Reply::Flag(false),
    ]
}

fn expected_generation(root: &str, label: &str) -> GenerationV1 {
    let bootspec = BootSpecV1 {
        label: format!("NixOS {} (Linux 6)", label),
        kernel: String::from("/k"),
        kernel_params: vec![String::from("quiet")],
        init: format!("{}/init", root),
        initrd: None,
        initrd_secrets: None,
        system: String::from("x86_64-linux"),
        toplevel: SystemConfigurationRoot(String::from(root)),
    };
    GenerationV1 {
        bootspec,
        specialisations: bootspec::v1::SpecialisationsV1::new(),
    }
}

#[test]
fn generation_without_directory_of_specialisations() {
    let mut replies = root_replies("/root", "top");
    replies.push(Reply::Failed(String::from("No such file or directory")));
    let (asked, end) = drive_generation(replies);
    assert_eq!(asked.len(), 10);
    assert_eq!(asked[9], Request::ListDir(String::from("given/specialisation")));
    assert_eq!(
        end,
        GenerationProgress::Done(expected_generation("/root", "top"))
    );
}

#[test]
fn generation_with_empty_directory_of_specialisations() {
    let mut replies = root_replies("/root", "top");
    replies.push(Reply::Entries(vec![]));
    let (_, end) = drive_generation(replies);
    assert_eq!(
        end,
        GenerationProgress::Done(expected_generation("/root", "top"))
    );
}

#[test]
fn generation_with_nested_specialisations() {
    let mut replies = root_replies("/root", "top");
    replies.push(Reply::Entries(vec![
        Listed::Name(String::from("b")),
        Listed::Name(String::from("a")),
    ]));
    replies.push(text("/store/b"));
    replies.extend(root_replies("/store/b", "b"));
    replies.push(Reply::Entries(vec![Listed::Name(String::from("deep"))]));
    replies.push(text("/store/deep"));
    replies.extend(root_replies("/store/deep", "deep"));
    replies.push(Reply::Failed(String::from("none")));
    replies.push(text("/store/a"));
    replies.extend(root_replies("/store/a", "a"));
    replies.push(Reply::Entries(vec![]));
    let (asked, end) = drive_generation(replies);

    assert_eq!(
        asked[10],
        Request::Canonicalize(String::from("given/specialisation/b"))
    );
    assert_eq!(asked[11], Request::Canonicalize(String::from("/store/b")));
    assert_eq!(
        asked[20],
        Request::ListDir(String::from("/store/b/specialisation"))
    );
    assert_eq!(
        asked[21],
        Request::Canonicalize(String::from("/store/b/specialisation/deep"))
    );
    assert_eq!(
        asked[32],
        Request::Canonicalize(String::from("given/specialisation/a"))
    );

    let mut b = expected_generation("/store/b", "b");
    b.specialisations.insert(
        SpecialisationName(String::from("deep")),
        expected_generation("/store/deep", "deep"),
    );
    let mut top = expected_generation("/root", "top");
    top.specialisations
        .insert(SpecialisationName(String::from("a")), expected_generation("/store/a", "a"));
    top.specialisations
        .insert(SpecialisationName(String::from("b")), b);
    assert_eq!(end, GenerationProgress::Done(top));
}

#[test]
fn generation_with_an_entry_that_cannot_be_read() {
    for (entry, error) in [
        (
            Listed::Failed(String::from("broken")),
            BootspecError::Synthesize(SynthesizeError::ReadPath {
                path: String::from("given/specialisation"),
                err: String::from("broken"),
            }),
        ),
        (
            Listed::InvalidFileName(String::from("/root/specialisation/..")),
            BootspecError::InvalidFileName(String::from("/root/specialisation/..")),
        ),
        (
            Listed::InvalidUtf8(String::from("/root/specialisation/?")),
            BootspecError::InvalidUtf8(String::from("/root/specialisation/?")),
        ),
    ] {
        let mut replies = root_replies("/root", "top");
        replies.push(Reply::Entries(vec![entry.clone()]));
        let (_, end) = drive_generation(replies);
        assert_eq!(end, GenerationProgress::Failed(error.clone()));

        let mut replies = root_replies("/root", "top");
        replies.push(Reply::Entries(vec![Listed::Name(String::from("a")), entry]));
        replies.push(text("/store/a"));
        replies.extend(root_replies("/store/a", "a"));
        replies.push(Reply::Entries(vec![]));
        let (asked, end) = drive_generation(replies);
        assert_eq!(asked.len(), 21);
        assert_eq!(end, GenerationProgress::Failed(error));
    }
}

#[test]
fn generation_with_a_specialisation_that_fails() {
    let mut replies = root_replies("/root", "top");
    replies.push(Reply::Entries(vec![Listed::Name(String::from("a"))]));
    replies.push(Reply::Failed(String::from("dangling")));
    let (_, end) = drive_generation(replies);
    let error = BootspecError::Synthesize(SynthesizeError::Canonicalize {
        path: String::from("given/specialisation/a"),
        err: String::from("dangling"),
    });
    assert_eq!(
        error.message(),
        "failed to synthesize: failed to canonicalize given/specialisation/a: dangling"
    );
    assert_eq!(end, GenerationProgress::Failed(error));

    let mut replies = root_replies("/root", "top");
    replies.push(Reply::Entries(vec![Listed::Name(String::from("a"))]));
    replies.push(text("/store/a"));
    replies.push(text("/store/a"));
    replies.push(Reply::Failed(String::from("denied")));
    let (_, end) = drive_generation(replies);
    assert_eq!(
        end,
        GenerationProgress::Failed(BootspecError::Synthesize(SynthesizeError::ReadPath {
            path: String::from("/store/a/nixos-version"),
            err: String::from("denied"),
        }))
    );
}

#[test]
fn generation_reply_that_does_not_answer() {
    let unanswered = GenerationProgress::Failed(BootspecError::Io(String::from(
        "the reply does not answer the request",
    )));
    let mut replies = root_replies("/root", "top");
    replies.push(Reply::Flag(true));
    assert_eq!(drive_generation(replies).1, unanswered);

    let mut replies = root_replies("/root", "top");
    replies.push(Reply::Entries(vec![Listed::Name(String::from("a"))]));
    replies.push(Reply::Entries(vec![]));
    assert_eq!(drive_generation(replies).1, unanswered);

    assert_eq!(drive_generation(vec![Reply::Entries(vec![])]).1, unanswered);
}

#[test]
fn generation_keeps_the_later_of_two_entries_of_one_name() {
    let mut replies = root_replies("/root", "top");
    replies.push(Reply::Entries(vec![
        Listed::Name(String::from("x")),
        Listed::Name(String::from("x")),
    ]));
    replies.push(text("/store/first"));
    replies.extend(root_replies("/store/first", "first"));
    replies.push(Reply::Entries(vec![]));
    replies.push(text("/store/second"));
    replies.extend(root_replies("/store/second", "second"));
    replies.push(Reply::Entries(vec![]));
    let (_, end) = drive_generation(replies);
    let mut top = expected_generation("/root", "top");
    top.specialisations.insert(
        SpecialisationName(String::from("x")),
        expected_generation("/store/second", "second"),
    );
    assert_eq!(end, GenerationProgress::Done(top));
}

#[test]
fn generation_does_not_depend_on_the_order_of_the_listing() {
    let mut one = root_replies("/root", "top");
    one.push(Reply::Entries(vec![
        Listed::Name(String::from("b")),
        Listed::Name(String::from("a")),
        Listed::Name(String::from("c")),
    ]));
    for name in ["b", "a", "c"] {
        let root = format!("/store/{}", name);
        one.push(text(&root));
        one.extend(root_replies(&root, name));
        one.push(Reply::Entries(vec![]));
    }
    let mut other = root_replies("/root", "top");
    other.push(Reply::Entries(vec![
        Listed::Name(String::from("c")),
        Listed::Name(String::from("b")),
        Listed::Name(String::from("a")),
    ]));
    for name in ["c", "b", "a"] {
        let root = format!("/store/{}", name);
        other.push(text(&root));
        other.extend(root_replies(&root, name));
        other.push(Reply::Entries(vec![]));
    }
    let (_, first) = drive_generation(one);
    let (_, second) = drive_generation(other);
    assert_eq!(first, second);
    match first {
        GenerationProgress::Done(generation) => {
            assert_eq!(generation.specialisations.len(), 3);
            assert_eq!(
                generation.specialisations.keys(),
                vec![
                    SpecialisationName(String::from("a")),
                    SpecialisationName(String::from("b")),
                    SpecialisationName(String::from("c")),
                ]
            );
        }
        other => panic!("unexpected end: {:?}", other),
    }
}

#[test]
fn generation_of_a_nested_specialisation_that_cannot_be_listed_names_its_directory() {
    let mut replies = root_replies("/root", "top");
    replies.push(Reply::Entries(vec![Listed::Name(String::from("a"))]));
    replies.push(text("/store/a"));
    replies.extend(root_replies("/store/a", "a"));
    replies.push(Reply::Entries(vec![Listed::Failed(String::from("broken"))]));
    let (_, end) = drive_generation(replies);
    assert_eq!(
        end,
        GenerationProgress::Failed(BootspecError::Synthesize(SynthesizeError::ReadPath {
            path: String::from("/store/a/specialisation"),
            err: String::from("broken"),
        }))
    );
}
