//! The synthesis of a boot specification from a configuration root that
//! has no document.
//!
//! Synthesis reads a fixed set of files under the root. The reading is not
//! done here: a [`Synthesis`] says which path it asks about next, takes the
//! reply, and goes on, until the boot specification is made or an error
//! says which path could not be had. What is asked, in what order, and what
//! each reply comes to, is decided here.
use crate::error::{BootspecError, BootspecErrorView, SynthesizeError, SynthesizeErrorView};
use crate::text::{join_path, path_join, same_text, split_on, split_text};
use crate::v1::{optional_text, BootSpecV1, BootSpecV1View};
use crate::SystemConfigurationRoot;
use vstd::prelude::*;
use vstd::string::*;

verus! {

/// The file that holds the version of the system.
pub const NIXOS_VERSION_FILE: &'static str = "nixos-version";

/// The file that holds the system that the configuration is for.
pub const SYSTEM_FILE: &'static str = "system";

/// The system whose kernel image is named `bzImage`.
pub const X86_64_LINUX: &'static str = "x86_64-linux";

/// The kernel image of an `x86_64-linux` system.
pub const KERNEL_BZIMAGE: &'static str = "kernel-modules/bzImage";

/// The kernel image of any other system.
pub const KERNEL_IMAGE: &'static str = "kernel-modules/Image";

/// The directory that holds one directory named by the kernel's version.
pub const KERNEL_MODULES_DIR: &'static str = "kernel-modules/lib/modules";

/// The file that holds the kernel parameters, separated by single spaces.
pub const KERNEL_PARAMS_FILE: &'static str = "kernel-params";

/// The init program.
pub const INIT_FILE: &'static str = "init";

/// The initrd, which need not be there.
pub const INITRD_FILE: &'static str = "initrd";

/// The program that appends secrets to the initrd, which need not be there.
pub const INITRD_SECRETS_FILE: &'static str = "append-initrd-secrets";

/// The directory that holds one configuration root for each specialisation.
pub const SPECIALISATION_DIR: &'static str = "specialisation";

/// The cause that is reported of a reply that does not answer what was
/// asked.
pub const UNANSWERED: &'static str = "the reply does not answer the request";

/// What is asked about a path. Every request is one to read: none asks for
/// a change of what is found under the path.
#[derive(Clone, Debug, PartialEq, Eq)]
pub enum Request {
    /// The canonical form of the path.
    Canonicalize(String),
    /// The text of the file.
    ReadText(String),
    /// The name of the entry that a listing of the directory yields first.
    FirstEntry(String),
    /// Whether the path exists.
    Exists(String),
    /// The entries of the directory, in the order of a listing.
    ListDir(String),
}

/// The model of a [`Request`].
pub enum RequestView {
    Canonicalize(Seq<char>),
    ReadText(Seq<char>),
    FirstEntry(Seq<char>),
    Exists(Seq<char>),
    ListDir(Seq<char>),
}

impl View for Request {
    type V = RequestView;

    open spec fn view(&self) -> RequestView {
        match self {
            Request::Canonicalize(p) => RequestView::Canonicalize(p@),
            Request::ReadText(p) => RequestView::ReadText(p@),
            Request::FirstEntry(p) => RequestView::FirstEntry(p@),
            Request::Exists(p) => RequestView::Exists(p@),
            Request::ListDir(p) => RequestView::ListDir(p@),
        }
    }
}

/// An entry of a directory, as a listing yields it.
#[derive(Clone, Debug, PartialEq, Eq)]
pub enum Listed {
    /// The name of the entry.
    Name(String),
    /// The entry could not be read; the text is the cause.
    Failed(String),
    /// The entry, given by its path, has no file name.
    InvalidFileName(String),
    /// The name of the entry, given by its path, is not UTF-8.
    InvalidUtf8(String),
}

/// The model of a [`Listed`].
pub enum ListedView {
    Name(Seq<char>),
    Failed(Seq<char>),
    InvalidFileName(Seq<char>),
    InvalidUtf8(Seq<char>),
}

impl View for Listed {
    type V = ListedView;

    open spec fn view(&self) -> ListedView {
        match self {
            Listed::Name(n) => ListedView::Name(n@),
            Listed::Failed(c) => ListedView::Failed(c@),
            Listed::InvalidFileName(p) => ListedView::InvalidFileName(p@),
            Listed::InvalidUtf8(p) => ListedView::InvalidUtf8(p@),
        }
    }
}

/// The models of the entries of a listing.
pub open spec fn listing(entries: Seq<Listed>) -> Seq<ListedView> {
    Seq::new(entries.len(), |i: int| entries[i]@)
}

/// The answer to a [`Request`].
#[derive(Clone, Debug, PartialEq, Eq)]
pub enum Reply {
    /// The canonical path, the text of the file, or the name of the entry.
    Text(String),
    /// Whether the path exists.
    Flag(bool),
    /// The directory has no entry.
    NoEntry,
    /// What was asked could not be done; the text is the cause.
    Failed(String),
    /// The directory was opened, and its first entry could not be read.
    EntryFailed(String),
    /// The first entry, given by its path, has no file name.
    InvalidFileName(String),
    /// The name of the first entry, given by its path, is not UTF-8.
    InvalidUtf8(String),
    /// The entries of the directory, in the order of the listing.
    Entries(Vec<Listed>),
}

/// The model of a [`Reply`].
pub enum ReplyView {
    Text(Seq<char>),
    Flag(bool),
    NoEntry,
    Failed(Seq<char>),
    EntryFailed(Seq<char>),
    InvalidFileName(Seq<char>),
    InvalidUtf8(Seq<char>),
    Entries(Seq<ListedView>),
}

impl View for Reply {
    type V = ReplyView;

    open spec fn view(&self) -> ReplyView {
        match self {
            Reply::Text(t) => ReplyView::Text(t@),
            Reply::Flag(b) => ReplyView::Flag(*b),
            Reply::NoEntry => ReplyView::NoEntry,
            Reply::Failed(c) => ReplyView::Failed(c@),
            Reply::EntryFailed(c) => ReplyView::EntryFailed(c@),
            Reply::InvalidFileName(p) => ReplyView::InvalidFileName(p@),
            Reply::InvalidUtf8(p) => ReplyView::InvalidUtf8(p@),
            Reply::Entries(entries) => ReplyView::Entries(listing(entries@)),
        }
    }
}

/// What a synthesis waits for.
#[derive(Clone, Copy, Debug, PartialEq, Eq)]
pub enum Stage {
    /// The canonical path of the root.
    Root,
    /// The text of the file of the system's version.
    SystemVersion,
    /// The text of the file of the system.
    System,
    /// The canonical path of the kernel image.
    Kernel,
    /// The canonical path of the directory of kernel modules.
    Modules,
    /// The name of the directory of the kernel's version.
    KernelVersion,
    /// The text of the file of kernel parameters.
    KernelParams,
    /// Whether there is an initrd.
    InitrdExists,
    /// The canonical path of the initrd.
    Initrd,
    /// Whether there is a program that appends secrets to the initrd.
    SecretsExists,
}

/// A synthesis under way: what it waits for, and what it has learned.
#[derive(Clone, Debug, PartialEq, Eq)]
pub struct Synthesis {
    pub stage: Stage,
    /// The path of the root as it was given.
    pub given: String,
    /// The canonical path of the root.
    pub root: String,
    pub system_version: String,
    pub system: String,
    pub kernel: String,
    pub modules: String,
    pub kernel_version: String,
    pub kernel_params: String,
    pub initrd: Option<String>,
}

/// The model of a [`Synthesis`].
pub struct SynthesisView {
    pub stage: Stage,
    pub given: Seq<char>,
    pub root: Seq<char>,
    pub system_version: Seq<char>,
    pub system: Seq<char>,
    pub kernel: Seq<char>,
    pub modules: Seq<char>,
    pub kernel_version: Seq<char>,
    pub kernel_params: Seq<char>,
    pub initrd: Option<Seq<char>>,
}

impl View for Synthesis {
    type V = SynthesisView;

    open spec fn view(&self) -> SynthesisView {
        SynthesisView {
            stage: self.stage,
            given: self.given@,
            root: self.root@,
            system_version: self.system_version@,
            system: self.system@,
            kernel: self.kernel@,
            modules: self.modules@,
            kernel_version: self.kernel_version@,
            kernel_params: self.kernel_params@,
            initrd: optional_text(self.initrd),
        }
    }
}

/// Where a synthesis stands after a reply.
#[derive(Debug, PartialEq, Eq)]
pub enum Progress {
    /// The synthesis goes on, and asks its next request.
    Next(Synthesis),
    /// The boot specification is made.
    Done(BootSpecV1),
    /// The synthesis has failed.
    Failed(BootspecError),
}

/// The model of a [`Progress`].
pub enum ProgressView {
    Next(SynthesisView),
    Done(BootSpecV1View),
    Failed(BootspecErrorView),
}

impl View for Progress {
    type V = ProgressView;

    open spec fn view(&self) -> ProgressView {
        match self {
            Progress::Next(s) => ProgressView::Next(s@),
            Progress::Done(b) => ProgressView::Done(b@),
            Progress::Failed(e) => ProgressView::Failed(e@),
        }
    }
}

/// The path of the kernel image under the root: `bzImage` for an
/// `x86_64-linux` system, `Image` for any other.
pub open spec fn kernel_image(system: Seq<char>) -> Seq<char> {
    if system == X86_64_LINUX@ {
        KERNEL_BZIMAGE@
    } else {
        KERNEL_IMAGE@
    }
}

/// The label of a configuration: the version of the system and, in
/// brackets, that of the kernel.
pub open spec fn label_text(system_version: Seq<char>, kernel_version: Seq<char>) -> Seq<char> {
    "NixOS "@ + system_version + " (Linux "@ + kernel_version + ")"@
}

/// The failure of a reply that does not answer what was asked.
pub open spec fn unanswered() -> ProgressView {
    ProgressView::Failed(BootspecErrorView::Io(UNANSWERED@))
}

/// The failure to make a path canonical.
pub open spec fn not_canonical(path: Seq<char>, err: Seq<char>) -> ProgressView {
    ProgressView::Failed(
        BootspecErrorView::Synthesize(SynthesizeErrorView::Canonicalize { path, err }),
    )
}

/// The failure to read a path.
pub open spec fn not_read(path: Seq<char>, err: Seq<char>) -> ProgressView {
    ProgressView::Failed(BootspecErrorView::Synthesize(SynthesizeErrorView::ReadPath { path, err }))
}

impl SynthesisView {
    /// The synthesis at its start, for a root at the given path.
    pub open spec fn start(given: Seq<char>) -> SynthesisView {
        SynthesisView {
            stage: Stage::Root,
            given,
            root: Seq::empty(),
            system_version: Seq::empty(),
            system: Seq::empty(),
            kernel: Seq::empty(),
            modules: Seq::empty(),
            kernel_version: Seq::empty(),
            kernel_params: Seq::empty(),
            initrd: None,
        }
    }

    /// What the synthesis asks, at the stage at which it stands.
    pub open spec fn request(self) -> RequestView {
        match self.stage {
            Stage::Root => RequestView::Canonicalize(self.given),
            Stage::SystemVersion => RequestView::ReadText(path_join(self.root, NIXOS_VERSION_FILE@)),
            Stage::System => RequestView::ReadText(path_join(self.root, SYSTEM_FILE@)),
            Stage::Kernel => RequestView::Canonicalize(
                path_join(self.root, kernel_image(self.system)),
            ),
            Stage::Modules => RequestView::Canonicalize(path_join(self.root, KERNEL_MODULES_DIR@)),
            Stage::KernelVersion => RequestView::FirstEntry(self.modules),
            Stage::KernelParams => RequestView::ReadText(path_join(self.root, KERNEL_PARAMS_FILE@)),
            Stage::InitrdExists => RequestView::Exists(path_join(self.root, INITRD_FILE@)),
            Stage::Initrd => RequestView::Canonicalize(path_join(self.root, INITRD_FILE@)),
            Stage::SecretsExists => RequestView::Exists(path_join(self.root, INITRD_SECRETS_FILE@)),
        }
    }

    /// The path that the synthesis asks about.
    pub open spec fn asked(self) -> Seq<char> {
        match self.request() {
            RequestView::Canonicalize(p) => p,
            RequestView::ReadText(p) => p,
            RequestView::FirstEntry(p) => p,
            RequestView::Exists(p) => p,
            RequestView::ListDir(p) => p,
        }
    }

    /// The boot specification that the synthesis makes of what it has
    /// learned, once it knows whether there is a program that appends
    /// secrets to the initrd.
    pub open spec fn finished(self, secrets: bool) -> BootSpecV1View {
        BootSpecV1View {
            label: label_text(self.system_version, self.kernel_version),
            kernel: self.kernel,
            kernel_params: split_on(self.kernel_params, ' '),
            init: path_join(self.root, INIT_FILE@),
            initrd: self.initrd,
            initrd_secrets: if secrets {
                Some(path_join(self.root, INITRD_SECRETS_FILE@))
            } else {
                None
            },
            system: self.system,
            toplevel: self.root,
        }
    }

    /// The synthesis after it has learned a text: the canonical path, the
    /// text of the file, or the name of the entry that it asked for.
    pub open spec fn learn(self, text: Seq<char>) -> ProgressView {
        match self.stage {
            Stage::Root => ProgressView::Next(
                SynthesisView { stage: Stage::SystemVersion, root: text, ..self },
            ),
            Stage::SystemVersion => ProgressView::Next(
                SynthesisView { stage: Stage::System, system_version: text, ..self },
            ),
            Stage::System => ProgressView::Next(
                SynthesisView { stage: Stage::Kernel, system: text, ..self },
            ),
            Stage::Kernel => ProgressView::Next(
                SynthesisView { stage: Stage::Modules, kernel: text, ..self },
            ),
            Stage::Modules => ProgressView::Next(
                SynthesisView { stage: Stage::KernelVersion, modules: text, ..self },
            ),
            Stage::KernelVersion => ProgressView::Next(
                SynthesisView { stage: Stage::KernelParams, kernel_version: text, ..self },
            ),
            Stage::KernelParams => ProgressView::Next(
                SynthesisView { stage: Stage::InitrdExists, kernel_params: text, ..self },
            ),
            Stage::Initrd => ProgressView::Next(
                SynthesisView { stage: Stage::SecretsExists, initrd: Some(text), ..self },
            ),
            Stage::InitrdExists | Stage::SecretsExists => unanswered(),
        }
    }

    /// The failure that the synthesis comes to when what it asked could not
    /// be done: the error names the path that was asked about.
    pub open spec fn fail(self, err: Seq<char>) -> ProgressView {
        match self.stage {
            Stage::Root | Stage::Kernel | Stage::Modules | Stage::Initrd => not_canonical(
                self.asked(),
                err,
            ),
            Stage::SystemVersion | Stage::System | Stage::KernelVersion | Stage::KernelParams => not_read(
                self.asked(),
                err,
            ),
            Stage::InitrdExists | Stage::SecretsExists => unanswered(),
        }
    }

    /// Where the synthesis stands after a reply. A missing initrd and a
    /// missing program for its secrets are no failures: the boot
    /// specification is then without them.
    pub open spec fn step(self, reply: ReplyView) -> ProgressView {
        match reply {
            ReplyView::Text(text) => self.learn(text),
            ReplyView::Failed(err) => self.fail(err),
            ReplyView::Flag(there) => match self.stage {
                Stage::InitrdExists => if there {
                    ProgressView::Next(SynthesisView { stage: Stage::Initrd, ..self })
                } else {
                    ProgressView::Next(
                        SynthesisView { stage: Stage::SecretsExists, initrd: None, ..self },
                    )
                },
                Stage::SecretsExists => ProgressView::Done(self.finished(there)),
                _ => unanswered(),
            },
            ReplyView::NoEntry => match self.stage {
                Stage::KernelVersion => ProgressView::Failed(
                    BootspecErrorView::Synthesize(
                        SynthesizeErrorView::MissingKernelVersionDir(self.modules),
                    ),
                ),
                _ => unanswered(),
            },
            ReplyView::EntryFailed(err) => match self.stage {
                Stage::KernelVersion => not_read(self.modules, err),
                _ => unanswered(),
            },
            ReplyView::InvalidFileName(path) => match self.stage {
                Stage::KernelVersion => ProgressView::Failed(BootspecErrorView::InvalidFileName(path)),
                _ => unanswered(),
            },
            ReplyView::InvalidUtf8(path) => match self.stage {
                Stage::KernelVersion => ProgressView::Failed(BootspecErrorView::InvalidUtf8(path)),
                _ => unanswered(),
            },
            ReplyView::Entries(_) => unanswered(),
        }
    }

    /// Where the synthesis stands after a sequence of replies; replies that
    /// come after the end of the synthesis are passed over.
    pub open spec fn run(self, replies: Seq<ReplyView>) -> ProgressView
        decreases replies.len(),
    {
        if replies.len() == 0 {
            ProgressView::Next(self)
        } else {
            match self.step(replies[0]) {
                ProgressView::Next(next) => next.run(replies.drop_first()),
                end => end,
            }
        }
    }
}

/// What is found under a configuration root that is laid out as it should
/// be.
pub struct RootFacts {
    /// The canonical path of the root.
    pub root: Seq<char>,
    /// The text of the file of the system's version.
    pub system_version: Seq<char>,
    /// The text of the file of the system.
    pub system: Seq<char>,
    /// The canonical path of the kernel image.
    pub kernel: Seq<char>,
    /// The canonical path of the directory of kernel modules.
    pub modules: Seq<char>,
    /// The name of the first entry of that directory.
    pub kernel_version: Seq<char>,
    /// The text of the file of kernel parameters.
    pub kernel_params: Seq<char>,
    /// The canonical path of the initrd, if there is one.
    pub initrd: Option<Seq<char>>,
    /// Whether there is a program that appends secrets to the initrd.
    pub secrets: bool,
}

impl RootFacts {
    /// The replies that a synthesis gets under such a root.
    pub open spec fn replies(self) -> Seq<ReplyView> {
        let first = seq![
            ReplyView::Text(self.root),
            ReplyView::Text(self.system_version),
            ReplyView::Text(self.system),
            ReplyView::Text(self.kernel),
            ReplyView::Text(self.modules),
            ReplyView::Text(self.kernel_version),
            ReplyView::Text(self.kernel_params),
        ];
        let initrd = match self.initrd {
            Some(path) => seq![ReplyView::Flag(true), ReplyView::Text(path)],
            None => seq![ReplyView::Flag(false)],
        };
        first + initrd + seq![ReplyView::Flag(self.secrets)]
    }

    /// The boot specification of such a root.
    pub open spec fn boot_spec(self) -> BootSpecV1View {
        BootSpecV1View {
            label: label_text(self.system_version, self.kernel_version),
            kernel: self.kernel,
            kernel_params: split_on(self.kernel_params, ' '),
            init: path_join(self.root, INIT_FILE@),
            initrd: self.initrd,
            initrd_secrets: if self.secrets {
                Some(path_join(self.root, INITRD_SECRETS_FILE@))
            } else {
                None
            },
            system: self.system,
            toplevel: self.root,
        }
    }
}

/// The synthesis of a boot specification ends with `b` at the last of the
/// replies, and not before.
pub open spec fn reaches(s: SynthesisView, replies: Seq<ReplyView>, b: BootSpecV1View) -> bool
    decreases replies.len(),
{
    if replies.len() == 0 {
        false
    } else if replies.len() == 1 {
        s.step(replies[0]) == ProgressView::Done(b)
    } else {
        match s.step(replies[0]) {
            ProgressView::Next(next) => reaches(next, replies.drop_first(), b),
            _ => false,
        }
    }
}

/// Under a root that is laid out as it should be, the synthesis of the boot
/// specification ends with that of the root at the last reply.
pub proof fn lemma_root_reaches(given: Seq<char>, facts: RootFacts)
    ensures
        reaches(SynthesisView::start(given), facts.replies(), facts.boot_spec()),
{
    let r = facts.replies();
    let s0 = SynthesisView::start(given);
    let s1 = SynthesisView { stage: Stage::SystemVersion, root: facts.root, ..s0 };
    let s2 = SynthesisView { stage: Stage::System, system_version: facts.system_version, ..s1 };
    let s3 = SynthesisView { stage: Stage::Kernel, system: facts.system, ..s2 };
    let s4 = SynthesisView { stage: Stage::Modules, kernel: facts.kernel, ..s3 };
    let s5 = SynthesisView { stage: Stage::KernelVersion, modules: facts.modules, ..s4 };
    let s6 = SynthesisView { stage: Stage::KernelParams, kernel_version: facts.kernel_version, ..s5 };
    let s7 = SynthesisView { stage: Stage::InitrdExists, kernel_params: facts.kernel_params, ..s6 };
    let s8 = SynthesisView { stage: Stage::SecretsExists, initrd: facts.initrd, ..s7 };
    let b = facts.boot_spec();
    assert(s8.finished(facts.secrets) == b);
    let r1 = r.drop_first();
    let r2 = r1.drop_first();
    let r3 = r2.drop_first();
    let r4 = r3.drop_first();
    let r5 = r4.drop_first();
    let r6 = r5.drop_first();
    let r7 = r6.drop_first();
    assert(r[0] == ReplyView::Text(facts.root));
    assert(r1[0] == ReplyView::Text(facts.system_version));
    assert(r2[0] == ReplyView::Text(facts.system));
    assert(r3[0] == ReplyView::Text(facts.kernel));
    assert(r4[0] == ReplyView::Text(facts.modules));
    assert(r5[0] == ReplyView::Text(facts.kernel_version));
    assert(r6[0] == ReplyView::Text(facts.kernel_params));
    match facts.initrd {
        Some(path) => {
            let s7b = SynthesisView { stage: Stage::Initrd, ..s7 };
            let r8 = r7.drop_first();
            let r9 = r8.drop_first();
            assert(r7[0] == ReplyView::Flag(true));
            assert(r8[0] == ReplyView::Text(path));
            assert(r9[0] == ReplyView::Flag(facts.secrets));
            assert(r9.len() == 1);
            assert(reaches(s8, r9, b));
            assert(reaches(s7b, r8, b));
            assert(reaches(s7, r7, b));
        },
        None => {
            let r8 = r7.drop_first();
            assert(r7[0] == ReplyView::Flag(false));
            assert(r8[0] == ReplyView::Flag(facts.secrets));
            assert(r8.len() == 1);
            assert(reaches(s8, r8, b));
            assert(reaches(s7, r7, b));
        },
    }
    assert(reaches(s6, r6, b));
    assert(reaches(s5, r5, b));
    assert(reaches(s4, r4, b));
    assert(reaches(s3, r3, b));
    assert(reaches(s2, r2, b));
    assert(reaches(s1, r1, b));
    assert(reaches(s0, r, b));
}

/// A synthesis that ends with `b` at the last of the replies stands at `b`
/// after the replies.
pub proof fn lemma_reaches_runs(s: SynthesisView, replies: Seq<ReplyView>, b: BootSpecV1View)
    requires
        reaches(s, replies, b),
    ensures
        s.run(replies) == ProgressView::Done(b),
    decreases replies.len(),
{
    if replies.len() > 1 {
        lemma_reaches_runs(s.step(replies[0])->Next_0, replies.drop_first(), b);
    }
}

/// Under a root that is laid out as it should be, a synthesis comes to the
/// boot specification of the root, wherever the root was said to be: the
/// result depends on what is found under the root and on nothing else.
pub proof fn lemma_synthesis_of_root(given: Seq<char>, facts: RootFacts)
    ensures
        SynthesisView::start(given).run(facts.replies()) == ProgressView::Done(facts.boot_spec()),
{
    lemma_root_reaches(given, facts);
    lemma_reaches_runs(SynthesisView::start(given), facts.replies(), facts.boot_spec());
}

/// The error of a reply that does not answer what was asked.
pub(crate) fn reply_unanswered() -> (p: Progress)
    ensures
        p@ == unanswered(),
{
    Progress::Failed(BootspecError::Io(String::from_str(UNANSWERED)))
}

impl Synthesis {
    /// The relative path of the kernel image.
    fn kernel_image_name(&self) -> (r: &'static str)
        ensures
            r@ == kernel_image(self@.system),
    {
        if same_text(self.system.as_str(), X86_64_LINUX) {
            KERNEL_BZIMAGE
        } else {
            KERNEL_IMAGE
        }
    }

    /// What the synthesis asks next.
    pub fn request(&self) -> (r: Request)
        ensures
            r@ == self@.request(),
    {
        let root = self.root.as_str();
        match self.stage {
            Stage::Root => Request::Canonicalize(self.given.clone()),
            Stage::SystemVersion => Request::ReadText(join_path(root, NIXOS_VERSION_FILE)),
            Stage::System => Request::ReadText(join_path(root, SYSTEM_FILE)),
            Stage::Kernel => Request::Canonicalize(join_path(root, self.kernel_image_name())),
            Stage::Modules => Request::Canonicalize(join_path(root, KERNEL_MODULES_DIR)),
            Stage::KernelVersion => Request::FirstEntry(self.modules.clone()),
            Stage::KernelParams => Request::ReadText(join_path(root, KERNEL_PARAMS_FILE)),
            Stage::InitrdExists => Request::Exists(join_path(root, INITRD_FILE)),
            Stage::Initrd => Request::Canonicalize(join_path(root, INITRD_FILE)),
            Stage::SecretsExists => Request::Exists(join_path(root, INITRD_SECRETS_FILE)),
        }
    }

    /// The path that the synthesis asks about.
    fn asked(&self) -> (path: String)
        ensures
            path@ == self@.asked(),
    {
        match self.request() {
            Request::Canonicalize(p) => p,
            Request::ReadText(p) => p,
            Request::FirstEntry(p) => p,
            Request::Exists(p) => p,
            Request::ListDir(p) => p,
        }
    }

    /// The boot specification, made of what the synthesis has learned.
    fn finish(self, secrets: bool) -> (b: BootSpecV1)
        ensures
            b@ == self@.finished(secrets),
    {
        let root = self.root.as_str();
        let mut label = String::from_str("NixOS ");
        label.append(self.system_version.as_str());
        label.append(" (Linux ");
        label.append(self.kernel_version.as_str());
        label.append(")");
        let kernel_params = split_text(self.kernel_params.as_str(), ' ');
        let init = join_path(root, INIT_FILE);
        let initrd_secrets = if secrets {
            Some(join_path(root, INITRD_SECRETS_FILE))
        } else {
            None
        };
        BootSpecV1 {
            label,
            kernel: self.kernel,
            kernel_params,
            init,
            initrd: self.initrd,
            initrd_secrets,
            system: self.system,
            toplevel: SystemConfigurationRoot(self.root),
        }
    }

    /// Takes the text that was asked for.
    fn learn(self, text: String) -> (p: Progress)
        ensures
            p@ == self@.learn(text@),
    {
        let mut next = self;
        match next.stage {
            Stage::Root => {
                next.stage = Stage::SystemVersion;
                next.root = text;
            },
            Stage::SystemVersion => {
                next.stage = Stage::System;
                next.system_version = text;
            },
            Stage::System => {
                next.stage = Stage::Kernel;
                next.system = text;
            },
            Stage::Kernel => {
                next.stage = Stage::Modules;
                next.kernel = text;
            },
            Stage::Modules => {
                next.stage = Stage::KernelVersion;
                next.modules = text;
            },
            Stage::KernelVersion => {
                next.stage = Stage::KernelParams;
                next.kernel_version = text;
            },
            Stage::KernelParams => {
                next.stage = Stage::InitrdExists;
                next.kernel_params = text;
            },
            Stage::Initrd => {
                next.stage = Stage::SecretsExists;
                next.initrd = Some(text);
            },
            Stage::InitrdExists | Stage::SecretsExists => {
                return reply_unanswered();
            },
        }
        Progress::Next(next)
    }

    /// Takes the failure of what was asked.
    fn fail(self, err: String) -> (p: Progress)
        ensures
            p@ == self@.fail(err@),
    {
        match self.stage {
            Stage::Root | Stage::Kernel | Stage::Modules | Stage::Initrd => {
                let path = self.asked();
                Progress::Failed(
                    BootspecError::Synthesize(SynthesizeError::Canonicalize { path, err }),
                )
            },
            Stage::SystemVersion | Stage::System | Stage::KernelVersion | Stage::KernelParams => {
                let path = self.asked();
                Progress::Failed(BootspecError::Synthesize(SynthesizeError::ReadPath { path, err }))
            },
            Stage::InitrdExists | Stage::SecretsExists => reply_unanswered(),
        }
    }

    /// Takes the reply to the request and goes on.
    pub fn advance(self, reply: Reply) -> (p: Progress)
        ensures
            p@ == self@.step(reply@),
    {
        match reply {
            Reply::Text(text) => self.learn(text),
            Reply::Failed(err) => self.fail(err),
            Reply::Flag(there) => match self.stage {
                Stage::InitrdExists => {
                    let mut next = self;
                    if there {
                        next.stage = Stage::Initrd;
                    } else {
                        next.stage = Stage::SecretsExists;
                        next.initrd = None;
                    }
                    Progress::Next(next)
                },
                Stage::SecretsExists => Progress::Done(self.finish(there)),
                _ => reply_unanswered(),
            },
            Reply::NoEntry => match self.stage {
                Stage::KernelVersion => Progress::Failed(
                    BootspecError::Synthesize(
                        SynthesizeError::MissingKernelVersionDir(self.modules),
                    ),
                ),
                _ => reply_unanswered(),
            },
            Reply::EntryFailed(err) => match self.stage {
                Stage::KernelVersion => Progress::Failed(
                    BootspecError::Synthesize(
                        SynthesizeError::ReadPath { path: self.modules, err },
                    ),
                ),
                _ => reply_unanswered(),
            },
            Reply::InvalidFileName(path) => match self.stage {
                Stage::KernelVersion => Progress::Failed(BootspecError::InvalidFileName(path)),
                _ => reply_unanswered(),
            },
            Reply::InvalidUtf8(path) => match self.stage {
                Stage::KernelVersion => Progress::Failed(BootspecError::InvalidUtf8(path)),
                _ => reply_unanswered(),
            },
            Reply::Entries(_) => reply_unanswered(),
        }
    }
}

impl BootSpecV1 {
    /// Begins the synthesis of the boot specification of the configuration
    /// root at the given path.
    pub fn synthesize(generation: &str) -> (s: Synthesis)
        ensures
            s@ == SynthesisView::start(generation@),
    {
        Synthesis {
            stage: Stage::Root,
            given: String::from_str(generation),
            root: String::new(),
            system_version: String::new(),
            system: String::new(),
            kernel: String::new(),
            modules: String::new(),
            kernel_version: String::new(),
            kernel_params: String::new(),
            initrd: None,
        }
    }
}

} // verus!
