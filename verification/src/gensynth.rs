//! The synthesis of a generation from a configuration root that has no
//! document: the boot specification of the root and, under each name found
//! in its directory of specialisations, the generation of the root of that
//! name.
//!
//! As with the boot specification of one root, nothing is read here. A
//! [`GenerationSynthesis`] says what it asks next and takes the reply. It
//! keeps one frame for each root that it has begun and not ended, the root
//! that was given first and the root that it is at last.
use crate::error::{BootspecError, BootspecErrorView, SynthesizeError, SynthesizeErrorView};
use crate::synth::{
    listing, reply_unanswered, Listed, ListedView, Progress, ProgressView, Reply, ReplyView,
    Request, RequestView, Synthesis, SynthesisView, SPECIALISATION_DIR,
};
use crate::text::{join_path, path_join};
use crate::v1::{
    generation_models, BootSpecV1, BootSpecV1View, GenerationV1, GenerationV1View,
    SpecialisationsV1,
};
use crate::SpecialisationName;
use vstd::prelude::*;

verus! {

/// What the synthesis of a root waits for, and what it has made.
#[derive(Debug, PartialEq, Eq)]
enum Node {
    Boot(Synthesis),
    Listing(BootSpecV1),
    Child(BootSpecV1),
}

/// What the synthesis of a root waits for, and what it has made.
pub enum NodeView {
    /// It waits for a reply to the synthesis of the boot specification.
    Boot(SynthesisView),
    /// The boot specification is made, and it waits for the entries of the
    /// directory of specialisations.
    Listing(BootSpecV1View),
    /// The boot specification is made, and it waits for the canonical path
    /// of the root of the next specialisation.
    Child(BootSpecV1View),
}

impl View for Node {
    type V = NodeView;

    closed spec fn view(&self) -> NodeView {
        match self {
            Node::Boot(s) => NodeView::Boot(s@),
            Node::Listing(b) => NodeView::Listing(b@),
            Node::Child(b) => NodeView::Child(b@),
        }
    }
}

/// The synthesis of one root.
#[derive(Debug, PartialEq, Eq)]
struct Frame {
    given: String,
    node: Node,
    listed: Vec<Listed>,
    next: usize,
    done: SpecialisationsV1,
}

/// The model of the synthesis of one root.
pub struct FrameView {
    /// The path of the root as it was given.
    pub given: Seq<char>,
    /// What the synthesis waits for.
    pub node: NodeView,
    /// The entries of the directory of specialisations.
    pub listed: Seq<ListedView>,
    /// How many of the entries are done.
    pub next: nat,
    /// The generations of the entries that are done, by name.
    pub done: Map<Seq<char>, GenerationV1View>,
}

impl View for Frame {
    type V = FrameView;

    closed spec fn view(&self) -> FrameView {
        FrameView {
            given: self.given@,
            node: self.node@,
            listed: listing(self.listed@),
            next: self.next as nat,
            done: generation_models(self.done@),
        }
    }
}

/// The models of a stack of frames.
closed spec fn frame_views(frames: Seq<Frame>) -> Seq<FrameView> {
    Seq::new(frames.len(), |i: int| frames[i]@)
}

/// The failure of a reply that does not answer what was asked.
pub open spec fn tree_unanswered() -> GenerationProgressView {
    GenerationProgressView::Failed(BootspecErrorView::Io(crate::synth::UNANSWERED@))
}

impl FrameView {
    /// The synthesis of a root at its start.
    pub open spec fn start(given: Seq<char>) -> FrameView {
        FrameView {
            given,
            node: NodeView::Boot(SynthesisView::start(given)),
            listed: Seq::empty(),
            next: 0,
            done: Map::empty(),
        }
    }

    /// The directory of the specialisations of the root.
    pub open spec fn directory(self) -> Seq<char> {
        path_join(self.given, SPECIALISATION_DIR@)
    }

    /// The path, as it is found, of the root of the specialisation whose
    /// turn it is.
    pub open spec fn child(self) -> Seq<char> {
        path_join(self.directory(), self.listed[self.next as int]->Name_0)
    }

    /// What the synthesis of the root asks.
    pub open spec fn request(self) -> RequestView {
        match self.node {
            NodeView::Boot(boot) => boot.request(),
            NodeView::Listing(_) => RequestView::ListDir(self.directory()),
            NodeView::Child(_) => RequestView::Canonicalize(self.child()),
        }
    }

    /// The boot specification of the root, once it is made.
    pub open spec fn bootspec(self) -> BootSpecV1View {
        match self.node {
            NodeView::Listing(b) => b,
            NodeView::Child(b) => b,
            NodeView::Boot(_) => arbitrary(),
        }
    }

    /// The generation of the root, once all its entries are done.
    pub open spec fn generation(self) -> GenerationV1View {
        GenerationV1View { bootspec: self.bootspec(), specialisations: self.done }
    }

    /// The frame is in a state that a synthesis can be in.
    pub open spec fn ok(self) -> bool {
        &&& self.next <= self.listed.len()
        &&& self.node is Child ==> self.next < self.listed.len()
            && self.listed[self.next as int] is Name
    }
}

/// The frames are in a state that a synthesis can be in: there is one, and
/// every frame but the last waits for the generation of a specialisation.
pub open spec fn frames_ok(frames: Seq<FrameView>) -> bool {
    &&& frames.len() > 0
    &&& forall|i: int| 0 <= i < frames.len() ==> (#[trigger] frames[i]).ok()
    &&& forall|i: int| 0 <= i < frames.len() - 1 ==> (#[trigger] frames[i]).node is Child
}

/// Where the synthesis of a generation stands after a reply.
#[derive(Debug, PartialEq, Eq)]
pub enum GenerationProgress {
    /// The synthesis goes on, and asks its next request.
    Next(GenerationSynthesis),
    /// The generation is made.
    Done(GenerationV1),
    /// The synthesis has failed.
    Failed(BootspecError),
}

/// The model of a [`GenerationProgress`].
pub enum GenerationProgressView {
    Next(Seq<FrameView>),
    Done(GenerationV1View),
    Failed(BootspecErrorView),
}

/// Goes on with the root at which the synthesis is, its listing being
/// known: to the next entry if there is one, and else to the root above with
/// the generation of this root, or to the end if there is none above. An
/// entry that could not be read or named is an error when its turn comes;
/// that of an entry that could not be read names the directory that was
/// listed.
pub open spec fn settle(frames: Seq<FrameView>) -> GenerationProgressView
    decreases frames.len(),
{
    if frames.len() == 0 {
        tree_unanswered()
    } else {
        let top = frames.last();
        if top.next < top.listed.len() {
            match top.listed[top.next as int] {
                ListedView::Name(_) => GenerationProgressView::Next(
                    frames.drop_last().push(
                        FrameView { node: NodeView::Child(top.bootspec()), ..top },
                    ),
                ),
                ListedView::Failed(err) => GenerationProgressView::Failed(
                    BootspecErrorView::Synthesize(
                        SynthesizeErrorView::ReadPath { path: top.directory(), err },
                    ),
                ),
                ListedView::InvalidFileName(path) => GenerationProgressView::Failed(
                    BootspecErrorView::InvalidFileName(path),
                ),
                ListedView::InvalidUtf8(path) => GenerationProgressView::Failed(
                    BootspecErrorView::InvalidUtf8(path),
                ),
            }
        } else if frames.len() == 1 {
            GenerationProgressView::Done(top.generation())
        } else {
            let parent = frames[frames.len() - 2];
            let name = parent.listed[parent.next as int]->Name_0;
            settle(
                frames.drop_last().drop_last().push(
                    FrameView {
                        next: parent.next + 1,
                        done: parent.done.insert(name, top.generation()),
                        ..parent
                    },
                ),
            )
        }
    }
}

/// What the synthesis asks: what the root at which it is asks.
pub open spec fn tree_request(frames: Seq<FrameView>) -> RequestView {
    frames.last().request()
}

/// Where the synthesis stands after a reply. A directory of specialisations
/// that cannot be listed is no failure: the root then has no
/// specialisation. The root of a specialisation that cannot be made
/// canonical is one, and the error names the path that was asked about.
pub open spec fn tree_step(frames: Seq<FrameView>, reply: ReplyView) -> GenerationProgressView {
    if frames.len() == 0 {
        tree_unanswered()
    } else {
        let top = frames.last();
        let below = frames.drop_last();
        match top.node {
            NodeView::Boot(boot) => match boot.step(reply) {
                ProgressView::Next(boot) => GenerationProgressView::Next(
                    below.push(FrameView { node: NodeView::Boot(boot), ..top }),
                ),
                ProgressView::Done(bootspec) => GenerationProgressView::Next(
                    below.push(FrameView { node: NodeView::Listing(bootspec), ..top }),
                ),
                ProgressView::Failed(error) => GenerationProgressView::Failed(error),
            },
            NodeView::Listing(_) => match reply {
                ReplyView::Entries(listed) => settle(
                    below.push(FrameView { listed, next: 0, ..top }),
                ),
                ReplyView::Failed(_) => settle(
                    below.push(FrameView { listed: Seq::empty(), next: 0, ..top }),
                ),
                _ => tree_unanswered(),
            },
            NodeView::Child(_) => match reply {
                ReplyView::Text(path) => GenerationProgressView::Next(
                    frames.push(FrameView::start(path)),
                ),
                ReplyView::Failed(err) => GenerationProgressView::Failed(
                    BootspecErrorView::Synthesize(
                        SynthesizeErrorView::Canonicalize { path: top.child(), err },
                    ),
                ),
                _ => tree_unanswered(),
            },
        }
    }
}

/// The synthesis of a generation under way.
#[derive(Debug, PartialEq, Eq)]
pub struct GenerationSynthesis {
    frames: Vec<Frame>,
}

impl View for GenerationProgress {
    type V = GenerationProgressView;

    open spec fn view(&self) -> GenerationProgressView {
        match self {
            GenerationProgress::Next(s) => GenerationProgressView::Next(s@),
            GenerationProgress::Done(g) => GenerationProgressView::Done(g@),
            GenerationProgress::Failed(e) => GenerationProgressView::Failed(e@),
        }
    }
}

/// The error of a reply that does not answer what was asked.
fn unanswered_reply() -> (p: GenerationProgress)
    ensures
        p@ == tree_unanswered(),
{
    match reply_unanswered() {
        Progress::Failed(e) => GenerationProgress::Failed(e),
        _ => GenerationProgress::Failed(BootspecError::Io(String::new())),
    }
}

/// The frame of a root at the start of its synthesis.
fn first_frame(given: &str) -> (frame: Frame)
    ensures
        frame@ == FrameView::start(given@),
{
    let frame = Frame {
        given: given.to_owned(),
        node: Node::Boot(BootSpecV1::synthesize(given)),
        listed: Vec::new(),
        next: 0,
        done: SpecialisationsV1::new(),
    };
    assert(frame@.listed =~= Seq::<ListedView>::empty());
    assert(frame@.done =~= Map::<Seq<char>, GenerationV1View>::empty());
    frame
}

/// The views of a stack with one frame more.
proof fn lemma_views_push(frames: Seq<Frame>, frame: Frame)
    ensures
        frame_views(frames.push(frame)) == frame_views(frames).push(frame@),
{
    assert(frame_views(frames.push(frame)) =~= frame_views(frames).push(frame@));
}

/// The views of a stack with one frame less.
proof fn lemma_views_pop(frames: Seq<Frame>)
    requires
        frames.len() > 0,
    ensures
        frame_views(frames.drop_last()) == frame_views(frames).drop_last(),
        frame_views(frames).last() == frames.last()@,
{
    assert(frame_views(frames.drop_last()) =~= frame_views(frames).drop_last());
}

/// Goes on with the root at which the synthesis is, its listing being known.
fn settle_frames(given_frames: Vec<Frame>) -> (p: GenerationProgress)
    requires
        given_frames@.len() > 0,
        forall|i: int|
            0 <= i < given_frames@.len() - 1 ==> (#[trigger] given_frames@[i])@.ok()
                && given_frames@[i]@.node is Child,
        !(given_frames@.last()@.node is Boot),
        given_frames@.last()@.next <= given_frames@.last()@.listed.len(),
    ensures
        p@ == settle(frame_views(given_frames@)),
{
    let ghost goal = settle(frame_views(given_frames@));
    let mut frames = given_frames;
    loop
        invariant
            frames@.len() > 0,
            forall|i: int|
                0 <= i < frames@.len() - 1 ==> (#[trigger] frames@[i])@.ok() && frames@[i]@.node is Child,
            !(frames@.last()@.node is Boot),
            frames@.last()@.next <= frames@.last()@.listed.len(),
            goal == settle(frame_views(frames@)),
            goal == settle(frame_views(given_frames@)),
        decreases frames@.len(),
    {
        let ghost before = frames@;
        proof {
            lemma_views_pop(before);
        }
        let top = match frames.pop() {
            Some(top) => top,
            None => {
                return unanswered_reply();
            },
        };
        let ghost below = frames@;
        assert(below =~= before.drop_last());
        assert(top == before.last());
        let Frame { given, node, listed, next, done } = top;
        let bootspec = match node {
            Node::Listing(bootspec) => bootspec,
            Node::Child(bootspec) => bootspec,
            Node::Boot(_) => {
                return unanswered_reply();
            },
        };
        assert(bootspec@ == top@.bootspec());
        proof {
            let views = frame_views(before);
            assert(views.last() == top@);
            assert(top@.listed.len() == listed@.len());
            if next < listed@.len() {
                assert(top@.listed[next as int] == listed@[next as int]@);
            }
            assert(goal == settle(views));
        }
        if next < listed.len() {
            match &listed[next] {
                Listed::Name(_) => {
                    let waiting = Frame { given, node: Node::Child(bootspec), listed, next, done };
                    proof {
                        lemma_views_push(below, waiting);
                        assert(waiting@ == (FrameView {
                            node: NodeView::Child(top@.bootspec()),
                            ..top@
                        }));
                    }
                    frames.push(waiting);
                    proof {
                        assert(frames@ =~= below.push(waiting));
                        let views = frame_views(frames@);
                        assert forall|i: int| 0 <= i < views.len() implies (#[trigger] views[i]).ok() by {
                            if i < below.len() {
                                assert(frames@[i] == before[i]);
                                assert(before[i]@.ok());
                            } else {
                                assert(views[i] == waiting@);
                            }
                        }
                        assert forall|i: int| 0 <= i < views.len() - 1 implies (
                        #[trigger] views[i]).node is Child by {
                            assert(frames@[i] == before[i]);
                            assert(before[i]@.node is Child);
                        }
                    }
                    return GenerationProgress::Next(GenerationSynthesis { frames });
                },
                Listed::Failed(err) => {
                    let path = join_path(given.as_str(), SPECIALISATION_DIR);
                    return GenerationProgress::Failed(
                        BootspecError::Synthesize(
                            SynthesizeError::ReadPath { path, err: err.clone() },
                        ),
                    );
                },
                Listed::InvalidFileName(path) => {
                    return GenerationProgress::Failed(BootspecError::InvalidFileName(path.clone()));
                },
                Listed::InvalidUtf8(path) => {
                    return GenerationProgress::Failed(BootspecError::InvalidUtf8(path.clone()));
                },
            }
        }
        let generation = GenerationV1 { bootspec, specialisations: done };
        proof {
            generation.lemma_view();
            assert(generation@ == top@.generation());
        }
        let ghost lower = frames@;
        proof {
            if lower.len() > 0 {
                lemma_views_pop(lower);
            }
        }
        let parent = match frames.pop() {
            Some(parent) => parent,
            None => {
                return GenerationProgress::Done(generation);
            },
        };
        let ghost rest = frames@;
        assert(rest =~= lower.drop_last());
        assert(parent == before[before.len() - 2]);
        assert(parent@.ok() && parent@.node is Child);
        assert(parent@.next < parent@.listed.len());
        assert(parent@.listed.len() == parent.listed@.len());
        assert(parent@.listed[parent.next as int] == parent.listed@[parent.next as int]@);
        let Frame { given, node, listed, next, done } = parent;
        let count = listed.len();
        assert(next < count);
        let name = match &listed[next] {
            Listed::Name(name) => name.clone(),
            _ => {
                return unanswered_reply();
            },
        };
        let mut done = done;
        let ghost done_before = done@;
        done.insert(SpecialisationName(name), generation);
        let resumed = Frame { given, node, listed, next: next + 1, done };
        proof {
            assert(generation_models(done_before.insert(name@, generation))
                =~= generation_models(done_before).insert(name@, generation@));
            assert(resumed@ == (FrameView {
                next: parent@.next + 1,
                done: parent@.done.insert(name@, top@.generation()),
                ..parent@
            }));
            lemma_views_push(rest, resumed);
            assert(frame_views(before)[before.len() - 2] == parent@);
            assert(frame_views(rest) =~= frame_views(before).drop_last().drop_last());
        }
        frames.push(resumed);
        proof {
            assert(frames@ =~= rest.push(resumed));
            assert forall|i: int| 0 <= i < frames@.len() - 1 implies (#[trigger] frames@[i])@.ok()
                && frames@[i]@.node is Child by {
                assert(frames@[i] == before[i]);
            }
            assert(frames@.last() == resumed);
            assert(!(resumed@.node is Boot));
        }
    }
}

impl GenerationSynthesis {
    #[verifier::type_invariant]
    closed spec fn inv(&self) -> bool {
        frames_ok(frame_views(self.frames@))
    }

    /// The frames of the synthesis, from the root that was given to the
    /// root at which the synthesis is.
    pub closed spec fn view(&self) -> Seq<FrameView> {
        frame_views(self.frames@)
    }

    /// What the synthesis asks next.
    pub fn request(&self) -> (r: Request)
        ensures
            r@ == tree_request(self@),
    {
        proof {
            use_type_invariant(self);
            lemma_views_pop(self.frames@);
        }
        let top = &self.frames[self.frames.len() - 1];
        match &top.node {
            Node::Boot(boot) => boot.request(),
            Node::Listing(_) => Request::ListDir(join_path(top.given.as_str(), SPECIALISATION_DIR)),
            Node::Child(_) => {
                let directory = join_path(top.given.as_str(), SPECIALISATION_DIR);
                match &top.listed[top.next] {
                    Listed::Name(name) => Request::Canonicalize(
                        join_path(directory.as_str(), name.as_str()),
                    ),
                    _ => Request::ListDir(directory),
                }
            },
        }
    }

    /// Takes the reply to the request and goes on.
    pub fn advance(self, reply: Reply) -> (p: GenerationProgress)
        ensures
            p@ == tree_step(self@, reply@),
    {
        proof {
            use_type_invariant(&self);
        }
        let mut frames = self.frames;
        let ghost before = frames@;
        proof {
            lemma_views_pop(before);
        }
        let top = match frames.pop() {
            Some(top) => top,
            None => {
                return unanswered_reply();
            },
        };
        let ghost below = frames@;
        assert(below =~= before.drop_last());
        assert(top == before.last());
        proof {
            assert forall|i: int| 0 <= i < below.len() implies (#[trigger] below[i])@.ok()
                && below[i]@.node is Child by {
                assert(frame_views(before)[i] == before[i]@);
            }
            assert(top@.ok()) by {
                assert(frame_views(before)[before.len() - 1] == top@);
            }
        }
        let Frame { given, node, listed, next, done } = top;
        match node {
            Node::Boot(boot) => {
                let node = match boot.advance(reply) {
                    Progress::Next(boot) => Node::Boot(boot),
                    Progress::Done(made) => Node::Listing(made),
                    Progress::Failed(error) => {
                        return GenerationProgress::Failed(error);
                    },
                };
                let frame = Frame { given, node, listed, next, done };
                proof {
                    lemma_views_push(below, frame);
                    assert(frame@ == (FrameView { node: node@, ..top@ }));
                }
                frames.push(frame);
                proof {
                    assert(frames@ =~= below.push(frame));
                    let views = frame_views(frames@);
                    assert forall|i: int| 0 <= i < views.len() implies (#[trigger] views[i]).ok() by {
                        if i < below.len() {
                            assert(frames@[i] == below[i]);
                        }
                    }
                    assert forall|i: int| 0 <= i < views.len() - 1 implies (#[trigger] views[i]).node is Child by {
                        assert(frames@[i] == below[i]);
                    }
                }
                GenerationProgress::Next(GenerationSynthesis { frames })
            },
            Node::Listing(bootspec) => {
                let entries = match reply {
                    Reply::Entries(entries) => entries,
                    Reply::Failed(_) => {
                        let none: Vec<Listed> = Vec::new();
                        assert(listing(none@) =~= Seq::<ListedView>::empty());
                        none
                    },
                    _ => {
                        return unanswered_reply();
                    },
                };
                let frame = Frame {
                    given,
                    node: Node::Listing(bootspec),
                    listed: entries,
                    next: 0,
                    done,
                };
                proof {
                    lemma_views_push(below, frame);
                    assert(frame@ == (FrameView { listed: listing(entries@), next: 0, ..top@ }));
                }
                frames.push(frame);
                proof {
                    assert(frames@ =~= below.push(frame));
                    assert forall|i: int| 0 <= i < frames@.len() implies (#[trigger] frames@[i])@.ok() by {
                        if i < below.len() {
                            assert(frames@[i] == below[i]);
                        }
                    }
                    assert forall|i: int| 0 <= i < frames@.len() - 1 implies (
                    #[trigger] frames@[i])@.node is Child by {
                        assert(frames@[i] == below[i]);
                    }
                }
                settle_frames(frames)
            },
            Node::Child(bootspec) => match reply {
                Reply::Text(path) => {
                    let waiting = Frame { given, node: Node::Child(bootspec), listed, next, done };
                    let child = first_frame(path.as_str());
                    proof {
                        assert(waiting@ == top@);
                        lemma_views_push(below, waiting);
                        lemma_views_push(below.push(waiting), child);
                        assert(frame_views(below.push(waiting)) =~= frame_views(before));
                    }
                    frames.push(waiting);
                    frames.push(child);
                    proof {
                        assert(frames@ =~= below.push(waiting).push(child));
                        let views = frame_views(frames@);
                        assert(views == frame_views(before).push(child@));
                        assert forall|i: int| 0 <= i < views.len() implies (#[trigger] views[i]).ok() by {
                            if i < before.len() {
                                assert(views[i] == frame_views(before)[i]);
                            }
                        }
                        assert forall|i: int| 0 <= i < views.len() - 1 implies (#[trigger] views[i]).node is Child by {
                            assert(views[i] == frame_views(before)[i]);
                        }
                    }
                    GenerationProgress::Next(GenerationSynthesis { frames })
                },
                Reply::Failed(err) => {
                    let directory = join_path(given.as_str(), SPECIALISATION_DIR);
                    match &listed[next] {
                        Listed::Name(name) => {
                            let path = join_path(directory.as_str(), name.as_str());
                            GenerationProgress::Failed(
                                BootspecError::Synthesize(
                                    SynthesizeError::Canonicalize { path, err },
                                ),
                            )
                        },
                        _ => unanswered_reply(),
                    }
                },
                _ => unanswered_reply(),
            },
        }
    }
}

impl GenerationV1 {
    /// Begins the synthesis of the generation of the configuration root at
    /// the given path.
    pub fn synthesize(generation_path: &str) -> (s: GenerationSynthesis)
        ensures
            s@ == seq![FrameView::start(generation_path@)],
    {
        let frame = first_frame(generation_path);
        let mut frames: Vec<Frame> = Vec::new();
        frames.push(frame);
        proof {
            assert(frame_views(frames@) =~= seq![FrameView::start(generation_path@)]);
        }
        GenerationSynthesis { frames }
    }
}

} // verus!
