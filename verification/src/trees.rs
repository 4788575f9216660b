//! Configuration roots as trees, and what a synthesis makes of a tree.
//!
//! A root that is laid out as it should be, with the roots of its
//! specialisations laid out as they should be, is a tree. This module says
//! which replies a synthesis gets under such a tree and proves that it then
//! comes to the generation of the tree.
use crate::gensynth::{
    settle, tree_step, FrameView, GenerationProgressView, NodeView,
};
use crate::synth::{lemma_root_reaches, reaches, ListedView, ReplyView, RootFacts};
use crate::v1::{BootSpecV1View, GenerationV1View};
use vstd::prelude::*;

verus! {

/// What is found under a configuration root and, by the name of each entry
/// of its directory of specialisations in the order of the listing, under
/// the root of that specialisation.
pub struct RootTree {
    pub facts: RootFacts,
    pub specialisations: Seq<(Seq<char>, RootTree)>,
}

/// The replies that a synthesis gets for the given specialisations: for
/// each in turn the canonical path of its root, and then the replies of the
/// tree of that root.
pub open spec fn replies_below(children: Seq<(Seq<char>, RootTree)>) -> Seq<ReplyView>
    decreases children,
{
    if children.len() == 0 {
        Seq::empty()
    } else {
        proof {
            assert(children.drop_last() == children.subrange(0, children.len() - 1));
            vstd::seq::axiom_seq_subrange_decreases(children, 0, children.len() - 1);
        }
        replies_below(children.drop_last()) + seq![ReplyView::Text(children.last().1.facts.root)]
            + children.last().1.replies()
    }
}

/// The generations of the given specialisations, by name. Of two of one
/// name the later one counts.
pub open spec fn generations_below(children: Seq<(Seq<char>, RootTree)>) -> Map<
    Seq<char>,
    GenerationV1View,
>
    decreases children,
{
    if children.len() == 0 {
        Map::empty()
    } else {
        proof {
            assert(children.drop_last() == children.subrange(0, children.len() - 1));
            vstd::seq::axiom_seq_subrange_decreases(children, 0, children.len() - 1);
        }
        generations_below(children.drop_last()).insert(
            children.last().0,
            children.last().1.generation(),
        )
    }
}

impl RootTree {
    /// The listing of the directory of specialisations.
    pub open spec fn entries(self) -> Seq<ListedView> {
        Seq::new(
            self.specialisations.len(),
            |i: int| ListedView::Name(self.specialisations[i].0),
        )
    }

    /// The replies that a synthesis gets under the tree: those of the root,
    /// the listing of its directory of specialisations, and the replies for
    /// its specialisations.
    pub open spec fn replies(self) -> Seq<ReplyView>
        decreases self,
    {
        self.facts.replies().push(ReplyView::Entries(self.entries())) + replies_below(
            self.specialisations,
        )
    }

    /// The generation of the tree.
    pub open spec fn generation(self) -> GenerationV1View
        decreases self,
    {
        GenerationV1View {
            bootspec: self.facts.boot_spec(),
            specialisations: generations_below(self.specialisations),
        }
    }

    /// The frame of the root when `k` of its specialisations are done.
    pub open spec fn frame(self, given: Seq<char>, k: nat) -> FrameView {
        FrameView {
            given,
            node: if k == 0 {
                NodeView::Listing(self.facts.boot_spec())
            } else {
                NodeView::Child(self.facts.boot_spec())
            },
            listed: self.entries(),
            next: k,
            done: generations_below(self.specialisations.take(k as int)),
        }
    }
}

/// Where a synthesis of a generation stands after a sequence of replies;
/// replies that come after the end of the synthesis are passed over.
pub open spec fn tree_run(frames: Seq<FrameView>, replies: Seq<ReplyView>) -> GenerationProgressView
    decreases replies.len(),
{
    if replies.len() == 0 {
        GenerationProgressView::Next(frames)
    } else {
        match tree_step(frames, replies[0]) {
            GenerationProgressView::Next(next) => tree_run(next, replies.drop_first()),
            end => end,
        }
    }
}

/// Where a synthesis that stands at `p` stands after more replies.
pub open spec fn go_on(p: GenerationProgressView, replies: Seq<ReplyView>) -> GenerationProgressView {
    match p {
        GenerationProgressView::Next(frames) => tree_run(frames, replies),
        end => end,
    }
}

/// Running over two sequences of replies, one after the other, is running
/// over the first and going on over the second.
pub proof fn lemma_run_in_two(frames: Seq<FrameView>, first: Seq<ReplyView>, second: Seq<ReplyView>)
    ensures
        tree_run(frames, first + second) == go_on(tree_run(frames, first), second),
    decreases first.len(),
{
    if first.len() == 0 {
        assert(first + second =~= second);
    } else {
        let all = first + second;
        assert(all[0] == first[0]);
        assert(all.drop_first() =~= first.drop_first() + second);
        match tree_step(frames, first[0]) {
            GenerationProgressView::Next(next) => {
                lemma_run_in_two(next, first.drop_first(), second);
            },
            _ => {},
        }
    }
}

/// While the boot specification of the root at which it is is being made,
/// the synthesis of a generation goes as that of the boot specification
/// goes, and then waits for the listing of the specialisations.
proof fn lemma_boot_phase(
    below: Seq<FrameView>,
    top: FrameView,
    replies: Seq<ReplyView>,
    b: BootSpecV1View,
)
    requires
        top.node is Boot,
        reaches(top.node->Boot_0, replies, b),
    ensures
        tree_run(below.push(top), replies) == GenerationProgressView::Next(
            below.push(FrameView { node: NodeView::Listing(b), ..top }),
        ),
    decreases replies.len(),
{
    let frames = below.push(top);
    assert(frames.last() == top);
    assert(frames.drop_last() =~= below);
    let s = top.node->Boot_0;
    if replies.len() == 1 {
        let after = below.push(FrameView { node: NodeView::Listing(b), ..top });
        assert(tree_step(frames, replies[0]) == GenerationProgressView::Next(after));
        assert(replies.drop_first().len() == 0);
        assert(tree_run(after, replies.drop_first()) == GenerationProgressView::Next(after));
    } else {
        let next = s.step(replies[0])->Next_0;
        let moved = FrameView { node: NodeView::Boot(next), ..top };
        assert(tree_step(frames, replies[0]) == GenerationProgressView::Next(below.push(moved)));
        lemma_boot_phase(below, moved, replies.drop_first(), b);
    }
}

/// The synthesis of a generation, begun at a root under a tree with the
/// frames `below` waiting, stands after the replies of the first `k`
/// specialisations where it stands when it goes on from the frame of the
/// root with `k` specialisations done.
proof fn lemma_specialisations_done(
    below: Seq<FrameView>,
    given: Seq<char>,
    tree: RootTree,
    k: nat,
)
    requires
        k <= tree.specialisations.len(),
    ensures
        tree_run(
            below.push(
                FrameView {
                    node: NodeView::Listing(tree.facts.boot_spec()),
                    ..FrameView::start(given)
                },
            ),
            seq![ReplyView::Entries(tree.entries())] + replies_below(
                tree.specialisations.take(k as int),
            ),
        ) == settle(below.push(tree.frame(given, k))),
    decreases tree, k,
{
    let b = tree.facts.boot_spec();
    let children = tree.specialisations;
    let listing = FrameView { node: NodeView::Listing(b), ..FrameView::start(given) };
    let asked = seq![ReplyView::Entries(tree.entries())];
    if k == 0 {
        assert(children.take(0) =~= Seq::<(Seq<char>, RootTree)>::empty());
        assert(asked + replies_below(children.take(0)) =~= asked);
        let frames = below.push(listing);
        assert(frames.last() == listing);
        assert(frames.drop_last() =~= below);
        let listed = FrameView { listed: tree.entries(), next: 0, ..listing };
        assert(listed == tree.frame(given, 0));
        let p = tree_step(frames, asked[0]);
        assert(p == settle(below.push(listed)));
        assert(asked.drop_first().len() == 0);
        match p {
            GenerationProgressView::Next(next) => {
                assert(tree_run(next, asked.drop_first()) == p);
            },
            _ => {},
        }
        assert(tree_run(frames, asked) == p);
    } else {
        let j = (k - 1) as nat;
        lemma_specialisations_done(below, given, tree, j);
        let child = children[j as int].1;
        let name = children[j as int].0;
        let before = replies_below(children.take(j as int));
        let enter = seq![ReplyView::Text(child.facts.root)];
        assert(children.take(k as int).drop_last() =~= children.take(j as int));
        assert(children.take(k as int).last() == children[j as int]);
        assert(replies_below(children.take(k as int)) == before + enter + child.replies());
        assert(asked + replies_below(children.take(k as int)) =~= (asked + before) + (enter
            + child.replies()));
        lemma_run_in_two(below.push(listing), asked + before, enter + child.replies());
        // the synthesis waits for the root of the specialisation
        let at = tree.frame(given, j);
        let stack = below.push(at);
        assert(stack.last() == at);
        assert(stack.drop_last() =~= below);
        assert(at.listed[j as int] == ListedView::Name(name));
        let waiting = FrameView { node: NodeView::Child(b), ..at };
        assert(settle(stack) == GenerationProgressView::Next(below.push(waiting)));
        // it enters the root of the specialisation
        let inside = below.push(waiting);
        assert(inside.last() == waiting);
        let entered = inside.push(FrameView::start(child.facts.root));
        assert(tree_step(inside, enter[0]) == GenerationProgressView::Next(entered));
        assert((enter + child.replies())[0] == enter[0]);
        assert((enter + child.replies()).drop_first() =~= child.replies());
        // and comes back with the generation of the specialisation
        lemma_tree_done(inside, child.facts.root, child);
        let n = child.specialisations.len();
        let ended = child.frame(child.facts.root, n);
        assert(child.specialisations.take(n as int) =~= child.specialisations);
        assert(ended.generation() == child.generation());
        let full = inside.push(ended);
        assert(full.last() == ended);
        assert(full[full.len() - 2] == waiting);
        assert(full.drop_last().drop_last() =~= below);
        assert(ended.next == ended.listed.len());
        let resumed = FrameView {
            next: waiting.next + 1,
            done: waiting.done.insert(name, child.generation()),
            ..waiting
        };
        assert(settle(full) == settle(below.push(resumed)));
        assert(resumed.done == generations_below(children.take(k as int)));
        assert(resumed == tree.frame(given, k));
        let x = below.push(listing);
        let second = enter + child.replies();
        assert(tree_run(x, asked + before) == GenerationProgressView::Next(inside));
        assert(tree_run(inside, second) == tree_run(entered, child.replies()));
        assert(tree_run(entered, child.replies()) == settle(full));
        assert(tree_run(x, (asked + before) + second) == settle(below.push(tree.frame(given, k))));
    }
}

/// The synthesis of a generation, begun at a root under a tree with the
/// frames `below` waiting, stands after the replies of the tree where it
/// stands when it goes on from the frame of the root with all its
/// specialisations done.
pub proof fn lemma_tree_done(below: Seq<FrameView>, given: Seq<char>, tree: RootTree)
    ensures
        tree_run(below.push(FrameView::start(given)), tree.replies()) == settle(
            below.push(tree.frame(given, tree.specialisations.len())),
        ),
    decreases tree, tree.specialisations.len() + 1,
{
    let n = tree.specialisations.len();
    let b = tree.facts.boot_spec();
    let boot = tree.facts.replies();
    let rest = seq![ReplyView::Entries(tree.entries())] + replies_below(tree.specialisations);
    assert(tree.replies() =~= boot + rest);
    let start = FrameView::start(given);
    lemma_root_reaches(given, tree.facts);
    lemma_boot_phase(below, start, boot, b);
    lemma_run_in_two(below.push(start), boot, rest);
    assert(tree.specialisations.take(n as int) =~= tree.specialisations);
    lemma_specialisations_done(below, given, tree, n);
}

/// Under a tree of roots that are laid out as they should be, the synthesis
/// of a generation comes to the generation of the tree, wherever the root
/// was said to be: the result depends on what is found under the roots and
/// on nothing else.
pub proof fn lemma_synthesis_of_tree(given: Seq<char>, tree: RootTree)
    ensures
        tree_run(seq![FrameView::start(given)], tree.replies()) == GenerationProgressView::Done(
            tree.generation(),
        ),
{
    let below = Seq::<FrameView>::empty();
    lemma_tree_done(below, given, tree);
    let n = tree.specialisations.len();
    assert(below.push(FrameView::start(given)) =~= seq![FrameView::start(given)]);
    let ended = tree.frame(given, n);
    assert(tree.specialisations.take(n as int) =~= tree.specialisations);
    let frames = below.push(ended);
    assert(frames.len() == 1);
    assert(frames.last() == ended);
    assert(ended.next == ended.listed.len());
    assert(ended.generation() == tree.generation());
}

/// No two of the specialisations have one name, as no two entries of a
/// directory have.
pub open spec fn distinct_names(children: Seq<(Seq<char>, RootTree)>) -> bool {
    forall|i: int, j: int|
        0 <= i < j < children.len() ==> (#[trigger] children[i]).0 != (#[trigger] children[j]).0
}

/// The two trees are one tree listed in two orders: under the same root
/// the same is found, the directories of specialisations hold the same
/// names, each once, and under each name the trees are again one tree listed
/// in two orders.
pub open spec fn relisted(a: RootTree, b: RootTree) -> bool
    decreases a,
{
    &&& a.facts == b.facts
    &&& distinct_names(a.specialisations)
    &&& distinct_names(b.specialisations)
    &&& forall|i: int|
        #![trigger a.specialisations[i]]
        0 <= i < a.specialisations.len() ==> exists|j: int|
            #![trigger b.specialisations[j]]
            0 <= j < b.specialisations.len() && b.specialisations[j].0 == a.specialisations[i].0
                && relisted(a.specialisations[i].1, b.specialisations[j].1)
    &&& forall|j: int|
        #![trigger b.specialisations[j]]
        0 <= j < b.specialisations.len() ==> exists|i: int|
            #![trigger a.specialisations[i]]
            0 <= i < a.specialisations.len() && a.specialisations[i].0 == b.specialisations[j].0
}

/// The generations of the given specialisations are bound to their names
/// and to no other.
proof fn lemma_below_names(children: Seq<(Seq<char>, RootTree)>)
    ensures
        forall|name: Seq<char>| #[trigger]
            generations_below(children).contains_key(name) <==> exists|i: int|
                0 <= i < children.len() && (#[trigger] children[i]).0 == name,
    decreases children.len(),
{
    if children.len() > 0 {
        let init = children.drop_last();
        lemma_below_names(init);
        assert(generations_below(children) == generations_below(init).insert(
            children.last().0,
            children.last().1.generation(),
        ));
        assert forall|name: Seq<char>| #[trigger]
            generations_below(children).contains_key(name) implies exists|i: int|
            0 <= i < children.len() && (#[trigger] children[i]).0 == name by {
            if name == children.last().0 {
                assert(children[children.len() - 1].0 == name);
            } else {
                assert(generations_below(init).contains_key(name));
                let i = choose|i: int| 0 <= i < init.len() && (#[trigger] init[i]).0 == name;
                assert(children[i].0 == name);
            }
        }
        assert forall|name: Seq<char>|
            (exists|i: int| 0 <= i < children.len() && (#[trigger] children[i]).0
                == name) implies #[trigger] generations_below(children).contains_key(name) by {
            let i = choose|i: int| 0 <= i < children.len() && (#[trigger] children[i]).0 == name;
            if i < children.len() - 1 {
                assert(init[i].0 == name);
            }
        }
    }
}

/// Where no two specialisations have one name, each name is bound to the
/// generation of its tree.
proof fn lemma_below_at(children: Seq<(Seq<char>, RootTree)>, i: int)
    requires
        distinct_names(children),
        0 <= i < children.len(),
    ensures
        generations_below(children).contains_key(children[i].0),
        generations_below(children)[children[i].0] == children[i].1.generation(),
    decreases children.len(),
{
    let init = children.drop_last();
    if i < children.len() - 1 {
        assert(distinct_names(init)) by {
            assert forall|a: int, b: int| 0 <= a < b < init.len() implies (#[trigger] init[a]).0 != (
            #[trigger] init[b]).0 by {
                assert(init[a] == children[a] && init[b] == children[b]);
            }
        }
        lemma_below_at(init, i);
        assert(init[i] == children[i]);
        assert(children[i].0 != children[children.len() - 1].0);
    }
}

/// One tree listed in two orders has one generation: the map of the
/// specialisations does not depend on the order in which the directory was
/// listed.
pub proof fn lemma_relisted_generation(a: RootTree, b: RootTree)
    requires
        relisted(a, b),
    ensures
        a.generation() == b.generation(),
    decreases a,
{
    let x = a.specialisations;
    let y = b.specialisations;
    let m = generations_below(x);
    let n = generations_below(y);
    lemma_below_names(x);
    lemma_below_names(y);
    assert forall|name: Seq<char>| m.contains_key(name) implies n.contains_key(name) && m[name]
        == n[name] by {
        let i = choose|i: int| 0 <= i < x.len() && (#[trigger] x[i]).0 == name;
        let j = choose|j: int|
            #![trigger y[j]]
            0 <= j < y.len() && y[j].0 == x[i].0 && relisted(x[i].1, y[j].1);
        assert(y[j].0 == name);
        lemma_relisted_generation(x[i].1, y[j].1);
        lemma_below_at(x, i);
        lemma_below_at(y, j);
    }
    assert forall|name: Seq<char>| n.contains_key(name) implies m.contains_key(name) by {
        let j = choose|j: int| 0 <= j < y.len() && (#[trigger] y[j]).0 == name;
        let i = choose|i: int| #![trigger x[i]] 0 <= i < x.len() && x[i].0 == y[j].0;
        assert(x[i].0 == name);
    }
    assert(m =~= n);
}

/// Under one tree listed in two orders a synthesis comes to one
/// generation: the order in which a directory of specialisations is listed
/// does not show in the result.
pub proof fn lemma_synthesis_whatever_the_order(given: Seq<char>, a: RootTree, b: RootTree)
    requires
        relisted(a, b),
    ensures
        tree_run(seq![FrameView::start(given)], a.replies()) == tree_run(
            seq![FrameView::start(given)],
            b.replies(),
        ),
        tree_run(seq![FrameView::start(given)], b.replies()) == GenerationProgressView::Done(
            a.generation(),
        ),
{
    lemma_synthesis_of_tree(given, a);
    lemma_synthesis_of_tree(given, b);
    lemma_relisted_generation(a, b);
}

} // verus!
