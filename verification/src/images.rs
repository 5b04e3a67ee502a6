//! The images that a scene shows.

use vstd::prelude::*;

use crate::coord::Coord;
use crate::flat::{
    anonymous, anonymous_in_all, flat, flat_all, flattened, head, FlatModel, KindModel,
};
use crate::scene::{
    is_plain, lemma_child_smaller, lemma_frame_children, ImageSource, NodeModel, SceneNode,
    SourceModel,
};

verus! {

/// The sources of the images of a subtree, in drawing order.
pub open spec fn sources<C>(n: NodeModel<C>) -> Seq<SourceModel>
    decreases n,
{
    match n {
        NodeModel::Frame(f) => sources_all(f.children),
        NodeModel::Image(i) => seq![i.source],
        _ => Seq::empty(),
    }
}

/// The sources of the images of a list of subtrees.
pub open spec fn sources_all<C>(ns: Seq<NodeModel<C>>) -> Seq<SourceModel>
    decreases ns,
{
    if ns.len() == 0 {
        Seq::empty()
    } else {
        sources_all(ns.drop_last()) + sources(ns.last())
    }
}

/// The meanings of a list of sources.
pub open spec fn source_models(s: Seq<ImageSource>) -> Seq<SourceModel> {
    Seq::new(s.len(), |i: int| s[i]@)
}

/// Collect the sources of all images below a node.
pub fn collect_image_sources<C: Coord>(node: &SceneNode<C>, out: &mut Vec<ImageSource>)
    requires
        is_plain(node@),
    ensures
        source_models(final(out)@) == source_models(old(out)@) + sources(node@),
    decreases node,
{
    let ghost before = source_models(out@);
    match node {
        SceneNode::Frame(f) => {
            let ghost kids = node@->Frame_0.children;
            let mut i: usize = 0;
            proof {
                lemma_frame_children(*f);
                assert(kids.take(0) =~= Seq::empty());
                assert(source_models(out@) =~= before + sources_all(kids.take(0)));
            }
            while i < f.children.len()
                invariant
                    *node == SceneNode::Frame(*f),
                    is_plain(node@),
                    kids == node@->Frame_0.children,
                    kids.len() == f.children@.len(),
                    forall|j: int| 0 <= j < kids.len() ==> kids[j] == (#[trigger] f.children@[j])@,
                    i <= kids.len(),
                    source_models(out@) == before + sources_all(kids.take(i as int)),
                decreases f.children@.len() - i,
            {
                proof {
                    lemma_child_smaller(*f, i as int);
                    assert(is_plain(kids[i as int]));
                    assert(kids.take(i + 1).drop_last() =~= kids.take(i as int));
                }
                collect_image_sources(&f.children[i], out);
                i = i + 1;
                assert(source_models(out@) =~= before + sources_all(kids.take(i as int)));
            }
            assert(kids.take(i as int) =~= kids);
        },
        SceneNode::Image(i) => {
            out.push(i.source.clone());
            assert(source_models(out@) =~= before + sources(node@));
        },
        _ => {
            assert(source_models(out@) =~= before + sources(node@));
        },
    }
}

/// What to do about an image that is to be shown in a browser.
pub enum FetchStep {
    /// Fetch it from this address.
    Fetch(String),
    /// Leave the placeholder: a path cannot be loaded there.
    Placeholder(String),
}

/// What to do first about an image in a browser.
pub fn first_fetch_step(source: &ImageSource) -> (r: FetchStep)
    ensures
        match r {
            FetchStep::Fetch(url) => source@ == SourceModel::Url(url@),
            FetchStep::Placeholder(path) => source@ == SourceModel::Path(path@),
        },
{
    match source {
        ImageSource::Url { url } => FetchStep::Fetch(url.clone()),
        ImageSource::Path { path } => FetchStep::Placeholder(path.clone()),
    }
}

/// What to do after an attempt to fetch an image.
#[derive(Debug, Clone, Copy, PartialEq, Eq, Structural)]
pub enum FetchOutcomeStep {
    /// Show it; there is nothing left to do.
    Show,
    /// Try again after this many milliseconds.
    RetryAfter(u32),
}

/// What to do after an attempt to fetch an image: one that failed is made again
/// after a second, without end.
pub fn after_fetch(fetched: bool) -> (r: FetchOutcomeStep)
    ensures
        r == (if fetched {
            FetchOutcomeStep::Show
        } else {
            FetchOutcomeStep::RetryAfter(1000)
        }),
{
    if fetched {
        FetchOutcomeStep::Show
    } else {
        FetchOutcomeStep::RetryAfter(1000)
    }
}

/// The images of lists of subtrees come list after list.
proof fn lemma_picked<C: Coord>(n: NodeModel<C>, px: C, py: C, next: nat)
    ensures
        sources(n) == shown_sources(flat(n, px, py, next)),
    decreases n,
{
    match n {
        NodeModel::Frame(f) => {
            let (x, y) = (px.spec_plus(f.x), py.spec_plus(f.y));
            let first = seq![head(n, px, py, next)];
            lemma_picked_all(f.children, x, y, next + anonymous(n));
            lemma_shown_adds(first, flat_all(f.children, x, y, next + anonymous(n)));
            lemma_shown_one(head(n, px, py, next));
            assert(sources(n) =~= shown_sources(flat(n, px, py, next)));
        },
        NodeModel::Condition { .. } => {
            reveal(Seq::filter);
            assert(sources(n) =~= shown_sources(flat(n, px, py, next)));
        },
        _ => {
            lemma_shown_one(head(n, px, py, next));
            assert(sources(n) =~= shown_sources(flat(n, px, py, next)));
        },
    }
}

proof fn lemma_picked_all<C: Coord>(ns: Seq<NodeModel<C>>, px: C, py: C, next: nat)
    ensures
        sources_all(ns) == shown_sources(flat_all(ns, px, py, next)),
    decreases ns,
{
    if ns.len() == 0 {
        reveal(Seq::filter);
        assert(sources_all(ns) =~= shown_sources(flat_all(ns, px, py, next)));
    } else {
        let k = next + anonymous_in_all(ns.drop_last());
        lemma_picked_all(ns.drop_last(), px, py, next);
        lemma_picked(ns.last(), px, py, k);
        lemma_shown_adds(flat_all(ns.drop_last(), px, py, next), flat(ns.last(), px, py, k));
    }
}

/// The sources of the images that a flattened list shows.
pub open spec fn shown_sources<C>(fs: Seq<FlatModel<C>>) -> Seq<SourceModel> {
    fs.filter(|n: FlatModel<C>| n.kind is Image).map_values(
        |n: FlatModel<C>| n.kind->Image_source,
    )
}

proof fn lemma_shown_adds<C>(a: Seq<FlatModel<C>>, b: Seq<FlatModel<C>>)
    ensures
        shown_sources(a + b) == shown_sources(a) + shown_sources(b),
{
    Seq::filter_distributes_over_add(a, b, |n: FlatModel<C>| n.kind is Image);
    assert(shown_sources(a + b) =~= shown_sources(a) + shown_sources(b));
}

proof fn lemma_shown_one<C>(n: FlatModel<C>)
    ensures
        n.kind matches KindModel::Image { source, .. } ==> shown_sources(seq![n]) == seq![source],
        n.kind !is Image ==> shown_sources(seq![n]) == Seq::<SourceModel>::empty(),
{
    reveal(Seq::filter);
    assert(seq![n].drop_last() =~= Seq::empty());
    assert(seq![n].drop_last().filter(|n: FlatModel<C>| n.kind is Image).len() == 0);
    if let KindModel::Image { source, .. } = n.kind {
        assert(shown_sources(seq![n]) =~= seq![source]);
    } else {
        assert(shown_sources(seq![n]) =~= Seq::<SourceModel>::empty());
    }
}

/// The images to load are those that the flattened scene shows, every one of them
/// and in that order.
pub proof fn law_shown_images_are_loaded<C: Coord>(scene: NodeModel<C>)
    ensures
        sources(scene) == flattened(scene).filter(
            |n: FlatModel<C>| n.kind is Image,
        ).map_values(|n: FlatModel<C>| n.kind->Image_source),
{
    lemma_picked(scene, C::spec_zero(), C::spec_zero(), 1);
}

} // verus!
