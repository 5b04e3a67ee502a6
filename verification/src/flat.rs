//! Flattening a scene: absolute positions, ids and drawing order.

use vstd::prelude::*;

use crate::coord::Coord;
use crate::ids::{mint_node_id, minted_id, root_node_id, NodeId};
use crate::scene::{
    copy_mutations, copy_opt, is_plain, lemma_child_smaller, lemma_frame_children, mutation_models,
    opt_text, ImageSource, Mutation, MutationModel, NodeModel, SceneNode, SourceModel,
};

verus! {

/// What a flattened node shows.
#[derive(Debug, PartialEq)]
pub enum FlatNodeKind<C> {
    /// A coloured rectangle.
    Frame {
        /// RGBA background colour.
        background_color: [C; 4],
    },
    /// A text.
    Text {
        /// The text to display.
        content: String,
        /// Font size.
        font_size: C,
        /// RGBA text colour.
        color: [C; 4],
    },
    /// A bitmap.
    Image {
        /// Where to load it from.
        source: ImageSource,
        /// Alternative text.
        alt: Option<String>,
    },
}

/// What a [`FlatNodeKind`] stands for.
pub enum KindModel<C> {
    /// A coloured rectangle.
    Frame {
        /// Background colour.
        background_color: [C; 4],
    },
    /// A text.
    Text {
        /// Text.
        content: Seq<char>,
        /// Font size.
        font_size: C,
        /// Text colour.
        color: [C; 4],
    },
    /// A bitmap.
    Image {
        /// Source.
        source: SourceModel,
        /// Alternative text.
        alt: Option<Seq<char>>,
    },
}

impl<C> View for FlatNodeKind<C> {
    type V = KindModel<C>;

    open spec fn view(&self) -> KindModel<C> {
        match *self {
            FlatNodeKind::Frame { background_color } => KindModel::Frame { background_color },
            FlatNodeKind::Text { content, font_size, color } => KindModel::Text {
                content: content@,
                font_size,
                color,
            },
            FlatNodeKind::Image { source, alt } => KindModel::Image {
                source: source@,
                alt: opt_text(alt),
            },
        }
    }
}

/// A node with its absolute position and its id.
#[derive(Debug, PartialEq)]
pub struct FlatNode<C> {
    /// Id in the accessibility tree.
    pub id: NodeId,
    /// Id given by the author, if any; only such nodes can be hit.
    pub author_id: Option<String>,
    /// Human-readable label.
    pub label: String,
    /// What the node shows.
    pub kind: FlatNodeKind<C>,
    /// Absolute horizontal position.
    pub abs_x: C,
    /// Absolute vertical position.
    pub abs_y: C,
    /// Width.
    pub width: C,
    /// Height.
    pub height: C,
    /// Ids of the direct children.
    pub child_ids: Vec<NodeId>,
    /// Mutations to run on click.
    pub on_click: Vec<Mutation>,
}

/// What a [`FlatNode`] stands for.
#[verifier::ext_equal]
pub struct FlatModel<C> {
    /// Id.
    pub id: NodeId,
    /// Author id.
    pub author_id: Option<Seq<char>>,
    /// Label.
    pub label: Seq<char>,
    /// What it shows.
    pub kind: KindModel<C>,
    /// Absolute horizontal position.
    pub abs_x: C,
    /// Absolute vertical position.
    pub abs_y: C,
    /// Width.
    pub width: C,
    /// Height.
    pub height: C,
    /// Ids of the direct children.
    pub child_ids: Seq<NodeId>,
    /// Mutations on click.
    pub on_click: Seq<MutationModel>,
}

impl<C> View for FlatNode<C> {
    type V = FlatModel<C>;

    open spec fn view(&self) -> FlatModel<C> {
        FlatModel {
            id: self.id,
            author_id: opt_text(self.author_id),
            label: self.label@,
            kind: self.kind@,
            abs_x: self.abs_x,
            abs_y: self.abs_y,
            width: self.width,
            height: self.height,
            child_ids: self.child_ids@,
            on_click: mutation_models(self.on_click@),
        }
    }
}

/// The meanings of a list of flattened nodes.
pub open spec fn flat_models<C>(s: Seq<FlatNode<C>>) -> Seq<FlatModel<C>> {
    Seq::new(s.len(), |i: int| s[i]@)
}

/// The id that the author gave to a node.
pub open spec fn node_name<C>(n: NodeModel<C>) -> Option<Seq<char>> {
    match n {
        NodeModel::Frame(f) => f.id,
        NodeModel::Text(t) => t.id,
        NodeModel::Image(i) => i.id,
        NodeModel::Condition { .. } => None,
    }
}

/// One for an anonymous node, zero for a named one.
pub open spec fn anonymous<C>(n: NodeModel<C>) -> nat {
    if node_name(n) is None {
        1
    } else {
        0
    }
}

/// How many anonymous nodes a subtree holds.
pub open spec fn anonymous_in<C>(n: NodeModel<C>) -> nat
    decreases n,
{
    match n {
        NodeModel::Frame(f) => anonymous(n) + anonymous_in_all(f.children),
        _ => anonymous(n),
    }
}

/// How many anonymous nodes a list of subtrees holds.
pub open spec fn anonymous_in_all<C>(ns: Seq<NodeModel<C>>) -> nat
    decreases ns,
{
    if ns.len() == 0 {
        0
    } else {
        anonymous_in_all(ns.drop_last()) + anonymous_in(ns.last())
    }
}

/// The ids of the roots of a list of subtrees, if `next` is the number of the
/// next anonymous node.
pub open spec fn root_ids<C>(ns: Seq<NodeModel<C>>, next: nat) -> Seq<NodeId> {
    Seq::new(
        ns.len(),
        |i: int| minted_id(node_name(ns[i]), next + anonymous_in_all(ns.take(i))),
    )
}

/// The flattened form of a leaf or of a frame without its children.
pub open spec fn head<C: Coord>(n: NodeModel<C>, px: C, py: C, next: nat) -> FlatModel<C> {
    match n {
        NodeModel::Frame(f) => FlatModel {
            id: minted_id(f.id, next),
            author_id: f.id,
            label: f.label,
            kind: KindModel::Frame { background_color: f.background_color },
            abs_x: px.spec_plus(f.x),
            abs_y: py.spec_plus(f.y),
            width: f.width,
            height: f.height,
            child_ids: root_ids(f.children, next + anonymous(n)),
            on_click: f.on_click,
        },
        NodeModel::Text(t) => FlatModel {
            id: minted_id(t.id, next),
            author_id: t.id,
            label: t.label,
            kind: KindModel::Text { content: t.content, font_size: t.font_size, color: t.color },
            abs_x: px.spec_plus(t.x),
            abs_y: py.spec_plus(t.y),
            width: t.width,
            height: t.height,
            child_ids: Seq::empty(),
            on_click: t.on_click,
        },
        NodeModel::Image(i) => FlatModel {
            id: minted_id(i.id, next),
            author_id: i.id,
            label: i.label,
            kind: KindModel::Image { source: i.source, alt: i.alt },
            abs_x: px.spec_plus(i.x),
            abs_y: py.spec_plus(i.y),
            width: i.width,
            height: i.height,
            child_ids: Seq::empty(),
            on_click: i.on_click,
        },
        NodeModel::Condition { .. } => arbitrary(),
    }
}

/// A subtree, flattened below the point `(px, py)`: its root, then its children
/// from first to last, each with all that is below it. `next` is the number of
/// the next anonymous node.
pub open spec fn flat<C: Coord>(n: NodeModel<C>, px: C, py: C, next: nat) -> Seq<FlatModel<C>>
    decreases n,
{
    match n {
        NodeModel::Frame(f) => seq![head(n, px, py, next)] + flat_all(
            f.children,
            px.spec_plus(f.x),
            py.spec_plus(f.y),
            next + anonymous(n),
        ),
        NodeModel::Condition { .. } => Seq::empty(),
        _ => seq![head(n, px, py, next)],
    }
}

/// A list of subtrees, flattened one after the other.
pub open spec fn flat_all<C: Coord>(ns: Seq<NodeModel<C>>, px: C, py: C, next: nat) -> Seq<
    FlatModel<C>,
>
    decreases ns,
{
    if ns.len() == 0 {
        Seq::empty()
    } else {
        flat_all(ns.drop_last(), px, py, next) + flat(
            ns.last(),
            px,
            py,
            next + anonymous_in_all(ns.drop_last()),
        )
    }
}

/// A scene, flattened: from the origin of the surface, anonymous nodes numbered
/// from one.
pub open spec fn flattened<C: Coord>(root: NodeModel<C>) -> Seq<FlatModel<C>> {
    flat(root, C::spec_zero(), C::spec_zero(), 1)
}

/// Flatten a scene into a list with absolute positions, parents before their
/// children.
pub fn flatten_scene<C: Coord>(root: &SceneNode<C>) -> (r: Vec<FlatNode<C>>)
    requires
        is_plain(root@),
    ensures
        flat_models(r@) == flattened(root@),
{
    let mut result: Vec<FlatNode<C>> = Vec::new();
    let mut next_ephemeral: u128 = 1;
    let ghost none = flat_models(result@);
    assert(none =~= Seq::empty());
    flatten_recursive(root, C::zero(), C::zero(), &mut next_ephemeral, &mut result);
    assert(flat_models(result@) =~= flattened(root@));
    result
}

/// Append a leaf to the flattened list.
fn push_flat<C: Coord>(out: &mut Vec<FlatNode<C>>, node: FlatNode<C>)
    ensures
        flat_models(final(out)@) == flat_models(old(out)@).push(node@),
        final(out)@.len() == old(out)@.len() + 1,
{
    out.push(node);
    assert(flat_models(out@) =~= flat_models(old(out)@).push(node@));
}

/// The counter of anonymous nodes does not overflow over a subtree: there is
/// room for all of them, or each number up to it stands for a node of the list.
pub open spec fn counter_fits<C>(next: u128, n: NodeModel<C>, listed: nat) -> bool {
    next + anonymous_in(n) <= u128::MAX || next <= listed + 1
}

/// The first subtrees of a list hold no more anonymous nodes than all of them.
proof fn lemma_fewer_anonymous<C>(ns: Seq<NodeModel<C>>, i: int)
    requires
        0 <= i <= ns.len(),
    ensures
        anonymous_in_all(ns.take(i)) <= anonymous_in_all(ns),
    decreases ns.len(),
{
    if i == ns.len() {
        assert(ns.take(i) =~= ns);
    } else {
        assert(ns.drop_last().take(i) =~= ns.take(i));
        lemma_fewer_anonymous(ns.drop_last(), i);
    }
}

/// Append a subtree to the flattened list; the result is the id of its root.
fn flatten_recursive<C: Coord>(
    node: &SceneNode<C>,
    parent_abs_x: C,
    parent_abs_y: C,
    next_ephemeral: &mut u128,
    out: &mut Vec<FlatNode<C>>,
) -> (r: NodeId)
    requires
        is_plain(node@),
        counter_fits(*old(next_ephemeral), node@, old(out)@.len()),
    ensures
        r == minted_id(node_name(node@), *old(next_ephemeral) as nat),
        *final(next_ephemeral) == *old(next_ephemeral) + anonymous_in(node@),
        *old(next_ephemeral) <= old(out)@.len() + 1
            ==> *final(next_ephemeral) <= final(out)@.len() + 1,
        flat_models(final(out)@) == flat_models(old(out)@) + flat(
            node@,
            parent_abs_x,
            parent_abs_y,
            *old(next_ephemeral) as nat,
        ),
    decreases node,
{
    let ghost before = flat_models(out@);
    let ghost next = *next_ephemeral as nat;
    let my_index = out.len();
    match node {
        SceneNode::Frame(f) => {
            let my_id = mint_node_id(&f.id, next_ephemeral);
            let abs_x = parent_abs_x.plus(f.x);
            let abs_y = parent_abs_y.plus(f.y);
            let flat_node = FlatNode {
                id: my_id,
                author_id: copy_opt(&f.id),
                label: f.label.clone(),
                kind: FlatNodeKind::Frame { background_color: f.background_color },
                abs_x,
                abs_y,
                width: f.width,
                height: f.height,
                child_ids: Vec::new(),
                on_click: copy_mutations(&f.on_click),
            };
            let ghost bare = flat_node@;
            push_flat(out, flat_node);
            let mut child_ids: Vec<NodeId> = Vec::new();
            let mut i: usize = 0;
            let ghost start = *next_ephemeral as nat;
            let ghost kids = node@->Frame_0.children;
            proof {
                lemma_frame_children(*f);
                assert(kids.take(0) =~= Seq::empty());
                assert(child_ids@ =~= root_ids(kids, start).take(0));
                assert(flat_models(out@) =~= before.push(bare) + flat_all(
                    kids.take(0),
                    abs_x,
                    abs_y,
                    start,
                ));
            }
            while i < f.children.len()
                invariant
                    *node == SceneNode::Frame(*f),
                    is_plain(node@),
                    kids == node@->Frame_0.children,
                    kids.len() == f.children@.len(),
                    forall|j: int| 0 <= j < kids.len() ==> kids[j] == (#[trigger] f.children@[j])@,
                    i <= kids.len(),
                    *next_ephemeral == start + anonymous_in_all(kids.take(i as int)),
                    next + anonymous_in(node@) <= u128::MAX || *next_ephemeral <= out@.len() + 1,
                    next <= before.len() + 1 ==> *next_ephemeral <= out@.len() + 1,
                    start + anonymous_in_all(kids) == next + anonymous_in(node@),
                    my_index == before.len(),
                    child_ids@ == root_ids(kids, start).take(i as int),
                    flat_models(out@) == before.push(bare) + flat_all(
                        kids.take(i as int),
                        abs_x,
                        abs_y,
                        start,
                    ),
                decreases f.children@.len() - i,
            {
                proof {
                    lemma_child_smaller(*f, i as int);
                    assert(is_plain(kids[i as int]));
                    lemma_fewer_anonymous(kids, i + 1);
                    assert(kids.take(i + 1).drop_last() =~= kids.take(i as int));
                }
                let ghost had = flat_models(out@);
                let id = flatten_recursive(&f.children[i], abs_x, abs_y, next_ephemeral, out);
                child_ids.push(id);
                proof {
                    let upto = kids.take(i + 1);
                    assert(upto.drop_last() =~= kids.take(i as int));
                    assert(upto.last() == kids[i as int]);
                    assert(flat_models(out@) =~= before.push(bare) + flat_all(
                        upto,
                        abs_x,
                        abs_y,
                        start,
                    ));
                    assert(child_ids@ =~= root_ids(kids, start).take(i + 1));
                }
                i = i + 1;
            }
            let ghost whole = flat_models(out@);
            out[my_index].child_ids = child_ids;
            proof {
                assert(kids.take(i as int) =~= kids);
                assert(child_ids@ =~= root_ids(kids, start));
                let want = head(node@, parent_abs_x, parent_abs_y, next);
                assert(whole[my_index as int] == bare);
                assert(flat_models(out@)[my_index as int] =~= want);
                assert(flat_models(out@) =~= whole.update(my_index as int, want));
                assert(node@ == NodeModel::Frame(node@->Frame_0));
                assert(flat(node@, parent_abs_x, parent_abs_y, next) =~= seq![want] + flat_all(
                    kids,
                    abs_x,
                    abs_y,
                    start,
                ));
                assert(flat_models(out@) =~= before + flat(
                    node@,
                    parent_abs_x,
                    parent_abs_y,
                    next,
                ));
            }
            my_id
        },
        SceneNode::Text(t) => {
            let my_id = mint_node_id(&t.id, next_ephemeral);
            let flat_node = FlatNode {
                id: my_id,
                author_id: copy_opt(&t.id),
                label: t.label.clone(),
                kind: FlatNodeKind::Text {
                    content: t.content.clone(),
                    font_size: t.font_size,
                    color: t.color,
                },
                abs_x: parent_abs_x.plus(t.x),
                abs_y: parent_abs_y.plus(t.y),
                width: t.width,
                height: t.height,
                child_ids: Vec::new(),
                on_click: copy_mutations(&t.on_click),
            };
            assert(flat_node@ =~= head(node@, parent_abs_x, parent_abs_y, next));
            push_flat(out, flat_node);
            assert(flat_models(out@) =~= before + flat(node@, parent_abs_x, parent_abs_y, next));
            my_id
        },
        SceneNode::Image(i) => {
            let my_id = mint_node_id(&i.id, next_ephemeral);
            let flat_node = FlatNode {
                id: my_id,
                author_id: copy_opt(&i.id),
                label: i.label.clone(),
                kind: FlatNodeKind::Image { source: i.source.clone(), alt: copy_opt(&i.alt) },
                abs_x: parent_abs_x.plus(i.x),
                abs_y: parent_abs_y.plus(i.y),
                width: i.width,
                height: i.height,
                child_ids: Vec::new(),
                on_click: copy_mutations(&i.on_click),
            };
            assert(flat_node@ =~= head(node@, parent_abs_x, parent_abs_y, next));
            push_flat(out, flat_node);
            assert(flat_models(out@) =~= before + flat(node@, parent_abs_x, parent_abs_y, next));
            my_id
        },
        SceneNode::Condition(_) => {
            assert(false);
            root_node_id()
        },
    }
}

} // verus!
