//! The accessibility tree of a scene, as `accesskit` takes it.

use accesskit::{Node as AxNode, TreeUpdate};
use vstd::prelude::*;

use crate::coord::Coord;
use crate::flat::{
    flat_models, flatten_scene, flattened, FlatModel, FlatNode, FlatNodeKind, KindModel,
};
use crate::ids::{root_node_id, spec_root_node_id, NodeId};
use crate::order::{
    law_flattening_keeps_every_node, law_parents_stand_before_children, stands_after,
};
use crate::engine::{CompiledExpr, ExprFault, ExpressionEngine};
use crate::interact::scene_env;
use crate::mutate::mutations_lead;
use crate::scene::{is_plain, Frame, Image, NodeModel, SceneNode, Text};
use crate::session::{acted_on, law_requested_clicks_reach_their_node, News, SessionModel};
use crate::warning::WarningModel;

verus! {

/// A node of an accessibility tree.
#[verifier::external_type_specification]
#[verifier::external_body]
pub struct ExAxNode(accesskit::Node);

/// A change to an accessibility tree.
#[verifier::external_type_specification]
#[verifier::external_body]
pub struct ExTreeUpdate(accesskit::TreeUpdate);

/// The roles that nodes of a scene can have.
#[derive(Debug, Clone, Copy, PartialEq, Eq, Structural)]
pub enum AxRole {
    /// The window that holds the scene.
    Window,
    /// A frame.
    GenericContainer,
    /// A frame or text that can be clicked.
    Button,
    /// A text.
    Label,
    /// An image.
    Image,
}

/// The bounds of a node: the bit patterns of the doubles of its edges.
pub struct AxBounds {
    /// Left edge.
    pub x0: u64,
    /// Top edge.
    pub y0: u64,
    /// Right edge.
    pub x1: u64,
    /// Bottom edge.
    pub y1: u64,
}

/// What an accessibility node holds, as far as scenes use it.
#[verifier::ext_equal]
pub struct AxModel {
    /// Role.
    pub role: AxRole,
    /// Label.
    pub label: Option<Seq<char>>,
    /// Bounds.
    pub bounds: Option<AxBounds>,
    /// Ids of the children.
    pub children: Seq<NodeId>,
    /// Whether it can be clicked.
    pub click: bool,
}

/// What a node of `accesskit` holds.
pub uninterp spec fn ax_model(n: AxNode) -> AxModel;

/// What a tree update holds: its nodes in order, the root of the tree, and the
/// node that has the focus.
#[verifier::ext_equal]
pub struct UpdateModel {
    /// Nodes with their ids.
    pub nodes: Seq<(NodeId, AxModel)>,
    /// Root of the tree.
    pub root: NodeId,
    /// Node with the focus.
    pub focus: NodeId,
}

/// What a tree update of `accesskit` holds.
pub uninterp spec fn update_model(u: TreeUpdate) -> UpdateModel;

/// A node with a role and nothing else.
pub open spec fn bare(role: AxRole) -> AxModel {
    AxModel { role, label: None, bounds: None, children: Seq::empty(), click: false }
}

/// `accesskit::Node::new`: a node with the given role and nothing else.
#[verifier::external_body]
fn ax_node(role: AxRole) -> (r: AxNode)
    ensures
        ax_model(r) == bare(role),
{
    AxNode::new(
        match role {
            AxRole::Window => accesskit::Role::Window,
            AxRole::GenericContainer => accesskit::Role::GenericContainer,
            AxRole::Button => accesskit::Role::Button,
            AxRole::Label => accesskit::Role::Label,
            AxRole::Image => accesskit::Role::Image,
        },
    )
}

/// `accesskit::Node::set_label`: the label is `label`, all else stays.
#[verifier::external_body]
fn ax_set_label(n: &mut AxNode, label: &str)
    ensures
        ax_model(*final(n)) == (AxModel { label: Some(label@), ..ax_model(*old(n)) }),
{
    n.set_label(label);
}

/// `accesskit::Node::set_bounds`: the bounds are the rectangle with these
/// edges, all else stays.
#[verifier::external_body]
fn ax_set_bounds(n: &mut AxNode, x0: u64, y0: u64, x1: u64, y1: u64)
    ensures
        ax_model(*final(n)) == (AxModel {
            bounds: Some(edges(x0, y0, x1, y1)),
            ..ax_model(*old(n))
        }),
{
    n.set_bounds(
        accesskit::Rect::new(
            bytemuck::cast(x0),
            bytemuck::cast(y0),
            bytemuck::cast(x1),
            bytemuck::cast(y1),
        ),
    );
}

/// Bounds with these edges.
pub open spec fn edges(x0: u64, y0: u64, x1: u64, y1: u64) -> AxBounds {
    AxBounds { x0, y0, x1, y1 }
}

/// `accesskit::Node::set_children`: the children are `ids`, all else stays.
#[verifier::external_body]
fn ax_set_children(n: &mut AxNode, ids: &Vec<NodeId>)
    ensures
        ax_model(*final(n)) == (AxModel { children: ids@, ..ax_model(*old(n)) }),
{
    n.set_children(ids.iter().map(|id| accesskit::NodeId(id.0)).collect::<Vec<_>>());
}

/// `accesskit::Node::add_action` with the click action: the node can be
/// clicked, all else stays.
#[verifier::external_body]
fn ax_add_click(n: &mut AxNode)
    ensures
        ax_model(*final(n)) == (AxModel { click: true, ..ax_model(*old(n)) }),
{
    n.add_action(accesskit::Action::Click);
}

/// What a list of nodes with their ids holds.
pub open spec fn entry_models(s: Seq<(NodeId, AxNode)>) -> Seq<(NodeId, AxModel)> {
    Seq::new(s.len(), |i: int| (s[i].0, ax_model(s[i].1)))
}

/// An `accesskit::TreeUpdate` of the main tree with these nodes, in this order,
/// and with `root` as root and focus.
#[verifier::external_body]
fn ax_update(nodes: Vec<(NodeId, AxNode)>, root: NodeId) -> (r: TreeUpdate)
    ensures
        update_model(r) == (UpdateModel { nodes: entry_models(nodes@), root, focus: root }),
{
    TreeUpdate {
        nodes: nodes.into_iter().map(|(id, n)| (accesskit::NodeId(id.0), n)).collect(),
        tree: Some(accesskit::Tree::new(accesskit::NodeId(root.0))),
        tree_id: accesskit::TreeId::ROOT,
        focus: accesskit::NodeId(root.0),
    }
}

/// The bounds of the rectangle at `(x, y)`.
pub open spec fn bounds_of<C: Coord>(x: C, y: C, width: C, height: C) -> AxBounds {
    edges(
        x.spec_double_bits(),
        y.spec_double_bits(),
        x.spec_plus(width).spec_double_bits(),
        y.spec_plus(height).spec_double_bits(),
    )
}

/// A node with a role, a label and bounds.
pub open spec fn labelled(role: AxRole, label: Seq<char>, bounds: AxBounds) -> AxModel {
    AxModel { label: Some(label), bounds: Some(bounds), ..bare(role) }
}

/// Make a node with a role, a label and bounds.
fn make_node<C: Coord>(role: AxRole, label: &str, x: C, y: C, width: C, height: C) -> (r: AxNode)
    ensures
        ax_model(r) == labelled(role, label@, bounds_of(x, y, width, height)),
{
    let mut node = ax_node(role);
    ax_set_label(&mut node, label);
    ax_set_bounds(
        &mut node,
        x.double_bits(),
        y.double_bits(),
        x.plus(width).double_bits(),
        y.plus(height).double_bits(),
    );
    node
}

/// The label of an image: its alternative text, or else its own label.
pub open spec fn image_label(alt: Option<Seq<char>>, label: Seq<char>) -> Seq<char> {
    match alt {
        Some(a) => a,
        None => label,
    }
}

/// The label of an image.
pub(crate) fn pick_image_label<'a>(alt: &'a Option<String>, label: &'a String) -> (r: &'a str)
    ensures
        r@ == image_label(crate::scene::opt_text(*alt), label@),
{
    match alt {
        Some(a) => a.as_str(),
        None => label.as_str(),
    }
}

/// The accessibility node of a node, by its own position: children and clicks
/// are left out.
pub open spec fn node_ax<C: Coord>(n: NodeModel<C>) -> AxModel {
    match n {
        NodeModel::Frame(f) => labelled(
            AxRole::GenericContainer,
            f.label,
            bounds_of(f.x, f.y, f.width, f.height),
        ),
        NodeModel::Text(t) => labelled(
            AxRole::Label,
            t.content,
            bounds_of(t.x, t.y, t.width, t.height),
        ),
        NodeModel::Image(i) => labelled(
            AxRole::Image,
            image_label(i.alt, i.label),
            bounds_of(i.x, i.y, i.width, i.height),
        ),
        NodeModel::Condition { .. } => arbitrary(),
    }
}

impl<C: Coord> Frame<C> {
    /// The accessibility node of this frame, by its own position.
    pub fn to_accesskit_node(&self) -> (r: AxNode)
        ensures
            ax_model(r) == node_ax(NodeModel::Frame(self@)),
    {
        make_node(
            AxRole::GenericContainer,
            self.label.as_str(),
            self.x,
            self.y,
            self.width,
            self.height,
        )
    }
}

impl<C: Coord> Text<C> {
    /// The accessibility node of this text, by its own position.
    pub fn to_accesskit_node(&self) -> (r: AxNode)
        ensures
            ax_model(r) == node_ax(NodeModel::Text(self@)),
    {
        make_node(AxRole::Label, self.content.as_str(), self.x, self.y, self.width, self.height)
    }
}

impl<C: Coord> Image<C> {
    /// The accessibility node of this image, by its own position.
    pub fn to_accesskit_node(&self) -> (r: AxNode)
        ensures
            ax_model(r) == node_ax(NodeModel::Image(self@)),
    {
        make_node(
            AxRole::Image,
            pick_image_label(&self.alt, &self.label),
            self.x,
            self.y,
            self.width,
            self.height,
        )
    }
}

impl<C: Coord> SceneNode<C> {
    /// The accessibility node of this node, by its own position.
    pub fn to_accesskit_node(&self) -> (r: AxNode)
        requires
            self@ !is Condition,
        ensures
            ax_model(r) == node_ax(self@),
    {
        match self {
            SceneNode::Frame(f) => f.to_accesskit_node(),
            SceneNode::Text(t) => t.to_accesskit_node(),
            SceneNode::Image(i) => i.to_accesskit_node(),
            SceneNode::Condition(_) => {
                assert(false);
                ax_node(AxRole::GenericContainer)
            },
        }
    }
}

/// A node can be clicked if it has mutations to run.
pub open spec fn clickable<C>(n: FlatModel<C>) -> bool {
    n.on_click.len() > 0
}

/// The role of a flattened node: frames and texts that can be clicked are
/// buttons.
pub open spec fn flat_role<C>(n: FlatModel<C>) -> AxRole {
    match n.kind {
        KindModel::Frame { .. } => if clickable(n) {
            AxRole::Button
        } else {
            AxRole::GenericContainer
        },
        KindModel::Text { .. } => if clickable(n) {
            AxRole::Button
        } else {
            AxRole::Label
        },
        KindModel::Image { .. } => AxRole::Image,
    }
}

/// The label of a flattened node.
pub open spec fn flat_label<C>(n: FlatModel<C>) -> Seq<char> {
    match n.kind {
        KindModel::Frame { .. } => n.label,
        KindModel::Text { content, .. } => content,
        KindModel::Image { alt, .. } => image_label(alt, n.label),
    }
}

/// The accessibility node of a flattened node: absolute bounds, children of
/// frames, and a click where there are mutations.
pub open spec fn flat_ax<C: Coord>(n: FlatModel<C>) -> AxModel {
    AxModel {
        children: match n.kind {
            KindModel::Frame { .. } => n.child_ids,
            _ => Seq::empty(),
        },
        click: clickable(n),
        ..labelled(flat_role(n), flat_label(n), bounds_of(n.abs_x, n.abs_y, n.width, n.height))
    }
}

impl<C: Coord> FlatNode<C> {
    /// Whether this node receives clicks.
    pub fn is_clickable(&self) -> (r: bool)
        ensures
            r == clickable(self@),
    {
        self.on_click.len() > 0
    }

    /// The role of this node.
    fn role(&self) -> (r: AxRole)
        ensures
            r == flat_role(self@),
    {
        match &self.kind {
            FlatNodeKind::Frame { .. } => if self.is_clickable() {
                AxRole::Button
            } else {
                AxRole::GenericContainer
            },
            FlatNodeKind::Text { .. } => if self.is_clickable() {
                AxRole::Button
            } else {
                AxRole::Label
            },
            FlatNodeKind::Image { .. } => AxRole::Image,
        }
    }

    /// The accessible label of this node.
    fn ax_label(&self) -> (r: &str)
        ensures
            r@ == flat_label(self@),
    {
        match &self.kind {
            FlatNodeKind::Frame { .. } => self.label.as_str(),
            FlatNodeKind::Text { content, .. } => content.as_str(),
            FlatNodeKind::Image { alt, .. } => pick_image_label(alt, &self.label),
        }
    }

    /// The accessibility node of this node.
    pub fn to_accesskit_node(&self) -> (r: AxNode)
        ensures
            ax_model(r) == flat_ax(self@),
    {
        let mut node = make_node(
            self.role(),
            self.ax_label(),
            self.abs_x,
            self.abs_y,
            self.width,
            self.height,
        );
        match &self.kind {
            FlatNodeKind::Frame { .. } => {
                if self.child_ids.len() > 0 {
                    ax_set_children(&mut node, &self.child_ids);
                }
                assert(ax_model(node).children =~= self@.child_ids);
            },
            _ => {},
        }
        if self.is_clickable() {
            ax_add_click(&mut node);
        }
        node
    }
}

/// The title of the window.
pub open spec fn window_title() -> Seq<char> {
    "sdui"@
}

/// The window of a scene: its only child is the root of the scene.
pub open spec fn window_ax<C>(fs: Seq<FlatModel<C>>) -> AxModel {
    AxModel {
        label: Some(window_title()),
        children: if fs.len() > 0 {
            seq![fs[0].id]
        } else {
            Seq::empty()
        },
        ..bare(AxRole::Window)
    }
}

/// The accessibility tree of a scene: the window, then every node.
pub open spec fn scene_ax<C: Coord>(scene: NodeModel<C>) -> UpdateModel {
    let fs = flattened(scene);
    UpdateModel {
        nodes: seq![(spec_root_node_id(), window_ax(fs))] + Seq::new(
            fs.len(),
            |i: int| (fs[i].id, flat_ax(fs[i])),
        ),
        root: spec_root_node_id(),
        focus: spec_root_node_id(),
    }
}

/// Build the accessibility tree of a scene.
pub fn build_tree_update<C: Coord>(scene: &SceneNode<C>) -> (r: TreeUpdate)
    requires
        is_plain(scene@),
    ensures
        update_model(r) == scene_ax(scene@),
{
    let flat = flatten_scene(scene);
    let ghost fs = flattened(scene@);
    let mut root = ax_node(AxRole::Window);
    ax_set_label(&mut root, "sdui");
    let mut top: Vec<NodeId> = Vec::new();
    if flat.len() > 0 {
        assert(fs[0] == flat@[0]@);
        top.push(flat[0].id);
    }
    ax_set_children(&mut root, &top);
    assert(ax_model(root) =~= window_ax(fs));
    let mut nodes: Vec<(NodeId, AxNode)> = Vec::new();
    nodes.push((root_node_id(), root));
    let mut i: usize = 0;
    assert(entry_models(nodes@) =~= scene_ax(scene@).nodes.take(1));
    while i < flat.len()
        invariant
            fs == flattened(scene@),
            fs == flat_models(flat@),
            i <= flat@.len(),
            entry_models(nodes@) == scene_ax(scene@).nodes.take(i + 1),
        decreases flat@.len() - i,
    {
        let ghost before = nodes@;
        assert(fs[i as int] == flat@[i as int]@);
        let node = flat[i].to_accesskit_node();
        nodes.push((flat[i].id, node));
        proof {
            let want = scene_ax(scene@).nodes;
            assert(want[i + 1] == (fs[i as int].id, flat_ax(fs[i as int])));
            assert(entry_models(nodes@) =~= entry_models(before).push(want[i + 1]));
            assert(want.take(i + 2) =~= want.take(i + 1).push(want[i + 1]));
        }
        i = i + 1;
    }
    assert(scene_ax(scene@).nodes.take(i + 1) =~= scene_ax(scene@).nodes);
    ax_update(nodes, root_node_id())
}

/// Every child that a node of the tree lists is a node of the tree.
pub proof fn law_listed_children_are_in_the_tree<C: Coord>(scene: NodeModel<C>, i: int, c: int)
    requires
        is_plain(scene),
        0 <= i < scene_ax(scene).nodes.len(),
        0 <= c < scene_ax(scene).nodes[i].1.children.len(),
    ensures
        exists|j: int|
            i < j < scene_ax(scene).nodes.len() && (#[trigger] scene_ax(scene).nodes[j]).0
                == scene_ax(scene).nodes[i].1.children[c],
{
    let fs = flattened(scene);
    let nodes = scene_ax(scene).nodes;
    law_flattening_keeps_every_node(scene);
    law_parents_stand_before_children(scene);
    if i == 0 {
        assert(nodes[1].0 == fs[0].id);
    } else {
        assert(nodes[i].1 == flat_ax(fs[i - 1]));
        let id = nodes[i].1.children[c];
        assert(fs[i - 1].child_ids[c] == id);
        assert(stands_after(fs, i - 1, id));
        let j = choose|j: int| i - 1 < j < fs.len() && (#[trigger] fs[j]).id == id;
        assert(nodes[j + 1].0 == id);
    }
}

/// Every node of the tree but the window is a child of one before it.
pub proof fn law_every_node_has_a_parent<C: Coord>(scene: NodeModel<C>, i: int)
    requires
        is_plain(scene),
        0 < i < scene_ax(scene).nodes.len(),
    ensures
        exists|j: int|
            0 <= j < i && (#[trigger] scene_ax(scene).nodes[j]).1.children.contains(
                scene_ax(scene).nodes[i].0,
            ),
{
    let fs = flattened(scene);
    let nodes = scene_ax(scene).nodes;
    let id = nodes[i].0;
    assert(id == fs[i - 1].id);
    if i == 1 {
        assert(nodes[0].1.children[0] == id);
    } else {
        crate::order::law_nodes_have_parents(scene, i - 1);
        let j = choose|j: int|
            0 <= j < i - 1 && (#[trigger] fs[j]).child_ids.contains(id) && fs[j].kind is Frame;
        assert(nodes[j + 1].1 == flat_ax(fs[j]));
    }
}

/// A node offers a click exactly if it has mutations to run, and then a frame
/// or text presents itself as a button.
pub proof fn law_clicks_are_announced<C: Coord>(n: FlatModel<C>)
    ensures
        flat_ax(n).click <==> n.on_click.len() > 0,
        n.kind !is Image ==> (flat_ax(n).role == AxRole::Button <==> n.on_click.len() > 0),
{
}

/// What assistive technology is told of a flattened node: where it is, from edge
/// to edge in absolute coordinates; what it is called, by its label, the words it
/// shows or the words that stand for it; what it is; what is in it; and that it
/// can be clicked, if it has mutations to run.
pub proof fn law_accessible_nodes_tell_what_is_shown<C: Coord>(n: FlatModel<C>)
    ensures
        flat_ax(n).bounds matches Some(b) && {
            &&& b.x0 == n.abs_x.spec_double_bits()
            &&& b.y0 == n.abs_y.spec_double_bits()
            &&& b.x1 == n.abs_x.spec_plus(n.width).spec_double_bits()
            &&& b.y1 == n.abs_y.spec_plus(n.height).spec_double_bits()
        },
        flat_ax(n).click <==> n.on_click.len() > 0,
        n.kind is Frame ==> {
            &&& flat_ax(n).label == Some(n.label)
            &&& flat_ax(n).children == n.child_ids
            &&& n.on_click.len() == 0 ==> flat_ax(n).role == AxRole::GenericContainer
            &&& n.on_click.len() > 0 ==> flat_ax(n).role == AxRole::Button
        },
        n.kind matches KindModel::Text { content, .. } ==> {
            &&& flat_ax(n).label == Some(content)
            &&& flat_ax(n).children.len() == 0
            &&& n.on_click.len() == 0 ==> flat_ax(n).role == AxRole::Label
            &&& n.on_click.len() > 0 ==> flat_ax(n).role == AxRole::Button
        },
        n.kind matches KindModel::Image { alt, .. } ==> {
            &&& alt is Some ==> flat_ax(n).label == alt
            &&& alt is None ==> flat_ax(n).label == Some(n.label)
            &&& flat_ax(n).children.len() == 0
            &&& flat_ax(n).role == AxRole::Image
        },
{
}

/// What the accessibility node of a node of a scene tells: its own offset and
/// size, what it is called and what it is, and nothing of children or clicks.
pub proof fn law_scene_nodes_tell_what_is_shown<C: Coord>(n: NodeModel<C>)
    requires
        n !is Condition,
    ensures
        node_ax(n).children.len() == 0,
        !node_ax(n).click,
        n matches NodeModel::Frame(f) ==> {
            &&& node_ax(n).role == AxRole::GenericContainer
            &&& node_ax(n).label == Some(f.label)
            &&& node_ax(n).bounds matches Some(b) && b.x0 == f.x.spec_double_bits() && b.y0
                == f.y.spec_double_bits() && b.x1 == f.x.spec_plus(f.width).spec_double_bits()
                && b.y1 == f.y.spec_plus(f.height).spec_double_bits()
        },
        n matches NodeModel::Text(t) ==> {
            &&& node_ax(n).role == AxRole::Label
            &&& node_ax(n).label == Some(t.content)
            &&& node_ax(n).bounds matches Some(b) && b.x0 == t.x.spec_double_bits() && b.y0
                == t.y.spec_double_bits() && b.x1 == t.x.spec_plus(t.width).spec_double_bits()
                && b.y1 == t.y.spec_plus(t.height).spec_double_bits()
        },
        n matches NodeModel::Image(i) ==> {
            &&& node_ax(n).role == AxRole::Image
            &&& i.alt is Some ==> node_ax(n).label == i.alt
            &&& i.alt is None ==> node_ax(n).label == Some(i.label)
            &&& node_ax(n).bounds matches Some(b) && b.x0 == i.x.spec_double_bits() && b.y0
                == i.y.spec_double_bits() && b.x1 == i.x.spec_plus(i.width).spec_double_bits()
                && b.y1 == i.y.spec_plus(i.height).spec_double_bits()
        },
{
}

/// The accessibility tree holds the window, which is the root, has the focus and
/// holds the root of the scene alone, and behind it every node of the flattened
/// scene under its id, in list order, and nothing else.
pub proof fn law_the_tree_is_the_window_and_the_scene<C: Coord>(scene: NodeModel<C>, i: int)
    requires
        is_plain(scene),
        0 <= i < flattened(scene).len(),
    ensures
        scene_ax(scene).nodes.len() == flattened(scene).len() + 1,
        scene_ax(scene).nodes[i + 1].0 == flattened(scene)[i].id,
        scene_ax(scene).nodes[i + 1].1 == flat_ax(flattened(scene)[i]),
        scene_ax(scene).nodes[0].0 == NodeId(0),
        scene_ax(scene).nodes[0].1.role == AxRole::Window,
        scene_ax(scene).nodes[0].1.label == Some("sdui"@),
        scene_ax(scene).nodes[0].1.children == seq![flattened(scene)[0].id],
        !scene_ax(scene).nodes[0].1.click,
        scene_ax(scene).root == NodeId(0),
        scene_ax(scene).focus == NodeId(0),
{
}

/// A node that offers a click, that its author named, and whose id and name no
/// node before it has, runs its mutations when assistive technology asks for the
/// click, whatever its kind.
pub proof fn law_offered_clicks_run<C: Coord, E: ExpressionEngine>(
    engine: E,
    progs: spec_fn(Seq<char>) -> Result<CompiledExpr, ExprFault>,
    before: SessionModel<C>,
    after: SessionModel<C>,
    redraw: bool,
    news: News,
    i: int,
)
    requires
        0 <= i < flattened(before.scene).len(),
        flat_ax(flattened(before.scene)[i]).click,
        flattened(before.scene)[i].author_id is Some,
        forall|j: int|
            0 <= j < i ==> (#[trigger] flattened(before.scene)[j]).id != flattened(
                before.scene,
            )[i].id && flattened(before.scene)[j].author_id != flattened(before.scene)[i].author_id,
        acted_on(engine, progs, flattened(before.scene)[i].id, before, after, redraw, news),
    ensures
        redraw,
        news.clicked == flattened(before.scene)[i].author_id,
        exists|fault: Option<ExprFault>, said: Seq<WarningModel>|
            mutations_lead(
                engine,
                progs,
                scene_env(before.interaction, before.state),
                flattened(before.scene)[i].on_click,
                before.state,
                after.state,
                fault,
                said,
            ),
{
    law_requested_clicks_reach_their_node(
        engine,
        progs,
        flattened(before.scene)[i].id,
        before,
        after,
        redraw,
        news,
        i,
    );
}

} // verus!
