//! Scene trees: the closed set of node types and what they stand for.

use vstd::prelude::*;

use crate::coord::Coord;
use crate::json::{trees_of, Json, JsonTree};
use crate::strmap::StrMap;

verus! {

/// A state mutation that a click triggers: evaluate `set` and write the result
/// into scene state at `path`.
#[derive(Debug, PartialEq)]
pub struct Mutation {
    /// Dotted path into scene state, such as `"count"` or `"cart.items"`.
    pub path: String,
    /// Source of the expression that gives the new value.
    pub set: String,
}

/// What a [`Mutation`] stands for.
pub struct MutationModel {
    /// Dotted path into scene state.
    pub path: Seq<char>,
    /// Source of the expression.
    pub set: Seq<char>,
}

impl View for Mutation {
    type V = MutationModel;

    open spec fn view(&self) -> MutationModel {
        MutationModel { path: self.path@, set: self.set@ }
    }
}

impl Clone for Mutation {
    fn clone(&self) -> (r: Self)
        ensures
            r@ == self@,
    {
        Mutation { path: self.path.clone(), set: self.set.clone() }
    }
}

/// What a list of mutations stands for.
pub open spec fn mutation_models(s: Seq<Mutation>) -> Seq<MutationModel> {
    Seq::new(s.len(), |i: int| s[i]@)
}

/// A list of the same mutations.
pub fn copy_mutations(v: &Vec<Mutation>) -> (r: Vec<Mutation>)
    ensures
        mutation_models(r@) == mutation_models(v@),
{
    let mut out: Vec<Mutation> = Vec::new();
    let mut i: usize = 0;
    while i < v.len()
        invariant
            i <= v@.len(),
            out@.len() == i,
            forall|j: int| 0 <= j < i ==> (#[trigger] out@[j])@ == v@[j]@,
        decreases v@.len() - i,
    {
        out.push(v[i].clone());
        i = i + 1;
    }
    assert(mutation_models(out@) =~= mutation_models(v@));
    out
}

/// The text of an optional string.
pub open spec fn opt_text(o: Option<String>) -> Option<Seq<char>> {
    match o {
        Some(s) => Some(s@),
        None => None,
    }
}

/// A copy of an optional string.
pub fn copy_opt(o: &Option<String>) -> (r: Option<String>)
    ensures
        opt_text(r) == opt_text(*o),
{
    match o {
        Some(s) => Some(s.clone()),
        None => None,
    }
}

/// Where the bitmap of an image comes from.
#[derive(Debug, PartialEq, Eq, Hash)]
pub enum ImageSource {
    /// Fetched over HTTP.
    Url {
        /// Its address.
        url: String,
    },
    /// Read from the file system.
    Path {
        /// Its path.
        path: String,
    },
}

/// What an [`ImageSource`] stands for.
pub enum SourceModel {
    /// Fetched over HTTP.
    Url(Seq<char>),
    /// Read from the file system.
    Path(Seq<char>),
}

impl View for ImageSource {
    type V = SourceModel;

    open spec fn view(&self) -> SourceModel {
        match *self {
            ImageSource::Url { url } => SourceModel::Url(url@),
            ImageSource::Path { path } => SourceModel::Path(path@),
        }
    }
}

impl Clone for ImageSource {
    fn clone(&self) -> (r: Self)
        ensures
            r@ == self@,
    {
        match self {
            ImageSource::Url { url } => ImageSource::Url { url: url.clone() },
            ImageSource::Path { path } => ImageSource::Path { path: path.clone() },
        }
    }
}

/// A coloured rectangle, placed relative to its parent, with children placed
/// relative to it.
#[derive(Debug, PartialEq)]
pub struct Frame<C> {
    /// Stable id given by the author; named nodes can be hit and referred to.
    pub id: Option<String>,
    /// Human-readable label.
    pub label: String,
    /// RGBA background colour.
    pub background_color: [C; 4],
    /// Horizontal offset from the parent.
    pub x: C,
    /// Vertical offset from the parent.
    pub y: C,
    /// Width.
    pub width: C,
    /// Height.
    pub height: C,
    /// Child nodes.
    pub children: Vec<SceneNode<C>>,
    /// Mutations to run on click.
    pub on_click: Vec<Mutation>,
}

/// A text leaf.
#[derive(Debug, PartialEq)]
pub struct Text<C> {
    /// Stable id given by the author.
    pub id: Option<String>,
    /// Human-readable label.
    pub label: String,
    /// The text to display.
    pub content: String,
    /// Font size.
    pub font_size: C,
    /// RGBA text colour.
    pub color: [C; 4],
    /// Horizontal offset from the parent.
    pub x: C,
    /// Vertical offset from the parent.
    pub y: C,
    /// Width of the bounding box.
    pub width: C,
    /// Height of the bounding box.
    pub height: C,
    /// Mutations to run on click.
    pub on_click: Vec<Mutation>,
}

/// An image leaf.
#[derive(Debug, PartialEq)]
pub struct Image<C> {
    /// Stable id given by the author.
    pub id: Option<String>,
    /// Human-readable label, used where there is no alternative text.
    pub label: String,
    /// Where to load the bitmap from.
    pub source: ImageSource,
    /// Alternative text.
    pub alt: Option<String>,
    /// Horizontal offset from the parent.
    pub x: C,
    /// Vertical offset from the parent.
    pub y: C,
    /// Width.
    pub width: C,
    /// Height.
    pub height: C,
    /// Mutations to run on click.
    pub on_click: Vec<Mutation>,
}

/// A choice between two subtrees, made when a scene is resolved.
#[derive(Debug, PartialEq)]
pub struct Condition<C> {
    /// Source of the predicate.
    pub when: String,
    /// The subtree for `true`.
    pub then_branch: Box<SceneNode<C>>,
    /// The subtree for `false`, if there is one.
    pub else_branch: Option<Box<SceneNode<C>>>,
}

/// A node of a scene.
#[derive(Debug, PartialEq)]
pub enum SceneNode<C> {
    /// A coloured rectangle with children.
    Frame(Frame<C>),
    /// A text leaf.
    Text(Text<C>),
    /// An image leaf.
    Image(Image<C>),
    /// A choice between two subtrees.
    Condition(Condition<C>),
}

/// Author-declared state and a scene tree.
#[derive(Debug, PartialEq)]
pub struct Scene<C> {
    /// State that expressions read; every key they use is declared here.
    pub state: StrMap<Json>,
    /// The root of the tree.
    pub root: SceneNode<C>,
}

/// What a [`Frame`] stands for.
#[verifier::ext_equal]
pub struct FrameModel<C> {
    /// Author id.
    pub id: Option<Seq<char>>,
    /// Label.
    pub label: Seq<char>,
    /// Background colour.
    pub background_color: [C; 4],
    /// Horizontal offset.
    pub x: C,
    /// Vertical offset.
    pub y: C,
    /// Width.
    pub width: C,
    /// Height.
    pub height: C,
    /// Children.
    pub children: Seq<NodeModel<C>>,
    /// Mutations on click.
    pub on_click: Seq<MutationModel>,
}

/// What a [`Text`] stands for.
#[verifier::ext_equal]
pub struct TextModel<C> {
    /// Author id.
    pub id: Option<Seq<char>>,
    /// Label.
    pub label: Seq<char>,
    /// Text.
    pub content: Seq<char>,
    /// Font size.
    pub font_size: C,
    /// Text colour.
    pub color: [C; 4],
    /// Horizontal offset.
    pub x: C,
    /// Vertical offset.
    pub y: C,
    /// Width.
    pub width: C,
    /// Height.
    pub height: C,
    /// Mutations on click.
    pub on_click: Seq<MutationModel>,
}

/// What an [`Image`] stands for.
#[verifier::ext_equal]
pub struct ImageModel<C> {
    /// Author id.
    pub id: Option<Seq<char>>,
    /// Label.
    pub label: Seq<char>,
    /// Source of the bitmap.
    pub source: SourceModel,
    /// Alternative text.
    pub alt: Option<Seq<char>>,
    /// Horizontal offset.
    pub x: C,
    /// Vertical offset.
    pub y: C,
    /// Width.
    pub width: C,
    /// Height.
    pub height: C,
    /// Mutations on click.
    pub on_click: Seq<MutationModel>,
}

/// What a [`SceneNode`] stands for.
#[verifier::ext_equal]
pub enum NodeModel<C> {
    /// A rectangle with children.
    Frame(FrameModel<C>),
    /// A text leaf.
    Text(TextModel<C>),
    /// An image leaf.
    Image(ImageModel<C>),
    /// A choice.
    Condition {
        /// Source of the predicate.
        when: Seq<char>,
        /// The subtree for `true`.
        on_true: Box<NodeModel<C>>,
        /// The subtree for `false`.
        on_false: Option<Box<NodeModel<C>>>,
    },
}

/// The meaning of a node.
pub open spec fn node_model<C>(n: SceneNode<C>) -> NodeModel<C>
    decreases n,
{
    match n {
        SceneNode::Frame(f) => NodeModel::Frame(
            FrameModel {
                id: opt_text(f.id),
                label: f.label@,
                background_color: f.background_color,
                x: f.x,
                y: f.y,
                width: f.width,
                height: f.height,
                children: Seq::new(
                    f.children@.len(),
                    |i: int|
                        if 0 <= i < f.children@.len() {
                            node_model(f.children@[i])
                        } else {
                            arbitrary()
                        },
                ),
                on_click: mutation_models(f.on_click@),
            },
        ),
        SceneNode::Text(t) => NodeModel::Text(text_model(t)),
        SceneNode::Image(i) => NodeModel::Image(image_model(i)),
        SceneNode::Condition(c) => NodeModel::Condition {
            when: c.when@,
            on_true: Box::new(node_model(*c.then_branch)),
            on_false: match c.else_branch {
                Some(e) => Some(Box::new(node_model(*e))),
                None => None,
            },
        },
    }
}

/// The meaning of a text leaf.
pub open spec fn text_model<C>(t: Text<C>) -> TextModel<C> {
    TextModel {
        id: opt_text(t.id),
        label: t.label@,
        content: t.content@,
        font_size: t.font_size,
        color: t.color,
        x: t.x,
        y: t.y,
        width: t.width,
        height: t.height,
        on_click: mutation_models(t.on_click@),
    }
}

/// The meaning of an image leaf.
pub open spec fn image_model<C>(i: Image<C>) -> ImageModel<C> {
    ImageModel {
        id: opt_text(i.id),
        label: i.label@,
        source: i.source@,
        alt: opt_text(i.alt),
        x: i.x,
        y: i.y,
        width: i.width,
        height: i.height,
        on_click: mutation_models(i.on_click@),
    }
}

impl<C> View for SceneNode<C> {
    type V = NodeModel<C>;

    open spec fn view(&self) -> NodeModel<C> {
        node_model(*self)
    }
}

impl<C> View for Frame<C> {
    type V = FrameModel<C>;

    open spec fn view(&self) -> FrameModel<C> {
        node_model(SceneNode::Frame(*self))->Frame_0
    }
}

impl<C> View for Text<C> {
    type V = TextModel<C>;

    open spec fn view(&self) -> TextModel<C> {
        text_model(*self)
    }
}

impl<C> View for Image<C> {
    type V = ImageModel<C>;

    open spec fn view(&self) -> ImageModel<C> {
        image_model(*self)
    }
}

/// The meanings of a list of nodes.
pub open spec fn node_models<C>(s: Seq<SceneNode<C>>) -> Seq<NodeModel<C>> {
    Seq::new(s.len(), |i: int| s[i]@)
}

/// The children of a frame stand for their meanings.
pub proof fn lemma_frame_children<C>(f: Frame<C>)
    ensures
        f@.children == node_models(f.children@),
        SceneNode::Frame(f)@ == NodeModel::Frame(f@),
{
    assert(f@.children =~= node_models(f.children@));
}

/// A node holds no choice, at any depth.
pub open spec fn is_plain<C>(n: NodeModel<C>) -> bool
    decreases n,
{
    match n {
        NodeModel::Frame(f) => forall|i: int|
            0 <= i < f.children.len() ==> is_plain(#[trigger] f.children[i]),
        NodeModel::Text(_) => true,
        NodeModel::Image(_) => true,
        NodeModel::Condition { .. } => false,
    }
}

/// The label of a node; a choice has none.
pub open spec fn node_label<C>(n: NodeModel<C>) -> Seq<char> {
    match n {
        NodeModel::Frame(f) => f.label,
        NodeModel::Text(t) => t.label,
        NodeModel::Image(i) => i.label,
        NodeModel::Condition { .. } => Seq::empty(),
    }
}

/// The children of a node: those of a frame. A choice has none, for its
/// branches are not children: only one of them is ever drawn.
pub open spec fn node_children<C>(n: NodeModel<C>) -> Seq<NodeModel<C>> {
    match n {
        NodeModel::Frame(f) => f.children,
        _ => Seq::empty(),
    }
}

impl<C: Coord> Frame<C> {
    /// A frame without id, children and mutations.
    pub fn new(
        label: &str,
        background_color: [C; 4],
        x: C,
        y: C,
        width: C,
        height: C,
    ) -> (r: Self)
        ensures
            r@ == (FrameModel {
                id: None,
                label: label@,
                background_color,
                x,
                y,
                width,
                height,
                children: Seq::empty(),
                on_click: Seq::empty(),
            }),
    {
        let r = Frame {
            id: None,
            label: label.to_owned(),
            background_color,
            x,
            y,
            width,
            height,
            children: Vec::new(),
            on_click: Vec::new(),
        };
        assert(r@.children =~= Seq::<NodeModel<C>>::empty());
        assert(r@.on_click =~= Seq::<MutationModel>::empty());
        r
    }
}

impl<C: Coord> SceneNode<C> {
    /// The human-readable label of this node.
    pub fn label(&self) -> (r: &str)
        ensures
            r@ == node_label(self@),
    {
        match self {
            SceneNode::Frame(f) => f.label.as_str(),
            SceneNode::Text(t) => t.label.as_str(),
            SceneNode::Image(i) => i.label.as_str(),
            SceneNode::Condition(_) => {
                proof {
                    reveal_strlit("");
                    assert(""@ =~= Seq::<char>::empty());
                }
                ""
            },
        }
    }

    /// The child nodes of this node.
    pub fn children(&self) -> (r: &[SceneNode<C>])
        ensures
            node_models(r@) == node_children(self@),
    {
        match self {
            SceneNode::Frame(f) => {
                proof {
                    lemma_frame_children(*f);
                }
                f.children.as_slice()
            },
            _ => {
                let r: &[SceneNode<C>] = &[];
                assert(node_models(r@) =~= node_children(self@));
                r
            },
        }
    }
}

impl<C: Coord> Scene<C> {
    /// A tree with no state.
    pub fn new(root: SceneNode<C>) -> (r: Self)
        ensures
            r.state@ == Map::<Seq<char>, Json>::empty(),
            r.root == root,
    {
        Scene { state: StrMap::new(), root }
    }
}

impl<C: Coord> Clone for Text<C> {
    fn clone(&self) -> (r: Self)
        ensures
            r@ == self@,
    {
        Text {
            id: copy_opt(&self.id),
            label: self.label.clone(),
            content: self.content.clone(),
            font_size: self.font_size,
            color: self.color,
            x: self.x,
            y: self.y,
            width: self.width,
            height: self.height,
            on_click: copy_mutations(&self.on_click),
        }
    }
}

impl<C: Coord> Clone for Image<C> {
    fn clone(&self) -> (r: Self)
        ensures
            r@ == self@,
    {
        Image {
            id: copy_opt(&self.id),
            label: self.label.clone(),
            source: self.source.clone(),
            alt: copy_opt(&self.alt),
            x: self.x,
            y: self.y,
            width: self.width,
            height: self.height,
            on_click: copy_mutations(&self.on_click),
        }
    }
}

/// A frame is larger than each of its children.
pub proof fn lemma_child_smaller<C>(f: Frame<C>, i: int)
    requires
        0 <= i < f.children@.len(),
    ensures
        decreases_to!(SceneNode::Frame(f) => f.children@[i]),
{
    let n = SceneNode::Frame(f);
    assert(decreases_to!(n => n->Frame_0));
    assert(decreases_to!(f => f.children));
    assert(decreases_to!(f.children => f.children@));
    assert(decreases_to!(f.children@ => f.children@[i]));
}

impl<C: Coord> Clone for SceneNode<C> {
    fn clone(&self) -> (r: Self)
        ensures
            r@ == self@,
        decreases self,
    {
        match self {
            SceneNode::Frame(f) => {
                let mut children: Vec<SceneNode<C>> = Vec::new();
                let mut i: usize = 0;
                while i < f.children.len()
                    invariant
                        *self == SceneNode::Frame(*f),
                        i <= f.children@.len(),
                        children@.len() == i,
                        forall|j: int| 0 <= j < i ==> (#[trigger] children@[j])@ == f.children@[j]@,
                    decreases f.children@.len() - i,
                {
                    proof {
                        lemma_child_smaller(*f, i as int);
                    }
                    let child = f.children[i].clone();
                    children.push(child);
                    i = i + 1;
                }
                let copy = Frame {
                    id: copy_opt(&f.id),
                    label: f.label.clone(),
                    background_color: f.background_color,
                    x: f.x,
                    y: f.y,
                    width: f.width,
                    height: f.height,
                    children,
                    on_click: copy_mutations(&f.on_click),
                };
                proof {
                    lemma_frame_children(*f);
                    lemma_frame_children(copy);
                    assert(node_models(children@) =~= node_models(f.children@));
                }
                SceneNode::Frame(copy)
            },
            SceneNode::Text(t) => SceneNode::Text(t.clone()),
            SceneNode::Image(i) => SceneNode::Image(i.clone()),
            SceneNode::Condition(c) => {
                let then_branch: SceneNode<C> = (&*c.then_branch).clone();
                let else_branch: Option<Box<SceneNode<C>>> = match &c.else_branch {
                    Some(e) => {
                        let copy: SceneNode<C> = (&**e).clone();
                        Some(Box::new(copy))
                    },
                    None => None,
                };
                SceneNode::Condition(
                    Condition {
                        when: c.when.clone(),
                        then_branch: Box::new(then_branch),
                        else_branch,
                    },
                )
            },
        }
    }
}

impl<C: Coord> Clone for Frame<C> {
    fn clone(&self) -> (r: Self)
        ensures
            r@ == self@,
    {
        let mut children: Vec<SceneNode<C>> = Vec::new();
        let mut i: usize = 0;
        while i < self.children.len()
            invariant
                i <= self.children@.len(),
                children@.len() == i,
                forall|j: int| 0 <= j < i ==> (#[trigger] children@[j])@ == self.children@[j]@,
            decreases self.children@.len() - i,
        {
            children.push(self.children[i].clone());
            i = i + 1;
        }
        let copy = Frame {
            id: copy_opt(&self.id),
            label: self.label.clone(),
            background_color: self.background_color,
            x: self.x,
            y: self.y,
            width: self.width,
            height: self.height,
            children,
            on_click: copy_mutations(&self.on_click),
        };
        proof {
            lemma_frame_children(*self);
            lemma_frame_children(copy);
            assert(node_models(children@) =~= node_models(self.children@));
        }
        copy
    }
}

impl<C> View for Condition<C> {
    type V = NodeModel<C>;

    open spec fn view(&self) -> NodeModel<C> {
        node_model(SceneNode::Condition(*self))
    }
}

impl<C: Coord> Clone for Condition<C> {
    fn clone(&self) -> (r: Self)
        ensures
            r@ == self@,
    {
        let then_branch: SceneNode<C> = (&*self.then_branch).clone();
        let else_branch: Option<Box<SceneNode<C>>> = match &self.else_branch {
            Some(e) => {
                let copy: SceneNode<C> = (&**e).clone();
                Some(Box::new(copy))
            },
            None => None,
        };
        Condition { when: self.when.clone(), then_branch: Box::new(then_branch), else_branch }
    }
}

/// What a [`Scene`] stands for.
#[verifier::ext_equal]
pub struct SceneModel<C> {
    /// State.
    pub state: Map<Seq<char>, JsonTree>,
    /// The root of the tree.
    pub root: NodeModel<C>,
}

impl<C> View for Scene<C> {
    type V = SceneModel<C>;

    open spec fn view(&self) -> SceneModel<C> {
        SceneModel { state: trees_of(self.state@), root: self.root@ }
    }
}

impl<C: Coord> Clone for Scene<C> {
    fn clone(&self) -> (r: Self)
        ensures
            r@ == self@,
    {
        let r = Scene { state: self.state.clone(), root: self.root.clone() };
        assert(trees_of(r.state@) =~= trees_of(self.state@));
        r
    }
}

} // verus!
