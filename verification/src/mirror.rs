//! The mirror of a scene in a browser's document: elements that assistive
//! technology reads in place of the canvas.

use vstd::prelude::*;

use crate::ax::{image_label, pick_image_label};
use crate::coord::Coord;
use crate::number::{int_text, signed_text};
use crate::scene::{
    copy_opt, is_plain, lemma_child_smaller, lemma_frame_children, opt_text, ImageSource,
    MutationModel, NodeModel, SceneNode, SourceModel,
};
use crate::strmap::StrMap;
use crate::text::chars_of;

verus! {

/// An element of the mirror.
#[derive(Debug, PartialEq)]
pub struct MirrorNode {
    /// Tag name.
    pub tag: String,
    /// Attributes to set, in order.
    pub attributes: Vec<(String, String)>,
    /// Value of the id attribute; without one, the attribute is to be removed.
    pub id: Option<String>,
    /// Child elements.
    pub children: Vec<MirrorNode>,
}

/// What a [`MirrorNode`] stands for.
#[verifier::ext_equal]
pub struct MirrorModel {
    /// Tag name.
    pub tag: Seq<char>,
    /// Attributes.
    pub attributes: Seq<(Seq<char>, Seq<char>)>,
    /// Id attribute.
    pub id: Option<Seq<char>>,
    /// Child elements.
    pub children: Seq<MirrorModel>,
}

/// The texts of a list of attributes.
pub open spec fn attribute_texts(s: Seq<(String, String)>) -> Seq<(Seq<char>, Seq<char>)> {
    Seq::new(s.len(), |i: int| (s[i].0@, s[i].1@))
}

/// The meaning of an element.
pub open spec fn mirror_model(m: MirrorNode) -> MirrorModel
    decreases m,
{
    MirrorModel {
        tag: m.tag@,
        attributes: attribute_texts(m.attributes@),
        id: opt_text(m.id),
        children: Seq::new(
            m.children@.len(),
            |i: int|
                if 0 <= i < m.children@.len() {
                    mirror_model(m.children@[i])
                } else {
                    arbitrary()
                },
        ),
    }
}

impl View for MirrorNode {
    type V = MirrorModel;

    open spec fn view(&self) -> MirrorModel {
        mirror_model(*self)
    }
}

/// The tag of a node: one that can be clicked is a block.
pub open spec fn node_tag(clickable: bool, other: Seq<char>) -> Seq<char> {
    if clickable {
        "div"@
    } else {
        other
    }
}

/// The role of a node: one that can be clicked is a button.
pub open spec fn aria_role(clickable: bool, other: Seq<char>) -> Seq<char> {
    if clickable {
        "button"@
    } else {
        other
    }
}

/// An attribute.
pub open spec fn attr(name: Seq<char>, value: Seq<char>) -> (Seq<char>, Seq<char>) {
    (name, value)
}

/// The role that is written where a node has one only when it can be clicked.
pub open spec fn button_role(clickable: bool) -> Seq<(Seq<char>, Seq<char>)> {
    if clickable {
        seq![attr("role"@, "button"@)]
    } else {
        Seq::empty()
    }
}

/// The mirror of a node. One that can be clicked is a `div` with the role
/// `button`; it keeps its other attributes.
pub open spec fn mirrored<C: Coord>(n: NodeModel<C>) -> MirrorModel
    decreases n,
{
    match n {
        NodeModel::Frame(f) => MirrorModel {
            tag: "div"@,
            attributes: seq![
                attr("role"@, aria_role(f.on_click.len() > 0, "group"@)),
                attr("aria-label"@, f.label),
            ],
            id: f.id,
            children: Seq::new(
                f.children.len(),
                |i: int|
                    if 0 <= i < f.children.len() {
                        mirrored(f.children[i])
                    } else {
                        arbitrary()
                    },
            ),
        },
        NodeModel::Text(t) => MirrorModel {
            tag: node_tag(t.on_click.len() > 0, "span"@),
            attributes: seq![
                attr("role"@, aria_role(t.on_click.len() > 0, "paragraph"@)),
                attr("aria-label"@, t.content),
            ],
            id: t.id,
            children: Seq::empty(),
        },
        NodeModel::Image(i) => match i.source {
            SourceModel::Url(url) => MirrorModel {
                tag: node_tag(i.on_click.len() > 0, "img"@),
                attributes: button_role(i.on_click.len() > 0) + seq![
                    attr("src"@, url),
                    attr("alt"@, image_label(i.alt, i.label)),
                    attr("aria-label"@, image_label(i.alt, i.label)),
                    attr("width"@, int_text(i.width.spec_whole() as int)),
                    attr("height"@, int_text(i.height.spec_whole() as int)),
                ],
                id: i.id,
                children: Seq::empty(),
            },
            SourceModel::Path(_) => MirrorModel {
                tag: "div"@,
                attributes: seq![
                    attr("role"@, aria_role(i.on_click.len() > 0, "img"@)),
                    attr("aria-label"@, image_label(i.alt, i.label)),
                ],
                id: i.id,
                children: Seq::empty(),
            },
        },
        NodeModel::Condition { .. } => arbitrary(),
    }
}

/// Add an attribute.
fn put_attribute(attributes: &mut Vec<(String, String)>, name: &str, value: &str)
    ensures
        attribute_texts(final(attributes)@) == attribute_texts(old(attributes)@).push(
            attr(name@, value@),
        ),
{
    attributes.push((name.to_owned(), value.to_owned()));
    assert(attribute_texts(attributes@) =~= attribute_texts(old(attributes)@).push(
        attr(name@, value@),
    ));
}

/// No attributes.
fn no_attributes() -> (r: Vec<(String, String)>)
    ensures
        attribute_texts(r@) == Seq::<(Seq<char>, Seq<char>)>::empty(),
{
    let r: Vec<(String, String)> = Vec::new();
    assert(attribute_texts(r@) =~= Seq::<(Seq<char>, Seq<char>)>::empty());
    r
}

/// An element without children.
fn leaf(tag: &str, attributes: Vec<(String, String)>, id: &Option<String>) -> (r: MirrorNode)
    ensures
        r@ == (MirrorModel {
            tag: tag@,
            attributes: attribute_texts(attributes@),
            id: opt_text(*id),
            children: Seq::empty(),
        }),
{
    let r = MirrorNode { tag: tag.to_owned(), attributes, id: copy_opt(id), children: Vec::new() };
    assert(r@.children =~= Seq::<MirrorModel>::empty());
    r
}

/// The role of a node.
fn role_text(clickable: bool, other: &'static str) -> (r: &'static str)
    ensures
        r@ == aria_role(clickable, other@),
{
    if clickable {
        "button"
    } else {
        other
    }
}

/// The tag of a node.
fn tag_text(clickable: bool, other: &'static str) -> (r: &'static str)
    ensures
        r@ == node_tag(clickable, other@),
{
    if clickable {
        "div"
    } else {
        other
    }
}

/// The mirror of a scene, element by element. Nodes that can be clicked are
/// `<div role="button">`.
pub fn mount_mirror_node<C: Coord>(node: &SceneNode<C>) -> (r: MirrorNode)
    requires
        is_plain(node@),
    ensures
        r@ == mirrored(node@),
    decreases node,
{
    match node {
        SceneNode::Frame(f) => {
            let mut attributes = no_attributes();
            put_attribute(&mut attributes, "role", role_text(f.on_click.len() > 0, "group"));
            put_attribute(&mut attributes, "aria-label", f.label.as_str());
            let mut children: Vec<MirrorNode> = Vec::new();
            let mut i: usize = 0;
            proof {
                lemma_frame_children(*f);
            }
            while i < f.children.len()
                invariant
                    *node == SceneNode::Frame(*f),
                    is_plain(node@),
                    node@->Frame_0.children.len() == f.children@.len(),
                    forall|j: int|
                        0 <= j < f.children@.len() ==> node@->Frame_0.children[j]
                            == (#[trigger] f.children@[j])@,
                    i <= f.children@.len(),
                    children@.len() == i,
                    forall|j: int|
                        0 <= j < i ==> (#[trigger] children@[j])@ == mirrored(f.children@[j]@),
                decreases f.children@.len() - i,
            {
                proof {
                    lemma_child_smaller(*f, i as int);
                    assert(is_plain(node@->Frame_0.children[i as int]));
                }
                let child = mount_mirror_node(&f.children[i]);
                children.push(child);
                i = i + 1;
            }
            let r = MirrorNode {
                tag: "div".to_owned(),
                attributes,
                id: copy_opt(&f.id),
                children,
            };
            proof {
                let want = mirrored(node@);
                assert(r@.attributes =~= want.attributes);
                assert(r@.children =~= want.children);
                assert(r@ =~= want);
            }
            r
        },
        SceneNode::Text(t) => {
            let clickable = t.on_click.len() > 0;
            let mut attributes = no_attributes();
            put_attribute(&mut attributes, "role", role_text(clickable, "paragraph"));
            put_attribute(&mut attributes, "aria-label", t.content.as_str());
            assert(attribute_texts(attributes@) =~= mirrored(node@).attributes);
            leaf(tag_text(clickable, "span"), attributes, &t.id)
        },
        SceneNode::Image(i) => {
            let clickable = i.on_click.len() > 0;
            let alt = pick_image_label(&i.alt, &i.label);
            let mut attributes = no_attributes();
            match &i.source {
                ImageSource::Url { url } => {
                    if clickable {
                        put_attribute(&mut attributes, "role", "button");
                    }
                    put_attribute(&mut attributes, "src", url.as_str());
                    put_attribute(&mut attributes, "alt", alt);
                    put_attribute(&mut attributes, "aria-label", alt);
                    put_attribute(
                        &mut attributes,
                        "width",
                        signed_text(i.width.whole() as i64).as_str(),
                    );
                    put_attribute(
                        &mut attributes,
                        "height",
                        signed_text(i.height.whole() as i64).as_str(),
                    );
                    assert(attribute_texts(attributes@) =~= mirrored(node@).attributes);
                    leaf(tag_text(clickable, "img"), attributes, &i.id)
                },
                ImageSource::Path { .. } => {
                    put_attribute(&mut attributes, "role", role_text(clickable, "img"));
                    put_attribute(&mut attributes, "aria-label", alt);
                    assert(attribute_texts(attributes@) =~= mirrored(node@).attributes);
                    leaf("div", attributes, &i.id)
                },
            }
        },
        SceneNode::Condition(_) => {
            assert(false);
            leaf("div", no_attributes(), &None)
        },
    }
}

/// A letter in lower case; only ASCII letters have one here.
pub open spec fn ascii_lower(c: char) -> char {
    if 'A' <= c <= 'Z' {
        (c as u32 + 32) as char
    } else {
        c
    }
}

/// Two texts are equal but for the case of ASCII letters.
pub open spec fn same_but_case(a: Seq<char>, b: Seq<char>) -> bool {
    a.len() == b.len() && forall|i: int|
        0 <= i < a.len() ==> ascii_lower(#[trigger] a[i]) == ascii_lower(b[i])
}

/// A letter in lower case.
fn to_lower(c: char) -> (r: char)
    ensures
        r == ascii_lower(c),
{
    if c >= 'A' && c <= 'Z' {
        let low: u8 = c as u8;
        (low + 32) as char
    } else {
        c
    }
}

/// Whether an element that is kept for an id can be used again: its tag must be
/// the wanted one, in any case, for a document writes tag names in capitals.
pub fn tag_matches(existing: &str, wanted: &str) -> (r: bool)
    ensures
        r == same_but_case(existing@, wanted@),
{
    let a = chars_of(existing);
    let b = chars_of(wanted);
    if a.len() != b.len() {
        return false;
    }
    let mut i: usize = 0;
    while i < a.len()
        invariant
            a@ == existing@,
            b@ == wanted@,
            a@.len() == b@.len(),
            i <= a@.len(),
            forall|j: int| 0 <= j < i ==> ascii_lower(#[trigger] a@[j]) == ascii_lower(b@[j]),
        decreases a@.len() - i,
    {
        if to_lower(a[i]) != to_lower(b[i]) {
            assert(ascii_lower(existing@[i as int]) != ascii_lower(wanted@[i as int]));
            return false;
        }
        i = i + 1;
    }
    true
}

/// Which element to mount for a node.
#[derive(Debug, Clone, Copy, PartialEq, Eq, Structural)]
pub enum MountStep {
    /// The one that is kept for its id.
    Reuse,
    /// A new one.
    Create,
}

/// The elements of a mirror that are kept when it is taken down, by id: those
/// of the children first, then the element itself. Elements without id are not
/// kept.
pub open spec fn harvested(pool: Map<Seq<char>, Seq<char>>, m: MirrorModel) -> Map<
    Seq<char>,
    Seq<char>,
>
    decreases m,
{
    let below = harvested_all(pool, m.children);
    match m.id {
        Some(id) => below.insert(id, m.tag),
        None => below,
    }
}

/// The elements of a list of mirrors that are kept.
pub open spec fn harvested_all(pool: Map<Seq<char>, Seq<char>>, ms: Seq<MirrorModel>) -> Map<
    Seq<char>,
    Seq<char>,
>
    decreases ms,
{
    if ms.len() == 0 {
        pool
    } else {
        harvested(harvested_all(pool, ms.drop_last()), ms.last())
    }
}

/// The tags of kept elements.
pub open spec fn pool_tags(pool: Map<Seq<char>, String>) -> Map<Seq<char>, Seq<char>> {
    Map::new(|k: Seq<char>| pool.contains_key(k), |k: Seq<char>| pool[k]@)
}

/// An element is larger than each of its children.
proof fn lemma_element_child_smaller(m: MirrorNode, i: int)
    requires
        0 <= i < m.children@.len(),
    ensures
        decreases_to!(m => m.children@[i]),
{
    assert(decreases_to!(m => m.children));
    assert(decreases_to!(m.children => m.children@));
    assert(decreases_to!(m.children@ => m.children@[i]));
}

/// Keep the elements of a mirror that have an id.
pub fn harvest_mirror_pool(m: &MirrorNode, pool: &mut StrMap<String>)
    ensures
        pool_tags(final(pool)@) == harvested(pool_tags(old(pool)@), m@),
    decreases m,
{
    let ghost start = pool_tags(pool@);
    let ghost kids = m@.children;
    let mut i: usize = 0;
    assert(kids.take(0) =~= Seq::empty());
    while i < m.children.len()
        invariant
            kids == m@.children,
            i <= m.children@.len(),
            pool_tags(pool@) == harvested_all(start, kids.take(i as int)),
        decreases m.children@.len() - i,
    {
        proof {
            lemma_element_child_smaller(*m, i as int);
            assert(kids.take(i + 1).drop_last() =~= kids.take(i as int));
            assert(kids.take(i + 1).last() == m.children@[i as int]@);
        }
        harvest_mirror_pool(&m.children[i], pool);
        i = i + 1;
    }
    assert(kids.take(i as int) =~= kids);
    match &m.id {
        Some(id) => {
            pool.insert(id.clone(), m.tag.clone());
            assert(pool_tags(pool@) =~= harvested_all(start, kids).insert(id@, m.tag@));
        },
        None => {},
    }
}

/// The ids and tags of the elements of a mirror, each before its children.
pub open spec fn preorder(m: MirrorModel) -> Seq<(Option<Seq<char>>, Seq<char>)>
    decreases m,
{
    seq![(m.id, m.tag)] + preorder_all(m.children)
}

/// The ids and tags of the elements of a list of mirrors.
pub open spec fn preorder_all(ms: Seq<MirrorModel>) -> Seq<(Option<Seq<char>>, Seq<char>)>
    decreases ms,
{
    if ms.len() == 0 {
        Seq::empty()
    } else {
        preorder_all(ms.drop_last()) + preorder(ms.last())
    }
}

/// The texts of a list of ids and tags.
pub open spec fn entry_texts(s: Seq<(Option<String>, String)>) -> Seq<
    (Option<Seq<char>>, Seq<char>),
> {
    Seq::new(s.len(), |i: int| (opt_text(s[i].0), s[i].1@))
}

/// List the ids and tags of the elements of a mirror.
fn list_elements(m: &MirrorNode, out: &mut Vec<(Option<String>, String)>)
    ensures
        entry_texts(final(out)@) == entry_texts(old(out)@) + preorder(m@),
    decreases m,
{
    let ghost start = entry_texts(out@);
    let ghost kids = m@.children;
    let ghost here = (m@.id, m@.tag);
    out.push((copy_opt(&m.id), m.tag.clone()));
    let mut i: usize = 0;
    proof {
        assert(kids.take(0) =~= Seq::empty());
        assert(entry_texts(out@) =~= start.push(here) + preorder_all(kids.take(0)));
    }
    while i < m.children.len()
        invariant
            kids == m@.children,
            i <= m.children@.len(),
            entry_texts(out@) == start.push(here) + preorder_all(kids.take(i as int)),
        decreases m.children@.len() - i,
    {
        proof {
            lemma_element_child_smaller(*m, i as int);
            assert(kids.take(i + 1).drop_last() =~= kids.take(i as int));
            assert(kids.take(i + 1).last() == m.children@[i as int]@);
        }
        list_elements(&m.children[i], out);
        i = i + 1;
        assert(entry_texts(out@) =~= start.push(here) + preorder_all(kids.take(i as int)));
    }
    assert(kids.take(i as int) =~= kids);
    assert(entry_texts(out@) =~= start + preorder(m@));
}

/// The element at `i` can be one that is kept: it is the first with its id, an
/// element is kept for that id, and it has the wanted tag.
pub open spec fn is_reused(
    pool: Map<Seq<char>, Seq<char>>,
    es: Seq<(Option<Seq<char>>, Seq<char>)>,
    i: int,
) -> bool {
    &&& es[i].0 is Some
    &&& pool.contains_key(es[i].0->Some_0)
    &&& same_but_case(pool[es[i].0->Some_0], es[i].1)
    &&& forall|j: int| 0 <= j < i ==> (#[trigger] es[j]).0 != es[i].0
}

/// Whether an element that is kept can be used for a node with the id `id` and
/// the tag `wanted`. What is kept for the id is used up either way.
pub fn pool_or_create(
    pool: &mut StrMap<String>,
    id: &Option<String>,
    wanted: &str,
) -> (r: MountStep)
    ensures
        match *id {
            Some(s) => {
                &&& (r is Reuse) == (pool_tags(old(pool)@).contains_key(s@) && same_but_case(
                    pool_tags(old(pool)@)[s@],
                    wanted@,
                ))
                &&& pool_tags(final(pool)@) == pool_tags(old(pool)@).remove(s@)
            },
            None => r is Create && pool_tags(final(pool)@) == pool_tags(old(pool)@),
        },
{
    match id {
        Some(s) => {
            let found = pool.remove(s.as_str());
            assert(pool_tags(pool@) =~= pool_tags(old(pool)@).remove(s@));
            match found {
                Some(tag) => if tag_matches(tag.as_str(), wanted) {
                    MountStep::Reuse
                } else {
                    MountStep::Create
                },
                None => MountStep::Create,
            }
        },
        None => MountStep::Create,
    }
}

/// Which elements to mount for the mirror `new` in place of `old`, each before
/// its children. Elements with an id stay in the document as long as their tag
/// does, so that assistive technology does not lose its place.
pub fn plan_mount(old_mirror: &MirrorNode, new_mirror: &MirrorNode) -> (r: Vec<MountStep>)
    ensures
        r@.len() == preorder(new_mirror@).len(),
        forall|i: int|
            0 <= i < r@.len() ==> ((#[trigger] r@[i]) is Reuse) == is_reused(
                harvested(Map::empty(), old_mirror@),
                preorder(new_mirror@),
                i,
            ),
{
    let mut pool: StrMap<String> = StrMap::new();
    assert(pool_tags(pool@) =~= Map::empty());
    harvest_mirror_pool(old_mirror, &mut pool);
    let ghost kept = pool_tags(pool@);
    let mut elements: Vec<(Option<String>, String)> = Vec::new();
    list_elements(new_mirror, &mut elements);
    let ghost es = entry_texts(elements@);
    assert(es =~= preorder(new_mirror@));
    let mut steps: Vec<MountStep> = Vec::new();
    let mut i: usize = 0;
    while i < elements.len()
        invariant
            es == entry_texts(elements@),
            i <= elements@.len(),
            steps@.len() == i,
            forall|k: Seq<char>| #[trigger]
                pool_tags(pool@).contains_key(k) <==> kept.contains_key(k) && !(exists|j: int|
                    0 <= j < i && (#[trigger] es[j]).0 == Some(k)),
            forall|k: Seq<char>| #[trigger]
                pool_tags(pool@).contains_key(k) ==> pool_tags(pool@)[k] == kept[k],
            forall|j: int|
                0 <= j < i ==> ((#[trigger] steps@[j]) is Reuse) == is_reused(kept, es, j),
        decreases elements@.len() - i,
    {
        let ghost before = pool_tags(pool@);
        assert(es[i as int] == (opt_text(elements@[i as int].0), elements@[i as int].1@));
        let step = pool_or_create(&mut pool, &elements[i].0, elements[i].1.as_str());
        proof {
            if let Some(id) = es[i as int].0 {
                assert(before.contains_key(id) <==> kept.contains_key(id) && forall|j: int|
                    0 <= j < i ==> (#[trigger] es[j]).0 != Some(id));
            }
            assert((step is Reuse) == is_reused(kept, es, i as int));
            assert forall|k: Seq<char>| #[trigger]
                pool_tags(pool@).contains_key(k) <==> kept.contains_key(k) && !(exists|j: int|
                    0 <= j < i + 1 && (#[trigger] es[j]).0 == Some(k)) by {
                assert(before.contains_key(k) <==> kept.contains_key(k) && !(exists|j: int|
                    0 <= j < i && (#[trigger] es[j]).0 == Some(k)));
                if es[i as int].0 == Some(k) {
                } else {
                    if exists|j: int| 0 <= j < i + 1 && (#[trigger] es[j]).0 == Some(k) {
                        let j = choose|j: int| 0 <= j < i + 1 && (#[trigger] es[j]).0 == Some(k);
                        assert(j < i);
                    }
                }
            }
        }
        steps.push(step);
        i = i + 1;
    }
    steps
}

/// No element has the id `id`.
pub open spec fn is_absent(es: Seq<(Option<Seq<char>>, Seq<char>)>, id: Seq<char>) -> bool {
    forall|i: int| 0 <= i < es.len() ==> (#[trigger] es[i]).0 != Some(id)
}

/// The element at `i`, and no other, has the id `id`.
pub open spec fn only_at(es: Seq<(Option<Seq<char>>, Seq<char>)>, id: Seq<char>, i: int) -> bool {
    &&& 0 <= i < es.len()
    &&& es[i].0 == Some(id)
    &&& forall|j: int| 0 <= j < es.len() && j != i ==> (#[trigger] es[j]).0 != Some(id)
}

proof fn lemma_absent_keeps_pool(
    pool: Map<Seq<char>, Seq<char>>,
    m: MirrorModel,
    id: Seq<char>,
)
    requires
        is_absent(preorder(m), id),
    ensures
        harvested(pool, m).contains_key(id) == pool.contains_key(id),
        pool.contains_key(id) ==> harvested(pool, m)[id] == pool[id],
    decreases m,
{
    let es = preorder(m);
    let below = preorder_all(m.children);
    assert(es[0].0 != Some(id));
    assert(is_absent(below, id)) by {
        assert forall|i: int| 0 <= i < below.len() implies (#[trigger] below[i]).0 != Some(id) by {
            assert(es[i + 1] == below[i]);
        }
    }
    lemma_absent_keeps_pool_all(pool, m.children, id);
}

proof fn lemma_absent_keeps_pool_all(
    pool: Map<Seq<char>, Seq<char>>,
    ms: Seq<MirrorModel>,
    id: Seq<char>,
)
    requires
        is_absent(preorder_all(ms), id),
    ensures
        harvested_all(pool, ms).contains_key(id) == pool.contains_key(id),
        pool.contains_key(id) ==> harvested_all(pool, ms)[id] == pool[id],
    decreases ms,
{
    if ms.len() > 0 {
        let a = preorder_all(ms.drop_last());
        let b = preorder(ms.last());
        let es = preorder_all(ms);
        assert(is_absent(a, id)) by {
            assert forall|i: int| 0 <= i < a.len() implies (#[trigger] a[i]).0 != Some(id) by {
                assert(es[i] == a[i]);
            }
        }
        assert(is_absent(b, id)) by {
            assert forall|i: int| 0 <= i < b.len() implies (#[trigger] b[i]).0 != Some(id) by {
                assert(es[a.len() + i] == b[i]);
            }
        }
        lemma_absent_keeps_pool_all(pool, ms.drop_last(), id);
        lemma_absent_keeps_pool(harvested_all(pool, ms.drop_last()), ms.last(), id);
    }
}

proof fn lemma_only_one_is_kept(
    pool: Map<Seq<char>, Seq<char>>,
    m: MirrorModel,
    id: Seq<char>,
    i: int,
)
    requires
        only_at(preorder(m), id, i),
    ensures
        harvested(pool, m).contains_key(id),
        harvested(pool, m)[id] == preorder(m)[i].1,
    decreases m,
{
    let es = preorder(m);
    let below = preorder_all(m.children);
    if i > 0 {
        assert(es[0].0 != Some(id));
        assert(es[i] == below[i - 1]);
        assert(only_at(below, id, i - 1)) by {
            assert forall|j: int| 0 <= j < below.len() && j != i - 1 implies (
            #[trigger] below[j]).0 != Some(id) by {
                assert(es[j + 1] == below[j]);
            }
        }
        lemma_only_one_is_kept_all(pool, m.children, id, i - 1);
    }
}

proof fn lemma_only_one_is_kept_all(
    pool: Map<Seq<char>, Seq<char>>,
    ms: Seq<MirrorModel>,
    id: Seq<char>,
    i: int,
)
    requires
        only_at(preorder_all(ms), id, i),
    ensures
        harvested_all(pool, ms).contains_key(id),
        harvested_all(pool, ms)[id] == preorder_all(ms)[i].1,
    decreases ms,
{
    let a = preorder_all(ms.drop_last());
    let b = preorder(ms.last());
    let es = preorder_all(ms);
    let front = harvested_all(pool, ms.drop_last());
    if i < a.len() {
        assert(es[i] == a[i]);
        assert(only_at(a, id, i)) by {
            assert forall|j: int| 0 <= j < a.len() && j != i implies (#[trigger] a[j]).0 != Some(
                id,
            ) by {
                assert(es[j] == a[j]);
            }
        }
        lemma_only_one_is_kept_all(pool, ms.drop_last(), id, i);
        assert(is_absent(b, id)) by {
            assert forall|j: int| 0 <= j < b.len() implies (#[trigger] b[j]).0 != Some(id) by {
                assert(es[a.len() + j] == b[j]);
            }
        }
        lemma_absent_keeps_pool(front, ms.last(), id);
    } else {
        let k = i - a.len();
        assert(es[i] == b[k]);
        assert(only_at(b, id, k)) by {
            assert forall|j: int| 0 <= j < b.len() && j != k implies (#[trigger] b[j]).0 != Some(
                id,
            ) by {
                assert(es[a.len() + j] == b[j]);
            }
        }
        lemma_only_one_is_kept(front, ms.last(), id, k);
    }
}

/// An element whose id no other element has, before and after, and whose tag
/// stays, is not replaced: the one in the document is used again.
pub proof fn law_named_elements_stay(
    before: MirrorModel,
    after: MirrorModel,
    id: Seq<char>,
    i: int,
    j: int,
)
    requires
        only_at(preorder(before), id, i),
        only_at(preorder(after), id, j),
        preorder(before)[i].1 == preorder(after)[j].1,
    ensures
        is_reused(harvested(Map::empty(), before), preorder(after), j),
{
    lemma_only_one_is_kept(Map::empty(), before, id, i);
}

/// The mutations that a click on a node runs.
pub open spec fn node_clicks<C>(n: NodeModel<C>) -> Seq<MutationModel> {
    match n {
        NodeModel::Frame(f) => f.on_click,
        NodeModel::Text(t) => t.on_click,
        NodeModel::Image(i) => i.on_click,
        NodeModel::Condition { .. } => Seq::empty(),
    }
}

/// Whatever its kind, a node that can be clicked is announced as a button: its
/// element is a `div` whose first attribute is the role `button`.
pub proof fn law_clickable_nodes_are_buttons<C: Coord>(n: NodeModel<C>)
    requires
        node_clicks(n).len() > 0,
    ensures
        mirrored(n).tag == "div"@,
        mirrored(n).attributes.len() > 0,
        mirrored(n).attributes[0] == attr("role"@, "button"@),
{
}

/// How many elements a mirror has.
pub open spec fn element_count(m: MirrorModel) -> nat
    decreases m,
{
    1 + element_count_all(m.children)
}

/// How many elements a list of mirrors has.
pub open spec fn element_count_all(ms: Seq<MirrorModel>) -> nat
    decreases ms,
{
    if ms.len() == 0 {
        0
    } else {
        element_count_all(ms.drop_last()) + element_count(ms.last())
    }
}

/// A mirror has an element for every node of the scene, and no other.
pub proof fn law_every_node_is_mirrored<C: Coord>(n: NodeModel<C>)
    requires
        is_plain(n),
    ensures
        element_count(mirrored(n)) == crate::order::node_count(n),
    decreases n,
{
    let m = mirrored(n);
    match n {
        NodeModel::Frame(f) => {
            assert(crate::order::all_plain(f.children));
            lemma_all_mirrored(f.children);
            assert(m.children =~= mirrored_all(f.children));
        },
        _ => {
            assert(element_count_all(m.children) == 0);
        },
    }
}

/// The mirrors of a list of nodes.
pub open spec fn mirrored_all<C: Coord>(ns: Seq<NodeModel<C>>) -> Seq<MirrorModel> {
    Seq::new(ns.len(), |i: int| mirrored(ns[i]))
}

proof fn lemma_all_mirrored<C: Coord>(ns: Seq<NodeModel<C>>)
    requires
        crate::order::all_plain(ns),
    ensures
        element_count_all(mirrored_all(ns)) == crate::order::node_count_all(ns),
    decreases ns,
{
    if ns.len() > 0 {
        let front = ns.drop_last();
        assert forall|i: int| 0 <= i < front.len() implies is_plain(#[trigger] front[i]) by {
            assert(front[i] == ns[i]);
        }
        lemma_all_mirrored(front);
        assert(is_plain(ns[ns.len() - 1]));
        law_every_node_is_mirrored(ns.last());
        assert(mirrored_all(ns).drop_last() =~= mirrored_all(front));
        assert(mirrored_all(ns).last() == mirrored(ns.last()));
    }
}

/// What the mirror of a node tells: a frame is a group that holds the mirrors of
/// its children, one by one and in their order; a text is a paragraph of its
/// words; an image with an address shows it, with its words and its size in whole
/// pixels; any other image is an image in name. Each keeps the id that its author
/// gave it, and one that can be clicked is a button instead.
pub proof fn law_the_mirror_tells_what_is_shown<C: Coord>(n: NodeModel<C>)
    ensures
        n matches NodeModel::Frame(f) ==> {
            let m = mirrored(n);
            &&& m.tag == "div"@
            &&& m.id == f.id
            &&& m.attributes.len() == 2
            &&& m.attributes[0].0 == "role"@
            &&& f.on_click.len() == 0 ==> m.attributes[0].1 == "group"@
            &&& f.on_click.len() > 0 ==> m.attributes[0].1 == "button"@
            &&& m.attributes[1] == ("aria-label"@, f.label)
            &&& m.children.len() == f.children.len()
            &&& forall|k: int|
                0 <= k < f.children.len() ==> #[trigger] m.children[k] == mirrored(f.children[k])
        },
        n matches NodeModel::Text(t) ==> {
            let m = mirrored(n);
            &&& t.on_click.len() == 0 ==> m.tag == "span"@ && m.attributes[0].1 == "paragraph"@
            &&& t.on_click.len() > 0 ==> m.tag == "div"@ && m.attributes[0].1 == "button"@
            &&& m.id == t.id
            &&& m.attributes.len() == 2
            &&& m.attributes[0].0 == "role"@
            &&& m.attributes[1] == ("aria-label"@, t.content)
            &&& m.children.len() == 0
        },
        n matches NodeModel::Image(i) ==> {
            let m = mirrored(n);
            let words = match i.alt {
                Some(alt) => alt,
                None => i.label,
            };
            let lead = if i.on_click.len() > 0 {
                seq![("role"@, "button"@)]
            } else {
                Seq::empty()
            };
            &&& m.id == i.id
            &&& m.children.len() == 0
            &&& i.source matches SourceModel::Url(url) ==> m.attributes == lead + seq![
                ("src"@, url),
                ("alt"@, words),
                ("aria-label"@, words),
                ("width"@, int_text(i.width.spec_whole() as int)),
                ("height"@, int_text(i.height.spec_whole() as int)),
            ]
            &&& i.source is Url && i.on_click.len() == 0 ==> m.tag == "img"@
            &&& i.source is Url && i.on_click.len() > 0 ==> m.tag == "div"@
            &&& i.source is Path ==> m.tag == "div"@
            &&& i.source is Path && i.on_click.len() == 0 ==> m.attributes == seq![
                ("role"@, "img"@),
                ("aria-label"@, words),
            ]
            &&& i.source is Path && i.on_click.len() > 0 ==> m.attributes == seq![
                ("role"@, "button"@),
                ("aria-label"@, words),
            ]
        },
{
    if let NodeModel::Image(i) = n {
        let words = match i.alt {
            Some(alt) => alt,
            None => i.label,
        };
        let lead = if i.on_click.len() > 0 {
            seq![("role"@, "button"@)]
        } else {
            Seq::empty()
        };
        if let SourceModel::Url(url) = i.source {
            assert(mirrored(n).attributes =~= lead + seq![
                ("src"@, url),
                ("alt"@, words),
                ("aria-label"@, words),
                ("width"@, int_text(i.width.spec_whole() as int)),
                ("height"@, int_text(i.height.spec_whole() as int)),
            ]);
        } else {
            let role = if i.on_click.len() > 0 {
                "button"@
            } else {
                "img"@
            };
            assert(mirrored(n).attributes =~= seq![("role"@, role), ("aria-label"@, words)]);
        }
    }
}

/// The elements of a mirror come each before its children, and these one after
/// the other, each with all that is below it: lists of mirrors come list after
/// list.
pub proof fn law_elements_come_before_their_children(
    m: MirrorModel,
    a: Seq<MirrorModel>,
    b: Seq<MirrorModel>,
)
    ensures
        preorder(m) == seq![(m.id, m.tag)] + preorder_all(m.children),
        preorder_all(a + b) == preorder_all(a) + preorder_all(b),
        preorder_all(seq![m]) == preorder(m),
        preorder_all(Seq::<MirrorModel>::empty()).len() == 0,
    decreases b.len(),
{
    if b.len() == 0 {
        assert(a + b =~= a);
        assert(preorder_all(a) + preorder_all(b) =~= preorder_all(a));
    } else {
        assert((a + b).drop_last() =~= a + b.drop_last());
        assert((a + b).last() == b.last());
        law_elements_come_before_their_children(m, a, b.drop_last());
        assert(preorder_all(a + b) =~= preorder_all(a) + preorder_all(b));
    }
    let one = seq![m];
    assert(one.drop_last() =~= Seq::empty());
    assert(preorder_all(one.drop_last()) =~= Seq::empty());
    assert(preorder_all(one) =~= preorder(m));
}

/// An element is used again only if it has an id that an element of the mirror
/// before had, whose tag was the same but for case, and if no element before it
/// has that id.
pub proof fn law_only_named_elements_are_used_again(
    before: MirrorModel,
    after: MirrorModel,
    i: int,
)
    requires
        0 <= i < preorder(after).len(),
        is_reused(harvested(Map::empty(), before), preorder(after), i),
    ensures
        preorder(after)[i].0 is Some,
        exists|j: int|
            0 <= j < preorder(before).len() && (#[trigger] preorder(before)[j]).0 == preorder(
                after,
            )[i].0 && same_but_case(preorder(before)[j].1, preorder(after)[i].1),
        forall|j: int| 0 <= j < i ==> (#[trigger] preorder(after)[j]).0 != preorder(after)[i].0,
{
    let id = preorder(after)[i].0->Some_0;
    let none = Map::<Seq<char>, Seq<char>>::empty();
    lemma_kept_was_there(none, before, id);
    let j = choose|j: int|
        0 <= j < preorder(before).len() && (#[trigger] preorder(before)[j]).0 == Some(id)
            && preorder(before)[j].1 == harvested(none, before)[id];
    assert(preorder(before)[j].0 == preorder(after)[i].0);
}

/// What is kept for an id was kept before, or is the tag of an element that has
/// it.
proof fn lemma_kept_was_there(pool: Map<Seq<char>, Seq<char>>, m: MirrorModel, id: Seq<char>)
    requires
        harvested(pool, m).contains_key(id),
    ensures
        (pool.contains_key(id) && harvested(pool, m)[id] == pool[id]) || exists|j: int|
            0 <= j < preorder(m).len() && (#[trigger] preorder(m)[j]).0 == Some(id) && preorder(
                m,
            )[j].1 == harvested(pool, m)[id],
    decreases m,
{
    let es = preorder(m);
    if m.id == Some(id) {
        assert(es[0].0 == Some(id) && es[0].1 == harvested(pool, m)[id]);
    } else {
        lemma_kept_was_there_all(pool, m.children, id);
        let below = preorder_all(m.children);
        if !(pool.contains_key(id) && harvested(pool, m)[id] == pool[id]) {
            let j = choose|j: int|
                0 <= j < below.len() && (#[trigger] below[j]).0 == Some(id) && below[j].1
                    == harvested_all(pool, m.children)[id];
            assert(es[j + 1] == below[j]);
        }
    }
}

proof fn lemma_kept_was_there_all(
    pool: Map<Seq<char>, Seq<char>>,
    ms: Seq<MirrorModel>,
    id: Seq<char>,
)
    requires
        harvested_all(pool, ms).contains_key(id),
    ensures
        (pool.contains_key(id) && harvested_all(pool, ms)[id] == pool[id]) || exists|j: int|
            0 <= j < preorder_all(ms).len() && (#[trigger] preorder_all(ms)[j]).0 == Some(id)
                && preorder_all(ms)[j].1 == harvested_all(pool, ms)[id],
    decreases ms,
{
    if ms.len() > 0 {
        let front = harvested_all(pool, ms.drop_last());
        let a = preorder_all(ms.drop_last());
        let b = preorder(ms.last());
        let es = preorder_all(ms);
        assert(es =~= a + b);
        lemma_kept_was_there(front, ms.last(), id);
        if front.contains_key(id) && harvested_all(pool, ms)[id] == front[id] {
            lemma_kept_was_there_all(pool, ms.drop_last(), id);
            if !(pool.contains_key(id) && front[id] == pool[id]) {
                let j = choose|j: int|
                    0 <= j < a.len() && (#[trigger] a[j]).0 == Some(id) && a[j].1 == front[id];
                assert(es[j] == a[j]);
            }
        } else {
            let j = choose|j: int|
                0 <= j < b.len() && (#[trigger] b[j]).0 == Some(id) && b[j].1 == harvested_all(
                    pool,
                    ms,
                )[id];
            assert(es[a.len() + j] == b[j]);
        }
    }
}

/// Tags match exactly if they are as long and each letter is the same, up to the
/// case of the letters from A to Z.
pub proof fn law_tags_match_but_for_case(a: Seq<char>, b: Seq<char>)
    ensures
        same_but_case(a, a),
        same_but_case(a, b) == same_but_case(b, a),
        same_but_case(a, b) <==> a.len() == b.len() && forall|i: int|
            0 <= i < a.len() ==> #[trigger] a[i] == b[i] || ('A' <= a[i] <= 'Z' && b[i] as int
                == a[i] as int + 32) || ('A' <= b[i] <= 'Z' && a[i] as int == b[i] as int + 32),
{
    assert forall|i: int| 0 <= i < a.len() && same_but_case(a, b) implies #[trigger] a[i] == b[i]
        || ('A' <= a[i] <= 'Z' && b[i] as int == a[i] as int + 32) || ('A' <= b[i] <= 'Z' && a[i]
        as int == b[i] as int + 32) by {
        assert(ascii_lower(a[i]) == ascii_lower(b[i]));
    }
    if a.len() == b.len() && forall|i: int|
        0 <= i < a.len() ==> #[trigger] a[i] == b[i] || ('A' <= a[i] <= 'Z' && b[i] as int
            == a[i] as int + 32) || ('A' <= b[i] <= 'Z' && a[i] as int == b[i] as int + 32) {
        assert forall|i: int| 0 <= i < a.len() implies ascii_lower(#[trigger] a[i]) == ascii_lower(
            b[i],
        ) by {
            assert(a[i] == b[i] || ('A' <= a[i] <= 'Z' && b[i] as int == a[i] as int + 32) || (
            'A' <= b[i] <= 'Z' && a[i] as int == b[i] as int + 32));
        }
    }
}

/// Every element with an id is kept, and what was kept before stays unless an
/// element has its id. Where ids repeat, what is taken down last counts: an
/// element after what is below it, and lists one after the other.
pub proof fn law_elements_with_ids_are_kept(
    pool: Map<Seq<char>, Seq<char>>,
    m: MirrorModel,
    a: Seq<MirrorModel>,
    b: Seq<MirrorModel>,
    id: Seq<char>,
)
    ensures
        m.id == Some(id) ==> harvested(pool, m).contains_key(id) && harvested(pool, m)[id] == m.tag,
        m.id != Some(id) ==> harvested(pool, m).contains_key(id) == harvested_all(
            pool,
            m.children,
        ).contains_key(id),
        m.id != Some(id) && harvested(pool, m).contains_key(id) ==> harvested(pool, m)[id]
            == harvested_all(pool, m.children)[id],
        harvested_all(pool, a + b) == harvested_all(harvested_all(pool, a), b),
        harvested_all(pool, seq![m]) == harvested(pool, m),
        harvested_all(pool, Seq::empty()) == pool,
        harvested(pool, m).contains_key(id) <==> pool.contains_key(id) || exists|i: int|
            0 <= i < preorder(m).len() && (#[trigger] preorder(m)[i]).0 == Some(id),
{
    lemma_harvested_adds(pool, a, b);
    let one = seq![m];
    assert(one.drop_last() =~= Seq::empty());
    assert(harvested_all(pool, one.drop_last()) == pool);
    lemma_what_is_kept(pool, m, id);
}

proof fn lemma_harvested_adds(
    pool: Map<Seq<char>, Seq<char>>,
    a: Seq<MirrorModel>,
    b: Seq<MirrorModel>,
)
    ensures
        harvested_all(pool, a + b) == harvested_all(harvested_all(pool, a), b),
    decreases b.len(),
{
    if b.len() == 0 {
        assert(a + b =~= a);
    } else {
        assert((a + b).drop_last() =~= a + b.drop_last());
        lemma_harvested_adds(pool, a, b.drop_last());
    }
}

proof fn lemma_what_is_kept(pool: Map<Seq<char>, Seq<char>>, m: MirrorModel, id: Seq<char>)
    ensures
        harvested(pool, m).contains_key(id) <==> pool.contains_key(id) || exists|i: int|
            0 <= i < preorder(m).len() && (#[trigger] preorder(m)[i]).0 == Some(id),
    decreases m,
{
    let es = preorder(m);
    let below = preorder_all(m.children);
    lemma_what_is_kept_all(pool, m.children, id);
    if m.id == Some(id) {
        assert(es[0].0 == Some(id));
    }
    if exists|i: int| 0 <= i < below.len() && (#[trigger] below[i]).0 == Some(id) {
        let i = choose|i: int| 0 <= i < below.len() && (#[trigger] below[i]).0 == Some(id);
        assert(es[i + 1] == below[i]);
    }
    if exists|i: int| 0 <= i < es.len() && (#[trigger] es[i]).0 == Some(id) {
        let i = choose|i: int| 0 <= i < es.len() && (#[trigger] es[i]).0 == Some(id);
        if i > 0 {
            assert(es[i] == below[i - 1]);
        }
    }
}

proof fn lemma_what_is_kept_all(
    pool: Map<Seq<char>, Seq<char>>,
    ms: Seq<MirrorModel>,
    id: Seq<char>,
)
    ensures
        harvested_all(pool, ms).contains_key(id) <==> pool.contains_key(id) || exists|i: int|
            0 <= i < preorder_all(ms).len() && (#[trigger] preorder_all(ms)[i]).0 == Some(id),
    decreases ms,
{
    if ms.len() > 0 {
        let a = preorder_all(ms.drop_last());
        let b = preorder(ms.last());
        let es = preorder_all(ms);
        assert(es =~= a + b);
        lemma_what_is_kept_all(pool, ms.drop_last(), id);
        lemma_what_is_kept(harvested_all(pool, ms.drop_last()), ms.last(), id);
        if exists|i: int| 0 <= i < a.len() && (#[trigger] a[i]).0 == Some(id) {
            let i = choose|i: int| 0 <= i < a.len() && (#[trigger] a[i]).0 == Some(id);
            assert(es[i] == a[i]);
        }
        if exists|i: int| 0 <= i < b.len() && (#[trigger] b[i]).0 == Some(id) {
            let i = choose|i: int| 0 <= i < b.len() && (#[trigger] b[i]).0 == Some(id);
            assert(es[a.len() + i] == b[i]);
        }
        if exists|i: int| 0 <= i < es.len() && (#[trigger] es[i]).0 == Some(id) {
            let i = choose|i: int| 0 <= i < es.len() && (#[trigger] es[i]).0 == Some(id);
            if i < a.len() {
                assert(a[i].0 == Some(id));
            } else {
                assert(b[i - a.len()].0 == Some(id));
            }
        }
    }
}

} // verus!
