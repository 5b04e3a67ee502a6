//! What holds of every flattened scene: its length, its ids, its order.

use vstd::prelude::*;

use crate::coord::Coord;
use crate::flat::{
    anonymous, anonymous_in, anonymous_in_all, flat, flat_all, flattened, head, node_name, root_ids,
    FlatModel, KindModel,
};
use crate::ids::{
    ephemeral_id, law_ephemeral_ids_are_distinct, law_id_spaces_are_disjoint, minted_id, named_id,
    spec_root_node_id, NodeId,
};
use crate::scene::{is_plain, node_children, node_label, FrameModel, NodeModel};

verus! {

/// How many nodes a plain subtree holds.
pub open spec fn node_count<C>(n: NodeModel<C>) -> nat
    decreases n,
{
    match n {
        NodeModel::Frame(f) => 1 + node_count_all(f.children),
        NodeModel::Condition { .. } => 0,
        _ => 1,
    }
}

/// How many nodes a list of plain subtrees holds.
pub open spec fn node_count_all<C>(ns: Seq<NodeModel<C>>) -> nat
    decreases ns,
{
    if ns.len() == 0 {
        0
    } else {
        node_count_all(ns.drop_last()) + node_count(ns.last())
    }
}

/// All subtrees of a list are plain.
pub open spec fn all_plain<C>(ns: Seq<NodeModel<C>>) -> bool {
    forall|i: int| 0 <= i < ns.len() ==> is_plain(#[trigger] ns[i])
}

proof fn lemma_length<C: Coord>(n: NodeModel<C>, px: C, py: C, next: nat)
    ensures
        flat(n, px, py, next).len() == node_count(n),
    decreases n,
{
    match n {
        NodeModel::Frame(f) => {
            lemma_length_all(
                f.children,
                px.spec_plus(f.x),
                py.spec_plus(f.y),
                next + anonymous(n),
            );
        },
        _ => {},
    }
}

proof fn lemma_length_all<C: Coord>(ns: Seq<NodeModel<C>>, px: C, py: C, next: nat)
    ensures
        flat_all(ns, px, py, next).len() == node_count_all(ns),
    decreases ns,
{
    if ns.len() > 0 {
        lemma_length_all(ns.drop_last(), px, py, next);
        lemma_length(ns.last(), px, py, next + anonymous_in_all(ns.drop_last()));
    }
}

/// Every node of a scene is in its flattened form, once.
pub proof fn law_flattening_keeps_every_node<C: Coord>(root: NodeModel<C>)
    requires
        is_plain(root),
    ensures
        flattened(root).len() == node_count(root),
        flattened(root).len() >= 1,
{
    lemma_length(root, C::spec_zero(), C::spec_zero(), 1);
}

/// How many nodes of a flattened list are anonymous.
pub open spec fn anonymous_count<C>(fs: Seq<FlatModel<C>>) -> nat
    decreases fs.len(),
{
    if fs.len() == 0 {
        0
    } else {
        anonymous_count(fs.drop_last()) + (if fs.last().author_id is None {
            1nat
        } else {
            0nat
        })
    }
}

proof fn lemma_anonymous_count_adds<C>(a: Seq<FlatModel<C>>, b: Seq<FlatModel<C>>)
    ensures
        anonymous_count(a + b) == anonymous_count(a) + anonymous_count(b),
    decreases b.len(),
{
    if b.len() == 0 {
        assert(a + b =~= a);
    } else {
        assert((a + b).drop_last() =~= a + b.drop_last());
        assert((a + b).last() == b.last());
        lemma_anonymous_count_adds(a, b.drop_last());
    }
}

/// The id of the node at `i` is minted from its name, or from the number of
/// anonymous nodes before it, counted from `next`.
pub open spec fn id_follows<C>(fs: Seq<FlatModel<C>>, next: nat, i: int) -> bool {
    fs[i].id == minted_id(fs[i].author_id, next + anonymous_count(fs.take(i)))
}

/// The ids of all nodes do so.
pub open spec fn ids_follow<C>(fs: Seq<FlatModel<C>>, next: nat) -> bool {
    forall|i: int| 0 <= i < fs.len() ==> #[trigger] id_follows(fs, next, i)
}

proof fn lemma_ids_follow_both<C>(a: Seq<FlatModel<C>>, b: Seq<FlatModel<C>>, next: nat)
    requires
        ids_follow(a, next),
        ids_follow(b, next + anonymous_count(a)),
    ensures
        ids_follow(a + b, next),
{
    let all = a + b;
    assert forall|i: int| 0 <= i < all.len() implies #[trigger] id_follows(all, next, i) by {
        if i < a.len() {
            assert(id_follows(a, next, i));
            assert(all.take(i) =~= a.take(i));
            assert(all[i] == a[i]);
        } else {
            let j = i - a.len();
            assert(id_follows(b, next + anonymous_count(a), j));
            assert(all.take(i) =~= a + b.take(j));
            lemma_anonymous_count_adds(a, b.take(j));
            assert(all[i] == b[j]);
        }
    }
}

proof fn lemma_ids_follow<C: Coord>(n: NodeModel<C>, px: C, py: C, next: nat)
    requires
        is_plain(n),
    ensures
        ids_follow(flat(n, px, py, next), next),
        anonymous_count(flat(n, px, py, next)) == anonymous_in(n),
    decreases n,
{
    let first = seq![head(n, px, py, next)];
    assert(first.drop_last() =~= Seq::empty());
    assert(anonymous_count(first.drop_last()) == 0);
    assert(anonymous_count(first) == anonymous(n));
    assert(first.take(0) =~= Seq::empty());
    assert(id_follows(first, next, 0));
    assert(ids_follow(first, next));
    match n {
        NodeModel::Frame(f) => {
            let (x, y) = (px.spec_plus(f.x), py.spec_plus(f.y));
            let below = flat_all(f.children, x, y, next + anonymous(n));
            assert(all_plain(f.children));
            lemma_ids_follow_all(f.children, x, y, next + anonymous(n));
            lemma_ids_follow_both(first, below, next);
            lemma_anonymous_count_adds(first, below);
        },
        _ => {
            assert(flat(n, px, py, next) =~= first);
        },
    }
}

proof fn lemma_ids_follow_all<C: Coord>(ns: Seq<NodeModel<C>>, px: C, py: C, next: nat)
    requires
        all_plain(ns),
    ensures
        ids_follow(flat_all(ns, px, py, next), next),
        anonymous_count(flat_all(ns, px, py, next)) == anonymous_in_all(ns),
    decreases ns,
{
    if ns.len() > 0 {
        let front = ns.drop_last();
        assert forall|i: int| 0 <= i < front.len() implies is_plain(#[trigger] front[i]) by {
            assert(front[i] == ns[i]);
        }
        let k = next + anonymous_in_all(front);
        lemma_ids_follow_all(front, px, py, next);
        assert(is_plain(ns[ns.len() - 1]));
        lemma_ids_follow(ns.last(), px, py, k);
        let a = flat_all(front, px, py, next);
        let b = flat(ns.last(), px, py, k);
        lemma_ids_follow_both(a, b, next);
        lemma_anonymous_count_adds(a, b);
    }
}

/// The id of a named node depends on its name alone, whatever else the scene
/// holds; the ids of anonymous nodes count up from one in drawing order.
pub proof fn law_ids_follow_names_and_order<C: Coord>(root: NodeModel<C>, i: int)
    requires
        is_plain(root),
        0 <= i < flattened(root).len(),
    ensures
        flattened(root)[i].author_id matches Some(name) ==> flattened(root)[i].id == named_id(name),
        flattened(root)[i].author_id is None ==> flattened(root)[i].id == ephemeral_id(
            1 + anonymous_count(flattened(root).take(i)),
        ),
        flattened(root)[i].id != spec_root_node_id(),
{
    lemma_ids_follow(root, C::spec_zero(), C::spec_zero(), 1);
    assert(id_follows(flattened(root), 1, i));
    match flattened(root)[i].author_id {
        Some(name) => {
            law_id_spaces_are_disjoint(name, 0);
        },
        None => {
            law_id_spaces_are_disjoint(
                Seq::empty(),
                1 + anonymous_count(flattened(root).take(i)),
            );
        },
    }
}

proof fn lemma_anonymous_count_grows<C>(fs: Seq<FlatModel<C>>, i: int, j: int)
    requires
        0 <= i < j <= fs.len(),
        fs[i].author_id is None,
    ensures
        anonymous_count(fs.take(i)) < anonymous_count(fs.take(j)),
    decreases j,
{
    let upto = fs.take(j);
    assert(upto.drop_last() =~= fs.take(j - 1));
    assert(upto.last() == fs[j - 1]);
    if i < j - 1 {
        lemma_anonymous_count_grows(fs, i, j - 1);
    }
}

proof fn lemma_anonymous_count_bound<C>(fs: Seq<FlatModel<C>>)
    ensures
        anonymous_count(fs) <= fs.len(),
    decreases fs.len(),
{
    if fs.len() > 0 {
        lemma_anonymous_count_bound(fs.drop_last());
    }
}

/// An anonymous node shares its id with no other node of the scene.
pub proof fn law_anonymous_ids_are_unique<C: Coord>(root: NodeModel<C>, i: int, j: int)
    requires
        is_plain(root),
        node_count(root) < 0x7fff_ffff_ffff_ffff,
        0 <= i < flattened(root).len(),
        0 <= j < flattened(root).len(),
        i != j,
        flattened(root)[i].author_id is None,
    ensures
        flattened(root)[i].id != flattened(root)[j].id,
{
    let fs = flattened(root);
    law_flattening_keeps_every_node(root);
    law_ids_follow_names_and_order(root, i);
    law_ids_follow_names_and_order(root, j);
    let a = 1 + anonymous_count(fs.take(i));
    let b = 1 + anonymous_count(fs.take(j));
    lemma_anonymous_count_bound(fs.take(i));
    lemma_anonymous_count_bound(fs.take(j));
    match fs[j].author_id {
        Some(name) => {
            law_id_spaces_are_disjoint(name, a);
        },
        None => {
            if i < j {
                lemma_anonymous_count_grows(fs, i, j);
            } else {
                lemma_anonymous_count_grows(fs, j, i);
            }
            law_ephemeral_ids_are_distinct(a, b);
        },
    }
}

/// Every child that a node lists stands after it.
pub open spec fn children_follow<C>(fs: Seq<FlatModel<C>>) -> bool {
    forall|i: int, c: int|
        0 <= i < fs.len() && 0 <= c < fs[i].child_ids.len() ==> stands_after(
            fs,
            i,
            #[trigger] fs[i].child_ids[c],
        )
}

/// A node with the id `id` stands after the place `i`.
pub open spec fn stands_after<C>(fs: Seq<FlatModel<C>>, i: int, id: NodeId) -> bool {
    exists|j: int| i < j < fs.len() && (#[trigger] fs[j]).id == id
}

proof fn lemma_children_follow_both<C>(a: Seq<FlatModel<C>>, b: Seq<FlatModel<C>>)
    requires
        children_follow(a),
        children_follow(b),
    ensures
        children_follow(a + b),
{
    let all = a + b;
    assert forall|i: int, c: int| 0 <= i < all.len() && 0 <= c < all[i].child_ids.len() implies
        stands_after(all, i, #[trigger] all[i].child_ids[c]) by {
        if i < a.len() {
            assert(stands_after(a, i, a[i].child_ids[c]));
            let j = choose|j: int| i < j < a.len() && (#[trigger] a[j]).id == a[i].child_ids[c];
            assert(all[j] == a[j]);
        } else {
            let k = i - a.len();
            assert(all[i] == b[k]);
            assert(stands_after(b, k, b[k].child_ids[c]));
            let j = choose|j: int| k < j < b.len() && (#[trigger] b[j]).id == b[k].child_ids[c];
            assert(all[a.len() + j] == b[j]);
        }
    }
}

/// The roots of a list of subtrees are in its flattened form.
proof fn lemma_roots_present<C: Coord>(ns: Seq<NodeModel<C>>, px: C, py: C, next: nat, k: int)
    requires
        all_plain(ns),
        0 <= k < ns.len(),
    ensures
        stands_after(flat_all(ns, px, py, next), -1, root_ids(ns, next)[k]),
    decreases ns,
{
    let front = ns.drop_last();
    let a = flat_all(front, px, py, next);
    let b = flat(ns.last(), px, py, next + anonymous_in_all(front));
    let all = flat_all(ns, px, py, next);
    assert(all =~= a + b);
    assert forall|i: int| 0 <= i < front.len() implies is_plain(#[trigger] front[i]) by {
        assert(front[i] == ns[i]);
    }
    if k < front.len() {
        lemma_roots_present(front, px, py, next, k);
        assert(front.take(k) =~= ns.take(k));
        let id = root_ids(ns, next)[k];
        assert(root_ids(front, next)[k] == id);
        let j = choose|j: int| -1 < j < a.len() && (#[trigger] a[j]).id == id;
        assert(all[j] == a[j]);
    } else {
        assert(ns.take(k) =~= front);
        assert(is_plain(ns[k]));
        assert(b[0].id == root_ids(ns, next)[k]);
        assert(all[a.len() as int] == b[0]);
    }
}

proof fn lemma_children_follow<C: Coord>(n: NodeModel<C>, px: C, py: C, next: nat)
    requires
        is_plain(n),
    ensures
        children_follow(flat(n, px, py, next)),
    decreases n,
{
    let first = head(n, px, py, next);
    match n {
        NodeModel::Frame(f) => {
            let (x, y) = (px.spec_plus(f.x), py.spec_plus(f.y));
            let start = next + anonymous(n);
            let below = flat_all(f.children, x, y, start);
            assert(all_plain(f.children));
            lemma_children_follow_all(f.children, x, y, start);
            let all = flat(n, px, py, next);
            assert(all =~= seq![first] + below);
            assert forall|i: int, c: int|
                0 <= i < all.len() && 0 <= c < all[i].child_ids.len() implies stands_after(
                all,
                i,
                #[trigger] all[i].child_ids[c],
            ) by {
                if i == 0 {
                    lemma_roots_present(f.children, x, y, start, c);
                    let id = root_ids(f.children, start)[c];
                    let j = choose|j: int| -1 < j < below.len() && (#[trigger] below[j]).id == id;
                    assert(all[j + 1] == below[j]);
                } else {
                    assert(all[i] == below[i - 1]);
                    assert(stands_after(below, i - 1, below[i - 1].child_ids[c]));
                    let j = choose|j: int|
                        i - 1 < j < below.len() && (#[trigger] below[j]).id
                            == below[i - 1].child_ids[c];
                    assert(all[j + 1] == below[j]);
                }
            }
        },
        _ => {},
    }
}

proof fn lemma_children_follow_all<C: Coord>(ns: Seq<NodeModel<C>>, px: C, py: C, next: nat)
    requires
        all_plain(ns),
    ensures
        children_follow(flat_all(ns, px, py, next)),
    decreases ns,
{
    if ns.len() > 0 {
        let front = ns.drop_last();
        assert forall|i: int| 0 <= i < front.len() implies is_plain(#[trigger] front[i]) by {
            assert(front[i] == ns[i]);
        }
        lemma_children_follow_all(front, px, py, next);
        assert(is_plain(ns[ns.len() - 1]));
        let k = next + anonymous_in_all(front);
        lemma_children_follow(ns.last(), px, py, k);
        lemma_children_follow_both(flat_all(front, px, py, next), flat(ns.last(), px, py, k));
    }
}

/// Drawing in list order draws children over their parents: every node stands
/// before all its children.
pub proof fn law_parents_stand_before_children<C: Coord>(root: NodeModel<C>)
    requires
        is_plain(root),
    ensures
        children_follow(flattened(root)),
{
    lemma_children_follow(root, C::spec_zero(), C::spec_zero(), 1);
}

/// The node at `i` is listed as a child by a frame before it.
pub open spec fn has_parent<C>(fs: Seq<FlatModel<C>>, i: int) -> bool {
    exists|j: int|
        0 <= j < i && (#[trigger] fs[j]).child_ids.contains(fs[i].id) && fs[j].kind is Frame
}

/// Every node has a parent, or an id among `roots`.
pub open spec fn all_have_parents<C>(
    fs: Seq<FlatModel<C>>,
    roots: Seq<NodeId>,
) -> bool {
    forall|i: int|
        0 <= i < fs.len() ==> #[trigger] has_parent(fs, i) || roots.contains(fs[i].id)
}

proof fn lemma_parents_both<C>(
    a: Seq<FlatModel<C>>,
    b: Seq<FlatModel<C>>,
    ra: Seq<NodeId>,
    rb: Seq<NodeId>,
    roots: Seq<NodeId>,
)
    requires
        all_have_parents(a, ra),
        all_have_parents(b, rb),
        forall|id: NodeId| #[trigger] ra.contains(id) ==> roots.contains(id),
        forall|id: NodeId| #[trigger] rb.contains(id) ==> roots.contains(id),
    ensures
        all_have_parents(a + b, roots),
{
    let all = a + b;
    assert forall|i: int| 0 <= i < all.len() implies #[trigger] has_parent(all, i)
        || roots.contains(all[i].id) by {
        if i < a.len() {
            assert(all[i] == a[i]);
            if has_parent(a, i) {
                let j = choose|j: int|
                    0 <= j < i && (#[trigger] a[j]).child_ids.contains(a[i].id)
                        && a[j].kind is Frame;
                assert(all[j] == a[j]);
            }
        } else {
            let k = i - a.len();
            assert(all[i] == b[k]);
            assert(has_parent(b, k) || rb.contains(b[k].id));
            if has_parent(b, k) {
                let j = choose|j: int|
                    0 <= j < k && (#[trigger] b[j]).child_ids.contains(b[k].id)
                        && b[j].kind is Frame;
                assert(all[a.len() + j] == b[j]);
            }
        }
    }
}

proof fn lemma_parents<C: Coord>(n: NodeModel<C>, px: C, py: C, next: nat)
    requires
        is_plain(n),
    ensures
        all_have_parents(flat(n, px, py, next), seq![minted_id(node_name(n), next)]),
        flat(n, px, py, next).len() > 0,
        flat(n, px, py, next)[0].id == minted_id(node_name(n), next),
        forall|i: int|
            0 < i < flat(n, px, py, next).len() ==> #[trigger] has_parent(
                flat(n, px, py, next),
                i,
            ),
    decreases n,
{
    let first = head(n, px, py, next);
    let roots = seq![minted_id(node_name(n), next)];
    let all = flat(n, px, py, next);
    match n {
        NodeModel::Frame(f) => {
            let (x, y) = (px.spec_plus(f.x), py.spec_plus(f.y));
            let start = next + anonymous(n);
            let below = flat_all(f.children, x, y, start);
            assert(all_plain(f.children));
            lemma_parents_all(f.children, x, y, start);
            assert(all =~= seq![first] + below);
            assert forall|i: int| 0 < i < all.len() implies #[trigger] has_parent(all, i) by {
                assert(all[i] == below[i - 1]);
                assert(has_parent(below, i - 1) || root_ids(f.children, start).contains(
                    below[i - 1].id,
                ));
                if has_parent(below, i - 1) {
                    let j = choose|j: int|
                        0 <= j < i - 1 && (#[trigger] below[j]).child_ids.contains(
                            below[i - 1].id,
                        ) && below[j].kind is Frame;
                    assert(all[j + 1] == below[j]);
                } else {
                    assert(all[0].child_ids.contains(all[i].id));
                }
            }
        },
        _ => {},
    }
    assert(roots[0] == all[0].id);
    assert forall|i: int| 0 <= i < all.len() implies #[trigger] has_parent(all, i)
        || roots.contains(all[i].id) by {}
}

proof fn lemma_parents_all<C: Coord>(ns: Seq<NodeModel<C>>, px: C, py: C, next: nat)
    requires
        all_plain(ns),
    ensures
        all_have_parents(flat_all(ns, px, py, next), root_ids(ns, next)),
    decreases ns,
{
    if ns.len() > 0 {
        let front = ns.drop_last();
        let last = ns.len() - 1;
        assert forall|i: int| 0 <= i < front.len() implies is_plain(#[trigger] front[i]) by {
            assert(front[i] == ns[i]);
        }
        let k = next + anonymous_in_all(front);
        lemma_parents_all(front, px, py, next);
        assert(is_plain(ns[last]));
        lemma_parents(ns.last(), px, py, k);
        let ra = root_ids(front, next);
        let rb = seq![minted_id(node_name(ns.last()), k)];
        let roots = root_ids(ns, next);
        assert forall|id: NodeId| #[trigger] ra.contains(id) implies roots.contains(
            id,
        ) by {
            let i = choose|i: int| 0 <= i < ra.len() && ra[i] == id;
            assert(front.take(i) =~= ns.take(i));
            assert(roots[i] == id);
        }
        assert forall|id: NodeId| #[trigger] rb.contains(id) implies roots.contains(
            id,
        ) by {
            assert(ns.take(last) =~= front);
            assert(roots[last] == rb[0]);
        }
        lemma_parents_both(
            flat_all(front, px, py, next),
            flat(ns.last(), px, py, k),
            ra,
            rb,
            roots,
        );
    }
}

/// Every node but the first is listed as a child by a frame before it.
pub proof fn law_nodes_have_parents<C: Coord>(root: NodeModel<C>, i: int)
    requires
        is_plain(root),
        0 < i < flattened(root).len(),
    ensures
        has_parent(flattened(root), i),
{
    lemma_parents(root, C::spec_zero(), C::spec_zero(), 1);
}

/// The node to which a way down the tree leads, from child number to child
/// number.
pub open spec fn node_on<C>(n: NodeModel<C>, way: Seq<int>) -> Option<NodeModel<C>>
    decreases way.len(),
{
    if way.len() == 0 {
        Some(n)
    } else {
        match n {
            NodeModel::Frame(f) => if 0 <= way[0] < f.children.len() {
                node_on(f.children[way[0]], way.drop_first())
            } else {
                None
            },
            _ => None,
        }
    }
}

/// How many nodes come before the one to which a way leads, if every node comes
/// before its children and these come one after the other, each with all that is
/// below it.
pub open spec fn place_on<C>(n: NodeModel<C>, way: Seq<int>) -> nat
    decreases way.len(),
{
    if way.len() == 0 {
        0
    } else {
        match n {
            NodeModel::Frame(f) => 1 + node_count_all(f.children.take(way[0])) + place_on(
                f.children[way[0]],
                way.drop_first(),
            ),
            _ => 0,
        }
    }
}

/// The horizontal offset of a node from its parent.
pub open spec fn offset_x<C>(n: NodeModel<C>) -> C {
    match n {
        NodeModel::Frame(f) => f.x,
        NodeModel::Text(t) => t.x,
        NodeModel::Image(i) => i.x,
        NodeModel::Condition { .. } => arbitrary(),
    }
}

/// The vertical offset of a node from its parent.
pub open spec fn offset_y<C>(n: NodeModel<C>) -> C {
    match n {
        NodeModel::Frame(f) => f.y,
        NodeModel::Text(t) => t.y,
        NodeModel::Image(i) => i.y,
        NodeModel::Condition { .. } => arbitrary(),
    }
}

/// A flattened node holds what its node holds, apart from positions and ids.
pub open spec fn shows<C>(m: FlatModel<C>, n: NodeModel<C>) -> bool {
    match n {
        NodeModel::Frame(f) => {
            &&& m.author_id == f.id
            &&& m.label == f.label
            &&& m.kind == (KindModel::Frame { background_color: f.background_color })
            &&& m.width == f.width
            &&& m.height == f.height
            &&& m.on_click == f.on_click
            &&& m.child_ids.len() == f.children.len()
        },
        NodeModel::Text(t) => {
            &&& m.author_id == t.id
            &&& m.label == t.label
            &&& m.kind == (KindModel::Text {
                content: t.content,
                font_size: t.font_size,
                color: t.color,
            })
            &&& m.width == t.width
            &&& m.height == t.height
            &&& m.on_click == t.on_click
            &&& m.child_ids.len() == 0
        },
        NodeModel::Image(i) => {
            &&& m.author_id == i.id
            &&& m.label == i.label
            &&& m.kind == (KindModel::<C>::Image { source: i.source, alt: i.alt })
            &&& m.width == i.width
            &&& m.height == i.height
            &&& m.on_click == i.on_click
            &&& m.child_ids.len() == 0
        },
        NodeModel::Condition { .. } => false,
    }
}

/// The flattened form of a list of subtrees holds that of each of them.
proof fn lemma_part<C: Coord>(ns: Seq<NodeModel<C>>, px: C, py: C, next: nat, k: int, m: int)
    requires
        0 <= k < ns.len(),
        0 <= m < node_count(ns[k]),
    ensures
        node_count_all(ns.take(k)) + m < flat_all(ns, px, py, next).len(),
        flat_all(ns, px, py, next)[node_count_all(ns.take(k)) + m] == flat(
            ns[k],
            px,
            py,
            next + anonymous_in_all(ns.take(k)),
        )[m],
    decreases ns,
{
    let front = ns.drop_last();
    let a = flat_all(front, px, py, next);
    let b = flat(ns.last(), px, py, next + anonymous_in_all(front));
    lemma_length_all(front, px, py, next);
    lemma_length(ns.last(), px, py, next + anonymous_in_all(front));
    assert(flat_all(ns, px, py, next) =~= a + b);
    if k < front.len() {
        assert(front.take(k) =~= ns.take(k));
        assert(decreases_to!(ns => front));
        lemma_part(front, px, py, next, k, m);
    } else {
        assert(ns.take(k) =~= front);
    }
}

/// A flattened subtree holds that of each child of its root, flattened from the
/// position of the root on.
pub(crate) proof fn lemma_child_part<C: Coord>(
    f: FrameModel<C>,
    px: C,
    py: C,
    next: nat,
    k: int,
    m: int,
)
    requires
        0 <= k < f.children.len(),
        0 <= m < node_count(f.children[k]),
    ensures
        ({
            let n = NodeModel::Frame(f);
            let at = 1 + node_count_all(f.children.take(k)) + m;
            let start = next + anonymous(n) + anonymous_in_all(f.children.take(k));
            &&& at < flat(n, px, py, next).len()
            &&& flat(n, px, py, next)[at] == flat(
                f.children[k],
                px.spec_plus(f.x),
                py.spec_plus(f.y),
                start,
            )[m]
        }),
{
    let n = NodeModel::Frame(f);
    let (x, y) = (px.spec_plus(f.x), py.spec_plus(f.y));
    lemma_part(f.children, x, y, next + anonymous(n), k, m);
    assert(flat(n, px, py, next) =~= seq![head(n, px, py, next)] + flat_all(
        f.children,
        x,
        y,
        next + anonymous(n),
    ));
}

/// The node to which a way leads stands at its place.
pub(crate) proof fn lemma_place<C: Coord>(n: NodeModel<C>, px: C, py: C, next: nat, way: Seq<int>)
    requires
        is_plain(n),
        node_on(n, way) is Some,
    ensures
        place_on(n, way) < node_count(n),
        flat(n, px, py, next).len() == node_count(n),
        shows(flat(n, px, py, next)[place_on(n, way) as int], node_on(n, way)->Some_0),
        is_plain(node_on(n, way)->Some_0),
    decreases way.len(),
{
    lemma_length(n, px, py, next);
    if way.len() > 0 {
        let f = n->Frame_0;
        let k = way[0];
        let rest = way.drop_first();
        let start = next + anonymous(n) + anonymous_in_all(f.children.take(k));
        assert(is_plain(f.children[k]));
        lemma_place(f.children[k], px.spec_plus(f.x), py.spec_plus(f.y), start, rest);
        lemma_child_part(f, px, py, next, k, place_on(f.children[k], rest) as int);
        lemma_length(n, px, py, next);
    }
}

/// Every node of a scene stands in its flattened form at its place, with all that
/// it shows: a node before its children, and these one after the other, each with
/// all that is below it. The first node stands at its own offset.
pub proof fn law_nodes_stand_at_their_place<C: Coord>(root: NodeModel<C>, way: Seq<int>)
    requires
        is_plain(root),
        node_on(root, way) is Some,
    ensures
        place_on(root, way) < flattened(root).len(),
        shows(flattened(root)[place_on(root, way) as int], node_on(root, way)->Some_0),
        flattened(root)[0].abs_x == C::spec_zero().spec_plus(offset_x(root)),
        flattened(root)[0].abs_y == C::spec_zero().spec_plus(offset_y(root)),
{
    lemma_place(root, C::spec_zero(), C::spec_zero(), 1, way);
}

/// A child stands behind its parent, at the position of the parent plus its own
/// offset, and the parent lists its id under its number.
proof fn lemma_child_of<C: Coord>(
    n: NodeModel<C>,
    px: C,
    py: C,
    next: nat,
    way: Seq<int>,
    k: int,
)
    requires
        is_plain(n),
        node_on(n, way.push(k)) is Some,
    ensures
        node_on(n, way) is Some,
        ({
            let fs = flat(n, px, py, next);
            let i = place_on(n, way) as int;
            let j = place_on(n, way.push(k)) as int;
            let child = node_on(n, way.push(k))->Some_0;
            &&& 0 <= i < j < fs.len()
            &&& fs[j].abs_x == fs[i].abs_x.spec_plus(offset_x(child))
            &&& fs[j].abs_y == fs[i].abs_y.spec_plus(offset_y(child))
            &&& 0 <= k < fs[i].child_ids.len()
            &&& fs[i].child_ids[k] == fs[j].id
        }),
    decreases way.len(),
{
    let f = n->Frame_0;
    let longer = way.push(k);
    let (x, y) = (px.spec_plus(f.x), py.spec_plus(f.y));
    let first = longer[0];
    let start = next + anonymous(n) + anonymous_in_all(f.children.take(first));
    assert(is_plain(f.children[first]));
    if way.len() == 0 {
        let child = f.children[k];
        let none = longer.drop_first();
        assert(none =~= Seq::empty());
        assert(node_on(child, none) == Some(child));
        assert(place_on(child, none) == 0);
        lemma_place(child, x, y, start, none);
        lemma_child_part(f, px, py, next, k, 0);
    } else {
        let rest = way.drop_first();
        let child = f.children[first];
        assert(longer.drop_first() =~= rest.push(k));
        lemma_child_of(child, x, y, start, rest, k);
        lemma_place(child, x, y, start, rest);
        lemma_place(child, x, y, start, rest.push(k));
        lemma_child_part(f, px, py, next, first, place_on(child, rest) as int);
        lemma_child_part(f, px, py, next, first, place_on(child, rest.push(k)) as int);
    }
}

/// Offsets add up, at every depth: a child stands at the absolute position of its
/// parent plus its own offset. It stands behind its parent, which lists its id
/// under its number.
pub proof fn law_offsets_add_up<C: Coord>(root: NodeModel<C>, way: Seq<int>, k: int)
    requires
        is_plain(root),
        node_on(root, way.push(k)) is Some,
    ensures
        ({
            let fs = flattened(root);
            let parent = place_on(root, way) as int;
            let child = place_on(root, way.push(k)) as int;
            let node = node_on(root, way.push(k))->Some_0;
            &&& 0 <= parent < child < fs.len()
            &&& fs[child].abs_x == fs[parent].abs_x.spec_plus(offset_x(node))
            &&& fs[child].abs_y == fs[parent].abs_y.spec_plus(offset_y(node))
            &&& 0 <= k < fs[parent].child_ids.len()
            &&& fs[parent].child_ids[k] == fs[child].id
        }),
{
    lemma_child_of(root, C::spec_zero(), C::spec_zero(), 1, way, k);
}

/// The child in whose subtree the node at `i` of a list of subtrees lies.
proof fn lemma_which_child<C>(ns: Seq<NodeModel<C>>, i: int) -> (k: int)
    requires
        0 <= i < node_count_all(ns),
    ensures
        0 <= k < ns.len(),
        0 <= i - node_count_all(ns.take(k)) < node_count(ns[k]),
    decreases ns.len(),
{
    let front = ns.drop_last();
    if i < node_count_all(front) {
        let k = lemma_which_child(front, i);
        assert(front.take(k) =~= ns.take(k));
        k
    } else {
        assert(ns.take(ns.len() - 1) =~= front);
        ns.len() - 1
    }
}

/// Every place is that of a node: a way leads there.
pub proof fn law_every_place_has_a_way<C>(n: NodeModel<C>, i: int) -> (way: Seq<int>)
    requires
        is_plain(n),
        0 <= i < node_count(n),
    ensures
        node_on(n, way) is Some,
        place_on(n, way) == i,
    decreases n,
{
    if i == 0 {
        Seq::empty()
    } else {
        let f = n->Frame_0;
        let k = lemma_which_child(f.children, i - 1);
        assert(is_plain(f.children[k]));
        assert(decreases_to!(n => f.children[k]));
        let rest = law_every_place_has_a_way(
            f.children[k],
            i - 1 - node_count_all(f.children.take(k)),
        );
        let way = seq![k] + rest;
        assert(way.drop_first() =~= rest);
        way
    }
}

/// A node keeps its label, its name and the number of its children when it is
/// flattened, and stands before all that is below it. The children are those of a
/// frame.
pub proof fn law_nodes_keep_their_label<C: Coord>(n: NodeModel<C>, px: C, py: C, next: nat)
    requires
        n !is Condition,
    ensures
        flat(n, px, py, next).len() > 0,
        flat(n, px, py, next)[0].label == node_label(n),
        flat(n, px, py, next)[0].author_id == node_name(n),
        flat(n, px, py, next)[0].child_ids.len() == node_children(n).len(),
        n matches NodeModel::Frame(f) ==> node_children(n) == f.children && node_label(n)
            == f.label,
        n matches NodeModel::Text(t) ==> node_label(n) == t.label,
        n matches NodeModel::Image(i) ==> node_label(n) == i.label,
{
}

} // verus!
