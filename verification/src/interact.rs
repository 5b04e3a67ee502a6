//! Interaction with a flattened scene: names, hits, and the environment that
//! expressions see.

use vstd::prelude::*;

use crate::args::{holds_text, law_texts_are_found_wherever_they_stand};
use crate::coord::Coord;
use crate::engine::EvalEnv;
use crate::flat::{flat_models, FlatModel, FlatNode};
use crate::json::{json_val, object_to_map, trees_of, Json, JsonTree};
use crate::number::{int_text, unsigned_text};
use crate::scene::{copy_opt, opt_text};
use crate::strmap::StrMap;
use crate::text::{quote, quoted, same_text};
use crate::value::{lemma_mapping, vals_of, EvalValue, Val};

verus! {

/// What is wrong with a flattened scene.
#[derive(Debug, PartialEq, Eq)]
pub enum SceneValidation {
    /// An author id stands on more than one node: the nodes share an id in the
    /// accessibility tree, and a click reaches only the first.
    DuplicateAuthorId {
        /// The repeated id.
        id: String,
        /// On how many nodes it stands.
        count: usize,
    },
}

impl SceneValidation {
    /// The message of this error, with the id in the quotes that `quoted` puts
    /// it in.
    pub fn message(&self) -> (r: String)
        ensures
            ({
                let SceneValidation::DuplicateAuthorId { id, count } = *self;
                r@ == duplicate_text(id@, count as int)
            }),
    {
        match self {
            SceneValidation::DuplicateAuthorId { id, count } => {
                let name = quote(id.as_str());
                "duplicate author id ".to_owned().concat(name.as_str()).concat(
                    " appears on ",
                ).concat(unsigned_text(*count as u64).as_str()).concat(
                    " flattened nodes; AT tree IDs alias and click dispatch is ambiguous",
                )
            },
        }
    }
}

/// The message about an id that stands on `count` nodes.
pub open spec fn duplicate_text(id: Seq<char>, count: int) -> Seq<char> {
    "duplicate author id "@ + quoted(id) + " appears on "@ + int_text(count)
        + " flattened nodes; AT tree IDs alias and click dispatch is ambiguous"@
}

/// On how many nodes the name stands.
pub open spec fn name_count<C>(fs: Seq<FlatModel<C>>, name: Seq<char>) -> nat
    decreases fs.len(),
{
    if fs.len() == 0 {
        0
    } else {
        name_count(fs.drop_last(), name) + (if fs.last().author_id == Some(name) {
            1nat
        } else {
            0nat
        })
    }
}

/// The name of the node at `i` stands on other nodes too.
pub open spec fn is_repeated<C>(fs: Seq<FlatModel<C>>, i: int) -> bool {
    fs[i].author_id is Some && name_count(fs, fs[i].author_id->Some_0) > 1
}

/// The node at `i` is the first whose name is repeated.
pub open spec fn first_repeated<C>(fs: Seq<FlatModel<C>>, i: int) -> bool {
    &&& 0 <= i < fs.len()
    &&& is_repeated(fs, i)
    &&& forall|j: int| 0 <= j < i ==> !is_repeated(fs, j)
}

/// Whether a node has the given name.
fn has_name<C: Coord>(n: &FlatNode<C>, name: &str) -> (r: bool)
    ensures
        r == (n@.author_id == Some(name@)),
{
    match &n.author_id {
        Some(s) => same_text(s.as_str(), name),
        None => false,
    }
}

/// Count the nodes that have the given name.
fn count_name<C: Coord>(flat: &[FlatNode<C>], name: &str) -> (r: usize)
    ensures
        r == name_count(flat_models(flat@), name@),
{
    let mut count: usize = 0;
    let mut i: usize = 0;
    let ghost fs = flat_models(flat@);
    assert(fs.take(0) =~= Seq::empty());
    while i < flat.len()
        invariant
            fs == flat_models(flat@),
            i <= flat@.len(),
            count <= i,
            count == name_count(fs.take(i as int), name@),
        decreases flat@.len() - i,
    {
        proof {
            assert(fs.take(i + 1).drop_last() =~= fs.take(i as int));
            assert(fs.take(i + 1).last() == flat@[i as int]@);
        }
        if has_name(&flat[i], name) {
            count = count + 1;
        }
        i = i + 1;
    }
    assert(fs.take(i as int) =~= fs);
    count
}

/// Reject a flattened scene in which an author id is repeated; the error is
/// about the first node, in list order, whose id is.
pub fn validate_flat<C: Coord>(flat: &[FlatNode<C>]) -> (r: Result<(), SceneValidation>)
    ensures
        match r {
            Ok(()) => forall|i: int|
                0 <= i < flat@.len() ==> !#[trigger] is_repeated(flat_models(flat@), i),
            Err(SceneValidation::DuplicateAuthorId { id, count }) => exists|i: int| #[trigger]
                first_repeated(flat_models(flat@), i) && flat_models(flat@)[i].author_id == Some(
                    id@,
                ) && count == name_count(flat_models(flat@), id@),
        },
{
    let ghost fs = flat_models(flat@);
    let mut i: usize = 0;
    while i < flat.len()
        invariant
            fs == flat_models(flat@),
            i <= flat@.len(),
            forall|j: int| 0 <= j < i ==> !#[trigger] is_repeated(fs, j),
        decreases flat@.len() - i,
    {
        assert(fs[i as int] == flat@[i as int]@);
        match &flat[i].author_id {
            Some(id) => {
                let count = count_name(flat, id.as_str());
                if count > 1 {
                    assert(first_repeated(fs, i as int));
                    return Err(SceneValidation::DuplicateAuthorId { id: id.clone(), count });
                }
            },
            None => {},
        }
        i = i + 1;
    }
    Ok(())
}

proof fn lemma_name_counts<C>(fs: Seq<FlatModel<C>>, name: Seq<char>, i: int)
    requires
        0 <= i < fs.len(),
        fs[i].author_id == Some(name),
    ensures
        name_count(fs, name) >= 1,
        forall|j: int|
            0 <= j < fs.len() && j != i && (#[trigger] fs[j]).author_id == Some(name)
                ==> name_count(fs, name) >= 2,
        name_count(fs, name) >= 2 ==> exists|j: int|
            0 <= j < fs.len() && j != i && (#[trigger] fs[j]).author_id == Some(name),
    decreases fs.len(),
{
    let front = fs.drop_last();
    let last = fs.len() - 1;
    if i < last {
        lemma_name_counts(front, name, i);
        assert forall|j: int|
            0 <= j < fs.len() && j != i && (#[trigger] fs[j]).author_id == Some(name) implies
            name_count(fs, name) >= 2 by {
            if j < last {
                assert(front[j].author_id == Some(name));
            }
        }
        if name_count(fs, name) >= 2 {
            if fs[last].author_id != Some(name) {
                let j = choose|j: int|
                    0 <= j < front.len() && j != i && (#[trigger] front[j]).author_id == Some(name);
                assert(fs[j].author_id == Some(name));
            }
        }
    } else {
        if name_count(fs, name) >= 2 {
            let j = lemma_counted_is_there(front, name);
            assert(fs[j].author_id == Some(name));
        }
        assert forall|j: int|
            0 <= j < fs.len() && j != i && (#[trigger] fs[j]).author_id == Some(name) implies
            name_count(fs, name) >= 2 by {
            assert(front[j].author_id == Some(name));
            lemma_name_counts(front, name, j);
        }
    }
}

proof fn lemma_counted_is_there<C>(fs: Seq<FlatModel<C>>, name: Seq<char>) -> (j: int)
    requires
        name_count(fs, name) >= 1,
    ensures
        0 <= j < fs.len(),
        fs[j].author_id == Some(name),
    decreases fs.len(),
{
    if fs.last().author_id == Some(name) {
        fs.len() - 1
    } else {
        lemma_counted_is_there(fs.drop_last(), name)
    }
}

/// A scene is accepted exactly if no two of its nodes have the same name.
pub proof fn law_accepted_scenes_have_unique_names<C>(fs: Seq<FlatModel<C>>)
    ensures
        (forall|i: int| 0 <= i < fs.len() ==> !#[trigger] is_repeated(fs, i)) <==> (forall|
            i: int,
            j: int,
        |
            0 <= i < fs.len() && 0 <= j < fs.len() && i != j && (#[trigger] fs[i]).author_id is Some
                ==> fs[i].author_id != (#[trigger] fs[j]).author_id),
{
    if forall|i: int| 0 <= i < fs.len() ==> !#[trigger] is_repeated(fs, i) {
        assert forall|i: int, j: int|
            0 <= i < fs.len() && 0 <= j < fs.len() && i != j && (#[trigger] fs[i]).author_id is Some
            implies fs[i].author_id != (#[trigger] fs[j]).author_id by {
            let name = fs[i].author_id->Some_0;
            lemma_name_counts(fs, name, i);
            assert(!is_repeated(fs, i));
        }
    }
    if forall|i: int, j: int|
        0 <= i < fs.len() && 0 <= j < fs.len() && i != j && (#[trigger] fs[i]).author_id is Some
            ==> fs[i].author_id != (#[trigger] fs[j]).author_id {
        assert forall|i: int| 0 <= i < fs.len() implies !#[trigger] is_repeated(fs, i) by {
            if fs[i].author_id is Some {
                let name = fs[i].author_id->Some_0;
                lemma_name_counts(fs, name, i);
            }
        }
    }
}

/// Whether the pointer at `(x, y)` hits a node: only named nodes can be hit,
/// and their right and bottom edges are outside.
pub open spec fn is_hit<C: Coord>(n: FlatModel<C>, x: C, y: C) -> bool {
    &&& n.author_id is Some
    &&& x.spec_at_least(n.abs_x)
    &&& x.spec_below(n.abs_x.spec_plus(n.width))
    &&& y.spec_at_least(n.abs_y)
    &&& y.spec_below(n.abs_y.spec_plus(n.height))
}

/// The node at `i` is the last that is hit.
pub open spec fn topmost_hit<C: Coord>(fs: Seq<FlatModel<C>>, x: C, y: C, i: int) -> bool {
    &&& 0 <= i < fs.len()
    &&& is_hit(fs[i], x, y)
    &&& forall|j: int| i < j < fs.len() ==> !is_hit(#[trigger] fs[j], x, y)
}

/// The topmost node at the pointer position, which is the last drawn.
pub fn hit_test<C: Coord>(flat: &[FlatNode<C>], x: C, y: C) -> (r: Option<&FlatNode<C>>)
    ensures
        match r {
            Some(n) => exists|i: int| #[trigger]
                topmost_hit(flat_models(flat@), x, y, i) && *n == flat@[i],
            None => forall|i: int|
                0 <= i < flat@.len() ==> !is_hit(#[trigger] flat_models(flat@)[i], x, y),
        },
{
    let ghost fs = flat_models(flat@);
    let mut i: usize = flat.len();
    while i > 0
        invariant
            fs == flat_models(flat@),
            i <= flat@.len(),
            forall|j: int| i <= j < fs.len() ==> !is_hit(#[trigger] fs[j], x, y),
        decreases i,
    {
        i = i - 1;
        let n = &flat[i];
        assert(fs[i as int] == n@);
        if n.author_id.is_some() && x.at_least(n.abs_x) && x.below(n.abs_x.plus(n.width))
            && y.at_least(n.abs_y) && y.below(n.abs_y.plus(n.height)) {
            assert(topmost_hit(fs, x, y, i as int));
            return Some(n);
        }
    }
    None
}

/// The name of the topmost node at the pointer position.
pub open spec fn hit_name<C: Coord>(fs: Seq<FlatModel<C>>, x: C, y: C) -> Option<Seq<char>> {
    if exists|i: int| topmost_hit(fs, x, y, i) {
        fs[choose|i: int| topmost_hit(fs, x, y, i)].author_id
    } else {
        None
    }
}

/// There is at most one topmost hit.
pub proof fn lemma_topmost_is_unique<C: Coord>(fs: Seq<FlatModel<C>>, x: C, y: C, i: int, j: int)
    requires
        topmost_hit(fs, x, y, i),
        topmost_hit(fs, x, y, j),
    ensures
        i == j,
{
    if i < j {
        assert(!is_hit(fs[j], x, y));
    }
    if j < i {
        assert(!is_hit(fs[i], x, y));
    }
}

/// The name of the topmost node at the pointer position.
pub fn hit_author_id<C: Coord>(flat: &[FlatNode<C>], x: C, y: C) -> (r: Option<String>)
    ensures
        opt_text(r) == hit_name(flat_models(flat@), x, y),
{
    let ghost fs = flat_models(flat@);
    match hit_test(flat, x, y) {
        Some(n) => {
            proof {
                let i = choose|i: int| #[trigger] topmost_hit(fs, x, y, i) && *n == flat@[i];
                let k = choose|k: int| topmost_hit(fs, x, y, k);
                lemma_topmost_is_unique(fs, x, y, i, k);
                assert(fs[i] == n@);
            }
            copy_opt(&n.author_id)
        },
        None => {
            assert forall|i: int| !topmost_hit(fs, x, y, i) by {
                if topmost_hit(fs, x, y, i) {
                    assert(!is_hit(fs[i], x, y));
                }
            }
            None
        },
    }
}

/// The names of the nodes that the pointer is over and was pressed on.
#[derive(Debug, PartialEq)]
pub struct InteractionState {
    /// The node that the pointer is over, if any.
    pub hovered: Option<String>,
    /// The node on which the button was pressed and is still held, if any.
    pub pressed: Option<String>,
}

/// What an [`InteractionState`] stands for.
pub struct InteractionModel {
    /// The node that the pointer is over.
    pub hovered: Option<Seq<char>>,
    /// The node on which the button was pressed.
    pub pressed: Option<Seq<char>>,
}

impl View for InteractionState {
    type V = InteractionModel;

    open spec fn view(&self) -> InteractionModel {
        InteractionModel { hovered: opt_text(self.hovered), pressed: opt_text(self.pressed) }
    }
}

/// Nothing is hovered and nothing is pressed.
pub open spec fn idle() -> InteractionModel {
    InteractionModel { hovered: None, pressed: None }
}

impl Default for InteractionState {
    fn default() -> (r: Self)
        ensures
            r@ == idle(),
    {
        InteractionState { hovered: None, pressed: None }
    }
}

impl Clone for InteractionState {
    fn clone(&self) -> (r: Self)
        ensures
            r@ == self@,
    {
        InteractionState { hovered: copy_opt(&self.hovered), pressed: copy_opt(&self.pressed) }
    }
}

/// A node with the given name is there.
pub open spec fn is_present<C>(fs: Seq<FlatModel<C>>, name: Seq<char>) -> bool {
    exists|i: int| 0 <= i < fs.len() && (#[trigger] fs[i]).author_id == Some(name)
}

/// A name, if a node with it is there.
pub open spec fn still_there<C>(fs: Seq<FlatModel<C>>, name: Option<Seq<char>>) -> Option<
    Seq<char>,
> {
    match name {
        Some(s) => if is_present(fs, s) {
            Some(s)
        } else {
            None
        },
        None => None,
    }
}

/// Interaction state without the names that are no longer there.
pub open spec fn refreshed<C>(m: InteractionModel, fs: Seq<FlatModel<C>>) -> InteractionModel {
    InteractionModel { hovered: still_there(fs, m.hovered), pressed: still_there(fs, m.pressed) }
}

/// Whether a node with the given name is there.
fn name_present<C: Coord>(flat: &[FlatNode<C>], name: &str) -> (r: bool)
    ensures
        r == is_present(flat_models(flat@), name@),
{
    let ghost fs = flat_models(flat@);
    let mut i: usize = 0;
    while i < flat.len()
        invariant
            fs == flat_models(flat@),
            i <= flat@.len(),
            forall|j: int| 0 <= j < i ==> (#[trigger] fs[j]).author_id != Some(name@),
        decreases flat@.len() - i,
    {
        assert(fs[i as int] == flat@[i as int]@);
        if has_name(&flat[i], name) {
            return true;
        }
        i = i + 1;
    }
    false
}

/// After a rebuild, drop hovered and pressed names whose nodes are gone.
pub fn refresh_interaction_after_rebuild<C: Coord>(
    interaction: &mut InteractionState,
    flat: &[FlatNode<C>],
)
    ensures
        final(interaction)@ == refreshed(old(interaction)@, flat_models(flat@)),
{
    let hovered_gone = match &interaction.hovered {
        Some(h) => !name_present(flat, h.as_str()),
        None => false,
    };
    if hovered_gone {
        interaction.hovered = None;
    }
    let pressed_gone = match &interaction.pressed {
        Some(p) => !name_present(flat, p.as_str()),
        None => false,
    };
    if pressed_gone {
        interaction.pressed = None;
    }
}

/// Names that are there stay, so a second refresh changes nothing.
pub proof fn law_refresh_settles_at_once<C>(m: InteractionModel, fs: Seq<FlatModel<C>>)
    ensures
        refreshed(refreshed(m, fs), fs) == refreshed(m, fs),
        refreshed(m, fs).hovered matches Some(h) ==> is_present(fs, h) && m.hovered == Some(h),
        refreshed(m, fs).pressed matches Some(p) ==> is_present(fs, p) && m.pressed == Some(p),
{
}

/// A name as a value: text, or missing.
pub open spec fn name_val(name: Option<Seq<char>>) -> Val {
    match name {
        Some(s) => Val::Str(s),
        None => Val::Null,
    }
}

/// What expressions see of interaction state.
pub open spec fn ui_val(m: InteractionModel) -> Val {
    Val::Mapping(
        Map::<Seq<char>, Val>::empty().insert("hovered"@, name_val(m.hovered)).insert(
            "pressed"@,
            name_val(m.pressed),
        ),
    )
}

/// What expressions see of scene state.
pub open spec fn state_val(state: Map<Seq<char>, JsonTree>) -> Val {
    Val::Mapping(
        Map::new(|k: Seq<char>| state.contains_key(k), |k: Seq<char>| json_val(state[k])),
    )
}

/// The environment of expressions: `ui` and `state`, and nothing else.
pub open spec fn scene_env(m: InteractionModel, state: Map<Seq<char>, JsonTree>) -> Map<
    Seq<char>,
    Val,
> {
    Map::<Seq<char>, Val>::empty().insert("ui"@, ui_val(m)).insert("state"@, state_val(state))
}

/// A name as a value.
fn name_value(name: &Option<String>) -> (r: EvalValue)
    ensures
        r@ == name_val(opt_text(*name)),
{
    match name {
        Some(s) => EvalValue::String(s.clone()),
        None => EvalValue::Null,
    }
}

/// Build the environment of expressions from interaction state and scene state.
pub fn build_eval_env(interaction: &InteractionState, state: &StrMap<Json>) -> (r: EvalEnv)
    ensures
        r@ == scene_env(interaction@, trees_of(state@)),
{
    let mut ui: StrMap<EvalValue> = StrMap::new();
    ui.insert("hovered".to_owned(), name_value(&interaction.hovered));
    ui.insert("pressed".to_owned(), name_value(&interaction.pressed));
    let state_map = object_to_map(state);
    proof {
        lemma_mapping(ui);
        lemma_mapping(state_map);
        assert(vals_of(ui@) =~= ui_val(interaction@)->Mapping_0);
        assert(vals_of(state_map@) =~= state_val(trees_of(state@))->Mapping_0);
    }
    let mut env = EvalEnv::new();
    env.set("ui", EvalValue::Mapping(ui));
    env.set("state", EvalValue::Mapping(state_map));
    env
}

/// With whole pixels, a node that is hit holds the point: the point is at or
/// right of its left edge and left of its right edge, at or below its top edge
/// and above its bottom edge. A named node that holds the point is hit, where
/// its edges lie on the surface.
pub proof fn law_hits_lie_inside(n: FlatModel<i32>, x: i32, y: i32)
    ensures
        is_hit(n, x, y) ==> n.author_id is Some && n.abs_x <= x < n.abs_x + n.width && n.abs_y <= y
            < n.abs_y + n.height,
        n.author_id is Some && n.abs_x <= x < n.abs_x + n.width <= i32::MAX && n.abs_y <= y
            < n.abs_y + n.height <= i32::MAX ==> is_hit(n, x, y),
{
}

/// The pointer names the last of the nodes that are named and hold it: the one
/// at `i`, if it holds the pointer and none after it does; and no node if none
/// does. A node holds what is neither left of, nor above, nor at or past the
/// right or the bottom edge.
pub proof fn law_the_topmost_node_is_hit<C: Coord>(fs: Seq<FlatModel<C>>, x: C, y: C, i: int)
    ensures
        0 <= i < fs.len() && fs[i].author_id is Some && x.spec_at_least(fs[i].abs_x)
            && x.spec_below(fs[i].abs_x.spec_plus(fs[i].width)) && y.spec_at_least(fs[i].abs_y)
            && y.spec_below(fs[i].abs_y.spec_plus(fs[i].height)) && (forall|j: int|
            i < j < fs.len() ==> (#[trigger] fs[j]).author_id is None || !x.spec_at_least(
                fs[j].abs_x,
            ) || !x.spec_below(fs[j].abs_x.spec_plus(fs[j].width)) || !y.spec_at_least(
                fs[j].abs_y,
            ) || !y.spec_below(fs[j].abs_y.spec_plus(fs[j].height))) ==> hit_name(fs, x, y)
            == fs[i].author_id,
        (forall|j: int|
            0 <= j < fs.len() ==> (#[trigger] fs[j]).author_id is None || !x.spec_at_least(
                fs[j].abs_x,
            ) || !x.spec_below(fs[j].abs_x.spec_plus(fs[j].width)) || !y.spec_at_least(
                fs[j].abs_y,
            ) || !y.spec_below(fs[j].abs_y.spec_plus(fs[j].height))) ==> hit_name(fs, x, y) is None,
{
    if 0 <= i < fs.len() && is_hit(fs[i], x, y) && (forall|j: int|
        i < j < fs.len() ==> !is_hit(#[trigger] fs[j], x, y)) {
        assert(topmost_hit(fs, x, y, i));
        lemma_topmost_is_unique(fs, x, y, i, choose|k: int| topmost_hit(fs, x, y, k));
    }
    if exists|k: int| topmost_hit(fs, x, y, k) {
        let k = choose|k: int| topmost_hit(fs, x, y, k);
        assert(is_hit(fs[k], x, y));
    }
}

/// Of the names that were hovered and pressed, a refresh keeps those that a node
/// has, and no others.
pub proof fn law_refresh_keeps_names_that_are_there<C>(m: InteractionModel, fs: Seq<FlatModel<C>>)
    ensures
        m.hovered matches Some(h) ==> refreshed(m, fs).hovered == (if exists|i: int|
            0 <= i < fs.len() && (#[trigger] fs[i]).author_id == Some(h) {
            Some(h)
        } else {
            None
        }),
        m.pressed matches Some(p) ==> refreshed(m, fs).pressed == (if exists|i: int|
            0 <= i < fs.len() && (#[trigger] fs[i]).author_id == Some(p) {
            Some(p)
        } else {
            None
        }),
        m.hovered is None ==> refreshed(m, fs).hovered is None,
        m.pressed is None ==> refreshed(m, fs).pressed is None,
{
}

/// Expressions see `ui` and `state`: under `ui` the names that are hovered and
/// pressed, missing where there are none, and under `state` every field of scene
/// state as the value of its JSON, and no other.
pub proof fn law_expressions_see_interaction_and_state(
    m: InteractionModel,
    state: Map<Seq<char>, JsonTree>,
    key: Seq<char>,
)
    ensures
        scene_env(m, state).contains_key(key) <==> key == "ui"@ || key == "state"@,
        scene_env(m, state)["ui"@] matches Val::Mapping(ui) && {
            &&& ui.contains_key(key) <==> key == "hovered"@ || key == "pressed"@
            &&& ui["hovered"@] == match m.hovered {
                Some(h) => Val::Str(h),
                None => Val::Null,
            }
            &&& ui["pressed"@] == match m.pressed {
                Some(p) => Val::Str(p),
                None => Val::Null,
            }
        },
        scene_env(m, state)["state"@] matches Val::Mapping(st) && {
            &&& st.contains_key(key) <==> state.contains_key(key)
            &&& state.contains_key(key) ==> st[key] == json_val(state[key])
        },
{
    reveal_strlit("ui");
    reveal_strlit("state");
    reveal_strlit("hovered");
    reveal_strlit("pressed");
    assert("ui"@.len() != "state"@.len());
    assert("hovered"@[0] != "pressed"@[0]);
}

/// The count that comes with a repeated name is the number of nodes that have it.
pub proof fn law_counted_names_are_there<C>(fs: Seq<FlatModel<C>>, name: Seq<char>)
    ensures
        name_count(fs, name) == fs.filter(
            |n: FlatModel<C>| n.author_id == Some(name),
        ).len(),
    decreases fs.len(),
{
    reveal(Seq::filter);
    if fs.len() > 0 {
        law_counted_names_are_there(fs.drop_last(), name);
    }
}

/// The message about a repeated name holds the name and the count.
pub proof fn law_repeated_names_are_told(id: Seq<char>, count: int)
    ensures
        duplicate_text(id, count) == "duplicate author id "@ + quoted(id) + " appears on "@
            + int_text(count)
            + " flattened nodes; AT tree IDs alias and click dispatch is ambiguous"@,
{
}

/// The message about a repeated id names the id and says on how many nodes it
/// stands.
pub proof fn law_repeated_ids_are_named(id: Seq<char>, count: int)
    ensures
        holds_text(duplicate_text(id, count), quoted(id)),
        holds_text(duplicate_text(id, count), int_text(count)),
{
    let end = " flattened nodes; AT tree IDs alias and click dispatch is ambiguous"@;
    let start = "duplicate author id "@;
    let rest = " appears on "@ + int_text(count) + end;
    law_texts_are_found_wherever_they_stand(start, quoted(id), rest, quoted(id));
    assert(duplicate_text(id, count) =~= start + quoted(id) + rest);
    let before = start + quoted(id) + " appears on "@;
    law_texts_are_found_wherever_they_stand(before, int_text(count), end, int_text(count));
    assert(duplicate_text(id, count) =~= before + int_text(count) + end);
}

} // verus!
