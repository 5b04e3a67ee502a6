//! The shape of scene files.

use vstd::prelude::*;

use crate::args::{holds_text, law_texts_are_found_wherever_they_stand, stands_at};
use crate::json::{lemma_object, trees_of, Json, JsonTree};
use crate::strmap::{ascending, key_index, lemma_entry, StrMap};
use crate::text::{key_before, lemma_key_before_irreflexive, lemma_key_before_transitive, same_text};

verus! {

/// A placeholder message.
#[derive(Debug, Clone, Copy, PartialEq, Eq, Structural)]
pub struct WirePlaceholder {
    /// Version of the format.
    pub version: u32,
}

/// A file holds a bare node rather than a node with state: it is an object with
/// a `type`, which every node has and a wrapper has not.
pub open spec fn is_bare(top: JsonTree) -> bool {
    top matches JsonTree::Object(m) && m.contains_key("type"@)
}

/// Whether a file holds a bare node.
pub fn is_bare_node(top: &Json) -> (r: bool)
    ensures
        r == is_bare(top@),
{
    match top {
        Json::Object(m) => {
            proof {
                lemma_object(*m);
            }
            m.contains_key("type")
        },
        _ => false,
    }
}

/// Why a file holds no scene.
#[derive(Debug, PartialEq)]
pub enum SceneShapeError {
    /// It has this field beside `state` and `root`.
    UnknownField(String),
    /// Its `state` is not an object.
    StateIsNoObject,
    /// It has no `root`.
    MissingRoot,
    /// It is not an object, nor a list of a state and a root.
    NoScene,
}

/// What a [`SceneShapeError`] stands for.
pub enum ShapeFault {
    /// An unknown field.
    UnknownField(Seq<char>),
    /// A state that is not an object.
    StateIsNoObject,
    /// A missing root.
    MissingRoot,
    /// Something else altogether.
    NoScene,
}

impl View for SceneShapeError {
    type V = ShapeFault;

    open spec fn view(&self) -> ShapeFault {
        match *self {
            SceneShapeError::UnknownField(name) => ShapeFault::UnknownField(name@),
            SceneShapeError::StateIsNoObject => ShapeFault::StateIsNoObject,
            SceneShapeError::MissingRoot => ShapeFault::MissingRoot,
            SceneShapeError::NoScene => ShapeFault::NoScene,
        }
    }
}

/// A fault in words.
pub open spec fn fault_text(fault: ShapeFault) -> Seq<char> {
    match fault {
        ShapeFault::UnknownField(name) => "unknown field `"@ + name
            + "`, expected `state` or `root`"@,
        ShapeFault::StateIsNoObject => "invalid type of `state`, expected a map"@,
        ShapeFault::MissingRoot => "missing field `root`"@,
        ShapeFault::NoScene => "expected a scene: a node, or a `state` and a `root`"@,
    }
}

impl SceneShapeError {
    /// The fault in words.
    pub fn message(&self) -> (r: String)
        ensures
            r@ == fault_text(self@),
    {
        match self {
            SceneShapeError::UnknownField(name) => "unknown field `".to_owned().concat(
                name.as_str(),
            ).concat("`, expected `state` or `root`"),
            SceneShapeError::StateIsNoObject => "invalid type of `state`, expected a map".to_owned(),
            SceneShapeError::MissingRoot => "missing field `root`".to_owned(),
            SceneShapeError::NoScene => {
                "expected a scene: a node, or a `state` and a `root`".to_owned()
            },
        }
    }
}

/// The names of fields that files are told apart by are different.
proof fn lemma_field_names()
    ensures
        "state"@ != "root"@,
        "state"@ != "type"@,
        "root"@ != "type"@,
{
    reveal_strlit("state");
    reveal_strlit("root");
    reveal_strlit("type");
    assert("state"@.len() != "root"@.len());
    assert("state"@.len() != "type"@.len());
    assert("root"@[0] != "type"@[0]);
}

/// A wrapper may not have the field `key` with the value `value`: there is a
/// root, which may be any value, a state, which is an object, and nothing else.
pub open spec fn is_refused(key: Seq<char>, value: JsonTree) -> bool {
    key != "root"@ && !(key == "state"@ && value is Object)
}

/// The first field in key order that a wrapper may not have is `key`.
pub open spec fn is_first_refused(fields: Map<Seq<char>, JsonTree>, key: Seq<char>) -> bool {
    &&& fields.contains_key(key)
    &&& is_refused(key, fields[key])
    &&& forall|other: Seq<char>| #[trigger]
        fields.contains_key(other) && key_before(other, key) ==> !is_refused(other, fields[other])
}

/// The fault of a field that a wrapper may not have.
pub open spec fn refusal(key: Seq<char>) -> ShapeFault {
    if key == "state"@ {
        ShapeFault::StateIsNoObject
    } else {
        ShapeFault::UnknownField(key)
    }
}

/// The state and the root that a file holds. A bare node is a root with an
/// empty state. A wrapper has a root and may have a state; the first field that
/// does not belong there decides what is wrong with it.
pub open spec fn opened(top: JsonTree) -> Result<
    (Map<Seq<char>, JsonTree>, JsonTree),
    ShapeFault,
> {
    if is_bare(top) {
        Ok((Map::empty(), top))
    } else {
        match top {
            JsonTree::Object(fields) => if exists|key: Seq<char>|
                fields.contains_key(key) && is_refused(key, #[trigger] fields[key]) {
                Err(refusal(choose|key: Seq<char>| is_first_refused(fields, key)))
            } else if !fields.contains_key("root"@) {
                Err(ShapeFault::MissingRoot)
            } else if fields.contains_key("state"@) {
                Ok((fields["state"@]->Object_0, fields["root"@]))
            } else {
                Ok((Map::empty(), fields["root"@]))
            },
            JsonTree::Array(items) => if items.len() == 2 && items[0] is Object {
                Ok((items[0]->Object_0, items[1]))
            } else {
                Err(ShapeFault::NoScene)
            },
            _ => Err(ShapeFault::NoScene),
        }
    }
}

/// What the result of [`open_scene`] stands for.
pub open spec fn opened_view(r: Result<(StrMap<Json>, Json), SceneShapeError>) -> Result<
    (Map<Seq<char>, JsonTree>, JsonTree),
    ShapeFault,
> {
    match r {
        Ok((state, root)) => Ok((trees_of(state@), root@)),
        Err(fault) => Err(fault@),
    }
}

/// The state and the root that a file holds.
pub fn open_scene(top: &Json) -> (r: Result<(StrMap<Json>, Json), SceneShapeError>)
    ensures
        opened_view(r) == opened(top@),
{
    if is_bare_node(top) {
        let state: StrMap<Json> = StrMap::new();
        assert(trees_of(state@) =~= Map::empty());
        return Ok((state, top.clone()));
    }
    match top {
        Json::Object(fields) => {
            proof {
                lemma_object(*fields);
            }
            open_wrapper(fields)
        },
        Json::Array(items) => {
            if items.len() == 2 {
                match &items[0] {
                    Json::Object(state) => {
                        proof {
                            lemma_object(*state);
                        }
                        let state = state.clone();
                        assert(trees_of(state@) =~= top@->Array_0[0]->Object_0);
                        Ok((state, items[1].clone()))
                    },
                    _ => Err(SceneShapeError::NoScene),
                }
            } else {
                Err(SceneShapeError::NoScene)
            }
        },
        _ => Err(SceneShapeError::NoScene),
    }
}

/// The state and the root of a wrapper.
fn open_wrapper(fields: &StrMap<Json>) -> (r: Result<(StrMap<Json>, Json), SceneShapeError>)
    requires
        !trees_of(fields@).contains_key("type"@),
    ensures
        opened_view(r) == opened(JsonTree::Object(trees_of(fields@))),
{
    let ghost tree = trees_of(fields@);
    proof {
        use_type_invariant(fields);
    }
    let mut i: usize = 0;
    while i < fields.entries.len()
        invariant
            i <= fields.entries@.len(),
            ascending(fields.entries@),
            tree == trees_of(fields@),
            !tree.contains_key("type"@),
            forall|j: int|
                0 <= j < i ==> !is_refused(
                    (#[trigger] fields.entries@[j]).0@,
                    fields.entries@[j].1@,
                ),
        decreases fields.entries@.len() - i,
    {
        let key = fields.entries[i].0.as_str();
        let value_is_object = matches!(&fields.entries[i].1, Json::Object(_));
        if !same_text(key, "root") && !(same_text(key, "state") && value_is_object) {
            proof {
                lemma_first_refused(*fields, i as int);
            }
            return if same_text(key, "state") {
                Err(SceneShapeError::StateIsNoObject)
            } else {
                Err(SceneShapeError::UnknownField(key.to_owned()))
            };
        }
        i = i + 1;
    }
    proof {
        lemma_field_names();
        assert forall|key: Seq<char>| tree.contains_key(key) implies !is_refused(
            key,
            #[trigger] tree[key],
        ) by {
            let j = key_index(fields.entries@, key);
            lemma_entry(fields.entries@, j);
        }
    }
    match fields.get("root") {
        None => Err(SceneShapeError::MissingRoot),
        Some(root) => match fields.get("state") {
            None => {
                let state: StrMap<Json> = StrMap::new();
                assert(trees_of(state@) =~= Map::empty());
                Ok((state, root.clone()))
            },
            Some(Json::Object(state)) => {
                proof {
                    lemma_object(*state);
                    assert(tree["state"@] == JsonTree::Object(trees_of(state@)));
                }
                let state = state.clone();
                assert(trees_of(state@) =~= tree["state"@]->Object_0);
                Ok((state, root.clone()))
            },
            Some(_) => {
                assert(!is_refused("state"@, tree["state"@]));
                Err(SceneShapeError::StateIsNoObject)
            },
        },
    }
}

/// The first entry with a field that does not belong there holds the first such
/// field in key order.
proof fn lemma_first_refused(fields: StrMap<Json>, i: int)
    requires
        ascending(fields.entries@),
        0 <= i < fields.entries@.len(),
        is_refused(fields.entries@[i].0@, fields.entries@[i].1@),
        forall|j: int|
            0 <= j < i ==> !is_refused(
                (#[trigger] fields.entries@[j]).0@,
                fields.entries@[j].1@,
            ),
    ensures
        is_first_refused(trees_of(fields@), fields.entries@[i].0@),
        forall|key: Seq<char>| #[trigger]
            is_first_refused(trees_of(fields@), key) ==> key == fields.entries@[i].0@,
{
    let entries = fields.entries@;
    let tree = trees_of(fields@);
    let first = entries[i].0@;
    lemma_entry(entries, i);
    assert forall|other: Seq<char>| #[trigger] tree.contains_key(other) && key_before(other, first)
        implies !is_refused(other, tree[other]) by {
        let j = key_index(entries, other);
        lemma_entry(entries, j);
        if j > i {
            assert(key_before(entries[i].0@, entries[j].0@));
            lemma_key_before_transitive(other, first, other);
            lemma_key_before_irreflexive(other);
        }
        if j == i {
            lemma_key_before_irreflexive(other);
        }
    }
    assert forall|key: Seq<char>| #[trigger] is_first_refused(tree, key) implies key == first by {
        let j = key_index(entries, key);
        lemma_entry(entries, j);
        if i < j {
            assert(key_before(entries[i].0@, entries[j].0@));
            assert(tree.contains_key(first) && key_before(first, key));
        }
        if j < i {
            assert(!is_refused(entries[j].0@, entries[j].1@));
        }
    }
}

/// A file that holds a state and a root.
pub open spec fn wrapped(state: Map<Seq<char>, JsonTree>, root: JsonTree) -> JsonTree {
    JsonTree::Object(map!["root"@ => root, "state"@ => JsonTree::Object(state)])
}

/// The file that holds a state and a root.
pub fn wrap_scene(state: StrMap<Json>, root: Json) -> (r: Json)
    ensures
        r@ == wrapped(trees_of(state@), root@),
{
    let ghost want = wrapped(trees_of(state@), root@);
    let ghost (s, t) = (state, root);
    let mut fields: StrMap<Json> = StrMap::new();
    fields.insert("root".to_owned(), root);
    fields.insert("state".to_owned(), Json::Object(state));
    proof {
        lemma_object(s);
        lemma_object(fields);
        lemma_field_names();
        assert(trees_of(fields@) =~= want->Object_0);
    }
    Json::Object(fields)
}

/// What is written is read back: the file of a state and a root holds that
/// state and that root.
pub proof fn law_written_scenes_read_back(state: Map<Seq<char>, JsonTree>, root: JsonTree)
    ensures
        opened(wrapped(state, root)) == Ok::<(Map<Seq<char>, JsonTree>, JsonTree), ShapeFault>(
            (state, root),
        ),
{
    lemma_field_names();
    let fields = wrapped(state, root)->Object_0;
    assert forall|key: Seq<char>| fields.contains_key(key) implies !is_refused(
        key,
        #[trigger] fields[key],
    ) by {}
}

/// A file without a `type` that has a field beside `state` and `root`, or has no
/// root, holds no scene: it is not taken for a bare node.
pub proof fn law_malformed_wrappers_are_refused(
    fields: Map<Seq<char>, JsonTree>,
    stray: Seq<char>,
)
    requires
        !fields.contains_key("type"@),
        !fields.contains_key("root"@) || (fields.contains_key(stray) && stray != "root"@ && stray
            != "state"@),
    ensures
        opened(JsonTree::Object(fields)) is Err,
{
    if fields.contains_key("root"@) {
        assert(is_refused(stray, fields[stray]));
    }
}

/// The name of the preset library.
pub fn crate_name() -> (name: &'static str)
    ensures
        name@ == "sdui-presets"@,
{
    "sdui-presets"
}

/// A file with a `type` is a root without state, whatever else it has. A file with
/// a root, and perhaps an object for a state, is these two and, without a state,
/// the root with an empty one. A list of an object and a root is the same two.
pub proof fn law_files_hold_a_state_and_a_root(
    fields: Map<Seq<char>, JsonTree>,
    state: Map<Seq<char>, JsonTree>,
    root: JsonTree,
)
    ensures
        fields.contains_key("type"@) ==> opened(JsonTree::Object(fields)) == Ok::<
            (Map<Seq<char>, JsonTree>, JsonTree),
            ShapeFault,
        >((Map::empty(), JsonTree::Object(fields))),
        opened(JsonTree::Object(map!["root"@ => root])) == Ok::<
            (Map<Seq<char>, JsonTree>, JsonTree),
            ShapeFault,
        >((Map::empty(), root)),
        opened(JsonTree::Array(seq![JsonTree::Object(state), root])) == Ok::<
            (Map<Seq<char>, JsonTree>, JsonTree),
            ShapeFault,
        >((state, root)),
{
    lemma_field_names();
    let alone = map!["root"@ => root];
    assert forall|key: Seq<char>| alone.contains_key(key) implies !is_refused(
        key,
        #[trigger] alone[key],
    ) by {}
}

/// A file that opens is a bare node, a wrapper or a list: a wrapper has a root,
/// its state is an object if there is one, and it has nothing else; a list holds
/// an object and one thing more. What is opened is what stands there.
pub proof fn law_what_opens_stands_in_the_file(top: JsonTree)
    requires
        opened(top) is Ok,
    ensures
        match top {
            JsonTree::Object(fields) => if fields.contains_key("type"@) {
                opened(top)->Ok_0.0 == Map::<Seq<char>, JsonTree>::empty() && opened(top)->Ok_0.1
                    == top
            } else {
                &&& fields.contains_key("root"@)
                &&& opened(top)->Ok_0.1 == fields["root"@]
                &&& forall|key: Seq<char>| #[trigger]
                    fields.contains_key(key) ==> key == "root"@ || key == "state"@
                &&& fields.contains_key("state"@) ==> fields["state"@] == JsonTree::Object(
                    opened(top)->Ok_0.0,
                )
                &&& !fields.contains_key("state"@) ==> opened(top)->Ok_0.0 == Map::<
                    Seq<char>,
                    JsonTree,
                >::empty()
            },
            JsonTree::Array(items) => items.len() == 2 && items[0] == JsonTree::Object(
                opened(top)->Ok_0.0,
            ) && items[1] == opened(top)->Ok_0.1,
            _ => false,
        },
{
    if let JsonTree::Object(fields) = top {
        if !fields.contains_key("type"@) {
            assert forall|key: Seq<char>| #[trigger] fields.contains_key(key) implies key
                == "root"@ || key == "state"@ by {
                assert(!is_refused(key, fields[key]));
            }
            if fields.contains_key("state"@) {
                lemma_field_names();
                assert(!is_refused("state"@, fields["state"@]));
            }
        }
    }
}

/// What is wrong with a wrapper is told of the first field, in key order, that may
/// not stand there; only where there is none, the root is missing.
pub proof fn law_the_first_stray_field_is_told(
    fields: Map<Seq<char>, JsonTree>,
    key: Seq<char>,
)
    requires
        !fields.contains_key("type"@),
    ensures
        fields.contains_key(key) && key != "root"@ && key != "state"@ && (forall|other: Seq<char>|
            #[trigger]
            fields.contains_key(other) && other != key && other != "root"@ && (other == "state"@
                ==> fields[other] !is Object) ==> key_before(key, other)) ==> opened(
            JsonTree::Object(fields),
        ) == Err::<(Map<Seq<char>, JsonTree>, JsonTree), ShapeFault>(
            ShapeFault::UnknownField(key),
        ),
        fields.contains_key("state"@) && fields["state"@] !is Object && (forall|other: Seq<char>|
            #[trigger]
            fields.contains_key(other) && other != "root"@ && other != "state"@ ==> key_before(
                "state"@,
                other,
            )) ==> opened(JsonTree::Object(fields)) == Err::<
            (Map<Seq<char>, JsonTree>, JsonTree),
            ShapeFault,
        >(ShapeFault::StateIsNoObject),
        !fields.contains_key("root"@) && (forall|other: Seq<char>| #[trigger]
            fields.contains_key(other) ==> other == "state"@ && fields[other] is Object) ==> opened(
            JsonTree::Object(fields),
        ) == Err::<(Map<Seq<char>, JsonTree>, JsonTree), ShapeFault>(ShapeFault::MissingRoot),
{
    lemma_field_names();
    if fields.contains_key(key) && key != "root"@ && key != "state"@ && (forall|other: Seq<char>|
        #[trigger]
        fields.contains_key(other) && other != key && other != "root"@ && (other == "state"@
            ==> fields[other] !is Object) ==> key_before(key, other)) {
        lemma_first_stray(fields, key);
    }
    if fields.contains_key("state"@) && fields["state"@] !is Object && (forall|other: Seq<char>|
        #[trigger]
        fields.contains_key(other) && other != "root"@ && other != "state"@ ==> key_before(
            "state"@,
            other,
        )) {
        lemma_first_stray(fields, "state"@);
    }
    if forall|other: Seq<char>| #[trigger]
        fields.contains_key(other) ==> other == "state"@ && fields[other] is Object {
        assert forall|other: Seq<char>| fields.contains_key(other) implies !is_refused(
            other,
            #[trigger] fields[other],
        ) by {}
    }
}

/// A refused field before all other refused ones is the first.
proof fn lemma_first_stray(fields: Map<Seq<char>, JsonTree>, key: Seq<char>)
    requires
        fields.contains_key(key),
        is_refused(key, fields[key]),
        forall|other: Seq<char>| #[trigger]
            fields.contains_key(other) && other != key && is_refused(other, fields[other])
                ==> key_before(key, other),
    ensures
        (choose|k: Seq<char>| is_first_refused(fields, k)) == key,
{
    assert forall|other: Seq<char>| #[trigger]
        fields.contains_key(other) && key_before(other, key) implies !is_refused(
        other,
        fields[other],
    ) by {
        if other == key {
            lemma_key_before_irreflexive(key);
        } else if is_refused(other, fields[other]) {
            lemma_key_before_transitive(key, other, key);
            lemma_key_before_irreflexive(key);
        }
    }
    assert(is_first_refused(fields, key));
    let k = choose|k: Seq<char>| is_first_refused(fields, k);
    if k != key {
        assert(key_before(key, k));
        assert(!is_refused(key, fields[key]));
    }
}

/// The message about a field that does not belong in a file names the field, and
/// those about the state and the root name these.
pub proof fn law_faulty_fields_are_named(name: Seq<char>)
    ensures
        holds_text(fault_text(ShapeFault::UnknownField(name)), name),
        holds_text(fault_text(ShapeFault::StateIsNoObject), "state"@),
        holds_text(fault_text(ShapeFault::MissingRoot), "root"@),
{
    law_texts_are_found_wherever_they_stand(
        "unknown field `"@,
        name,
        "`, expected `state` or `root`"@,
        name,
    );
    reveal_strlit("state");
    reveal_strlit("root");
    reveal_strlit("invalid type of `state`, expected a map");
    reveal_strlit("missing field `root`");
    let state = fault_text(ShapeFault::StateIsNoObject);
    let root = fault_text(ShapeFault::MissingRoot);
    assert(state.subrange(17, 22) =~= "state"@);
    assert(stands_at(state, "state"@, 17));
    assert(root.subrange(15, 19) =~= "root"@);
    assert(stands_at(root, "root"@, 15));
}

} // verus!
