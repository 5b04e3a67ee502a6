//! Dotted paths into scene state.

use vstd::prelude::*;

use crate::json::{lemma_object, trees_of, Json, JsonTree};
use crate::strmap::StrMap;
use crate::text::chars_of;

verus! {

/// The parts of a path between its dots: at least one, some perhaps empty.
pub open spec fn split_dots(path: Seq<char>) -> Seq<Seq<char>>
    decreases path.len(),
{
    if path.len() == 0 {
        seq![Seq::<char>::empty()]
    } else {
        let parts = split_dots(path.drop_last());
        if path.last() == '.' {
            parts.push(Seq::<char>::empty())
        } else {
            parts.update(parts.len() - 1, parts.last().push(path.last()))
        }
    }
}

/// The parts of a path, put together again with dots.
pub open spec fn join_dots(parts: Seq<Seq<char>>) -> Seq<char>
    decreases parts.len(),
{
    if parts.len() == 0 {
        Seq::empty()
    } else if parts.len() == 1 {
        parts[0]
    } else {
        join_dots(parts.drop_last()) + seq!['.'] + parts.last()
    }
}

/// A path is its parts joined by dots, and no part holds a dot.
pub proof fn law_parts_make_the_path(path: Seq<char>)
    ensures
        split_dots(path).len() >= 1,
        join_dots(split_dots(path)) == path,
        forall|i: int|
            0 <= i < split_dots(path).len() ==> !(#[trigger] split_dots(path)[i]).contains('.'),
    decreases path.len(),
{
    if path.len() > 0 {
        let shorter = path.drop_last();
        law_parts_make_the_path(shorter);
        let before = split_dots(shorter);
        let parts = split_dots(path);
        if path.last() == '.' {
            assert(parts.drop_last() =~= before);
            assert(join_dots(parts) =~= path);
        } else {
            assert(parts.drop_last() =~= before.drop_last());
            assert(join_dots(parts) =~= join_dots(before).push(path.last())) by {
                if parts.len() > 1 {
                    assert(join_dots(before) == join_dots(before.drop_last()) + seq!['.']
                        + before.last());
                }
            }
            assert(join_dots(parts) =~= path);
        }
        assert forall|i: int| 0 <= i < parts.len() implies !(#[trigger] parts[i]).contains('.') by {
            if i < before.len() {
                assert(!before[i].contains('.'));
            }
            if parts[i].contains('.') {
                let j = choose|j: int| 0 <= j < parts[i].len() && parts[i][j] == '.';
                if i < before.len() && j < before[i].len() {
                    assert(before[i].contains(before[i][j]));
                }
            }
        }
    }
}

/// The members of a JSON value: those of an object, none of anything else.
pub open spec fn members(t: JsonTree) -> Map<Seq<char>, JsonTree> {
    match t {
        JsonTree::Object(m) => m,
        _ => Map::empty(),
    }
}

/// The members under one key.
pub open spec fn members_at(
    state: Map<Seq<char>, JsonTree>,
    key: Seq<char>,
) -> Map<Seq<char>, JsonTree> {
    if state.contains_key(key) {
        members(state[key])
    } else {
        Map::empty()
    }
}

/// `state` after `value` was written at the path `parts`: objects on the way
/// are entered, anything else on the way gives place to a fresh object.
pub open spec fn written(
    state: Map<Seq<char>, JsonTree>,
    parts: Seq<Seq<char>>,
    value: JsonTree,
) -> Map<Seq<char>, JsonTree>
    decreases parts.len(),
{
    if parts.len() == 0 {
        state
    } else if parts.len() == 1 {
        state.insert(parts[0], value)
    } else {
        state.insert(
            parts[0],
            JsonTree::Object(written(members_at(state, parts[0]), parts.drop_first(), value)),
        )
    }
}

/// What stands in `state` at the path `parts`.
pub open spec fn read_at(state: Map<Seq<char>, JsonTree>, parts: Seq<Seq<char>>) -> Option<JsonTree>
    decreases parts.len(),
{
    if parts.len() == 0 || !state.contains_key(parts[0]) {
        None
    } else if parts.len() == 1 {
        Some(state[parts[0]])
    } else {
        read_at(members(state[parts[0]]), parts.drop_first())
    }
}

/// Two paths part ways: at some place both have a part, and not the same.
pub open spec fn diverge(p: Seq<Seq<char>>, q: Seq<Seq<char>>) -> bool {
    exists|i: int| 0 <= i < p.len() && i < q.len() && #[trigger] p[i] != #[trigger] q[i]
}

/// A read at a path gives back what was last written there.
pub proof fn law_read_gives_back_the_write(
    state: Map<Seq<char>, JsonTree>,
    path: Seq<char>,
    value: JsonTree,
)
    ensures
        read_at(written(state, split_dots(path), value), split_dots(path)) == Some(value),
{
    law_parts_make_the_path(path);
    lemma_read_back(state, split_dots(path), value);
}

proof fn lemma_read_back(
    state: Map<Seq<char>, JsonTree>,
    parts: Seq<Seq<char>>,
    value: JsonTree,
)
    requires
        parts.len() >= 1,
    ensures
        read_at(written(state, parts, value), parts) == Some(value),
    decreases parts.len(),
{
    if parts.len() > 1 {
        lemma_read_back(members_at(state, parts[0]), parts.drop_first(), value);
    }
}

/// A write leaves every path that parts ways with its own as it was.
pub proof fn law_write_leaves_other_paths(
    state: Map<Seq<char>, JsonTree>,
    p: Seq<Seq<char>>,
    value: JsonTree,
    q: Seq<Seq<char>>,
)
    requires
        diverge(p, q),
    ensures
        read_at(written(state, p, value), q) == read_at(state, q),
    decreases p.len(),
{
    if p[0] == q[0] && p.len() > 1 && q.len() > 1 {
        let i = choose|i: int|
            0 <= i < p.len() && i < q.len() && #[trigger] p[i] != #[trigger] q[i];
        assert(p.drop_first()[i - 1] != q.drop_first()[i - 1]);
        let inner = members_at(state, p[0]);
        law_write_leaves_other_paths(inner, p.drop_first(), value, q.drop_first());
    }
}

/// A second write at the same path stands in place of the first.
pub proof fn law_last_write_wins(
    state: Map<Seq<char>, JsonTree>,
    parts: Seq<Seq<char>>,
    first: JsonTree,
    second: JsonTree,
)
    ensures
        written(written(state, parts, first), parts, second) == written(state, parts, second),
    decreases parts.len(),
{
    if parts.len() == 1 {
        assert(written(written(state, parts, first), parts, second) =~= written(
            state,
            parts,
            second,
        ));
    } else if parts.len() > 1 {
        law_last_write_wins(members_at(state, parts[0]), parts.drop_first(), first, second);
        assert(written(written(state, parts, first), parts, second) =~= written(
            state,
            parts,
            second,
        ));
    }
}

/// The views of a list of strings.
pub open spec fn texts(parts: Seq<String>) -> Seq<Seq<char>> {
    Seq::new(parts.len(), |i: int| parts[i]@)
}

/// Split a path at its dots.
pub fn split_path(path: &str) -> (r: Vec<String>)
    ensures
        texts(r@) == split_dots(path@),
{
    let chars = chars_of(path);
    let mut parts: Vec<String> = Vec::new();
    parts.push(String::new());
    let mut i: usize = 0;
    assert(texts(parts@) =~= split_dots(path@.take(0)));
    while i < chars.len()
        invariant
            chars@ == path@,
            i <= chars@.len(),
            parts@.len() >= 1,
            texts(parts@) == split_dots(path@.take(i as int)),
        decreases chars@.len() - i,
    {
        let ghost before = parts@;
        let ghost upto = path@.take(i + 1);
        assert(upto.drop_last() =~= path@.take(i as int));
        if chars[i] == '.' {
            parts.push(String::new());
            assert(texts(parts@) =~= split_dots(upto));
        } else {
            let last = parts.len() - 1;
            let mut text = parts[last].clone();
            text.push(chars[i]);
            parts.set(last, text);
            assert(texts(parts@) =~= split_dots(upto));
        }
        i = i + 1;
    }
    assert(path@.take(i as int) =~= path@);
    parts
}

/// Write `value` into `state` at the dotted `path`, creating objects on the way
/// as needed; what stands on the way and is no object is replaced.
pub fn write_path(state: &mut StrMap<Json>, path: &str, value: Json)
    ensures
        trees_of(final(state)@) == written(trees_of(old(state)@), split_dots(path@), value@),
{
    let parts = split_path(path);
    proof {
        law_parts_make_the_path(path@);
    }
    write_parts(state, &parts, 0, value);
    proof {
        assert(texts(parts@).skip(0) =~= texts(parts@));
    }
}

/// Write `value` into `state` at the path that is left from the part `from` on.
fn write_parts(state: &mut StrMap<Json>, parts: &Vec<String>, from: usize, value: Json)
    requires
        from < parts@.len(),
    ensures
        trees_of(final(state)@) == written(
            trees_of(old(state)@),
            texts(parts@).skip(from as int),
            value@,
        ),
    decreases parts@.len() - from,
{
    let ghost rest = texts(parts@).skip(from as int);
    let ghost before = trees_of(state@);
    let ghost tree = value@;
    let ghost key = parts@[from as int]@;
    if from == parts.len() - 1 {
        state.insert(parts[from].clone(), value);
        proof {
            assert(trees_of(state@) =~= before.insert(key, tree));
        }
    } else {
        let mut inner: StrMap<Json> = match state.remove(parts[from].as_str()) {
            Some(Json::Object(members)) => {
                proof {
                    lemma_object(members);
                }
                members
            },
            _ => StrMap::new(),
        };
        proof {
            assert(trees_of(inner@) =~= members_at(before, key));
            assert(rest.drop_first() =~= texts(parts@).skip(from + 1));
        }
        write_parts(&mut inner, parts, from + 1, value);
        proof {
            lemma_object(inner);
        }
        state.insert(parts[from].clone(), Json::Object(inner));
        proof {
            assert(trees_of(state@) =~= before.insert(
                key,
                JsonTree::Object(trees_of(inner@)),
            ));
        }
    }
}

} // verus!
