//! Resolving a scene: choices are made, texts are interpolated.

use vstd::prelude::*;

use crate::coord::Coord;
use crate::engine::{
    after_lookup, after_lookups, as_bool, bool_outcome, cache_grew, decides,
    law_lookup_changes_no_lookup, lemma_growth_adds_up, lemma_lookups_add_up, lemma_no_lookups,
    lemma_one_more_lookup, programs, CompiledExpr, EvalEnv, ExprCache, ExprError, ExprFault,
    ExpressionEngine,
};
use crate::scene::{
    copy_mutations, copy_opt, is_plain, lemma_child_smaller, lemma_frame_children, node_models,
    Condition, Frame, FrameModel, NodeModel, SceneNode, Text, TextModel,
};
use crate::template::{
    expressions, interpolate_with_warnings, interpolates, law_plain_text_reads_as_itself, pieces,
};
use crate::value::{variant_text, Val};
use crate::warning::{
    gathered, law_warnings_come_in_order, lemma_nothing_gathered, note, note_all, noted,
    opt_warning, warning_models, Phase, Warning, WarningModel,
};

verus! {

/// How a choice reads the outcome of its predicate: an error, and anything that
/// is no boolean, counts as `false`.
pub open spec fn takes(o: Result<bool, ExprFault>) -> bool {
    o == Ok::<bool, ExprFault>(true)
}

/// The warning for the outcome of a predicate: an error is one.
pub open spec fn predicate_note(when: Seq<char>, o: Result<bool, ExprFault>) -> Option<
    WarningModel,
> {
    match o {
        Ok(_) => None,
        Err(fault) => Some(WarningModel::Condition { phase: Phase::Eval, when, fault }),
    }
}

/// Whether the predicate `when` can come out as `b` with the warning `note`: as
/// one of its outcomes, or as `false` where it does not compile.
pub open spec fn chooses<E: ExpressionEngine>(
    engine: E,
    progs: spec_fn(Seq<char>) -> Result<CompiledExpr, ExprFault>,
    env: Map<Seq<char>, Val>,
    when: Seq<char>,
    b: bool,
    note: Option<WarningModel>,
) -> bool {
    match progs(when) {
        Ok(c) => exists|o: Result<bool, ExprFault>| #[trigger]
            decides(engine, c, env, o) && b == takes(o) && note == predicate_note(when, o),
        Err(fault) => !b && note == Some(
            WarningModel::Condition { phase: Phase::Parse, when, fault },
        ),
    }
}

/// Warnings after a note.
pub open spec fn after_note(note: Option<WarningModel>, rest: Seq<WarningModel>) -> Seq<
    WarningModel,
> {
    noted(note) + rest
}

/// The nodes that are left of a list in which some came to nothing.
pub open spec fn kept<C>(rs: Seq<Option<NodeModel<C>>>) -> Seq<NodeModel<C>>
    decreases rs.len(),
{
    if rs.len() == 0 {
        Seq::empty()
    } else {
        match rs.last() {
            Some(n) => kept(rs.drop_last()).push(n),
            None => kept(rs.drop_last()),
        }
    }
}

/// Whether the node `n` can resolve to `r` with the warnings `ws`.
///
/// A choice resolves to what its selected branch resolves to, and to nothing if
/// that branch is absent. A frame keeps what its children resolve to. The
/// content of a text is interpolated. Everything else stays as it is. Warnings
/// come in the order of the tree.
pub open spec fn resolves<C, E: ExpressionEngine>(
    engine: E,
    progs: spec_fn(Seq<char>) -> Result<CompiledExpr, ExprFault>,
    env: Map<Seq<char>, Val>,
    n: NodeModel<C>,
    r: Option<NodeModel<C>>,
    ws: Seq<WarningModel>,
) -> bool
    decreases n,
{
    match n {
        NodeModel::Frame(f) => exists|
            rs: Seq<Option<NodeModel<C>>>,
            wss: Seq<Seq<WarningModel>>,
        |
            #![trigger kept(rs), gathered(wss)]
            rs.len() == f.children.len() && wss.len() == f.children.len() && (forall|i: int|
                0 <= i < f.children.len() ==> resolves(
                    engine,
                    progs,
                    env,
                    f.children[i],
                    #[trigger] rs[i],
                    wss[i],
                )) && r == Some(NodeModel::Frame(FrameModel { children: kept(rs), ..f })) && ws
                == gathered(wss),
        NodeModel::Text(t) => exists|content: Seq<char>| #[trigger]
            interpolates(engine, progs, env, t.content, content, ws) && r == Some(
                NodeModel::<C>::Text(TextModel { content, ..t }),
            ),
        NodeModel::Image(_) => r == Some(n) && ws == Seq::<WarningModel>::empty(),
        NodeModel::Condition { when, on_true, on_false } => exists|
            b: bool,
            note: Option<WarningModel>,
            rest: Seq<WarningModel>,
        |
            #![trigger chooses(engine, progs, env, when, b, note), after_note(note, rest)]
            chooses(engine, progs, env, when, b, note) && ws == after_note(note, rest) && (if b {
                resolves(engine, progs, env, *on_true, r, rest)
            } else {
                match on_false {
                    Some(e) => resolves(engine, progs, env, *e, r, rest),
                    None => r is None && rest == Seq::<WarningModel>::empty(),
                }
            }),
    }
}

/// The members of any of the sets.
pub open spec fn all_of(ss: Seq<Set<Seq<char>>>) -> Set<Seq<char>>
    decreases ss.len(),
{
    if ss.len() == 0 {
        Set::empty()
    } else {
        all_of(ss.drop_last()).union(ss.last())
    }
}

/// Whether the expressions that are looked up to resolve the node `n` can be
/// those in `seen`: what its texts hold, and the predicates of its choices, but
/// nothing below a branch that is not selected.
pub open spec fn looks_up<C, E: ExpressionEngine>(
    engine: E,
    progs: spec_fn(Seq<char>) -> Result<CompiledExpr, ExprFault>,
    env: Map<Seq<char>, Val>,
    n: NodeModel<C>,
    seen: Set<Seq<char>>,
) -> bool
    decreases n,
{
    match n {
        NodeModel::Frame(f) => exists|ss: Seq<Set<Seq<char>>>|
            ss.len() == f.children.len() && (forall|i: int|
                0 <= i < f.children.len() ==> looks_up(
                    engine,
                    progs,
                    env,
                    f.children[i],
                    #[trigger] ss[i],
                )) && seen == #[trigger] all_of(ss),
        NodeModel::Text(t) => seen == expressions(pieces(t.content)),
        NodeModel::Image(_) => seen == Set::<Seq<char>>::empty(),
        NodeModel::Condition { when, on_true, on_false } => exists|
            b: bool,
            note: Option<WarningModel>,
            rest: Set<Seq<char>>,
        |
            #![trigger chooses(engine, progs, env, when, b, note), rest.insert(when)]
            chooses(engine, progs, env, when, b, note) && seen == rest.insert(when) && (if b {
                looks_up(engine, progs, env, *on_true, rest)
            } else {
                match on_false {
                    Some(e) => looks_up(engine, progs, env, *e, rest),
                    None => rest == Set::<Seq<char>>::empty(),
                }
            }),
    }
}

/// Whether resolving the node `n` can turn the cache `before` into `after`.
pub open spec fn fills<C, E: ExpressionEngine>(
    engine: E,
    env: Map<Seq<char>, Val>,
    n: NodeModel<C>,
    before: Map<Seq<char>, CompiledExpr>,
    after: Map<Seq<char>, CompiledExpr>,
) -> bool {
    exists|seen: Set<Seq<char>>| #[trigger]
        looks_up(engine, programs(engine, before), env, n, seen) && after == after_lookups(
            engine,
            before,
            seen,
        )
}

/// The meaning of an optional node.
pub open spec fn opt_model<C>(o: Option<SceneNode<C>>) -> Option<NodeModel<C>> {
    match o {
        Some(n) => Some(n@),
        None => None,
    }
}

/// Whether the outcome of a predicate selects the branch for `true`.
pub fn select_branch(o: &Result<bool, ExprError>) -> (r: bool)
    ensures
        r == takes(bool_outcome(*o)),
{
    match o {
        Ok(b) => *b,
        Err(_) => false,
    }
}

/// The branch of a choice that its predicate selects, and what went wrong with
/// it. A predicate that does not compile or evaluate selects the branch for
/// `false`.
fn resolve_condition_branch<'a, C: Coord, E: ExpressionEngine>(
    c: &'a Condition<C>,
    engine: &E,
    env: &EvalEnv,
    cache: &mut ExprCache,
) -> (r: (Option<&'a SceneNode<C>>, Option<Warning>))
    ensures
        exists|b: bool| #[trigger]
            chooses(
                *engine,
                programs(*engine, old(cache)@),
                env@,
                c.when@,
                b,
                opt_warning(r.1),
            ) && r.0 == (if b {
                Some(&*c.then_branch)
            } else {
                match c.else_branch {
                    Some(e) => Some(&*e),
                    None => None,
                }
            }),
        final(cache)@ == after_lookup(*engine, old(cache)@, c.when@),
{
    proof {
        law_lookup_changes_no_lookup(*engine, cache@, c.when@);
    }
    let ghost progs = programs(*engine, cache@);
    let (taken, warning) = match cache.compile_cached(engine, c.when.as_str()) {
        Ok(compiled) => {
            let o = engine.eval_bool(compiled, env);
            let ghost seen = bool_outcome(o);
            assert(decides(*engine, *compiled, env@, seen));
            let taken = select_branch(&o);
            match o {
                Ok(_) => (taken, None),
                Err(error) => {
                    let when = c.when.clone();
                    (taken, Some(Warning::Condition { phase: Phase::Eval, when, error }))
                },
            }
        },
        Err(error) => {
            let when = c.when.clone();
            (false, Some(Warning::Condition { phase: Phase::Parse, when, error }))
        },
    };
    assert(chooses(*engine, progs, env@, c.when@, taken, opt_warning(warning)));
    if taken {
        (Some(&*c.then_branch), warning)
    } else {
        match &c.else_branch {
            Some(e) => (Some(&**e), warning),
            None => (None, warning),
        }
    }
}

/// Resolve every choice in `root`, and interpolate every text. The result is
/// nothing only where the selected branch of a choice at the root is absent.
pub fn resolve_scene<C: Coord, E: ExpressionEngine>(
    root: &SceneNode<C>,
    engine: &E,
    env: &EvalEnv,
    cache: &mut ExprCache,
) -> (r: Option<SceneNode<C>>)
    ensures
        exists|ws: Seq<WarningModel>| #[trigger]
            resolves(*engine, programs(*engine, old(cache)@), env@, root@, opt_model(r), ws),
        fills(*engine, env@, root@, old(cache)@, final(cache)@),
        cache_grew(*engine, old(cache)@, final(cache)@),
{
    let ghost progs = programs(*engine, cache@);
    let (r, warnings) = resolve_with_warnings(root, engine, env, cache);
    let ghost ws = warning_models(warnings@);
    assert(resolves(*engine, progs, env@, root@, opt_model(r), ws));
    r
}

/// Resolve every choice in `root`, interpolate every text, and say what went
/// wrong.
pub fn resolve_with_warnings<C: Coord, E: ExpressionEngine>(
    root: &SceneNode<C>,
    engine: &E,
    env: &EvalEnv,
    cache: &mut ExprCache,
) -> (r: (Option<SceneNode<C>>, Vec<Warning>))
    ensures
        resolves(
            *engine,
            programs(*engine, old(cache)@),
            env@,
            root@,
            opt_model(r.0),
            warning_models(r.1@),
        ),
        fills(*engine, env@, root@, old(cache)@, final(cache)@),
        cache_grew(*engine, old(cache)@, final(cache)@),
    decreases root,
{
    let ghost progs = programs(*engine, cache@);
    match root {
        SceneNode::Frame(f) => {
            let mut children: Vec<SceneNode<C>> = Vec::new();
            let mut warnings: Vec<Warning> = Vec::new();
            let ghost mut rs: Seq<Option<NodeModel<C>>> = Seq::empty();
            let ghost mut wss: Seq<Seq<WarningModel>> = Seq::empty();
            let ghost mut ss: Seq<Set<Seq<char>>> = Seq::empty();
            let mut i: usize = 0;
            proof {
                assert(node_models(children@) =~= kept(rs));
                assert(warning_models(warnings@) =~= gathered(wss));
                lemma_no_lookups(*engine, cache@);
            }
            while i < f.children.len()
                invariant
                    *root == SceneNode::Frame(*f),
                    i <= f.children@.len(),
                    progs == programs(*engine, old(cache)@),
                    cache_grew(*engine, old(cache)@, cache@),
                    rs.len() == i,
                    wss.len() == i,
                    forall|j: int|
                        0 <= j < i ==> resolves(
                            *engine,
                            progs,
                            env@,
                            f.children@[j]@,
                            #[trigger] rs[j],
                            wss[j],
                        ),
                    node_models(children@) == kept(rs),
                    warning_models(warnings@) == gathered(wss),
                    cache@ == after_lookups(*engine, old(cache)@, all_of(ss)),
                    ss.len() == i,
                    forall|j: int|
                        0 <= j < i ==> looks_up(
                            *engine,
                            progs,
                            env@,
                            f.children@[j]@,
                            #[trigger] ss[j],
                        ),
                decreases f.children@.len() - i,
            {
                proof {
                    lemma_child_smaller(*f, i as int);
                }
                let ghost before = cache@;
                let (child, said) = resolve_with_warnings(&f.children[i], engine, env, cache);
                let ghost spoken = warning_models(said@);
                note_all(&mut warnings, said);
                proof {
                    lemma_growth_adds_up(*engine, old(cache)@, before, cache@);
                    let more = rs.push(opt_model(child));
                    assert(more.drop_last() =~= rs);
                    let louder = wss.push(spoken);
                    assert(louder.drop_last() =~= wss);
                    assert forall|j: int| 0 <= j < i + 1 implies resolves(
                        *engine,
                        progs,
                        env@,
                        f.children@[j]@,
                        #[trigger] more[j],
                        louder[j],
                    ) by {
                        if j < i {
                            assert(more[j] == rs[j]);
                        }
                    }
                    rs = more;
                    wss = louder;
                    let seen = choose|seen: Set<Seq<char>>| #[trigger]
                        looks_up(
                            *engine,
                            programs(*engine, before),
                            env@,
                            f.children@[i as int]@,
                            seen,
                        ) && cache@ == after_lookups(*engine, before, seen);
                    lemma_lookups_add_up(*engine, old(cache)@, all_of(ss), seen);
                    let all = ss.push(seen);
                    assert(all.drop_last() =~= ss);
                    assert forall|j: int| 0 <= j < i + 1 implies looks_up(
                        *engine,
                        progs,
                        env@,
                        f.children@[j]@,
                        #[trigger] all[j],
                    ) by {
                        if j < i {
                            assert(all[j] == ss[j]);
                        }
                    }
                    ss = all;
                }
                match child {
                    Some(n) => {
                        let ghost had = children@;
                        children.push(n);
                        assert(node_models(children@) =~= node_models(had).push(n@));
                    },
                    None => {},
                }
                i = i + 1;
            }
            let resolved = Frame {
                id: copy_opt(&f.id),
                label: f.label.clone(),
                background_color: f.background_color,
                x: f.x,
                y: f.y,
                width: f.width,
                height: f.height,
                children,
                on_click: copy_mutations(&f.on_click),
            };
            proof {
                lemma_frame_children(*f);
                lemma_frame_children(resolved);
                let want = FrameModel { children: kept(rs), ..f@ };
                assert(resolved@ =~= want);
                assert(f@.children.len() == rs.len());
                assert forall|j: int| 0 <= j < f@.children.len() implies resolves(
                    *engine,
                    progs,
                    env@,
                    f@.children[j],
                    #[trigger] rs[j],
                    wss[j],
                ) by {
                    assert(f@.children[j] == f.children@[j]@);
                }
                assert forall|j: int| 0 <= j < f@.children.len() implies looks_up(
                    *engine,
                    progs,
                    env@,
                    f@.children[j],
                    #[trigger] ss[j],
                ) by {
                    assert(f@.children[j] == f.children@[j]@);
                }
                assert(root@ == NodeModel::Frame(f@));
                assert(looks_up(*engine, progs, env@, root@, all_of(ss)));
                assert(SceneNode::Frame(resolved)@ == NodeModel::Frame(want));
                assert(resolves(
                    *engine,
                    progs,
                    env@,
                    root@,
                    Some(NodeModel::Frame(want)),
                    gathered(wss),
                ));
            }
            (Some(SceneNode::Frame(resolved)), warnings)
        },
        SceneNode::Text(t) => {
            let (content, warnings) = interpolate_with_warnings(
                t.content.as_str(),
                engine,
                env,
                cache,
            );
            assert(interpolates(
                *engine,
                progs,
                env@,
                t@.content,
                content@,
                warning_models(warnings@),
            ));
            assert(looks_up(*engine, progs, env@, root@, expressions(pieces(t@.content))));
            let resolved = Text {
                id: copy_opt(&t.id),
                label: t.label.clone(),
                content,
                font_size: t.font_size,
                color: t.color,
                x: t.x,
                y: t.y,
                width: t.width,
                height: t.height,
                on_click: copy_mutations(&t.on_click),
            };
            assert(resolved@ == TextModel { content: content@, ..t@ });
            (Some(SceneNode::Text(resolved)), warnings)
        },
        SceneNode::Image(i) => {
            let warnings: Vec<Warning> = Vec::new();
            proof {
                lemma_no_lookups(*engine, cache@);
                assert(looks_up(*engine, progs, env@, root@, Set::<Seq<char>>::empty()));
                assert(warning_models(warnings@) =~= Seq::<WarningModel>::empty());
            }
            (Some(SceneNode::Image(i.clone())), warnings)
        },
        SceneNode::Condition(c) => {
            let (picked, warning) = resolve_condition_branch(c, engine, env, cache);
            let ghost before = cache@;
            let ghost said = opt_warning(warning);
            let mut warnings: Vec<Warning> = Vec::new();
            proof {
                law_lookup_changes_no_lookup(*engine, old(cache)@, c.when@);
                lemma_no_lookups(*engine, old(cache)@);
                lemma_one_more_lookup(*engine, old(cache)@, Set::empty(), c.when@);
            }
            let ghost b = choose|b: bool| #[trigger]
                chooses(*engine, progs, env@, c.when@, b, said) && picked == (if b {
                    Some(&*c.then_branch)
                } else {
                    match c.else_branch {
                        Some(e) => Some(&*e),
                        None => None,
                    }
                });
            assert(chooses(*engine, progs, env@, root@->when, b, said));
            assert(warning_models(warnings@) =~= Seq::<WarningModel>::empty());
            note(&mut warnings, warning);
            match picked {
                Some(branch) => {
                    let (r, more) = resolve_with_warnings(branch, engine, env, cache);
                    let ghost rest = warning_models(more@);
                    note_all(&mut warnings, more);
                    proof {
                        lemma_growth_adds_up(*engine, old(cache)@, before, cache@);
                        assert(resolves(*engine, progs, env@, branch@, opt_model(r), rest));
                        assert(b ==> *root@->on_true == branch@);
                        assert(!b ==> *root@->on_false->Some_0 == branch@);
                        assert(warning_models(warnings@) =~= after_note(said, rest));
                        assert(resolves(
                            *engine,
                            progs,
                            env@,
                            root@,
                            opt_model(r),
                            after_note(said, rest),
                        ));
                        let below = choose|seen: Set<Seq<char>>| #[trigger]
                            looks_up(*engine, programs(*engine, before), env@, branch@, seen)
                                && cache@ == after_lookups(*engine, before, seen);
                        let first = Set::<Seq<char>>::empty().insert(c.when@);
                        lemma_lookups_add_up(*engine, old(cache)@, first, below);
                        assert(first.union(below) =~= below.insert(c.when@));
                        assert(looks_up(*engine, progs, env@, root@, below.insert(c.when@)));
                    }
                    (r, warnings)
                },
                None => {
                    proof {
                        let below = Set::<Seq<char>>::empty();
                        assert(looks_up(*engine, progs, env@, root@, below.insert(c.when@)));
                        let rest = Seq::<WarningModel>::empty();
                        assert(warning_models(warnings@) =~= after_note(said, rest));
                    }
                    (None, warnings)
                },
            }
        },
    }
}

/// What a scene resolves to holds no choice, so it can be laid out.
pub proof fn law_resolved_scenes_are_plain<C, E: ExpressionEngine>(
    engine: E,
    progs: spec_fn(Seq<char>) -> Result<CompiledExpr, ExprFault>,
    env: Map<Seq<char>, Val>,
    n: NodeModel<C>,
    r: NodeModel<C>,
    ws: Seq<WarningModel>,
)
    requires
        resolves(engine, progs, env, n, Some(r), ws),
    ensures
        is_plain(r),
    decreases n,
{
    match n {
        NodeModel::Frame(f) => {
            let (rs, wss) = choose|
                rs: Seq<Option<NodeModel<C>>>,
                wss: Seq<Seq<WarningModel>>,
            |
                #![trigger kept(rs), gathered(wss)]
                rs.len() == f.children.len() && wss.len() == f.children.len() && (forall|i: int|
                    0 <= i < f.children.len() ==> resolves(
                        engine,
                        progs,
                        env,
                        f.children[i],
                        #[trigger] rs[i],
                        wss[i],
                    )) && Some(r) == Some(
                    NodeModel::Frame(FrameModel { children: kept(rs), ..f }),
                ) && ws == gathered(wss);
            assert forall|i: int| 0 <= i < rs.len() && rs[i] is Some implies is_plain(
                (#[trigger] rs[i])->Some_0,
            ) by {
                assert(decreases_to!(n => f.children[i]));
                law_resolved_scenes_are_plain(
                    engine,
                    progs,
                    env,
                    f.children[i],
                    rs[i]->Some_0,
                    wss[i],
                );
            }
            lemma_kept_plain(rs);
        },
        NodeModel::Condition { when, on_true, on_false } => {
            let (b, note, rest) = choose|
                b: bool,
                note: Option<WarningModel>,
                rest: Seq<WarningModel>,
            |
                #![trigger chooses(engine, progs, env, when, b, note), after_note(note, rest)]
                chooses(engine, progs, env, when, b, note) && ws == after_note(note, rest) && (
                if b {
                    resolves(engine, progs, env, *on_true, Some(r), rest)
                } else {
                    match on_false {
                        Some(e) => resolves(engine, progs, env, *e, Some(r), rest),
                        None => false,
                    }
                });
            if b {
                law_resolved_scenes_are_plain(engine, progs, env, *on_true, r, rest);
            } else {
                law_resolved_scenes_are_plain(engine, progs, env, *on_false->Some_0, r, rest);
            }
        },
        _ => {},
    }
}

/// If all that is there is plain, all that is kept is plain.
proof fn lemma_kept_plain<C>(rs: Seq<Option<NodeModel<C>>>)
    requires
        forall|i: int| 0 <= i < rs.len() && rs[i] is Some ==> is_plain((#[trigger] rs[i])->Some_0),
    ensures
        forall|i: int| 0 <= i < kept(rs).len() ==> is_plain(#[trigger] kept(rs)[i]),
    decreases rs.len(),
{
    if rs.len() > 0 {
        let front = rs.drop_last();
        assert forall|i: int| 0 <= i < front.len() && front[i] is Some implies is_plain(
            (#[trigger] front[i])->Some_0,
        ) by {
            assert(front[i] == rs[i]);
        }
        lemma_kept_plain(front);
        let last = rs[rs.len() - 1];
        assert(last is Some ==> is_plain(last->Some_0));
        assert forall|i: int| 0 <= i < kept(rs).len() implies is_plain(#[trigger] kept(rs)[i]) by {
            if i < kept(front).len() {
                assert(kept(rs)[i] == kept(front)[i]);
            }
        }
    }
}

/// No text below a node holds a `$`.
pub open spec fn no_dollars<C>(n: NodeModel<C>) -> bool
    decreases n,
{
    match n {
        NodeModel::Frame(f) => forall|i: int|
            0 <= i < f.children.len() ==> no_dollars(#[trigger] f.children[i]),
        NodeModel::Text(t) => !t.content.contains('$'),
        NodeModel::Image(_) => true,
        NodeModel::Condition { on_true, on_false, .. } => no_dollars(*on_true) && match on_false {
            Some(e) => no_dollars(*e),
            None => true,
        },
    }
}

/// Of nodes that are all there, all are kept.
proof fn lemma_all_kept<C>(rs: Seq<Option<NodeModel<C>>>, ns: Seq<NodeModel<C>>)
    requires
        rs.len() == ns.len(),
        forall|i: int| 0 <= i < ns.len() ==> rs[i] == Some(#[trigger] ns[i]),
    ensures
        kept(rs) == ns,
    decreases rs.len(),
{
    if rs.len() > 0 {
        let last = rs.len() - 1;
        assert forall|i: int| 0 <= i < ns.drop_last().len() implies rs.drop_last()[i] == Some(
            #[trigger] ns.drop_last()[i],
        ) by {
            assert(rs[i] == Some(ns[i]));
        }
        lemma_all_kept(rs.drop_last(), ns.drop_last());
        assert(rs[last] == Some(ns[last]));
        assert(ns.drop_last().push(ns[last]) =~= ns);
    } else {
        assert(kept(rs) =~= ns);
    }
}

/// A scene without choices and interpolations resolves to itself and to
/// nothing else, without a warning, whatever the engine and environment.
pub proof fn law_static_scenes_resolve_to_themselves<C, E: ExpressionEngine>(
    engine: E,
    progs: spec_fn(Seq<char>) -> Result<CompiledExpr, ExprFault>,
    env: Map<Seq<char>, Val>,
    n: NodeModel<C>,
    r: Option<NodeModel<C>>,
    ws: Seq<WarningModel>,
)
    requires
        is_plain(n),
        no_dollars(n),
    ensures
        resolves(engine, progs, env, n, r, ws) <==> r == Some(n) && ws.len() == 0,
    decreases n,
{
    match n {
        NodeModel::Frame(f) => {
            assert forall|i: int, q: Option<NodeModel<C>>, us: Seq<WarningModel>|
                0 <= i < f.children.len() implies (#[trigger] resolves(
                engine,
                progs,
                env,
                f.children[i],
                q,
                us,
            ) <==> q == Some(f.children[i]) && us.len() == 0) by {
                assert(decreases_to!(n => f.children[i]));
                assert(is_plain(f.children[i]) && no_dollars(f.children[i]));
                law_static_scenes_resolve_to_themselves(engine, progs, env, f.children[i], q, us);
            }
            if resolves(engine, progs, env, n, r, ws) {
                let (rs, wss) = choose|
                    rs: Seq<Option<NodeModel<C>>>,
                    wss: Seq<Seq<WarningModel>>,
                |
                    #![trigger kept(rs), gathered(wss)]
                    rs.len() == f.children.len() && wss.len() == f.children.len() && (forall|
                        i: int,
                    |
                        0 <= i < f.children.len() ==> resolves(
                            engine,
                            progs,
                            env,
                            f.children[i],
                            #[trigger] rs[i],
                            wss[i],
                        )) && r == Some(
                        NodeModel::Frame(FrameModel { children: kept(rs), ..f }),
                    ) && ws == gathered(wss);
                assert forall|i: int| 0 <= i < f.children.len() implies rs[i] == Some(
                    #[trigger] f.children[i],
                ) by {
                    assert(resolves(engine, progs, env, f.children[i], rs[i], wss[i]));
                }
                assert forall|i: int| 0 <= i < wss.len() implies (#[trigger] wss[i]).len()
                    == 0 by {
                    assert(resolves(engine, progs, env, f.children[i], rs[i], wss[i]));
                }
                lemma_all_kept(rs, f.children);
                lemma_nothing_gathered(wss);
            }
            if r == Some(n) && ws.len() == 0 {
                let rs = Seq::new(f.children.len(), |i: int| Some(f.children[i]));
                let wss = Seq::new(f.children.len(), |i: int| Seq::<WarningModel>::empty());
                lemma_all_kept(rs, f.children);
                lemma_nothing_gathered(wss);
                assert forall|i: int| 0 <= i < f.children.len() implies resolves(
                    engine,
                    progs,
                    env,
                    f.children[i],
                    #[trigger] rs[i],
                    wss[i],
                ) by {
                    assert(rs[i] == Some(f.children[i]));
                    assert(wss[i].len() == 0);
                }
                assert(ws =~= gathered(wss));
                assert(r == Some(NodeModel::Frame(FrameModel { children: kept(rs), ..f })));
            }
        },
        NodeModel::Text(t) => {
            assert forall|out: Seq<char>, us: Seq<WarningModel>| #[trigger]
                interpolates(engine, progs, env, t.content, out, us) <==> out == t.content
                    && us.len() == 0 by {
                law_plain_text_reads_as_itself(engine, progs, env, t.content, out, us);
            }
            if ws.len() == 0 {
                assert(interpolates(engine, progs, env, t.content, t.content, ws));
            }
        },
        _ => {
            assert(ws.len() == 0 ==> ws =~= Seq::<WarningModel>::empty());
        },
    }
}

/// A choice whose predicate does not compile, or can only fail, be no boolean
/// or be false, resolves as its branch for `false` does, and to nothing where
/// it has none. If it fails, a warning comes before those of the branch.
pub proof fn law_failing_choices_take_the_else_branch<C, E: ExpressionEngine>(
    engine: E,
    progs: spec_fn(Seq<char>) -> Result<CompiledExpr, ExprFault>,
    env: Map<Seq<char>, Val>,
    when: Seq<char>,
    on_true: Box<NodeModel<C>>,
    on_false: Option<Box<NodeModel<C>>>,
    r: Option<NodeModel<C>>,
    ws: Seq<WarningModel>,
)
    requires
        progs(when) is Err || forall|o: Result<Val, ExprFault>| #[trigger]
            engine.evaluates(progs(when)->Ok_0, env, o) ==> o != Ok::<Val, ExprFault>(
                Val::Bool(true),
            ),
        resolves(engine, progs, env, NodeModel::Condition { when, on_true, on_false }, r, ws),
    ensures
        exists|note: Option<WarningModel>, rest: Seq<WarningModel>|
            #![trigger chooses(engine, progs, env, when, false, note), after_note(note, rest)]
            chooses(engine, progs, env, when, false, note) && ws == after_note(note, rest) && (
            match on_false {
                Some(e) => resolves(engine, progs, env, *e, r, rest),
                None => r is None && rest == Seq::<WarningModel>::empty(),
            }),
{
    let (b, note, rest) = choose|b: bool, note: Option<WarningModel>, rest: Seq<WarningModel>|
        #![trigger chooses(engine, progs, env, when, b, note), after_note(note, rest)]
        chooses(engine, progs, env, when, b, note) && ws == after_note(note, rest) && (if b {
            resolves(engine, progs, env, *on_true, r, rest)
        } else {
            match on_false {
                Some(e) => resolves(engine, progs, env, *e, r, rest),
                None => r is None && rest == Seq::<WarningModel>::empty(),
            }
        });
    assert(!b) by {
        if b {
            let c = progs(when)->Ok_0;
            let o = choose|o: Result<bool, ExprFault>| #[trigger]
                decides(engine, c, env, o) && b == takes(o) && note == predicate_note(when, o);
            let v = choose|v: Result<Val, ExprFault>| #[trigger]
                engine.evaluates(c, env, v) && o == as_bool(v);
            assert(v == Ok::<Val, ExprFault>(Val::Bool(true)));
        }
    }
}

/// Only a choice can resolve to nothing.
pub proof fn law_only_choices_vanish<C, E: ExpressionEngine>(
    engine: E,
    progs: spec_fn(Seq<char>) -> Result<CompiledExpr, ExprFault>,
    env: Map<Seq<char>, Val>,
    n: NodeModel<C>,
    ws: Seq<WarningModel>,
)
    requires
        resolves(engine, progs, env, n, None, ws),
    ensures
        n is Condition,
{
}

/// What is kept of a list is what is there, in its order: a list in two parts
/// keeps what both parts keep, one that came to nothing leaves no trace, and one
/// that came to something is kept, whatever stands beside it.
pub proof fn law_what_is_there_is_kept<C>(
    a: Seq<Option<NodeModel<C>>>,
    b: Seq<Option<NodeModel<C>>>,
    n: NodeModel<C>,
)
    ensures
        kept(Seq::<Option<NodeModel<C>>>::empty()) == Seq::<NodeModel<C>>::empty(),
        kept(seq![None::<NodeModel<C>>]) == Seq::<NodeModel<C>>::empty(),
        kept(seq![Some(n)]) == seq![n],
        kept(a + b) == kept(a) + kept(b),
        kept(a + seq![None] + b) == kept(a) + kept(b),
        kept(a + seq![Some(n)] + b) == kept(a) + seq![n] + kept(b),
{
    let nothing = seq![None::<NodeModel<C>>];
    let one = seq![Some(n)];
    assert(nothing.drop_last() =~= Seq::empty());
    assert(one.drop_last() =~= Seq::empty());
    assert(kept(one.drop_last()) =~= Seq::<NodeModel<C>>::empty());
    assert(kept(one) =~= seq![n]);
    lemma_kept_adds(a, b);
    lemma_kept_adds(a, nothing);
    lemma_kept_adds(a + nothing, b);
    lemma_kept_adds(a, one);
    lemma_kept_adds(a + one, b);
    assert(kept(a) + kept(nothing) =~= kept(a));
}

proof fn lemma_kept_adds<C>(a: Seq<Option<NodeModel<C>>>, b: Seq<Option<NodeModel<C>>>)
    ensures
        kept(a + b) == kept(a) + kept(b),
    decreases b.len(),
{
    if b.len() == 0 {
        assert(a + b =~= a);
        assert(kept(a) + kept(b) =~= kept(a));
    } else {
        assert((a + b).drop_last() =~= a + b.drop_last());
        assert((a + b).last() == b.last());
        lemma_kept_adds(a, b.drop_last());
        assert(kept(a + b) =~= kept(a) + kept(b));
    }
}

/// Keeping is picking out.
proof fn lemma_kept_picks<C>(rs: Seq<Option<NodeModel<C>>>)
    ensures
        kept(rs) == rs.filter_map(|r: Option<NodeModel<C>>| r),
    decreases rs.len(),
{
    if rs.len() > 0 {
        lemma_kept_picks(rs.drop_last());
        assert(kept(rs) =~= rs.filter_map(|r: Option<NodeModel<C>>| r));
    }
}

/// The place of a child among those that are kept is the number of children
/// before it that came to something; there are as many as came to something.
pub proof fn law_kept_children_stay_in_order<C>(rs: Seq<Option<NodeModel<C>>>, i: int)
    requires
        0 <= i < rs.len(),
    ensures
        kept(rs).len() == rs.filter(|r: Option<NodeModel<C>>| r is Some).len(),
        rs[i] matches Some(n) ==> {
            let place = rs.take(i).filter(|r: Option<NodeModel<C>>| r is Some).len();
            place < kept(rs).len() && kept(rs)[place as int] == n
        },
{
    lemma_kept_counts(rs);
    lemma_kept_counts(rs.take(i));
    assert(rs =~= rs.take(i) + seq![rs[i]] + rs.skip(i + 1));
    if let Some(n) = rs[i] {
        law_what_is_there_is_kept(rs.take(i), rs.skip(i + 1), n);
    }
}

proof fn lemma_kept_counts<C>(rs: Seq<Option<NodeModel<C>>>)
    ensures
        kept(rs).len() == rs.filter(|r: Option<NodeModel<C>>| r is Some).len(),
    decreases rs.len(),
{
    reveal(Seq::filter);
    if rs.len() > 0 {
        lemma_kept_counts(rs.drop_last());
    }
}

/// What a frame resolves to: the same frame with what its children resolve to,
/// each on its own, in their order and without those that came to nothing. The
/// warnings are those of the children, in their order.
pub proof fn law_frames_resolve_child_by_child<C, E: ExpressionEngine>(
    engine: E,
    progs: spec_fn(Seq<char>) -> Result<CompiledExpr, ExprFault>,
    env: Map<Seq<char>, Val>,
    f: FrameModel<C>,
    r: Option<NodeModel<C>>,
    ws: Seq<WarningModel>,
) -> (out: (Seq<Option<NodeModel<C>>>, Seq<Seq<WarningModel>>))
    requires
        resolves(engine, progs, env, NodeModel::Frame(f), r, ws),
    ensures
        out.0.len() == f.children.len(),
        out.1.len() == f.children.len(),
        forall|i: int|
            0 <= i < f.children.len() ==> resolves(
                engine,
                progs,
                env,
                f.children[i],
                #[trigger] out.0[i],
                out.1[i],
            ),
        r matches Some(NodeModel::Frame(g)) && {
            &&& g.children == out.0.filter_map(|r: Option<NodeModel<C>>| r)
            &&& g.id == f.id
            &&& g.label == f.label
            &&& g.background_color == f.background_color
            &&& g.x == f.x
            &&& g.y == f.y
            &&& g.width == f.width
            &&& g.height == f.height
            &&& g.on_click == f.on_click
        },
        ws == out.1.flatten(),
{
    let (rs, wss) = choose|rs: Seq<Option<NodeModel<C>>>, wss: Seq<Seq<WarningModel>>|
        #![trigger kept(rs), gathered(wss)]
        rs.len() == f.children.len() && wss.len() == f.children.len() && (forall|i: int|
            0 <= i < f.children.len() ==> resolves(
                engine,
                progs,
                env,
                f.children[i],
                #[trigger] rs[i],
                wss[i],
            )) && r == Some(NodeModel::Frame(FrameModel { children: kept(rs), ..f })) && ws
            == gathered(wss);
    lemma_kept_picks(rs);
    law_warnings_come_in_order(wss);
    (rs, wss)
}

/// Whatever the children of a frame can resolve to, the frame can resolve to
/// itself with just that.
pub proof fn law_children_of_a_frame_resolve_on_their_own<C, E: ExpressionEngine>(
    engine: E,
    progs: spec_fn(Seq<char>) -> Result<CompiledExpr, ExprFault>,
    env: Map<Seq<char>, Val>,
    f: FrameModel<C>,
    rs: Seq<Option<NodeModel<C>>>,
    wss: Seq<Seq<WarningModel>>,
)
    requires
        rs.len() == f.children.len(),
        wss.len() == f.children.len(),
        forall|i: int|
            0 <= i < f.children.len() ==> resolves(
                engine,
                progs,
                env,
                f.children[i],
                #[trigger] rs[i],
                wss[i],
            ),
    ensures
        resolves(
            engine,
            progs,
            env,
            NodeModel::Frame(f),
            Some(
                NodeModel::Frame(
                    FrameModel {
                        children: rs.filter_map(|r: Option<NodeModel<C>>| r),
                        ..f
                    },
                ),
            ),
            wss.flatten(),
        ),
{
    lemma_kept_picks(rs);
    law_warnings_come_in_order(wss);
    assert(kept(rs) == rs.filter_map(|r: Option<NodeModel<C>>| r) && gathered(wss)
        == wss.flatten());
}

/// A choice whose predicate can come out as `true` can resolve as its branch for
/// `true` does.
proof fn lemma_chosen<C, E: ExpressionEngine>(
    engine: E,
    progs: spec_fn(Seq<char>) -> Result<CompiledExpr, ExprFault>,
    env: Map<Seq<char>, Val>,
    when: Seq<char>,
    on_true: Box<NodeModel<C>>,
    on_false: Option<Box<NodeModel<C>>>,
    r: Option<NodeModel<C>>,
    ws: Seq<WarningModel>,
)
    requires
        chooses(engine, progs, env, when, true, None),
        resolves(engine, progs, env, *on_true, r, ws),
    ensures
        resolves(engine, progs, env, NodeModel::Condition { when, on_true, on_false }, r, ws),
{
    let n = NodeModel::Condition { when, on_true, on_false };
    let note = None::<WarningModel>;
    let b = takes(Ok(true));
    assert(b);
    assert(*n->on_true == *on_true);
    assert(chooses(engine, progs, env, n->when, b, note));
    assert(resolves(engine, progs, env, *n->on_true, r, ws));
    assert(after_note(note, ws) =~= ws);
    assert(resolves(engine, progs, env, n, r, after_note(note, ws)));
}

/// A choice resolves as the branch that its predicate chooses: as the one for
/// `true` where the predicate can come out only as `true`, and then without a
/// warning of its own.
pub proof fn law_true_choices_take_the_then_branch<C, E: ExpressionEngine>(
    engine: E,
    progs: spec_fn(Seq<char>) -> Result<CompiledExpr, ExprFault>,
    env: Map<Seq<char>, Val>,
    when: Seq<char>,
    on_true: Box<NodeModel<C>>,
    on_false: Option<Box<NodeModel<C>>>,
    r: Option<NodeModel<C>>,
    ws: Seq<WarningModel>,
)
    requires
        progs(when) is Ok,
        engine.evaluates(progs(when)->Ok_0, env, Ok(Val::Bool(true))),
        forall|o: Result<Val, ExprFault>| #[trigger]
            engine.evaluates(progs(when)->Ok_0, env, o) ==> o == Ok::<Val, ExprFault>(
                Val::Bool(true),
            ),
    ensures
        resolves(engine, progs, env, NodeModel::Condition { when, on_true, on_false }, r, ws)
            <==> resolves(engine, progs, env, *on_true, r, ws),
{
    let n = NodeModel::Condition { when, on_true, on_false };
    let c = progs(when)->Ok_0;
    let yes = Ok::<bool, ExprFault>(true);
    assert forall|o: Result<bool, ExprFault>| #[trigger] decides(engine, c, env, o) <==> o
        == yes by {
        if decides(engine, c, env, o) {
            let v = choose|v: Result<Val, ExprFault>| #[trigger]
                engine.evaluates(c, env, v) && o == as_bool(v);
            assert(v == Ok::<Val, ExprFault>(Val::Bool(true)));
        }
        if o == yes {
            let v = Ok::<Val, ExprFault>(Val::Bool(true));
            assert(engine.evaluates(c, env, v) && o == as_bool(v));
        }
    }
    assert(decides(engine, c, env, yes));
    assert forall|rest: Seq<WarningModel>| #[trigger] after_note(None, rest) == rest by {
        assert(after_note(None, rest) =~= rest);
    }
    if resolves(engine, progs, env, n, r, ws) {
        let (b, note, rest) = choose|
            b: bool,
            note: Option<WarningModel>,
            rest: Seq<WarningModel>,
        |
            #![trigger chooses(engine, progs, env, when, b, note), after_note(note, rest)]
            chooses(engine, progs, env, when, b, note) && ws == after_note(note, rest) && (if b {
                resolves(engine, progs, env, *on_true, r, rest)
            } else {
                match on_false {
                    Some(e) => resolves(engine, progs, env, *e, r, rest),
                    None => r is None && rest == Seq::<WarningModel>::empty(),
                }
            });
        assert(b && note is None);
        assert(ws == rest);
    }
    if resolves(engine, progs, env, *on_true, r, ws) {
        let (b, note) = (true, None::<WarningModel>);
        assert(takes(yes) && predicate_note(when, yes) is None);
        assert(chooses(engine, progs, env, when, b, note));
        assert(ws == after_note(note, ws));
        lemma_chosen(engine, progs, env, when, on_true, on_false, r, ws);
    }
}

/// A choice whose predicate can come out only as `false` resolves as its branch
/// for `false` does, and to nothing where it has none, without a warning of its
/// own.
pub proof fn law_false_choices_take_the_else_branch<C, E: ExpressionEngine>(
    engine: E,
    progs: spec_fn(Seq<char>) -> Result<CompiledExpr, ExprFault>,
    env: Map<Seq<char>, Val>,
    when: Seq<char>,
    on_true: Box<NodeModel<C>>,
    on_false: Option<Box<NodeModel<C>>>,
    r: Option<NodeModel<C>>,
    ws: Seq<WarningModel>,
)
    requires
        progs(when) is Ok,
        engine.evaluates(progs(when)->Ok_0, env, Ok(Val::Bool(false))),
        forall|o: Result<Val, ExprFault>| #[trigger]
            engine.evaluates(progs(when)->Ok_0, env, o) ==> o == Ok::<Val, ExprFault>(
                Val::Bool(false),
            ),
    ensures
        resolves(engine, progs, env, NodeModel::Condition { when, on_true, on_false }, r, ws)
            <==> match on_false {
            Some(e) => resolves(engine, progs, env, *e, r, ws),
            None => r is None && ws.len() == 0,
        },
{
    let n = NodeModel::Condition { when, on_true, on_false };
    let c = progs(when)->Ok_0;
    let no = Ok::<bool, ExprFault>(false);
    assert forall|o: Result<bool, ExprFault>| #[trigger] decides(engine, c, env, o) <==> o
        == no by {
        if decides(engine, c, env, o) {
            let v = choose|v: Result<Val, ExprFault>| #[trigger]
                engine.evaluates(c, env, v) && o == as_bool(v);
            assert(v == Ok::<Val, ExprFault>(Val::Bool(false)));
        }
        if o == no {
            let v = Ok::<Val, ExprFault>(Val::Bool(false));
            assert(engine.evaluates(c, env, v) && o == as_bool(v));
        }
    }
    assert(decides(engine, c, env, no));
    assert forall|rest: Seq<WarningModel>| #[trigger] after_note(None, rest) == rest by {
        assert(after_note(None, rest) =~= rest);
    }
    if resolves(engine, progs, env, n, r, ws) {
        let (b, note, rest) = choose|
            b: bool,
            note: Option<WarningModel>,
            rest: Seq<WarningModel>,
        |
            #![trigger chooses(engine, progs, env, when, b, note), after_note(note, rest)]
            chooses(engine, progs, env, when, b, note) && ws == after_note(note, rest) && (if b {
                resolves(engine, progs, env, *on_true, r, rest)
            } else {
                match on_false {
                    Some(e) => resolves(engine, progs, env, *e, r, rest),
                    None => r is None && rest == Seq::<WarningModel>::empty(),
                }
            });
        assert(!b && note is None);
        assert(ws == rest);
    }
    let taken = match on_false {
        Some(e) => resolves(engine, progs, env, *e, r, ws),
        None => r is None && ws.len() == 0,
    };
    if taken {
        let note = None::<WarningModel>;
        assert(ws.len() == 0 ==> ws =~= Seq::<WarningModel>::empty());
        assert(chooses(engine, progs, env, when, false, note));
        assert(after_note(note, ws) == ws);
    }
}

/// Texts and images stay, and all that is theirs but the content of a text: that
/// is one of the readings of its source.
pub proof fn law_leaves_keep_all_but_the_content<C, E: ExpressionEngine>(
    engine: E,
    progs: spec_fn(Seq<char>) -> Result<CompiledExpr, ExprFault>,
    env: Map<Seq<char>, Val>,
    n: NodeModel<C>,
    r: Option<NodeModel<C>>,
    ws: Seq<WarningModel>,
)
    requires
        resolves(engine, progs, env, n, r, ws),
    ensures
        n is Image ==> r == Some(n) && ws.len() == 0,
        n matches NodeModel::Text(t) ==> (r matches Some(NodeModel::Text(u)) && {
            &&& interpolates(engine, progs, env, t.content, u.content, ws)
            &&& u.id == t.id
            &&& u.label == t.label
            &&& u.font_size == t.font_size
            &&& u.color == t.color
            &&& u.x == t.x
            &&& u.y == t.y
            &&& u.width == t.width
            &&& u.height == t.height
            &&& u.on_click == t.on_click
        }),
{
}

/// A choice whose predicate does not compile, or can come out only as an error or as
/// something else than a boolean, is warned of before anything below it: with the
/// predicate, with what went wrong, and with when it did.
pub proof fn law_failing_choices_are_warned_of<C, E: ExpressionEngine>(
    engine: E,
    progs: spec_fn(Seq<char>) -> Result<CompiledExpr, ExprFault>,
    env: Map<Seq<char>, Val>,
    when: Seq<char>,
    on_true: Box<NodeModel<C>>,
    on_false: Option<Box<NodeModel<C>>>,
    r: Option<NodeModel<C>>,
    ws: Seq<WarningModel>,
)
    requires
        progs(when) is Err || forall|o: Result<Val, ExprFault>| #[trigger]
            engine.evaluates(progs(when)->Ok_0, env, o) ==> o is Err || o->Ok_0 !is Bool,
        resolves(engine, progs, env, NodeModel::Condition { when, on_true, on_false }, r, ws),
    ensures
        ws.len() > 0,
        progs(when) matches Err(fault) ==> ws[0] == (WarningModel::Condition {
            phase: Phase::Parse,
            when,
            fault,
        }),
        progs(when) matches Ok(c) ==> exists|o: Result<Val, ExprFault>| #[trigger]
            engine.evaluates(c, env, o) && ws[0] == (WarningModel::Condition {
                phase: Phase::Eval,
                when,
                fault: match o {
                    Ok(v) => ExprFault::NotBool(variant_text(v)),
                    Err(e) => e,
                },
            }),
        match on_false {
            Some(e) => resolves(engine, progs, env, *e, r, ws.skip(1)),
            None => r is None && ws.len() == 1,
        },
{
    let (b, note, rest) = choose|b: bool, note: Option<WarningModel>, rest: Seq<WarningModel>|
        #![trigger chooses(engine, progs, env, when, b, note), after_note(note, rest)]
        chooses(engine, progs, env, when, b, note) && ws == after_note(note, rest) && (if b {
            resolves(engine, progs, env, *on_true, r, rest)
        } else {
            match on_false {
                Some(e) => resolves(engine, progs, env, *e, r, rest),
                None => r is None && rest == Seq::<WarningModel>::empty(),
            }
        });
    if let Ok(c) = progs(when) {
        let o = choose|o: Result<bool, ExprFault>| #[trigger]
            decides(engine, c, env, o) && b == takes(o) && note == predicate_note(when, o);
        let v = choose|v: Result<Val, ExprFault>| #[trigger]
            engine.evaluates(c, env, v) && o == as_bool(v);
        assert(o is Err);
        assert(engine.evaluates(c, env, v));
    }
    assert(note is Some && !b);
    assert(ws == seq![note->Some_0] + rest);
    assert(ws.skip(1) =~= rest);
}

} // verus!
