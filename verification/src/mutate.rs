//! Click mutations: expressions that write into scene state.

use vstd::prelude::*;

use crate::engine::{
    after_lookup, after_lookups, cache_grew, law_lookup_changes_no_lookup, lemma_growth_adds_up,
    lemma_no_lookups, lemma_one_more_lookup, outcome, programs, CompiledExpr, EvalEnv, ExprCache,
    ExprError, ExprFault, ExpressionEngine,
};
use crate::interact::{scene_env, InteractionModel};
use crate::json::{
    eval_value_to_json, json_val, law_value_read_back_is_settled, settled, trees_of, val_json, Json,
    JsonTree,
};
use crate::path::{
    diverge, law_read_gives_back_the_write, law_write_leaves_other_paths, read_at, split_dots,
    write_path, written,
};
use crate::scene::{mutation_models, Mutation, MutationModel};
use crate::strmap::StrMap;
use crate::value::{EvalValue, Val};
use crate::warning::{note, noted, opt_warning, warning_models, Phase, Warning, WarningModel};

verus! {

/// Whether the expression of a mutation can come out as `o`.
pub open spec fn mutation_yields<E: ExpressionEngine>(
    engine: E,
    progs: spec_fn(Seq<char>) -> Result<CompiledExpr, ExprFault>,
    env: Map<Seq<char>, Val>,
    m: MutationModel,
    o: Result<Val, ExprFault>,
) -> bool {
    match progs(m.set) {
        Ok(c) => engine.evaluates(c, env, o),
        Err(e) => o == Err::<Val, ExprFault>(e),
    }
}

/// State after a mutation whose expression came out as `o`: a value is written
/// at the path, an error leaves state as it was.
pub open spec fn mutated(
    state: Map<Seq<char>, JsonTree>,
    m: MutationModel,
    o: Result<Val, ExprFault>,
) -> Map<Seq<char>, JsonTree> {
    match o {
        Ok(v) => written(state, split_dots(m.path), val_json(v)),
        Err(_) => state,
    }
}

/// State after mutations whose expressions came out as `os`, one for one.
pub open spec fn mutated_all(
    state: Map<Seq<char>, JsonTree>,
    ms: Seq<MutationModel>,
    os: Seq<Result<Val, ExprFault>>,
) -> Map<Seq<char>, JsonTree>
    decreases ms.len(),
{
    if ms.len() == 0 {
        state
    } else {
        mutated(mutated_all(state, ms.drop_last(), os.drop_last()), ms.last(), os.last())
    }
}

/// The first error among outcomes.
pub open spec fn first_fault(os: Seq<Result<Val, ExprFault>>) -> Option<ExprFault>
    decreases os.len(),
{
    if os.len() == 0 {
        None
    } else {
        match first_fault(os.drop_last()) {
            Some(e) => Some(e),
            None => match os.last() {
                Ok(_) => None,
                Err(e) => Some(e),
            },
        }
    }
}

/// Whether the expressions of mutations can come out as `os`. All are evaluated
/// with the same variables, those from before the first mutation.
pub open spec fn mutations_yield<E: ExpressionEngine>(
    engine: E,
    progs: spec_fn(Seq<char>) -> Result<CompiledExpr, ExprFault>,
    env: Map<Seq<char>, Val>,
    ms: Seq<MutationModel>,
    os: Seq<Result<Val, ExprFault>>,
) -> bool {
    &&& os.len() == ms.len()
    &&& forall|i: int|
        0 <= i < ms.len() ==> #[trigger] mutation_yields(engine, progs, env, ms[i], os[i])
}

/// The meaning of an optional error.
pub open spec fn opt_fault(e: Option<ExprError>) -> Option<ExprFault> {
    match e {
        Some(e) => Some(e@),
        None => None,
    }
}

/// The expressions of mutations.
pub open spec fn mutation_sources(ms: Seq<MutationModel>) -> Set<Seq<char>> {
    Set::new(|src: Seq<char>| exists|i: int| 0 <= i < ms.len() && (#[trigger] ms[i]).set == src)
}

/// The expressions of mutations with one more.
proof fn lemma_sources_push(ms: Seq<MutationModel>, m: MutationModel)
    ensures
        mutation_sources(ms.push(m)) == mutation_sources(ms).insert(m.set),
{
    let more = ms.push(m);
    assert forall|src: Seq<char>| mutation_sources(more).contains(src) == mutation_sources(
        ms,
    ).insert(m.set).contains(src) by {
        if mutation_sources(ms).contains(src) {
            let i = choose|i: int| 0 <= i < ms.len() && (#[trigger] ms[i]).set == src;
            assert(more[i].set == src);
        }
        if src == m.set {
            assert(more[ms.len() as int].set == src);
        }
    }
    assert(mutation_sources(more) =~= mutation_sources(ms).insert(m.set));
}

/// The warning for the outcome of a mutation's expression: an error is one.
pub open spec fn mutation_note(
    progs: spec_fn(Seq<char>) -> Result<CompiledExpr, ExprFault>,
    m: MutationModel,
    o: Result<Val, ExprFault>,
) -> Option<WarningModel> {
    match o {
        Ok(_) => None,
        Err(fault) => Some(
            WarningModel::Mutation {
                phase: if progs(m.set) is Err {
                    Phase::Parse
                } else {
                    Phase::Eval
                },
                path: m.path,
                set: m.set,
                fault,
            },
        ),
    }
}

/// The warnings for the outcomes of the expressions of mutations, one for one.
pub open spec fn mutation_warnings(
    progs: spec_fn(Seq<char>) -> Result<CompiledExpr, ExprFault>,
    ms: Seq<MutationModel>,
    os: Seq<Result<Val, ExprFault>>,
) -> Seq<WarningModel>
    decreases ms.len(),
{
    if ms.len() == 0 {
        Seq::empty()
    } else {
        mutation_warnings(progs, ms.drop_last(), os.drop_last()) + noted(
            mutation_note(progs, ms.last(), os.last()),
        )
    }
}

/// Whether mutations can turn `before` into `after`, with `fault` as the first
/// error and with the warnings `ws`.
pub open spec fn mutations_lead<E: ExpressionEngine>(
    engine: E,
    progs: spec_fn(Seq<char>) -> Result<CompiledExpr, ExprFault>,
    env: Map<Seq<char>, Val>,
    ms: Seq<MutationModel>,
    before: Map<Seq<char>, JsonTree>,
    after: Map<Seq<char>, JsonTree>,
    fault: Option<ExprFault>,
    ws: Seq<WarningModel>,
) -> bool {
    exists|os: Seq<Result<Val, ExprFault>>| #[trigger]
        mutations_yield(engine, progs, env, ms, os) && after == mutated_all(before, ms, os)
            && fault == first_fault(os) && ws == mutation_warnings(progs, ms, os)
}

/// Write the outcome of a mutation's expression into state; an error is handed
/// back and changes nothing.
pub fn apply_outcome(
    state: &mut StrMap<Json>,
    m: &Mutation,
    o: Result<EvalValue, ExprError>,
) -> (r: Option<ExprError>)
    ensures
        trees_of(final(state)@) == mutated(trees_of(old(state)@), m@, outcome(o)),
        opt_fault(r) == match outcome(o) {
            Ok(_) => None,
            Err(e) => Some(e),
        },
{
    match o {
        Ok(v) => {
            let json = eval_value_to_json(&v);
            write_path(state, m.path.as_str(), json);
            None
        },
        Err(e) => Some(e),
    }
}

/// Evaluate the expression of one mutation, and say how far it came.
fn eval_mutation<E: ExpressionEngine>(
    m: &Mutation,
    engine: &E,
    env: &EvalEnv,
    cache: &mut ExprCache,
) -> (r: (Result<EvalValue, ExprError>, Phase))
    ensures
        mutation_yields(*engine, programs(*engine, old(cache)@), env@, m@, outcome(r.0)),
        (r.1 is Parse) == (programs(*engine, old(cache)@)(m@.set) is Err),
        final(cache)@ == after_lookup(*engine, old(cache)@, m.set@),
{
    proof {
        law_lookup_changes_no_lookup(*engine, cache@, m.set@);
    }
    match cache.compile_cached(engine, m.set.as_str()) {
        Ok(compiled) => (engine.eval(compiled, env), Phase::Eval),
        Err(e) => (Err(e), Phase::Parse),
    }
}

/// Apply mutations to scene state, in order. A mutation whose expression does
/// not compile or evaluate is skipped; the first such error is returned, and
/// the mutations after it still run.
pub fn apply_mutations<E: ExpressionEngine>(
    state: &mut StrMap<Json>,
    mutations: &[Mutation],
    engine: &E,
    env: &EvalEnv,
    cache: &mut ExprCache,
) -> (r: Option<ExprError>)
    ensures
        exists|ws: Seq<WarningModel>| #[trigger]
            mutations_lead(
                *engine,
                programs(*engine, old(cache)@),
                env@,
                mutation_models(mutations@),
                trees_of(old(state)@),
                trees_of(final(state)@),
                opt_fault(r),
                ws,
            ),
        final(cache)@ == after_lookups(
            *engine,
            old(cache)@,
            mutation_sources(mutation_models(mutations@)),
        ),
        cache_grew(*engine, old(cache)@, final(cache)@),
{
    let ghost progs = programs(*engine, cache@);
    let ghost before = trees_of(state@);
    let (first, warnings) = apply_with_warnings(state, mutations, engine, env, cache);
    let ghost ws = warning_models(warnings@);
    assert(mutations_lead(
        *engine,
        progs,
        env@,
        mutation_models(mutations@),
        before,
        trees_of(state@),
        opt_fault(first),
        ws,
    ));
    first
}

/// Apply mutations to scene state, in order, and hand back the first error and a
/// warning for each mutation that was skipped.
pub fn apply_with_warnings<E: ExpressionEngine>(
    state: &mut StrMap<Json>,
    mutations: &[Mutation],
    engine: &E,
    env: &EvalEnv,
    cache: &mut ExprCache,
) -> (r: (Option<ExprError>, Vec<Warning>))
    ensures
        mutations_lead(
            *engine,
            programs(*engine, old(cache)@),
            env@,
            mutation_models(mutations@),
            trees_of(old(state)@),
            trees_of(final(state)@),
            opt_fault(r.0),
            warning_models(r.1@),
        ),
        final(cache)@ == after_lookups(
            *engine,
            old(cache)@,
            mutation_sources(mutation_models(mutations@)),
        ),
        cache_grew(*engine, old(cache)@, final(cache)@),
{
    let ghost ms = mutation_models(mutations@);
    let ghost progs = programs(*engine, cache@);
    let ghost before = trees_of(state@);
    let ghost mut os: Seq<Result<Val, ExprFault>> = Seq::empty();
    let mut first: Option<ExprError> = None;
    let mut warnings: Vec<Warning> = Vec::new();
    assert(warning_models(warnings@) =~= Seq::<WarningModel>::empty());
    let mut i: usize = 0;
    proof {
        assert(ms.take(0) =~= Seq::empty());
        assert(mutation_sources(ms.take(0)) =~= Set::empty());
        lemma_no_lookups(*engine, cache@);
    }
    while i < mutations.len()
        invariant
            ms == mutation_models(mutations@),
            progs == programs(*engine, old(cache)@),
            i <= mutations@.len(),
            cache_grew(*engine, old(cache)@, cache@),
            cache@ == after_lookups(
                *engine,
                old(cache)@,
                mutation_sources(ms.take(i as int)),
            ),
            mutations_yield(*engine, progs, env@, ms.take(i as int), os),
            trees_of(state@) == mutated_all(before, ms.take(i as int), os),
            opt_fault(first) == first_fault(os),
            warning_models(warnings@) == mutation_warnings(progs, ms.take(i as int), os),
        decreases mutations@.len() - i,
    {
        let ghost grown = cache@;
        let m = &mutations[i];
        let (o, phase) = eval_mutation(m, engine, env, cache);
        let ghost seen = outcome(o);
        let fault = apply_outcome(state, m, o);
        let warning = match &fault {
            Some(e) => Some(
                Warning::Mutation {
                    phase,
                    path: m.path.clone(),
                    set: m.set.clone(),
                    error: e.clone(),
                },
            ),
            None => None,
        };
        let ghost said = opt_warning(warning);
        note(&mut warnings, warning);
        assert(said == mutation_note(progs, m@, seen));
        proof {
            let src = mutations@[i as int].set@;
            law_lookup_changes_no_lookup(*engine, grown, src);
            lemma_growth_adds_up(*engine, old(cache)@, grown, cache@);
            lemma_one_more_lookup(
                *engine,
                old(cache)@,
                mutation_sources(ms.take(i as int)),
                src,
            );
            lemma_sources_push(ms.take(i as int), ms[i as int]);
            let upto = ms.take(i + 1);
            assert(upto =~= ms.take(i as int).push(ms[i as int]));
            let more = os.push(seen);
            assert(upto.drop_last() =~= ms.take(i as int));
            assert(upto.last() == mutations@[i as int]@);
            assert(more.drop_last() =~= os);
            assert forall|j: int| 0 <= j < upto.len() implies #[trigger] mutation_yields(
                *engine,
                progs,
                env@,
                upto[j],
                more[j],
            ) by {
                if j < i {
                    assert(mutation_yields(*engine, progs, env@, ms.take(i as int)[j], os[j]));
                }
            }
            os = more;
        }
        match first {
            Some(_) => {},
            None => {
                first = fault;
            },
        }
        i = i + 1;
    }
    assert(ms.take(i as int) =~= ms);
    (first, warnings)
}

/// A click whose expressions all fail leaves state as it was.
pub proof fn law_failed_mutations_change_nothing(
    state: Map<Seq<char>, JsonTree>,
    ms: Seq<MutationModel>,
    os: Seq<Result<Val, ExprFault>>,
)
    requires
        os.len() == ms.len(),
        forall|i: int| 0 <= i < os.len() ==> (#[trigger] os[i]) is Err,
    ensures
        mutated_all(state, ms, os) == state,
    decreases ms.len(),
{
    if ms.len() > 0 {
        assert forall|i: int| 0 <= i < os.drop_last().len() implies (
        #[trigger] os.drop_last()[i]) is Err by {
            assert(os[i] is Err);
        }
        law_failed_mutations_change_nothing(state, ms.drop_last(), os.drop_last());
        assert(os[os.len() - 1] is Err);
    }
}

/// What a mutation wrote is what the next expression reads at its path, in the
/// form that JSON gives it.
pub proof fn law_next_expression_sees_the_mutation(
    state: Map<Seq<char>, JsonTree>,
    m: MutationModel,
    v: Val,
)
    ensures
        read_at(
            mutated(state, m, Ok(v)),
            split_dots(m.path),
        ) matches Some(t) && json_val(t) == settled(v),
{
    law_read_gives_back_the_write(state, m.path, val_json(v));
    law_value_read_back_is_settled(v);
}

/// Mutations leave every path that parts ways with all of theirs as it was.
pub proof fn law_mutations_leave_other_paths(
    state: Map<Seq<char>, JsonTree>,
    ms: Seq<MutationModel>,
    os: Seq<Result<Val, ExprFault>>,
    q: Seq<Seq<char>>,
)
    requires
        os.len() == ms.len(),
        forall|i: int|
            0 <= i < ms.len() ==> diverge(split_dots((#[trigger] ms[i]).path), q),
    ensures
        read_at(mutated_all(state, ms, os), q) == read_at(state, q),
    decreases ms.len(),
{
    if ms.len() > 0 {
        let front = ms.drop_last();
        assert forall|i: int| 0 <= i < front.len() implies diverge(
            split_dots((#[trigger] front[i]).path),
            q,
        ) by {
            assert(front[i] == ms[i]);
        }
        law_mutations_leave_other_paths(state, front, os.drop_last(), q);
        assert(diverge(split_dots(ms[ms.len() - 1].path), q));
        match os.last() {
            Ok(v) => {
                law_write_leaves_other_paths(
                    mutated_all(state, front, os.drop_last()),
                    split_dots(ms.last().path),
                    val_json(v),
                    q,
                );
            },
            Err(_) => {},
        }
    }
}

/// Whatever path a mutation names, it writes into scene state: the `ui` variables
/// stay as they were, and no variable appears or goes.
pub proof fn law_mutations_write_state_only(
    interaction: InteractionModel,
    state: Map<Seq<char>, JsonTree>,
    ms: Seq<MutationModel>,
    os: Seq<Result<Val, ExprFault>>,
)
    ensures
        ({
            let before = scene_env(interaction, state);
            let after = scene_env(interaction, mutated_all(state, ms, os));
            after.dom() == before.dom() && after["ui"@] == before["ui"@]
        }),
{
    reveal_strlit("ui");
    reveal_strlit("state");
    assert("ui"@.len() != "state"@.len());
    assert(scene_env(interaction, mutated_all(state, ms, os)).dom() =~= scene_env(
        interaction,
        state,
    ).dom());
}

/// Every mutation that is skipped is warned of, and nothing else: there is an
/// error just where there is a warning, and the first of one is the first of the
/// other.
pub proof fn law_skipped_mutations_are_warned_of(
    progs: spec_fn(Seq<char>) -> Result<CompiledExpr, ExprFault>,
    ms: Seq<MutationModel>,
    os: Seq<Result<Val, ExprFault>>,
)
    requires
        os.len() == ms.len(),
    ensures
        match first_fault(os) {
            None => mutation_warnings(progs, ms, os).len() == 0,
            Some(first) => mutation_warnings(progs, ms, os).len() > 0 && (mutation_warnings(
                progs,
                ms,
                os,
            )[0] matches WarningModel::Mutation { fault, .. } && fault == first),
        },
    decreases ms.len(),
{
    if ms.len() > 0 {
        law_skipped_mutations_are_warned_of(progs, ms.drop_last(), os.drop_last());
    }
}

/// Mutations run one after the other: those of two lists as those of the first
/// and then, on what they left, those of the second.
pub proof fn law_mutations_run_one_after_the_other(
    state: Map<Seq<char>, JsonTree>,
    ms: Seq<MutationModel>,
    os: Seq<Result<Val, ExprFault>>,
    more: Seq<MutationModel>,
    outs: Seq<Result<Val, ExprFault>>,
)
    requires
        os.len() == ms.len(),
        outs.len() == more.len(),
    ensures
        mutated_all(state, Seq::empty(), Seq::empty()) == state,
        mutated_all(state, ms + more, os + outs) == mutated_all(
            mutated_all(state, ms, os),
            more,
            outs,
        ),
    decreases more.len(),
{
    if more.len() == 0 {
        assert(ms + more =~= ms);
        assert(os + outs =~= os);
    } else {
        law_mutations_run_one_after_the_other(state, ms, os, more.drop_last(), outs.drop_last());
        assert((ms + more).drop_last() =~= ms + more.drop_last());
        assert((os + outs).drop_last() =~= os + outs.drop_last());
    }
}

/// The last of some mutations, if its expression comes out, is what a read at its
/// path gives afterwards; if it fails, state is what the others left.
pub proof fn law_the_last_mutation_is_read_at_its_path(
    state: Map<Seq<char>, JsonTree>,
    ms: Seq<MutationModel>,
    os: Seq<Result<Val, ExprFault>>,
    m: MutationModel,
    o: Result<Val, ExprFault>,
)
    requires
        os.len() == ms.len(),
    ensures
        o matches Ok(v) ==> read_at(
            mutated_all(state, ms.push(m), os.push(o)),
            split_dots(m.path),
        ) == Some(val_json(v)),
        o is Err ==> mutated_all(state, ms.push(m), os.push(o)) == mutated_all(state, ms, os),
{
    assert(ms.push(m).drop_last() =~= ms);
    assert(os.push(o).drop_last() =~= os);
    if let Ok(v) = o {
        law_read_gives_back_the_write(mutated_all(state, ms, os), m.path, val_json(v));
    }
}

/// The error of some mutations is that of the first whose expression failed, and
/// there is none where none failed.
pub proof fn law_the_first_error_is_handed_back(os: Seq<Result<Val, ExprFault>>, i: int)
    ensures
        0 <= i < os.len() && os[i] is Err && (forall|j: int|
            0 <= j < i ==> (#[trigger] os[j]) is Ok) ==> first_fault(os) == Some(os[i]->Err_0),
        (forall|j: int| 0 <= j < os.len() ==> (#[trigger] os[j]) is Ok) ==> first_fault(os) is None,
    decreases os.len(),
{
    if os.len() > 0 {
        let front = os.drop_last();
        law_the_first_error_is_handed_back(front, i);
        if 0 <= i < os.len() && os[i] is Err && (forall|j: int|
            0 <= j < i ==> (#[trigger] os[j]) is Ok) {
            assert forall|j: int| 0 <= j < i && j < front.len() implies (
            #[trigger] front[j]) is Ok by {
                assert(os[j] is Ok);
            }
        }
        if forall|j: int| 0 <= j < os.len() ==> (#[trigger] os[j]) is Ok {
            assert forall|j: int| 0 <= j < front.len() implies (#[trigger] front[j]) is Ok by {
                assert(os[j] is Ok);
            }
            assert(os[os.len() - 1] is Ok);
        }
    }
}

/// Mutations lead from one state to another by outcomes of their expressions, one
/// for each, all with the variables from before the first: an expression that
/// compiles comes out as the engine evaluates it, and one that does not as its
/// error. Every outcome is applied in order, and each error is warned of.
pub proof fn law_mutations_see_the_variables_from_before<E: ExpressionEngine>(
    engine: E,
    progs: spec_fn(Seq<char>) -> Result<CompiledExpr, ExprFault>,
    env: Map<Seq<char>, Val>,
    ms: Seq<MutationModel>,
    before: Map<Seq<char>, JsonTree>,
    after: Map<Seq<char>, JsonTree>,
    fault: Option<ExprFault>,
    ws: Seq<WarningModel>,
) -> (os: Seq<Result<Val, ExprFault>>)
    requires
        mutations_lead(engine, progs, env, ms, before, after, fault, ws),
    ensures
        os.len() == ms.len(),
        forall|i: int|
            0 <= i < ms.len() ==> match progs((#[trigger] ms[i]).set) {
                Ok(c) => engine.evaluates(c, env, os[i]),
                Err(e) => os[i] == Err::<Val, ExprFault>(e),
            },
        after == mutated_all(before, ms, os),
        fault == first_fault(os),
        ws.len() == os.filter(|o: Result<Val, ExprFault>| o is Err).len(),
{
    let os = choose|os: Seq<Result<Val, ExprFault>>| #[trigger]
        mutations_yield(engine, progs, env, ms, os) && after == mutated_all(before, ms, os)
            && fault == first_fault(os) && ws == mutation_warnings(progs, ms, os);
    assert forall|i: int| 0 <= i < ms.len() implies match progs((#[trigger] ms[i]).set) {
        Ok(c) => engine.evaluates(c, env, os[i]),
        Err(e) => os[i] == Err::<Val, ExprFault>(e),
    } by {
        assert(mutation_yields(engine, progs, env, ms[i], os[i]));
    }
    lemma_one_warning_each(progs, ms, os);
    os
}

proof fn lemma_one_warning_each(
    progs: spec_fn(Seq<char>) -> Result<CompiledExpr, ExprFault>,
    ms: Seq<MutationModel>,
    os: Seq<Result<Val, ExprFault>>,
)
    requires
        os.len() == ms.len(),
    ensures
        mutation_warnings(progs, ms, os).len() == os.filter(
            |o: Result<Val, ExprFault>| o is Err,
        ).len(),
    decreases ms.len(),
{
    reveal(Seq::filter);
    if ms.len() > 0 {
        lemma_one_warning_each(progs, ms.drop_last(), os.drop_last());
    }
}

/// A warning about a mutation names its path and its expression, and says whether
/// the expression failed to compile or to evaluate.
pub proof fn law_skipped_mutations_are_named(
    progs: spec_fn(Seq<char>) -> Result<CompiledExpr, ExprFault>,
    m: MutationModel,
    o: Result<Val, ExprFault>,
)
    ensures
        o is Ok ==> mutation_note(progs, m, o) is None,
        o matches Err(e) ==> (mutation_note(progs, m, o) matches Some(WarningModel::Mutation {
            phase,
            path,
            set,
            fault,
        }) && path == m.path && set == m.set && fault == e && (phase is Parse <==> progs(m.set)
            is Err)),
{
}

} // verus!
