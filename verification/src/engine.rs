//! The surface of an expression engine: environments, errors, compiled
//! expressions and the cache of them.

use std::sync::Arc;

use cel_interpreter::Program;
use vstd::prelude::*;

use crate::strmap::StrMap;
use crate::value::{copy_map, vals_of, variant_text, EvalValue, Val};

verus! {

/// A parsed CEL program; callers only carry it.
#[verifier::external_type_specification]
#[verifier::external_body]
pub struct ExProgram(cel_interpreter::Program);

/// Typed variables for the evaluation of one expression.
#[derive(Debug)]
pub struct EvalEnv {
    pub(crate) vars: StrMap<EvalValue>,
}

impl View for EvalEnv {
    type V = Map<Seq<char>, Val>;

    open(crate) spec fn view(&self) -> Map<Seq<char>, Val> {
        vals_of(self.vars@)
    }
}

impl EvalEnv {
    /// An empty environment.
    pub fn new() -> (r: Self)
        ensures
            r@ == Map::<Seq<char>, Val>::empty(),
    {
        let r = EvalEnv { vars: StrMap::new() };
        assert(r@ =~= Map::<Seq<char>, Val>::empty());
        r
    }

    /// Bind a top-level variable, in place of an earlier binding.
    pub fn set(&mut self, name: &str, value: EvalValue)
        ensures
            final(self)@ == old(self)@.insert(name@, value@),
    {
        self.vars.insert(name.to_owned(), value);
        assert(self@ =~= old(self)@.insert(name@, value@));
    }

    /// The value of a top-level variable.
    pub fn get(&self, name: &str) -> (r: Option<&EvalValue>)
        ensures
            r is Some == self@.contains_key(name@),
            r matches Some(v) ==> v@ == self@[name@],
    {
        self.vars.get(name)
    }
}

impl Default for EvalEnv {
    fn default() -> (r: Self)
        ensures
            r@ == Map::<Seq<char>, Val>::empty(),
    {
        EvalEnv::new()
    }
}

impl Clone for EvalEnv {
    fn clone(&self) -> (r: Self)
        ensures
            r@ == self@,
    {
        let r = EvalEnv { vars: copy_map(&self.vars) };
        assert(r@ =~= self@);
        r
    }
}

/// What can go wrong with an expression.
#[derive(Debug)]
pub enum ExprError {
    /// The source text failed to parse.
    ParseFailed(String),
    /// The expression ran and raised an error.
    EvalFailed(String),
    /// The expression gave something else where a boolean was needed.
    NotBool {
        /// Variant name of what it gave, such as `"Int"`.
        got: String,
    },
}

/// What an [`ExprError`] stands for.
pub enum ExprFault {
    /// The source text failed to parse.
    ParseFailed(Seq<char>),
    /// The expression ran and raised an error.
    EvalFailed(Seq<char>),
    /// The expression gave something of this kind, and no boolean.
    NotBool(Seq<char>),
}

impl View for ExprError {
    type V = ExprFault;

    open spec fn view(&self) -> ExprFault {
        match *self {
            ExprError::ParseFailed(m) => ExprFault::ParseFailed(m@),
            ExprError::EvalFailed(m) => ExprFault::EvalFailed(m@),
            ExprError::NotBool { got } => ExprFault::NotBool(got@),
        }
    }
}

/// The message of a fault.
pub open spec fn fault_text(fault: ExprFault) -> Seq<char> {
    match fault {
        ExprFault::ParseFailed(m) => "expression parse failed: "@ + m,
        ExprFault::EvalFailed(m) => "expression evaluation failed: "@ + m,
        ExprFault::NotBool(got) => "expression did not evaluate to bool (got "@ + got + ")"@,
    }
}

impl ExprError {
    /// The message of this error.
    pub fn message(&self) -> (r: String)
        ensures
            r@ == fault_text(self@),
    {
        match self {
            ExprError::ParseFailed(m) => "expression parse failed: ".to_owned().concat(m.as_str()),
            ExprError::EvalFailed(m) => "expression evaluation failed: ".to_owned().concat(
                m.as_str(),
            ),
            ExprError::NotBool { got } => "expression did not evaluate to bool (got ".to_owned().concat(
                got.as_str(),
            ).concat(")"),
        }
    }
}

impl Clone for ExprError {
    fn clone(&self) -> (r: Self)
        ensures
            r@ == self@,
    {
        match self {
            ExprError::ParseFailed(m) => ExprError::ParseFailed(m.clone()),
            ExprError::EvalFailed(m) => ExprError::EvalFailed(m.clone()),
            ExprError::NotBool { got } => ExprError::NotBool { got: got.clone() },
        }
    }
}

/// A compiled expression, opaque to callers.
#[derive(Debug)]
pub struct CompiledExpr {
    pub(crate) program: Arc<Program>,
}

/// The outcome of a compilation.
pub open spec fn compilation(r: Result<CompiledExpr, ExprError>) -> Result<
    CompiledExpr,
    ExprFault,
> {
    match r {
        Ok(c) => Ok(c),
        Err(e) => Err(e@),
    }
}

/// The outcome of an evaluation.
pub open spec fn outcome(r: Result<EvalValue, ExprError>) -> Result<Val, ExprFault> {
    match r {
        Ok(v) => Ok(v@),
        Err(e) => Err(e@),
    }
}

/// The outcome of an evaluation in a boolean place.
pub open spec fn bool_outcome(r: Result<bool, ExprError>) -> Result<bool, ExprFault> {
    match r {
        Ok(b) => Ok(b),
        Err(e) => Err(e@),
    }
}

/// How a boolean place reads an outcome: a boolean as itself, anything else as
/// an error that names its kind.
pub open spec fn as_bool(o: Result<Val, ExprFault>) -> Result<bool, ExprFault> {
    match o {
        Ok(Val::Bool(b)) => Ok(b),
        Ok(v) => Err(ExprFault::NotBool(variant_text(v))),
        Err(e) => Err(e),
    }
}

/// Read an outcome in a boolean place.
pub fn require_bool(o: Result<EvalValue, ExprError>) -> (r: Result<bool, ExprError>)
    ensures
        bool_outcome(r) == as_bool(outcome(o)),
{
    match o {
        Ok(EvalValue::Bool(b)) => Ok(b),
        Ok(other) => Err(ExprError::NotBool { got: other.variant_name().to_owned() }),
        Err(e) => Err(e),
    }
}

/// What a runtime needs of an expression engine.
///
/// Compiling is a function of the source text, so a compiled expression can be
/// kept and used again. Evaluating need not be a function of its arguments: an
/// engine may visit a map in any order.
pub trait ExpressionEngine: Sized {
    /// What compiling a source text gives.
    spec fn compiled(&self, src: Seq<char>) -> Result<CompiledExpr, ExprFault>;

    /// Whether `r` is a possible outcome of evaluating `expr` with the
    /// variables `env`.
    spec fn evaluates(
        &self,
        expr: CompiledExpr,
        env: Map<Seq<char>, Val>,
        r: Result<Val, ExprFault>,
    ) -> bool;

    /// Parse `src` into a compiled, reusable expression.
    fn compile(&self, src: &str) -> (r: Result<CompiledExpr, ExprError>)
        ensures
            compilation(r) == self.compiled(src@),
    ;

    /// Evaluate `expr` with the variables of `env`.
    fn eval(&self, expr: &CompiledExpr, env: &EvalEnv) -> (r: Result<EvalValue, ExprError>)
        ensures
            self.evaluates(*expr, env@, outcome(r)),
    ;

    /// Evaluate `expr` and require a boolean.
    fn eval_bool(&self, expr: &CompiledExpr, env: &EvalEnv) -> (r: Result<bool, ExprError>)
        ensures
            exists|o: Result<Val, ExprFault>| #[trigger]
                self.evaluates(*expr, env@, o) && bool_outcome(r) == as_bool(o),
    {
        let o = self.eval(expr, env);
        let ghost seen = outcome(o);
        assert(self.evaluates(*expr, env@, seen));
        require_bool(o)
    }
}

/// Whether `r` is a possible outcome of evaluating `expr` in a boolean place.
pub open spec fn decides<E: ExpressionEngine>(
    engine: E,
    expr: CompiledExpr,
    env: Map<Seq<char>, Val>,
    r: Result<bool, ExprFault>,
) -> bool {
    exists|o: Result<Val, ExprFault>| #[trigger] engine.evaluates(expr, env, o) && r == as_bool(o)
}

/// Compiled expressions by source text.
///
/// Kept across resolutions, so that a source text is compiled at most once as
/// long as it compiles.
#[derive(Debug)]
pub struct ExprCache {
    pub(crate) entries: StrMap<CompiledExpr>,
}

impl View for ExprCache {
    type V = Map<Seq<char>, CompiledExpr>;

    open(crate) spec fn view(&self) -> Map<Seq<char>, CompiledExpr> {
        self.entries@
    }
}

/// What `src` compiles to for an owner of `cache`: the kept expression, or what
/// the engine makes of it.
pub open spec fn found<E: ExpressionEngine>(
    engine: E,
    cache: Map<Seq<char>, CompiledExpr>,
    src: Seq<char>,
) -> Result<CompiledExpr, ExprFault> {
    if cache.contains_key(src) {
        Ok(cache[src])
    } else {
        engine.compiled(src)
    }
}

/// `cache` after `src` was looked up.
pub open spec fn after_lookup<E: ExpressionEngine>(
    engine: E,
    cache: Map<Seq<char>, CompiledExpr>,
    src: Seq<char>,
) -> Map<Seq<char>, CompiledExpr> {
    match found(engine, cache, src) {
        Ok(c) => cache.insert(src, c),
        Err(_) => cache,
    }
}

impl ExprCache {
    /// An empty cache.
    pub fn new() -> (r: Self)
        ensures
            r@ == Map::<Seq<char>, CompiledExpr>::empty(),
    {
        ExprCache { entries: StrMap::new() }
    }

    /// The compiled expression of `src`, compiled on first sight. A source that
    /// does not compile leaves the cache as it was.
    pub fn compile_cached<E: ExpressionEngine>(&mut self, engine: &E, src: &str) -> (r: Result<
        &CompiledExpr,
        ExprError,
    >)
        ensures
            final(self)@ == after_lookup(*engine, old(self)@, src@),
            match r {
                Ok(c) => found(*engine, old(self)@, src@) == Ok::<CompiledExpr, ExprFault>(*c),
                Err(e) => found(*engine, old(self)@, src@) == Err::<CompiledExpr, ExprFault>(e@),
            },
    {
        if !self.entries.contains_key(src) {
            match engine.compile(src) {
                Ok(c) => {
                    self.entries.insert(src.to_owned(), c);
                },
                Err(e) => {
                    return Err(e);
                },
            }
        }
        assert(self@ =~= after_lookup(*engine, old(self)@, src@));
        Ok(self.entries.at(src))
    }

    /// How many expressions are kept.
    pub fn len(&self) -> (r: usize)
        ensures
            r == self@.dom().len(),
            self@.dom().finite(),
    {
        self.entries.len()
    }

    /// Whether nothing is kept.
    pub fn is_empty(&self) -> (r: bool)
        ensures
            r == (self@ == Map::<Seq<char>, CompiledExpr>::empty()),
    {
        self.entries.is_empty()
    }
}

impl Default for ExprCache {
    fn default() -> (r: Self)
        ensures
            r@ == Map::<Seq<char>, CompiledExpr>::empty(),
    {
        ExprCache::new()
    }
}

/// What each source text compiles to for an owner of `cache`.
pub open spec fn programs<E: ExpressionEngine>(
    engine: E,
    cache: Map<Seq<char>, CompiledExpr>,
) -> spec_fn(Seq<char>) -> Result<CompiledExpr, ExprFault> {
    |src: Seq<char>| found(engine, cache, src)
}

/// `after` is `before` with perhaps more compiled expressions: what was kept is
/// kept, and every source compiles to what it did.
pub open spec fn cache_grew<E: ExpressionEngine>(
    engine: E,
    before: Map<Seq<char>, CompiledExpr>,
    after: Map<Seq<char>, CompiledExpr>,
) -> bool {
    &&& forall|k: Seq<char>| #[trigger]
        before.contains_key(k) ==> after.contains_key(k) && after[k] == before[k]
    &&& programs(engine, after) == programs(engine, before)
}

/// `cache` after the sources `srcs` were looked up, in whatever order: those that
/// compile are kept beside what was kept before.
pub open spec fn after_lookups<E: ExpressionEngine>(
    engine: E,
    cache: Map<Seq<char>, CompiledExpr>,
    srcs: Set<Seq<char>>,
) -> Map<Seq<char>, CompiledExpr> {
    Map::new(
        |src: Seq<char>|
            cache.contains_key(src) || (srcs.contains(src) && engine.compiled(src) is Ok),
        |src: Seq<char>| found(engine, cache, src)->Ok_0,
    )
}

/// Looking nothing up changes nothing.
pub proof fn lemma_no_lookups<E: ExpressionEngine>(
    engine: E,
    cache: Map<Seq<char>, CompiledExpr>,
)
    ensures
        after_lookups(engine, cache, Set::empty()) == cache,
{
    assert(after_lookups(engine, cache, Set::empty()) =~= cache);
}

/// One look-up more.
pub proof fn lemma_one_more_lookup<E: ExpressionEngine>(
    engine: E,
    cache: Map<Seq<char>, CompiledExpr>,
    srcs: Set<Seq<char>>,
    src: Seq<char>,
)
    ensures
        after_lookup(engine, after_lookups(engine, cache, srcs), src) == after_lookups(
            engine,
            cache,
            srcs.insert(src),
        ),
{
    assert(after_lookup(engine, after_lookups(engine, cache, srcs), src) =~= after_lookups(
        engine,
        cache,
        srcs.insert(src),
    ));
}

/// Look-ups upon look-ups are look-ups of all the sources.
pub proof fn lemma_lookups_add_up<E: ExpressionEngine>(
    engine: E,
    cache: Map<Seq<char>, CompiledExpr>,
    a: Set<Seq<char>>,
    b: Set<Seq<char>>,
)
    ensures
        after_lookups(engine, after_lookups(engine, cache, a), b) == after_lookups(
            engine,
            cache,
            a.union(b),
        ),
{
    assert(after_lookups(engine, after_lookups(engine, cache, a), b) =~= after_lookups(
        engine,
        cache,
        a.union(b),
    ));
}

/// A look-up changes no later look-up: neither of the same source, which is
/// then found without compiling if it compiles, nor of another one.
pub proof fn law_lookup_changes_no_lookup<E: ExpressionEngine>(
    engine: E,
    cache: Map<Seq<char>, CompiledExpr>,
    src: Seq<char>,
)
    ensures
        cache_grew(engine, cache, after_lookup(engine, cache, src)),
        found(engine, cache, src) is Ok <==> after_lookup(engine, cache, src).contains_key(src),
{
    assert(programs(engine, after_lookup(engine, cache, src)) =~= programs(engine, cache));
}

/// Growth upon growth is growth.
pub proof fn lemma_growth_adds_up<E: ExpressionEngine>(
    engine: E,
    a: Map<Seq<char>, CompiledExpr>,
    b: Map<Seq<char>, CompiledExpr>,
    c: Map<Seq<char>, CompiledExpr>,
)
    requires
        cache_grew(engine, a, b),
        cache_grew(engine, b, c),
    ensures
        cache_grew(engine, a, c),
{
}

/// A second look-up of the same source leaves the cache as it is.
pub proof fn law_second_lookup_keeps_the_cache<E: ExpressionEngine>(
    engine: E,
    cache: Map<Seq<char>, CompiledExpr>,
    src: Seq<char>,
)
    ensures
        after_lookup(engine, after_lookup(engine, cache, src), src) == after_lookup(
            engine,
            cache,
            src,
        ),
{
    assert(after_lookup(engine, after_lookup(engine, cache, src), src) =~= after_lookup(
        engine,
        cache,
        src,
    ));
}

/// In a boolean place only a boolean counts, and as itself: an error stays, and
/// anything else is an error that names its kind.
pub proof fn law_only_booleans_decide(o: Result<Val, ExprFault>)
    ensures
        o matches Ok(Val::Bool(b)) ==> as_bool(o) == Ok::<bool, ExprFault>(b),
        o matches Err(e) ==> as_bool(o) == Err::<bool, ExprFault>(e),
        o is Ok && o->Ok_0 !is Bool ==> as_bool(o) == Err::<bool, ExprFault>(
            ExprFault::NotBool(variant_text(o->Ok_0)),
        ),
{
}

/// A fault is told by what failed, with the words of the engine.
pub proof fn law_faults_are_told(m: Seq<char>)
    ensures
        fault_text(ExprFault::ParseFailed(m)) == "expression parse failed: "@ + m,
        fault_text(ExprFault::EvalFailed(m)) == "expression evaluation failed: "@ + m,
        fault_text(ExprFault::NotBool(m)) == "expression did not evaluate to bool (got "@ + m
            + ")"@,
{
}

/// A lookup gives what is kept and, where nothing is, what the engine compiles;
/// that is kept from then on if it compiled. Nothing else in the cache changes.
pub proof fn law_lookups_keep_what_compiles<E: ExpressionEngine>(
    engine: E,
    cache: Map<Seq<char>, CompiledExpr>,
    src: Seq<char>,
    other: Seq<char>,
)
    ensures
        cache.contains_key(src) ==> found(engine, cache, src) == Ok::<CompiledExpr, ExprFault>(
            cache[src],
        ),
        !cache.contains_key(src) ==> found(engine, cache, src) == engine.compiled(src),
        found(engine, cache, src) matches Ok(c) ==> after_lookup(
            engine,
            cache,
            src,
        ).contains_key(src) && after_lookup(engine, cache, src)[src] == c,
        found(engine, cache, src) is Err ==> after_lookup(engine, cache, src) == cache,
        other != src ==> after_lookup(engine, cache, src).contains_key(other)
            == cache.contains_key(other) && (cache.contains_key(other) ==> after_lookup(
            engine,
            cache,
            src,
        )[other] == cache[other]),
        programs(engine, cache)(src) == found(engine, cache, src),
{
}

} // verus!
