//! Text with `${...}` interpolations.
//!
//! ```text
//! text    := ( literal | escape | interp )*
//! escape  := "$$"  for "$"
//!          | "$${" for "${"
//! interp  := "${" expression "}"
//! literal := any character; a "$" before neither "$" nor "{" is literal
//! ```
//!
//! The brace that closes an interpolation is the one that balances the opening
//! one, outside of quoted strings. An empty interpolation reads as nothing; one
//! that is never closed is literal, with all that follows.

use vstd::prelude::*;

use crate::engine::{
    after_lookup, after_lookups, cache_grew, law_lookup_changes_no_lookup, lemma_growth_adds_up,
    lemma_no_lookups, lemma_one_more_lookup, outcome, programs, CompiledExpr, EvalEnv, ExprCache,
    ExprFault, ExpressionEngine,
};
use crate::show::{outcome_text, show_outcome, value_text};
use crate::text::{chars_of, text_of};
use crate::value::Val;
use crate::warning::{
    given, law_notes_that_warn_are_given, lemma_nothing_given, note, noted, opt_warning,
    warning_models, Phase, Warning, WarningModel,
};

verus! {

/// Where a scan of an interpolated expression stands.
pub struct Scan {
    /// How many braces are open.
    pub depth: int,
    /// The quote that opened the string that the scan is in, if it is in one.
    pub quote: Option<char>,
    /// Whether the next character of that string is escaped.
    pub escaped: bool,
}

/// Reading one more character.
pub open spec fn step(st: Scan, c: char) -> Scan {
    match st.quote {
        Some(q) => if st.escaped {
            Scan { escaped: false, ..st }
        } else if c == '\\' {
            Scan { escaped: true, ..st }
        } else if c == q {
            Scan { quote: None, ..st }
        } else {
            st
        },
        None => if c == '"' || c == '\'' {
            Scan { quote: Some(c), ..st }
        } else if c == '{' {
            Scan { depth: st.depth + 1, ..st }
        } else if c == '}' {
            Scan { depth: st.depth - 1, ..st }
        } else {
            st
        },
    }
}

/// Where the scan stands before the character `j` of what follows `${`.
pub open spec fn scan(t: Seq<char>, j: int) -> Scan
    decreases j,
{
    if j <= 0 {
        Scan { depth: 1, quote: None, escaped: false }
    } else {
        step(scan(t, j - 1), t[j - 1])
    }
}

/// The character `j` balances the opening brace.
pub open spec fn closes(t: Seq<char>, j: int) -> bool {
    &&& 0 <= j < t.len()
    &&& t[j] == '}'
    &&& scan(t, j).quote is None
    &&& scan(t, j).depth == 1
}

/// The character `j` is the first that does.
pub open spec fn ends_at(t: Seq<char>, j: int) -> bool {
    closes(t, j) && forall|k: int| 0 <= k < j ==> !closes(t, k)
}

/// The place of the closing brace in what follows `${`, if it is ever closed.
pub open spec fn interp_end(t: Seq<char>) -> Option<int> {
    if exists|j: int| ends_at(t, j) {
        Some(choose|j: int| ends_at(t, j))
    } else {
        None
    }
}

/// A piece of a text.
pub enum Piece {
    /// Text that stands for itself.
    Text(Seq<char>),
    /// An expression.
    Code(Seq<char>),
    /// An interpolation without an expression.
    Empty,
    /// The rest of a text from an interpolation on that is not closed.
    Unclosed(Seq<char>),
}

/// The pieces of a text.
pub open spec fn pieces(s: Seq<char>) -> Seq<Piece>
    decreases s.len(),
{
    if s.len() == 0 {
        Seq::empty()
    } else if s[0] != '$' {
        seq![Piece::Text(seq![s[0]])] + pieces(s.skip(1))
    } else if s.len() > 1 && s[1] == '$' {
        if s.len() > 2 && s[2] == '{' {
            seq![Piece::Text(seq!['$', '{'])] + pieces(s.skip(3))
        } else {
            seq![Piece::Text(seq!['$'])] + pieces(s.skip(2))
        }
    } else if s.len() > 1 && s[1] == '{' {
        match interp_end(s.skip(2)) {
            Some(end) => if end == 0 {
                seq![Piece::Empty] + pieces(s.skip(3))
            } else if end > 0 {
                seq![Piece::Code(s.subrange(2, 2 + end))] + pieces(s.skip(3 + end))
            } else {
                Seq::empty()
            },
            None => seq![Piece::Unclosed(s)],
        }
    } else {
        seq![Piece::Text(seq!['$'])] + pieces(s.skip(1))
    }
}

/// The expressions among pieces.
pub open spec fn expressions(ps: Seq<Piece>) -> Set<Seq<char>> {
    Set::new(|src: Seq<char>| ps.contains(Piece::Code(src)))
}

/// Expressions with that of one more piece, if it is one.
pub open spec fn with_expression(srcs: Set<Seq<char>>, p: Piece) -> Set<Seq<char>> {
    match p {
        Piece::Code(src) => srcs.insert(src),
        _ => srcs,
    }
}

/// The warning for the outcome of an expression: an error is one.
pub open spec fn expression_note(src: Seq<char>, o: Result<Val, ExprFault>) -> Option<
    WarningModel,
> {
    match o {
        Ok(_) => None,
        Err(fault) => Some(
            WarningModel::Interpolation { phase: Phase::Eval, expr: src, fault },
        ),
    }
}

/// Whether a piece of the text `whole` can read as `t` with the warning `note`:
/// text as itself; an expression as one of its outcomes, or as nothing where it
/// does not compile; an interpolation without an expression as nothing; one that
/// is not closed as itself.
pub open spec fn piece_reads<E: ExpressionEngine>(
    engine: E,
    progs: spec_fn(Seq<char>) -> Result<CompiledExpr, ExprFault>,
    env: Map<Seq<char>, Val>,
    whole: Seq<char>,
    p: Piece,
    t: Seq<char>,
    note: Option<WarningModel>,
) -> bool {
    match p {
        Piece::Text(s) => t == s && note is None,
        Piece::Code(src) => match progs(src) {
            Ok(c) => exists|o: Result<Val, ExprFault>| #[trigger]
                engine.evaluates(c, env, o) && t == outcome_text(o) && note == expression_note(
                    src,
                    o,
                ),
            Err(fault) => t == Seq::<char>::empty() && note == Some(
                WarningModel::Interpolation { phase: Phase::Parse, expr: src, fault },
            ),
        },
        Piece::Empty => t == Seq::<char>::empty() && note == Some(
            WarningModel::EmptyInterpolation { text: whole },
        ),
        Piece::Unclosed(s) => t == s && note == Some(
            WarningModel::UnclosedInterpolation { text: whole },
        ),
    }
}

/// Whether the pieces `ps` of the text `whole` can read as the texts `ts` with
/// the warnings `notes`, one for one.
pub open spec fn pieces_read<E: ExpressionEngine>(
    engine: E,
    progs: spec_fn(Seq<char>) -> Result<CompiledExpr, ExprFault>,
    env: Map<Seq<char>, Val>,
    whole: Seq<char>,
    ps: Seq<Piece>,
    ts: Seq<Seq<char>>,
    notes: Seq<Option<WarningModel>>,
) -> bool {
    &&& ts.len() == ps.len()
    &&& notes.len() == ps.len()
    &&& forall|i: int|
        0 <= i < ps.len() ==> #[trigger] piece_reads(
            engine,
            progs,
            env,
            whole,
            ps[i],
            ts[i],
            notes[i],
        )
}

/// Texts, one after the other.
pub open spec fn joined(ts: Seq<Seq<char>>) -> Seq<char>
    decreases ts.len(),
{
    if ts.len() == 0 {
        Seq::empty()
    } else {
        joined(ts.drop_last()) + ts.last()
    }
}

/// Whether the text `src` can read as `out` with the warnings `ws`.
pub open spec fn interpolates<E: ExpressionEngine>(
    engine: E,
    progs: spec_fn(Seq<char>) -> Result<CompiledExpr, ExprFault>,
    env: Map<Seq<char>, Val>,
    src: Seq<char>,
    out: Seq<char>,
    ws: Seq<WarningModel>,
) -> bool {
    exists|ts: Seq<Seq<char>>, notes: Seq<Option<WarningModel>>| #[trigger]
        pieces_read(engine, progs, env, src, pieces(src), ts, notes) && out == joined(ts) && ws
            == given(notes)
}

/// The place of a closing brace is unique and lies in the text.
pub proof fn lemma_interp_end(t: Seq<char>, j: int)
    requires
        ends_at(t, j),
    ensures
        interp_end(t) == Some(j),
        0 <= j < t.len(),
{
    let k = choose|k: int| ends_at(t, k);
    if k < j {
        assert(closes(t, k));
    }
    if j < k {
        assert(closes(t, j));
    }
}

/// Find the `}` that closes the interpolation whose expression starts at
/// `start`. There is none where it would start beyond the end of the text.
pub fn find_interp_end(chars: &Vec<char>, start: usize) -> (r: Option<usize>)
    ensures
        start > chars@.len() ==> r is None,
        start <= chars@.len() ==> match r {
            Some(end) => start <= end < chars@.len() && chars@[end as int] == '}' && interp_end(
                chars@.skip(start as int),
            ) == Some(end - start),
            None => interp_end(chars@.skip(start as int)) is None,
        },
{
    if start >= chars.len() {
        assert(start == chars@.len() ==> chars@.skip(start as int).len() == 0);
        return None;
    }
    let ghost t = chars@.skip(start as int);
    let mut depth: u128 = 1;
    let mut quote: Option<char> = None;
    let mut escaped: bool = false;
    let mut i: usize = start;
    while i < chars.len()
        invariant
            start <= i <= chars@.len(),
            t == chars@.skip(start as int),
            1 <= depth <= i - start + 1,
            scan(t, i - start) == (Scan { depth: depth as int, quote, escaped }),
            forall|k: int| 0 <= k < i - start ==> !closes(t, k),
        decreases chars@.len() - i,
    {
        let c = chars[i];
        assert(t[i - start] == c);
        assert(scan(t, i - start + 1) == step(scan(t, i - start), c));
        match quote {
            Some(q) => {
                if escaped {
                    escaped = false;
                } else if c == '\\' {
                    escaped = true;
                } else if c == q {
                    quote = None;
                }
            },
            None => {
                if c == '"' || c == '\'' {
                    quote = Some(c);
                } else if c == '{' {
                    depth = depth + 1;
                } else if c == '}' {
                    depth = depth - 1;
                    if depth == 0 {
                        proof {
                            assert(closes(t, i - start));
                            lemma_interp_end(t, i - start);
                        }
                        return Some(i);
                    }
                }
            },
        }
        i = i + 1;
    }
    None
}

/// Compile and evaluate one `${...}` body; an error reads as nothing, and is a
/// warning.
fn compile_and_render<E: ExpressionEngine>(
    expr_src: &str,
    engine: &E,
    env: &EvalEnv,
    cache: &mut ExprCache,
    Ghost(whole): Ghost<Seq<char>>,
) -> (r: (String, Option<Warning>))
    ensures
        piece_reads(
            *engine,
            programs(*engine, old(cache)@),
            env@,
            whole,
            Piece::Code(expr_src@),
            r.0@,
            opt_warning(r.1),
        ),
        final(cache)@ == after_lookup(*engine, old(cache)@, expr_src@),
{
    proof {
        law_lookup_changes_no_lookup(*engine, cache@, expr_src@);
    }
    match cache.compile_cached(engine, expr_src) {
        Ok(compiled) => {
            let o = engine.eval(compiled, env);
            let ghost seen = outcome(o);
            assert(engine.evaluates(*compiled, env@, seen));
            let shown = show_outcome(&o);
            let warning = match o {
                Ok(_) => None,
                Err(error) => Some(
                    Warning::Interpolation { phase: Phase::Eval, expr: expr_src.to_owned(), error },
                ),
            };
            (shown, warning)
        },
        Err(error) => {
            let r = String::new();
            assert(r@ =~= Seq::<char>::empty());
            let expr = expr_src.to_owned();
            (r, Some(Warning::Interpolation { phase: Phase::Parse, expr, error }))
        },
    }
}

/// Texts with one more at the end.
proof fn lemma_joined_push(ts: Seq<Seq<char>>, t: Seq<char>)
    ensures
        joined(ts.push(t)) == joined(ts) + t,
{
    assert(ts.push(t).drop_last() =~= ts);
}

/// One more piece that reads as one more text, with one more note.
proof fn lemma_read_one_more<E: ExpressionEngine>(
    engine: E,
    progs: spec_fn(Seq<char>) -> Result<CompiledExpr, ExprFault>,
    env: Map<Seq<char>, Val>,
    whole: Seq<char>,
    ps: Seq<Piece>,
    ts: Seq<Seq<char>>,
    notes: Seq<Option<WarningModel>>,
    p: Piece,
    t: Seq<char>,
    note: Option<WarningModel>,
)
    requires
        pieces_read(engine, progs, env, whole, ps, ts, notes),
        piece_reads(engine, progs, env, whole, p, t, note),
    ensures
        pieces_read(engine, progs, env, whole, ps.push(p), ts.push(t), notes.push(note)),
        joined(ts.push(t)) == joined(ts) + t,
        given(notes.push(note)) == given(notes) + noted(note),
        expressions(ps.push(p)) == with_expression(expressions(ps), p),
{
    assert(notes.push(note).drop_last() =~= notes);
    lemma_joined_push(ts, t);
    let (qs, us) = (ps.push(p), ts.push(t));
    assert forall|q: Piece| qs.contains(q) == (ps.contains(q) || q == p) by {
        if ps.contains(q) {
            assert(qs[ps.index_of(q)] == q);
        }
        if q == p {
            assert(qs[ps.len() as int] == q);
        }
    }
    assert(expressions(qs) =~= with_expression(expressions(ps), p));
    let ms = notes.push(note);
    assert forall|i: int| 0 <= i < qs.len() implies #[trigger] piece_reads(
        engine,
        progs,
        env,
        whole,
        qs[i],
        us[i],
        ms[i],
    ) by {
        if i < ps.len() {
            assert(piece_reads(engine, progs, env, whole, ps[i], ts[i], notes[i]));
        }
    }
}

/// Substitute every `${expression}` in `src` with what the expression evaluates
/// to.
pub fn interpolate_text<E: ExpressionEngine>(
    src: &str,
    engine: &E,
    env: &EvalEnv,
    cache: &mut ExprCache,
) -> (r: String)
    ensures
        exists|ws: Seq<WarningModel>| #[trigger]
            interpolates(*engine, programs(*engine, old(cache)@), env@, src@, r@, ws),
        final(cache)@ == after_lookups(*engine, old(cache)@, expressions(pieces(src@))),
        cache_grew(*engine, old(cache)@, final(cache)@),
{
    let ghost progs = programs(*engine, cache@);
    let (out, warnings) = interpolate_with_warnings(src, engine, env, cache);
    let ghost ws = warning_models(warnings@);
    assert(interpolates(*engine, progs, env@, src@, out@, ws));
    out
}

/// Substitute every `${expression}` in `src` with what the expression evaluates
/// to, and say what went wrong.
pub fn interpolate_with_warnings<E: ExpressionEngine>(
    src: &str,
    engine: &E,
    env: &EvalEnv,
    cache: &mut ExprCache,
) -> (r: (String, Vec<Warning>))
    ensures
        interpolates(
            *engine,
            programs(*engine, old(cache)@),
            env@,
            src@,
            r.0@,
            warning_models(r.1@),
        ),
        final(cache)@ == after_lookups(*engine, old(cache)@, expressions(pieces(src@))),
        cache_grew(*engine, old(cache)@, final(cache)@),
{
    let chars = chars_of(src);
    let mut out = String::new();
    let mut i: usize = 0;
    let ghost progs = programs(*engine, cache@);
    let ghost mut done: Seq<Piece> = Seq::empty();
    let ghost mut texts: Seq<Seq<char>> = Seq::empty();
    let mut warnings: Vec<Warning> = Vec::new();
    let ghost mut notes: Seq<Option<WarningModel>> = Seq::empty();
    proof {
        assert(warning_models(warnings@) =~= given(notes));
        assert(expressions(done) =~= Set::empty());
        lemma_no_lookups(*engine, cache@);
        assert(out@ =~= joined(texts));
        assert(src@.skip(0) =~= src@);
        assert(done + pieces(src@.skip(0)) =~= pieces(src@));
    }
    while i < chars.len()
        invariant
            chars@ == src@,
            i <= chars@.len(),
            progs == programs(*engine, old(cache)@),
            cache_grew(*engine, old(cache)@, cache@),
            cache@ == after_lookups(*engine, old(cache)@, expressions(done)),
            pieces_read(*engine, progs, env@, src@, done, texts, notes),
            out@ == joined(texts),
            warning_models(warnings@) == given(notes),
            done + pieces(src@.skip(i as int)) == pieces(src@),
        decreases chars@.len() - i,
    {
        let ghost rest = src@.skip(i as int);
        let ghost tail = pieces(rest);
        let c = chars[i];
        assert(rest[0] == c);
        if c != '$' {
            out.push(c);
            i = i + 1;
            proof {
                let p = Piece::Text(seq![c]);
                lemma_read_one_more(
                    *engine,
                    progs,
                    env@,
                    src@,
                    done,
                    texts,
                    notes,
                    p,
                    seq![c],
                    None,
                );
                notes = notes.push(None);
                assert(given(notes) =~= warning_models(warnings@));
                assert(rest.skip(1) =~= src@.skip(i as int));
                assert(done.push(p) + pieces(src@.skip(i as int)) =~= done + tail);
                done = done.push(p);
                texts = texts.push(seq![c]);
                assert(out@ =~= joined(texts));
            }
        } else if chars.len() - i > 1 && chars[i + 1] == '$' {
            assert(rest[1] == chars@[i + 1]);
            if chars.len() - i > 2 && chars[i + 2] == '{' {
                assert(rest[2] == chars@[i + 2]);
                out.push('$');
                out.push('{');
                i = i + 3;
                proof {
                    let t = seq!['$', '{'];
                    lemma_read_one_more(
                        *engine,
                        progs,
                        env@,
                        src@,
                        done,
                        texts,
                        notes,
                        Piece::Text(t),
                        t,
                        None,
                    );
                    notes = notes.push(None);
                    assert(given(notes) =~= warning_models(warnings@));
                    assert(rest.skip(3) =~= src@.skip(i as int));
                    assert(done.push(Piece::Text(t)) + pieces(src@.skip(i as int)) =~= done + tail);
                    done = done.push(Piece::Text(t));
                    texts = texts.push(t);
                    assert(out@ =~= joined(texts));
                }
            } else {
                assert(rest.len() > 2 ==> rest[2] == chars@[i + 2]);
                out.push('$');
                i = i + 2;
                proof {
                    let t = seq!['$'];
                    lemma_read_one_more(
                        *engine,
                        progs,
                        env@,
                        src@,
                        done,
                        texts,
                        notes,
                        Piece::Text(t),
                        t,
                        None,
                    );
                    notes = notes.push(None);
                    assert(given(notes) =~= warning_models(warnings@));
                    assert(rest.skip(2) =~= src@.skip(i as int));
                    assert(done.push(Piece::Text(t)) + pieces(src@.skip(i as int)) =~= done + tail);
                    done = done.push(Piece::Text(t));
                    texts = texts.push(t);
                    assert(out@ =~= joined(texts));
                }
            }
        } else if chars.len() - i > 1 && chars[i + 1] == '{' {
            assert(rest[1] == chars@[i + 1]);
            let start = i + 2;
            assert(rest.skip(2) =~= chars@.skip(start as int));
            match find_interp_end(&chars, start) {
                Some(end) => {
                    if end > start {
                        let expr_src = text_of(&chars, start, end);
                        let ghost before = cache@;
                        let (rendered, warning) = compile_and_render(
                            expr_src.as_str(),
                            engine,
                            env,
                            cache,
                            Ghost(src@),
                        );
                        out.append(rendered.as_str());
                        let ghost said = opt_warning(warning);
                        note(&mut warnings, warning);
                        proof {
                            law_lookup_changes_no_lookup(*engine, before, expr_src@);
                            lemma_growth_adds_up(*engine, old(cache)@, before, cache@);
                            lemma_one_more_lookup(
                                *engine,
                                old(cache)@,
                                expressions(done),
                                expr_src@,
                            );
                            let p = Piece::Code(expr_src@);
                            lemma_read_one_more(
                                *engine,
                                progs,
                                env@,
                                src@,
                                done,
                                texts,
                                notes,
                                p,
                                rendered@,
                                said,
                            );
                            notes = notes.push(said);
                            assert(rest.subrange(2, 2 + (end - start)) =~= expr_src@);
                            assert(rest.skip(3 + (end - start)) =~= src@.skip(end + 1));
                            assert(done.push(p) + pieces(src@.skip(end + 1)) =~= done + tail);
                            done = done.push(p);
                            texts = texts.push(rendered@);
                        }
                    } else {
                        let warning = Some(Warning::EmptyInterpolation { text: src.to_owned() });
                        let ghost said = opt_warning(warning);
                        note(&mut warnings, warning);
                        proof {
                            let t = Seq::<char>::empty();
                            lemma_read_one_more(
                                *engine,
                                progs,
                                env@,
                                src@,
                                done,
                                texts,
                                notes,
                                Piece::Empty,
                                t,
                                said,
                            );
                            notes = notes.push(said);
                            assert(rest.skip(3) =~= src@.skip(end + 1));
                            assert(done.push(Piece::Empty) + pieces(src@.skip(end + 1)) =~= done
                                + tail);
                            done = done.push(Piece::Empty);
                            texts = texts.push(t);
                            assert(out@ =~= joined(texts));
                        }
                    }
                    i = end + 1;
                },
                None => {
                    let remainder = text_of(&chars, i, chars.len());
                    out.append(remainder.as_str());
                    let warning = Some(Warning::UnclosedInterpolation { text: src.to_owned() });
                    let ghost said = opt_warning(warning);
                    note(&mut warnings, warning);
                    proof {
                        assert(remainder@ =~= rest);
                        let p = Piece::Unclosed(rest);
                        lemma_read_one_more(
                            *engine,
                            progs,
                            env@,
                            src@,
                            done,
                            texts,
                            notes,
                            p,
                            rest,
                            said,
                        );
                        assert(done.push(p) =~= done + tail);
                        assert(pieces_read(
                            *engine,
                            progs,
                            env@,
                            src@,
                            pieces(src@),
                            texts.push(rest),
                            notes.push(said),
                        ));
                    }
                    return (out, warnings);
                },
            }
        } else {
            assert(rest.len() > 1 ==> rest[1] == chars@[i + 1]);
            out.push('$');
            i = i + 1;
            proof {
                let t = seq!['$'];
                lemma_read_one_more(
                    *engine,
                    progs,
                    env@,
                    src@,
                    done,
                    texts,
                    notes,
                    Piece::Text(t),
                    t,
                    None,
                );
                notes = notes.push(None);
                assert(given(notes) =~= warning_models(warnings@));
                assert(rest.skip(1) =~= src@.skip(i as int));
                assert(done.push(Piece::Text(t)) + pieces(src@.skip(i as int)) =~= done + tail);
                done = done.push(Piece::Text(t));
                texts = texts.push(t);
                assert(out@ =~= joined(texts));
            }
        }
    }
    proof {
        assert(src@.skip(i as int) =~= Seq::<char>::empty());
        assert(done =~= pieces(src@));
    }
    (out, warnings)
}

/// The texts of pieces that are text.
pub open spec fn contents(ps: Seq<Piece>) -> Seq<Seq<char>> {
    Seq::new(ps.len(), |i: int| ps[i]->Text_0)
}

/// All pieces are text.
pub open spec fn all_text(ps: Seq<Piece>) -> bool {
    forall|i: int| 0 <= i < ps.len() ==> (#[trigger] ps[i]) is Text
}

/// `s` with every `$` written twice.
pub open spec fn doubled(s: Seq<char>) -> Seq<char>
    decreases s.len(),
{
    if s.len() == 0 {
        Seq::empty()
    } else if s[0] == '$' {
        seq!['$', '$'] + doubled(s.skip(1))
    } else {
        seq![s[0]] + doubled(s.skip(1))
    }
}

/// Texts with one more at the front.
proof fn lemma_joined_front(t: Seq<char>, ts: Seq<Seq<char>>)
    ensures
        joined(seq![t] + ts) == t + joined(ts),
    decreases ts.len(),
{
    let all = seq![t] + ts;
    if ts.len() == 0 {
        assert(all.drop_last() =~= Seq::<Seq<char>>::empty());
        assert(joined(all.drop_last()) =~= Seq::<char>::empty());
        assert(joined(all) =~= t + joined(ts));
    } else {
        assert(all.drop_last() =~= seq![t] + ts.drop_last());
        lemma_joined_front(t, ts.drop_last());
        assert(joined(all) =~= t + joined(ts));
    }
}

/// One text piece before others that are text.
proof fn lemma_text_front(t: Seq<char>, ps: Seq<Piece>)
    requires
        all_text(ps),
    ensures
        all_text(seq![Piece::Text(t)] + ps),
        joined(contents(seq![Piece::Text(t)] + ps)) == t + joined(contents(ps)),
{
    let all = seq![Piece::Text(t)] + ps;
    assert(contents(all) =~= seq![t] + contents(ps));
    lemma_joined_front(t, contents(ps));
    assert forall|i: int| 0 <= i < all.len() implies (#[trigger] all[i]) is Text by {
        if i > 0 {
            assert(all[i] == ps[i - 1]);
        }
    }
}

/// Pieces that are text can read in one way only.
proof fn lemma_text_reads_as_itself<E: ExpressionEngine>(
    engine: E,
    progs: spec_fn(Seq<char>) -> Result<CompiledExpr, ExprFault>,
    env: Map<Seq<char>, Val>,
    src: Seq<char>,
    out: Seq<char>,
    ws: Seq<WarningModel>,
)
    requires
        all_text(pieces(src)),
    ensures
        interpolates(engine, progs, env, src, out, ws) <==> out == joined(contents(pieces(src)))
            && ws.len() == 0,
{
    let ps = pieces(src);
    if interpolates(engine, progs, env, src, out, ws) {
        let (ts, notes) = choose|ts: Seq<Seq<char>>, notes: Seq<Option<WarningModel>>| #[trigger]
            pieces_read(engine, progs, env, src, ps, ts, notes) && out == joined(ts) && ws == given(
                notes,
            );
        assert forall|i: int| 0 <= i < ps.len() implies #[trigger] ts[i] == contents(ps)[i] by {
            assert(ps[i] is Text);
            assert(piece_reads(engine, progs, env, src, ps[i], ts[i], notes[i]));
        }
        assert forall|i: int| 0 <= i < notes.len() implies (#[trigger] notes[i]) is None by {
            assert(ps[i] is Text);
            assert(piece_reads(engine, progs, env, src, ps[i], ts[i], notes[i]));
        }
        assert(ts =~= contents(ps));
        lemma_nothing_given(notes);
    }
    if out == joined(contents(ps)) && ws.len() == 0 {
        let notes = Seq::new(ps.len(), |i: int| None::<WarningModel>);
        assert forall|i: int| 0 <= i < ps.len() implies #[trigger] piece_reads(
            engine,
            progs,
            env,
            src,
            ps[i],
            contents(ps)[i],
            notes[i],
        ) by {
            assert(ps[i] is Text);
        }
        assert(pieces_read(engine, progs, env, src, ps, contents(ps), notes));
        lemma_nothing_given(notes);
        assert(ws =~= Seq::<WarningModel>::empty());
    }
}

proof fn lemma_plain(s: Seq<char>)
    requires
        !s.contains('$'),
    ensures
        all_text(pieces(s)),
        joined(contents(pieces(s))) == s,
    decreases s.len(),
{
    if s.len() == 0 {
        assert(contents(pieces(s)) =~= Seq::<Seq<char>>::empty());
    } else {
        let rest = s.skip(1);
        assert(s.contains(s[0]));
        assert(!rest.contains('$')) by {
            if rest.contains('$') {
                let i = choose|i: int| 0 <= i < rest.len() && rest[i] == '$';
                assert(s.contains(s[i + 1]));
            }
        }
        lemma_plain(rest);
        lemma_text_front(seq![s[0]], pieces(rest));
        assert(seq![s[0]] + rest =~= s);
    }
}

/// Text without a `$` reads as itself and without a warning, whatever the engine
/// and environment.
pub proof fn law_plain_text_reads_as_itself<E: ExpressionEngine>(
    engine: E,
    progs: spec_fn(Seq<char>) -> Result<CompiledExpr, ExprFault>,
    env: Map<Seq<char>, Val>,
    s: Seq<char>,
    out: Seq<char>,
    ws: Seq<WarningModel>,
)
    requires
        !s.contains('$'),
    ensures
        interpolates(engine, progs, env, s, out, ws) <==> out == s && ws.len() == 0,
{
    lemma_plain(s);
    lemma_text_reads_as_itself(engine, progs, env, s, out, ws);
}

proof fn lemma_doubled(s: Seq<char>)
    ensures
        all_text(pieces(doubled(s))),
        joined(contents(pieces(doubled(s)))) == s,
    decreases s.len(),
{
    if s.len() == 0 {
        assert(contents(pieces(doubled(s))) =~= Seq::<Seq<char>>::empty());
    } else {
        let rest = s.skip(1);
        let d = doubled(s);
        lemma_doubled(rest);
        if s[0] != '$' {
            assert(d.skip(1) =~= doubled(rest));
            lemma_text_front(seq![s[0]], pieces(doubled(rest)));
            assert(seq![s[0]] + rest =~= s);
        } else if rest.len() > 0 && rest[0] == '{' {
            let after = rest.skip(1);
            assert(doubled(rest) == seq![rest[0]] + doubled(after));
            assert(d[2] == '{');
            assert(d.skip(3) =~= doubled(after));
            lemma_doubled(after);
            lemma_text_front(seq!['$', '{'], pieces(doubled(after)));
            assert(seq!['$', '{'] + after =~= s);
        } else {
            assert(d.len() > 2 ==> d[2] == doubled(rest)[0]);
            assert(doubled(rest).len() > 0 ==> rest.len() > 0 && doubled(rest)[0] == rest[0]);
            assert(d.skip(2) =~= doubled(rest));
            lemma_text_front(seq!['$'], pieces(doubled(rest)));
            assert(seq!['$'] + rest =~= s);
        }
    }
}

/// Every text can be written: with each `$` doubled it reads as itself, without a
/// warning.
pub proof fn law_doubling_escapes_any_text<E: ExpressionEngine>(
    engine: E,
    progs: spec_fn(Seq<char>) -> Result<CompiledExpr, ExprFault>,
    env: Map<Seq<char>, Val>,
    s: Seq<char>,
    out: Seq<char>,
    ws: Seq<WarningModel>,
)
    ensures
        interpolates(engine, progs, env, doubled(s), out, ws) <==> out == s && ws.len() == 0,
{
    lemma_doubled(s);
    lemma_text_reads_as_itself(engine, progs, env, doubled(s), out, ws);
}

/// What follows a text changes nothing in how its characters are scanned.
proof fn lemma_scan_prefix(t: Seq<char>, u: Seq<char>, j: int)
    requires
        j <= t.len(),
    ensures
        scan(t + u, j) == scan(t, j),
    decreases j,
{
    if j > 0 {
        lemma_scan_prefix(t, u, j - 1);
    }
}

/// What follows a closing brace does not move it.
proof fn lemma_end_prefix(t: Seq<char>, u: Seq<char>)
    requires
        interp_end(t) is Some,
    ensures
        interp_end(t + u) == interp_end(t),
{
    let e = interp_end(t)->Some_0;
    assert(ends_at(t, e));
    lemma_scan_prefix(t, u, e);
    assert forall|k: int| 0 <= k < e implies !closes(t + u, k) by {
        lemma_scan_prefix(t, u, k);
        assert(!closes(t, k));
    }
    lemma_interp_end(t + u, e);
}

/// Texts put together read as their parts do: where every interpolation of the
/// first is closed and no `$` ends it, the pieces of the whole are the pieces of
/// the one and then those of the other.
pub proof fn law_texts_put_together_read_as_their_parts(a: Seq<char>, b: Seq<char>)
    requires
        forall|i: int| 0 <= i < pieces(a).len() ==> !(#[trigger] pieces(a)[i] is Unclosed),
        a.len() > 0 ==> a.last() != '$',
    ensures
        pieces(a + b) == pieces(a) + pieces(b),
    decreases a.len(),
{
    let s = a + b;
    if a.len() == 0 {
        assert(s =~= b);
        assert(pieces(a) + pieces(b) =~= pieces(b));
    } else {
        if a[0] == '$' && a.len() > 1 && a[1] == '{' {
            if interp_end(a.skip(2)) is None {
                assert(pieces(a)[0] is Unclosed);
            }
            lemma_end_prefix(a.skip(2), b);
            assert(s.skip(2) =~= a.skip(2) + b);
        }
        let taken: int = if a[0] != '$' {
            1
        } else if a[1] == '$' {
            if a.len() > 2 && a[2] == '{' {
                3
            } else {
                2
            }
        } else if a[1] == '{' {
            3 + interp_end(a.skip(2))->Some_0
        } else {
            1
        };
        assert(0 < taken <= a.len()) by {
            if a[0] == '$' && a[1] == '{' {
                assert(ends_at(a.skip(2), interp_end(a.skip(2))->Some_0));
            }
        }
        let rest = a.skip(taken);
        assert(s.skip(taken) =~= rest + b);
        assert(pieces(a) =~= seq![pieces(a)[0]] + pieces(rest));
        assert forall|i: int| 0 <= i < pieces(rest).len() implies !(#[trigger] pieces(
            rest,
        )[i] is Unclosed) by {
            assert(pieces(a)[i + 1] == pieces(rest)[i]);
        }
        law_texts_put_together_read_as_their_parts(rest, b);
        if a[0] == '$' && a[1] == '{' {
            assert(s.subrange(2, taken - 1) =~= a.subrange(2, taken - 1));
        }
        assert(pieces(s) =~= seq![pieces(a)[0]] + pieces(rest + b));
        assert(pieces(s) =~= pieces(a) + pieces(b));
    }
}

/// An expression between `${` and its closing brace reads as one of its
/// outcomes, and as nothing where it does not compile; a failure is a warning.
pub proof fn law_expression_reads_as_its_outcome<E: ExpressionEngine>(
    engine: E,
    progs: spec_fn(Seq<char>) -> Result<CompiledExpr, ExprFault>,
    env: Map<Seq<char>, Val>,
    code: Seq<char>,
    out: Seq<char>,
    warned: Option<WarningModel>,
)
    requires
        code.len() > 0,
        interp_end(code.push('}')) == Some(code.len() as int),
    ensures
        ({
            let s = seq!['$', '{'] + code.push('}');
            interpolates(engine, progs, env, s, out, noted(warned)) <==> piece_reads(
                engine,
                progs,
                env,
                s,
                Piece::Code(code),
                out,
                warned,
            )
        }),
{
    let s = seq!['$', '{'] + code.push('}');
    let ps = pieces(s);
    assert(s.skip(2) =~= code.push('}'));
    assert(s.subrange(2, 2 + code.len() as int) =~= code);
    assert(s.skip(3 + code.len() as int) =~= Seq::<char>::empty());
    assert(pieces(s.skip(3 + code.len() as int)) =~= Seq::<Piece>::empty());
    assert(ps =~= seq![Piece::Code(code)]);
    if interpolates(engine, progs, env, s, out, noted(warned)) {
        let (ts, notes) = choose|ts: Seq<Seq<char>>, notes: Seq<Option<WarningModel>>| #[trigger]
            pieces_read(engine, progs, env, s, ps, ts, notes) && out == joined(ts) && noted(warned)
                == given(notes);
        assert(piece_reads(engine, progs, env, s, ps[0], ts[0], notes[0]));
        assert(ts.drop_last() =~= Seq::<Seq<char>>::empty());
        assert(joined(ts.drop_last()) =~= Seq::<char>::empty());
        assert(joined(ts) =~= ts[0]);
        lemma_one_note(notes);
        assert(notes[0] == warned) by {
            match (notes[0], warned) {
                (Some(a), Some(b)) => {
                    assert(noted(notes[0])[0] == noted(warned)[0]);
                },
                (Some(_), None) => {
                    assert(noted(notes[0]).len() == noted(warned).len());
                },
                (None, Some(_)) => {
                    assert(noted(notes[0]).len() == noted(warned).len());
                },
                (None, None) => {},
            }
        }
    }
    if piece_reads(engine, progs, env, s, Piece::Code(code), out, warned) {
        let ts = seq![out];
        let notes = seq![warned];
        assert(pieces_read(engine, progs, env, s, ps, ts, notes));
        assert(ts.drop_last() =~= Seq::<Seq<char>>::empty());
        assert(joined(ts.drop_last()) =~= Seq::<char>::empty());
        assert(joined(ts) =~= out);
        lemma_one_note(notes);
    }
}

/// The warnings among a single note.
proof fn lemma_one_note(notes: Seq<Option<WarningModel>>)
    requires
        notes.len() == 1,
    ensures
        given(notes) == noted(notes[0]),
{
    assert(notes.drop_last() =~= Seq::<Option<WarningModel>>::empty());
    assert(given(notes.drop_last()) =~= Seq::<WarningModel>::empty());
    assert(given(notes) =~= noted(notes[0]));
}

/// Without quotes, the depth of a scan is the number of braces that are open.
proof fn lemma_depth_counts(t: Seq<char>, j: int)
    requires
        0 <= j <= t.len(),
        forall|i: int| 0 <= i < t.len() ==> (#[trigger] t[i]) != '"' && t[i] != '\'',
    ensures
        scan(t, j).quote is None,
        !scan(t, j).escaped,
        scan(t, j).depth == 1 + t.take(j).filter(|c: char| c == '{').len() - t.take(j).filter(
            |c: char| c == '}',
        ).len(),
    decreases j,
{
    reveal(Seq::filter);
    if j > 0 {
        lemma_depth_counts(t, j - 1);
        assert(t.take(j).drop_last() =~= t.take(j - 1));
        assert(t.take(j).last() == t[j - 1]);
        assert(t[j - 1] != '"' && t[j - 1] != '\'');
    }
}

/// In an expression without quotes, the brace that closes the interpolation is the
/// first before which as many braces were closed as opened.
pub proof fn law_braces_balance(t: Seq<char>, e: int)
    requires
        forall|i: int| 0 <= i < t.len() ==> (#[trigger] t[i]) != '"' && t[i] != '\'',
    ensures
        interp_end(t) == Some(e) <==> 0 <= e < t.len() && t[e] == '}' && t.take(e).filter(
            |c: char| c == '{',
        ).len() == t.take(e).filter(|c: char| c == '}').len() && forall|k: int|
            0 <= k < e ==> (#[trigger] t[k]) != '}' || t.take(k).filter(|c: char| c == '{').len()
                != t.take(k).filter(|c: char| c == '}').len(),
{
    assert forall|k: int| 0 <= k < t.len() implies closes(t, k) == ((#[trigger] t[k]) == '}'
        && t.take(k).filter(|c: char| c == '{').len() == t.take(k).filter(
        |c: char| c == '}',
    ).len()) by {
        lemma_depth_counts(t, k);
    }
    if interp_end(t) == Some(e) {
        assert(ends_at(t, e));
        assert forall|k: int| 0 <= k < e implies (#[trigger] t[k]) != '}' || t.take(k).filter(
            |c: char| c == '{',
        ).len() != t.take(k).filter(|c: char| c == '}').len() by {
            assert(!closes(t, k));
        }
    }
    if 0 <= e < t.len() && t[e] == '}' && t.take(e).filter(|c: char| c == '{').len() == t.take(
        e,
    ).filter(|c: char| c == '}').len() && (forall|k: int|
        0 <= k < e ==> (#[trigger] t[k]) != '}' || t.take(k).filter(|c: char| c == '{').len()
            != t.take(k).filter(|c: char| c == '}').len()) {
        assert(closes(t, e));
        assert forall|k: int| 0 <= k < e implies !closes(t, k) by {
            assert(t[k] != '}' || t.take(k).filter(|c: char| c == '{').len() != t.take(k).filter(
                |c: char| c == '}',
            ).len());
        }
        lemma_interp_end(t, e);
    }
}

/// In a string, everything but its quote and the backslash is passed over.
proof fn lemma_inside_quotes(t: Seq<char>, from: int, to: int)
    requires
        0 <= from <= to <= t.len(),
        scan(t, from).quote is Some,
        !scan(t, from).escaped,
        forall|i: int|
            from <= i < to ==> (#[trigger] t[i]) != '\\' && Some(t[i]) != scan(t, from).quote,
    ensures
        scan(t, to) == scan(t, from),
    decreases to - from,
{
    if from < to {
        lemma_inside_quotes(t, from, to - 1);
        assert(t[to - 1] != '\\');
    }
}

/// A string in quotes of either kind counts for nothing, whatever braces and other
/// quotes it holds: behind it the scan stands as before it.
pub proof fn law_strings_count_for_nothing(t: Seq<char>, from: int, to: int)
    requires
        0 <= from < to < t.len(),
        scan(t, from).quote is None,
        !scan(t, from).escaped,
        t[from] == '"' || t[from] == '\'',
        t[to] == t[from],
        forall|i: int| from < i < to ==> (#[trigger] t[i]) != '\\' && t[i] != t[from],
    ensures
        scan(t, to + 1).quote is None,
        !scan(t, to + 1).escaped,
        scan(t, to + 1).depth == scan(t, from).depth,
        forall|k: int| from <= k <= to ==> !closes(t, k),
{
    assert(scan(t, from + 1).quote == Some(t[from]));
    let inside = scan(t, from + 1);
    assert forall|k: int| from < k <= to implies #[trigger] scan(t, k) == inside by {
        lemma_inside_quotes(t, from + 1, k);
    }
    assert(scan(t, to) == scan(t, from + 1));
}

/// In a string, a backslash and what follows it are passed over, so that an
/// escaped quote does not end the string.
pub proof fn law_escapes_count_for_nothing(t: Seq<char>, at: int)
    requires
        0 <= at,
        at + 1 < t.len(),
        scan(t, at).quote is Some,
        !scan(t, at).escaped,
        t[at] == '\\',
    ensures
        scan(t, at + 2) == scan(t, at),
        !closes(t, at),
        !closes(t, at + 1),
{
    assert(scan(t, at + 1) == step(scan(t, at), t[at]));
    assert(scan(t, at + 2) == step(scan(t, at + 1), t[at + 1]));
}

/// How a text falls into pieces, from its front: a character that is no `$` is
/// itself; `$${` is `${` and any other `$$` is `$`; `${` with its closing brace
/// holds an expression, or none; one that is not closed takes all the rest; any
/// other `$` is itself.
pub proof fn law_texts_fall_into_pieces(c: char, code: Seq<char>, s: Seq<char>)
    ensures
        pieces(Seq::empty()).len() == 0,
        c != '$' ==> pieces(seq![c] + s) == seq![Piece::Text(seq![c])] + pieces(s),
        c != '$' && c != '{' ==> pieces(seq!['$', c] + s) == seq![Piece::Text(seq!['$'])] + pieces(
            seq![c] + s,
        ),
        pieces(seq!['$']) == seq![Piece::Text(seq!['$'])],
        pieces(seq!['$', '$', '{'] + s) == seq![Piece::Text(seq!['$', '{'])] + pieces(s),
        s.len() == 0 || s[0] != '{' ==> pieces(seq!['$', '$'] + s) == seq![Piece::Text(seq!['$'])]
            + pieces(s),
        pieces(seq!['$', '{', '}'] + s) == seq![Piece::Empty] + pieces(s),
        code.len() > 0 && interp_end(code.push('}') + s) == Some(code.len() as int) ==> pieces(
            seq!['$', '{'] + code.push('}') + s,
        ) == seq![Piece::Code(code)] + pieces(s),
        interp_end(s) is None ==> pieces(seq!['$', '{'] + s) == seq![
            Piece::Unclosed(seq!['$', '{'] + s),
        ],
{
    assert((seq![c] + s).skip(1) =~= s);
    assert((seq!['$', c] + s).skip(1) =~= seq![c] + s);
    assert(seq!['$'].skip(1) =~= Seq::empty());
    assert(pieces(seq!['$'].skip(1)) =~= Seq::empty());
    assert(pieces(seq!['$']) =~= seq![Piece::Text(seq!['$'])]);
    assert((seq!['$', '$', '{'] + s).skip(3) =~= s);
    assert((seq!['$', '$'] + s).skip(2) =~= s);
    let empty = seq!['$', '{', '}'] + s;
    assert(empty.skip(3) =~= s);
    assert(ends_at(empty.skip(2), 0));
    lemma_interp_end(empty.skip(2), 0);
    let whole = seq!['$', '{'] + code.push('}') + s;
    assert(whole.skip(2) =~= code.push('}') + s);
    assert(whole.skip(3 + code.len() as int) =~= s);
    assert(whole.subrange(2, 2 + code.len() as int) =~= code);
    assert((seq!['$', '{'] + s).skip(2) =~= s);
}

/// How pieces read: text as itself, without a warning; an expression as the text
/// of one of its outcomes, and as nothing where it does not compile; an empty
/// interpolation as nothing; one that is not closed as itself. Each failure is
/// warned of.
pub proof fn law_pieces_read_as_what_they_are<E: ExpressionEngine>(
    engine: E,
    progs: spec_fn(Seq<char>) -> Result<CompiledExpr, ExprFault>,
    env: Map<Seq<char>, Val>,
    whole: Seq<char>,
    s: Seq<char>,
    t: Seq<char>,
    note: Option<WarningModel>,
)
    ensures
        piece_reads(engine, progs, env, whole, Piece::Text(s), t, note) <==> t == s && note is None,
        piece_reads(engine, progs, env, whole, Piece::Unclosed(s), t, note) <==> t == s && note
            == Some(WarningModel::UnclosedInterpolation { text: whole }),
        piece_reads(engine, progs, env, whole, Piece::Empty, t, note) <==> t.len() == 0 && note
            == Some(WarningModel::EmptyInterpolation { text: whole }),
        progs(s) matches Err(fault) ==> (piece_reads(
            engine,
            progs,
            env,
            whole,
            Piece::Code(s),
            t,
            note,
        ) <==> t.len() == 0 && note == Some(
            WarningModel::Interpolation { phase: Phase::Parse, expr: s, fault },
        )),
        progs(s) is Ok && piece_reads(engine, progs, env, whole, Piece::Code(s), t, note)
            ==> exists|o: Result<Val, ExprFault>| #[trigger]
            engine.evaluates(progs(s)->Ok_0, env, o) && match o {
                Ok(v) => t == value_text(v) && note is None,
                Err(fault) => t.len() == 0 && note == Some(
                    WarningModel::Interpolation { phase: Phase::Eval, expr: s, fault },
                ),
            },
{
    assert(t.len() == 0 ==> t =~= Seq::<char>::empty());
    if let Ok(c) = progs(s) {
        if piece_reads(engine, progs, env, whole, Piece::Code(s), t, note) {
            let o = choose|o: Result<Val, ExprFault>| #[trigger]
                engine.evaluates(c, env, o) && t == outcome_text(o) && note == expression_note(
                    s,
                    o,
                );
            assert(engine.evaluates(c, env, o));
        }
    }
}

/// A text reads as the readings of its pieces, one after the other, and brings
/// their warnings in that order.
pub proof fn law_texts_read_piece_by_piece<E: ExpressionEngine>(
    engine: E,
    progs: spec_fn(Seq<char>) -> Result<CompiledExpr, ExprFault>,
    env: Map<Seq<char>, Val>,
    src: Seq<char>,
    out: Seq<char>,
    ws: Seq<WarningModel>,
) -> (r: (Seq<Seq<char>>, Seq<Option<WarningModel>>))
    requires
        interpolates(engine, progs, env, src, out, ws),
    ensures
        r.0.len() == pieces(src).len(),
        r.1.len() == pieces(src).len(),
        forall|i: int|
            0 <= i < pieces(src).len() ==> piece_reads(
                engine,
                progs,
                env,
                src,
                #[trigger] pieces(src)[i],
                r.0[i],
                r.1[i],
            ),
        out == r.0.flatten(),
        ws == r.1.filter_map(|w: Option<WarningModel>| w),
{
    let (ts, notes) = choose|ts: Seq<Seq<char>>, notes: Seq<Option<WarningModel>>| #[trigger]
        pieces_read(engine, progs, env, src, pieces(src), ts, notes) && out == joined(ts) && ws
            == given(notes);
    lemma_joined_is_flat(ts);
    law_notes_that_warn_are_given(notes);
    assert forall|i: int| 0 <= i < pieces(src).len() implies piece_reads(
        engine,
        progs,
        env,
        src,
        #[trigger] pieces(src)[i],
        ts[i],
        notes[i],
    ) by {}
    (ts, notes)
}

proof fn lemma_joined_is_flat(ts: Seq<Seq<char>>)
    ensures
        joined(ts) == ts.flatten(),
    decreases ts.len(),
{
    ts.lemma_flatten_and_flatten_alt_are_equivalent();
    if ts.len() > 0 {
        lemma_joined_is_flat(ts.drop_last());
        ts.drop_last().lemma_flatten_and_flatten_alt_are_equivalent();
    }
}

} // verus!
