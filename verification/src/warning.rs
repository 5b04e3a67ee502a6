//! What goes wrong while a scene is in use, for people to read. None of it stops
//! the scene.

use vstd::prelude::*;

use crate::args::{holds_text, law_texts_are_found_wherever_they_stand};
use crate::engine::{fault_text, ExprError, ExprFault};
use crate::text::{quote, quoted};

verus! {

/// When an expression failed.
#[derive(Debug, Clone, Copy, PartialEq, Eq, Structural)]
pub enum Phase {
    /// It did not compile.
    Parse,
    /// It did not evaluate to what is needed.
    Eval,
}

/// Something that went wrong and was passed over.
#[derive(Debug)]
pub enum Warning {
    /// An expression in a text failed; it reads as nothing.
    Interpolation {
        /// When it failed.
        phase: Phase,
        /// Its source.
        expr: String,
        /// How it failed.
        error: ExprError,
    },
    /// A text holds an interpolation without an expression, which reads as
    /// nothing.
    EmptyInterpolation {
        /// The whole text.
        text: String,
    },
    /// A text holds an interpolation that is not closed; the rest of the text
    /// reads as itself.
    UnclosedInterpolation {
        /// The whole text.
        text: String,
    },
    /// The predicate of a choice failed; it counts as `false`.
    Condition {
        /// When it failed.
        phase: Phase,
        /// Its source.
        when: String,
        /// How it failed.
        error: ExprError,
    },
    /// The expression of a mutation failed; the mutation is skipped.
    Mutation {
        /// When it failed.
        phase: Phase,
        /// The path that would have been written.
        path: String,
        /// Its source.
        set: String,
        /// How it failed.
        error: ExprError,
    },
}

/// What a [`Warning`] stands for.
pub enum WarningModel {
    /// An expression in a text failed.
    Interpolation {
        /// When it failed.
        phase: Phase,
        /// Its source.
        expr: Seq<char>,
        /// How it failed.
        fault: ExprFault,
    },
    /// An interpolation without an expression.
    EmptyInterpolation {
        /// The whole text.
        text: Seq<char>,
    },
    /// An interpolation that is not closed.
    UnclosedInterpolation {
        /// The whole text.
        text: Seq<char>,
    },
    /// The predicate of a choice failed.
    Condition {
        /// When it failed.
        phase: Phase,
        /// Its source.
        when: Seq<char>,
        /// How it failed.
        fault: ExprFault,
    },
    /// The expression of a mutation failed.
    Mutation {
        /// When it failed.
        phase: Phase,
        /// The path that would have been written.
        path: Seq<char>,
        /// Its source.
        set: Seq<char>,
        /// How it failed.
        fault: ExprFault,
    },
}

impl View for Warning {
    type V = WarningModel;

    open spec fn view(&self) -> WarningModel {
        match *self {
            Warning::Interpolation { phase, expr, error } => WarningModel::Interpolation {
                phase,
                expr: expr@,
                fault: error@,
            },
            Warning::EmptyInterpolation { text } => WarningModel::EmptyInterpolation {
                text: text@,
            },
            Warning::UnclosedInterpolation { text } => WarningModel::UnclosedInterpolation {
                text: text@,
            },
            Warning::Condition { phase, when, error } => WarningModel::Condition {
                phase,
                when: when@,
                fault: error@,
            },
            Warning::Mutation { phase, path, set, error } => WarningModel::Mutation {
                phase,
                path: path@,
                set: set@,
                fault: error@,
            },
        }
    }
}

/// The name of a phase in messages.
pub open spec fn phase_text(phase: Phase) -> Seq<char> {
    match phase {
        Phase::Parse => "parse"@,
        Phase::Eval => "eval"@,
    }
}

/// The message of a warning.
pub open spec fn warning_text(w: WarningModel) -> Seq<char> {
    match w {
        WarningModel::Interpolation { phase, expr, fault } => "sdui: interp "@ + phase_text(phase)
            + " failed: "@ + fault_text(fault) + " (expr = "@ + quoted(expr) + ")"@,
        WarningModel::EmptyInterpolation { text } => "sdui: empty ${} in text content: "@ + quoted(
            text,
        ) + "; skipping"@,
        WarningModel::UnclosedInterpolation { text } => "sdui: unclosed ${ in text content: "@
            + quoted(text) + "; emitting literal remainder"@,
        WarningModel::Condition { phase, when, fault } => "sdui: condition "@ + phase_text(phase)
            + " failed: "@ + fault_text(fault) + " (expr = "@ + quoted(when)
            + "); defaulting to false"@,
        WarningModel::Mutation { phase, path, set, fault } => "sdui: mutation "@ + phase_text(phase)
            + " failed: "@ + fault_text(fault) + " (path = "@ + quoted(path) + ", set = "@ + quoted(
            set,
        ) + ")"@,
    }
}

impl Phase {
    /// The name of this phase in messages.
    pub fn name(self) -> (r: &'static str)
        ensures
            r@ == phase_text(self),
    {
        match self {
            Phase::Parse => "parse",
            Phase::Eval => "eval",
        }
    }
}

impl Warning {
    /// The message of this warning.
    pub fn message(&self) -> (r: String)
        ensures
            r@ == warning_text(self@),
    {
        match self {
            Warning::Interpolation { phase, expr, error } => "sdui: interp ".to_owned().concat(
                phase.name(),
            ).concat(" failed: ").concat(error.message().as_str()).concat(" (expr = ").concat(
                quote(expr.as_str()).as_str(),
            ).concat(")"),
            Warning::EmptyInterpolation { text } => {
                "sdui: empty ${} in text content: ".to_owned().concat(
                    quote(text.as_str()).as_str(),
                ).concat("; skipping")
            },
            Warning::UnclosedInterpolation { text } => {
                "sdui: unclosed ${ in text content: ".to_owned().concat(
                    quote(text.as_str()).as_str(),
                ).concat("; emitting literal remainder")
            },
            Warning::Condition { phase, when, error } => "sdui: condition ".to_owned().concat(
                phase.name(),
            ).concat(" failed: ").concat(error.message().as_str()).concat(" (expr = ").concat(
                quote(when.as_str()).as_str(),
            ).concat("); defaulting to false"),
            Warning::Mutation { phase, path, set, error } => "sdui: mutation ".to_owned().concat(
                phase.name(),
            ).concat(" failed: ").concat(error.message().as_str()).concat(" (path = ").concat(
                quote(path.as_str()).as_str(),
            ).concat(", set = ").concat(quote(set.as_str()).as_str()).concat(")"),
        }
    }
}

/// What a list of warnings stands for.
pub open spec fn warning_models(s: Seq<Warning>) -> Seq<WarningModel> {
    Seq::new(s.len(), |i: int| s[i]@)
}

/// A warning, or none, as a list.
pub open spec fn noted(note: Option<WarningModel>) -> Seq<WarningModel> {
    match note {
        Some(w) => seq![w],
        None => Seq::empty(),
    }
}

/// The warnings among notes.
pub open spec fn given(notes: Seq<Option<WarningModel>>) -> Seq<WarningModel>
    decreases notes.len(),
{
    if notes.len() == 0 {
        Seq::empty()
    } else {
        given(notes.drop_last()) + noted(notes.last())
    }
}

/// Lists of warnings, one after the other.
pub open spec fn gathered(wss: Seq<Seq<WarningModel>>) -> Seq<WarningModel>
    decreases wss.len(),
{
    if wss.len() == 0 {
        Seq::empty()
    } else {
        gathered(wss.drop_last()) + wss.last()
    }
}

/// Nothing among notes that note nothing.
pub proof fn lemma_nothing_given(notes: Seq<Option<WarningModel>>)
    requires
        forall|i: int| 0 <= i < notes.len() ==> (#[trigger] notes[i]) is None,
    ensures
        given(notes) == Seq::<WarningModel>::empty(),
    decreases notes.len(),
{
    if notes.len() > 0 {
        assert forall|i: int| 0 <= i < notes.drop_last().len() implies (
        #[trigger] notes.drop_last()[i]) is None by {
            assert(notes[i] is None);
        }
        lemma_nothing_given(notes.drop_last());
        assert(notes[notes.len() - 1] is None);
        assert(given(notes) =~= Seq::<WarningModel>::empty());
    }
}

/// Nothing in lists that are empty.
pub proof fn lemma_nothing_gathered(wss: Seq<Seq<WarningModel>>)
    requires
        forall|i: int| 0 <= i < wss.len() ==> (#[trigger] wss[i]).len() == 0,
    ensures
        gathered(wss) == Seq::<WarningModel>::empty(),
    decreases wss.len(),
{
    if wss.len() > 0 {
        assert forall|i: int| 0 <= i < wss.drop_last().len() implies (
        #[trigger] wss.drop_last()[i]).len() == 0 by {
            assert(wss[i].len() == 0);
        }
        lemma_nothing_gathered(wss.drop_last());
        assert(wss[wss.len() - 1].len() == 0);
        assert(gathered(wss) =~= Seq::<WarningModel>::empty());
    }
}

/// Add a warning, if there is one.
pub fn note(warnings: &mut Vec<Warning>, w: Option<Warning>)
    ensures
        warning_models(final(warnings)@) == warning_models(old(warnings)@) + noted(opt_warning(w)),
{
    match w {
        Some(w) => {
            warnings.push(w);
            assert(warning_models(warnings@) =~= warning_models(old(warnings)@) + seq![w@]);
        },
        None => {
            assert(warning_models(warnings@) =~= warning_models(old(warnings)@) + Seq::empty());
        },
    }
}

/// The meaning of an optional warning.
pub open spec fn opt_warning(w: Option<Warning>) -> Option<WarningModel> {
    match w {
        Some(w) => Some(w@),
        None => None,
    }
}

/// Add warnings.
pub fn note_all(warnings: &mut Vec<Warning>, more: Vec<Warning>)
    ensures
        warning_models(final(warnings)@) == warning_models(old(warnings)@) + warning_models(more@),
{
    let mut more = more;
    let ghost added = more@;
    warnings.append(&mut more);
    assert(warning_models(warnings@) =~= warning_models(old(warnings)@) + warning_models(added));
}

/// Warnings of lists come list by list, none lost and none moved.
pub proof fn law_warnings_come_in_order(wss: Seq<Seq<WarningModel>>)
    ensures
        gathered(wss) == wss.flatten(),
    decreases wss.len(),
{
    wss.lemma_flatten_and_flatten_alt_are_equivalent();
    if wss.len() > 0 {
        law_warnings_come_in_order(wss.drop_last());
        wss.drop_last().lemma_flatten_and_flatten_alt_are_equivalent();
    }
}

/// The warnings among notes are those that are some, in their order.
pub proof fn law_notes_that_warn_are_given(notes: Seq<Option<WarningModel>>)
    ensures
        given(notes) == notes.filter_map(|w: Option<WarningModel>| w),
    decreases notes.len(),
{
    if notes.len() > 0 {
        law_notes_that_warn_are_given(notes.drop_last());
        assert(given(notes) =~= notes.filter_map(|w: Option<WarningModel>| w));
    }
}

/// The message of a warning names what went wrong: when, with what expression, path
/// or text, and how.
pub proof fn law_messages_name_what_went_wrong(w: WarningModel)
    ensures
        match w {
            WarningModel::Interpolation { phase, expr, fault } => {
                &&& holds_text(warning_text(w), phase_text(phase))
                &&& holds_text(warning_text(w), fault_text(fault))
                &&& holds_text(warning_text(w), quoted(expr))
            },
            WarningModel::EmptyInterpolation { text } => holds_text(warning_text(w), quoted(text)),
            WarningModel::UnclosedInterpolation { text } => holds_text(
                warning_text(w),
                quoted(text),
            ),
            WarningModel::Condition { phase, when, fault } => {
                &&& holds_text(warning_text(w), phase_text(phase))
                &&& holds_text(warning_text(w), fault_text(fault))
                &&& holds_text(warning_text(w), quoted(when))
            },
            WarningModel::Mutation { phase, path, set, fault } => {
                &&& holds_text(warning_text(w), phase_text(phase))
                &&& holds_text(warning_text(w), fault_text(fault))
                &&& holds_text(warning_text(w), quoted(path))
                &&& holds_text(warning_text(w), quoted(set))
            },
        },
{
    match w {
        WarningModel::Interpolation { phase, expr, fault } => {
            lemma_failure_told(w, "sdui: interp "@, phase, fault, quoted(expr), ")"@);
        },
        WarningModel::EmptyInterpolation { text } => {
            lemma_told(w, "sdui: empty ${} in text content: "@, quoted(text), "; skipping"@);
        },
        WarningModel::UnclosedInterpolation { text } => {
            lemma_told(
                w,
                "sdui: unclosed ${ in text content: "@,
                quoted(text),
                "; emitting literal remainder"@,
            );
        },
        WarningModel::Condition { phase, when, fault } => {
            let end = "); defaulting to false"@;
            lemma_failure_told(w, "sdui: condition "@, phase, fault, quoted(when), end);
        },
        WarningModel::Mutation { phase, path, set, fault } => {
            lemma_mutation_told(w);
        },
    }
}

/// The message about an expression names its parts.
#[verifier::spinoff_prover]
proof fn lemma_failure_told(
    w: WarningModel,
    start: Seq<char>,
    phase: Phase,
    fault: ExprFault,
    q: Seq<char>,
    end: Seq<char>,
)
    requires
        warning_text(w) == start + phase_text(phase) + " failed: "@ + fault_text(fault)
            + " (expr = "@ + q + end,
    ensures
        holds_text(warning_text(w), phase_text(phase)),
        holds_text(warning_text(w), fault_text(fault)),
        holds_text(warning_text(w), q),
{
    let p = phase_text(phase);
    let f = fault_text(fault);
    let (a, b) = (" failed: "@, " (expr = "@);
    assert(warning_text(w) =~= start + p + (a + f + b + q + end));
    lemma_told(w, start, p, a + f + b + q + end);
    assert(warning_text(w) =~= (start + p + a) + f + (b + q + end));
    lemma_told(w, start + p + a, f, b + q + end);
    lemma_told(w, start + p + a + f + b, q, end);
}

/// The message about a mutation names its parts.
#[verifier::spinoff_prover]
proof fn lemma_mutation_told(w: WarningModel)
    requires
        w is Mutation,
    ensures
        holds_text(warning_text(w), phase_text(w->Mutation_phase)),
        holds_text(warning_text(w), fault_text(w->Mutation_fault)),
        holds_text(warning_text(w), quoted(w->path)),
        holds_text(warning_text(w), quoted(w->set)),
{
    let p = phase_text(w->Mutation_phase);
    let f = fault_text(w->Mutation_fault);
    let (q, e) = (quoted(w->path), quoted(w->set));
    let start = "sdui: mutation "@;
    let (a, b, c, d) = (" failed: "@, " (path = "@, ", set = "@, ")"@);
    assert(warning_text(w) == start + p + a + f + b + q + c + e + d);
    assert(warning_text(w) =~= start + p + (a + f + b + q + c + e + d));
    lemma_told(w, start, p, a + f + b + q + c + e + d);
    assert(warning_text(w) =~= (start + p + a) + f + (b + q + c + e + d));
    lemma_told(w, start + p + a, f, b + q + c + e + d);
    assert(warning_text(w) =~= (start + p + a + f + b) + q + (c + e + d));
    lemma_told(w, start + p + a + f + b, q, c + e + d);
    lemma_told(w, start + p + a + f + b + q + c, e, d);
}

/// A message holds a part of it.
proof fn lemma_told(w: WarningModel, before: Seq<char>, part: Seq<char>, after: Seq<char>)
    requires
        warning_text(w) =~= before + part + after,
    ensures
        holds_text(warning_text(w), part),
{
    law_texts_are_found_wherever_they_stand(before, part, after, part);
}

/// The phases have different names.
pub proof fn law_phases_are_told_apart()
    ensures
        phase_text(Phase::Parse) == seq!['p', 'a', 'r', 's', 'e'],
        phase_text(Phase::Eval) == seq!['e', 'v', 'a', 'l'],
{
    reveal_strlit("parse");
    reveal_strlit("eval");
    assert("parse"@ =~= seq!['p', 'a', 'r', 's', 'e']);
    assert("eval"@ =~= seq!['e', 'v', 'a', 'l']);
}

} // verus!
