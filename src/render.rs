use vstd::prelude::*;
use vstd::string::*;
use crate::decision_tree::{DecisionStep, Outcome, OutcomeView, StepView, steps_view};
use crate::resolution::{ResolutionResult, ResultView};
use crate::text::{decimal_of, decimal_string_usize, strings_view};

verus! {

/// The kind of identity that a query asks about.
#[derive(PartialEq, Eq, Structural, Clone, Copy)]
pub enum QueryKind {
    Host,
    User,
    Group,
}

/// How an outcome reads in the human summary.
pub open spec fn outcome_text(o: OutcomeView) -> Seq<char> {
    match o {
        OutcomeView::Match(v) => "Match: "@ + v,
        OutcomeView::NoMatch => "No match"@,
        OutcomeView::Error(e) => "Error: "@ + e,
        OutcomeView::Unsupported(r) => "Unsupported: "@ + r,
    }
}

/// The summary lines of the step at position `i`: its number, label and
/// outcome, then its reason where it has one.
pub open spec fn step_lines(i: nat, s: StepView) -> Seq<Seq<char>> {
    let head = "  "@ + decimal_of(i + 1) + ". "@ + s.source + " → "@ + outcome_text(s.outcome);
    if s.reason.len() == 0 {
        seq![head]
    } else {
        seq![head, "     Reason: "@ + s.reason]
    }
}

/// The summary lines of a whole trace, step after step.
pub open spec fn trace_lines(steps: Seq<StepView>) -> Seq<Seq<char>>
    decreases steps.len(),
{
    if steps.len() == 0 {
        seq![]
    } else {
        trace_lines(steps.drop_last()) + step_lines((steps.len() - 1) as nat, steps.last())
    }
}

/// The first line of the summary: the answer, or that there is none.
pub open spec fn headline_text(kind: QueryKind, r: ResultView) -> Seq<char> {
    match r.result {
        Some(v) => match kind {
            QueryKind::Host => r.name + " → "@ + v,
            QueryKind::User => r.name + " → uid "@ + v,
            QueryKind::Group => r.name + " → gid "@ + v,
        },
        None => match kind {
            QueryKind::Host => r.name + " not resolved"@,
            _ => r.name + " not found"@,
        },
    }
}

/// How an outcome reads in the human summary.
pub fn describe_outcome(o: &Outcome) -> (r: String)
    ensures
        r@ == outcome_text(o@),
{
    match o {
        Outcome::Match(v) => String::from_str("Match: ").concat(v.as_str()),
        Outcome::NoMatch => String::from_str("No match"),
        Outcome::Error(e) => String::from_str("Error: ").concat(e.as_str()),
        Outcome::Unsupported(m) => String::from_str("Unsupported: ").concat(m.as_str()),
    }
}

/// The first line of the summary of `r`.
pub fn headline(kind: QueryKind, r: &ResolutionResult) -> (s: String)
    ensures
        s@ == headline_text(kind, r@),
{
    let name = r.name.clone();
    match &r.result {
        Some(v) => match kind {
            QueryKind::Host => name.concat(" → ").concat(v.as_str()),
            QueryKind::User => name.concat(" → uid ").concat(v.as_str()),
            QueryKind::Group => name.concat(" → gid ").concat(v.as_str()),
        },
        None => match kind {
            QueryKind::Host => name.concat(" not resolved"),
            _ => name.concat(" not found"),
        },
    }
}

/// The lines that explain a trace: every step, in order, none left out.
pub fn why_lines(steps: &Vec<DecisionStep>) -> (r: Vec<String>)
    requires
        steps@.len() < usize::MAX,
    ensures
        strings_view(r@) == trace_lines(steps_view(steps@)),
{
    let ghost sv = steps_view(steps@);
    let mut r: Vec<String> = Vec::new();
    let mut i: usize = 0;
    assert(strings_view(r@) =~= trace_lines(sv.take(0)));
    while i < steps.len()
        invariant
            i <= steps@.len(),
            steps@.len() < usize::MAX,
            sv == steps_view(steps@),
            strings_view(r@) == trace_lines(sv.take(i as int)),
        decreases steps@.len() - i,
    {
        let s = &steps[i];
        assert(sv.take(i + 1).drop_last() == sv.take(i as int));
        assert(sv.take(i + 1).last() == s@);
        let head = String::from_str("  ")
            .concat(decimal_string_usize(i + 1).as_str())
            .concat(". ")
            .concat(s.source.as_str())
            .concat(" → ")
            .concat(describe_outcome(&s.outcome).as_str());
        let ghost prev = r@;
        r.push(head);
        if s.reason.as_str().unicode_len() > 0 {
            let reason = String::from_str("     Reason: ").concat(s.reason.as_str());
            r.push(reason);
            assert(strings_view(r@) =~= strings_view(prev) + step_lines(i as nat, s@));
        } else {
            assert(strings_view(r@) =~= strings_view(prev) + step_lines(i as nat, s@));
        }
        i = i + 1;
    }
    assert(sv.take(steps@.len() as int) == sv);
    r
}

} // verus!
