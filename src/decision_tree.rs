use vstd::prelude::*;
use vstd::string::*;

verus! {

/// What one consultation of a source came to.
#[derive(Debug, Clone)]
pub enum Outcome {
    Match(String),
    NoMatch,
    Error(String),
    Unsupported(String),
}

/// One entry of a decision trace: which concrete backend answered, how, and why.
#[derive(Debug, Clone)]
pub struct DecisionStep {
    pub source: String,
    pub outcome: Outcome,
    pub reason: String,
}

/// The mathematical value of an [`Outcome`].
pub enum OutcomeView {
    Match(Seq<char>),
    NoMatch,
    Error(Seq<char>),
    Unsupported(Seq<char>),
}

/// The mathematical value of a [`DecisionStep`].
pub struct StepView {
    pub source: Seq<char>,
    pub outcome: OutcomeView,
    pub reason: Seq<char>,
}

impl View for Outcome {
    type V = OutcomeView;

    open spec fn view(&self) -> OutcomeView {
        match self {
            Outcome::Match(v) => OutcomeView::Match(v@),
            Outcome::NoMatch => OutcomeView::NoMatch,
            Outcome::Error(m) => OutcomeView::Error(m@),
            Outcome::Unsupported(m) => OutcomeView::Unsupported(m@),
        }
    }
}

impl View for DecisionStep {
    type V = StepView;

    open spec fn view(&self) -> StepView {
        StepView { source: self.source@, outcome: self.outcome@, reason: self.reason@ }
    }
}

/// The values of a sequence of steps, in order.
pub open spec fn steps_view(steps: Seq<DecisionStep>) -> Seq<StepView> {
    steps.map_values(|s: DecisionStep| s@)
}

/// A fresh, empty decision trace.
pub fn build_decision_tree() -> (r: Vec<DecisionStep>)
    ensures
        r@.len() == 0,
{
    Vec::new()
}

/// Builds a step from string slices.
pub fn make_step(source: &str, outcome: Outcome, reason: &str) -> (r: DecisionStep)
    ensures
        r@ == (StepView { source: source@, outcome: outcome@, reason: reason@ }),
{
    DecisionStep { source: String::from_str(source), outcome, reason: String::from_str(reason) }
}

} // verus!
