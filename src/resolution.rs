use vstd::prelude::*;
use crate::decision_tree::{DecisionStep, Outcome, OutcomeView, StepView, steps_view};

verus! {

/// The answer to one query together with the full trace that explains it.
#[derive(Debug, Clone)]
pub struct ResolutionResult {
    pub name: String,
    pub result: Option<String>,
    pub steps: Vec<DecisionStep>,
}

/// The mathematical value of a [`ResolutionResult`].
pub struct ResultView {
    pub name: Seq<char>,
    pub result: Option<Seq<char>>,
    pub steps: Seq<StepView>,
}

impl View for ResolutionResult {
    type V = ResultView;

    open spec fn view(&self) -> ResultView {
        ResultView {
            name: self.name@,
            result: match self.result {
                Some(v) => Some(v@),
                None => None,
            },
            steps: steps_view(self.steps@),
        }
    }
}

/// The trace shape that strict short-circuiting guarantees: only the last step
/// may be a match; a result is present exactly when that last step matched, and
/// then it is the matched value.
pub open spec fn short_circuited(result: Option<Seq<char>>, steps: Seq<StepView>) -> bool {
    &&& forall|i: int| 0 <= i < steps.len() - 1 ==> !(#[trigger] steps[i].outcome is Match)
    &&& match result {
        Some(v) => steps.len() > 0 && steps.last().outcome == OutcomeView::Match(v),
        None => forall|i: int| 0 <= i < steps.len() ==> !(#[trigger] steps[i].outcome is Match),
    }
}

/// The result that a trace ends in: the value of its last step, if that matched.
pub open spec fn result_of(steps: Seq<StepView>) -> Option<Seq<char>> {
    if steps.len() > 0 && steps.last().outcome is Match {
        Some(steps.last().outcome->Match_0)
    } else {
        None
    }
}

/// Consults the sources of `order` in turn, each giving one step, and stops
/// right after the first step that matched.
pub open spec fn run_sources(order: Seq<Seq<char>>, step: spec_fn(Seq<char>) -> StepView) -> Seq<StepView>
    decreases order.len(),
{
    if order.len() == 0 {
        seq![]
    } else if step(order[0]).outcome is Match {
        seq![step(order[0])]
    } else {
        seq![step(order[0])] + run_sources(order.drop_first(), step)
    }
}

impl ResolutionResult {
    /// Whether the trace is short-circuited and agrees with the result.
    pub open spec fn wf(&self) -> bool {
        short_circuited(self@.result, self@.steps)
    }

    /// A result for `name` with an empty trace and no answer yet.
    pub fn new(name: &str) -> (r: ResolutionResult)
        ensures
            r@ == (ResultView { name: name@, result: None, steps: seq![] }),
            r.wf(),
    {
        let r = ResolutionResult { name: name.to_string(), result: None, steps: Vec::new() };
        assert(r@.steps =~= seq![]);
        r
    }

    /// Appends one step to an unfinished trace; a matching step sets the result.
    pub fn record(&mut self, step: DecisionStep)
        requires
            old(self).wf(),
            old(self).result is None,
        ensures
            final(self).wf(),
            final(self)@.name == old(self)@.name,
            final(self)@.steps == old(self)@.steps.push(step@),
            final(self)@.result == (match step@.outcome {
                OutcomeView::Match(v) => Some(v),
                _ => None,
            }),
    {
        let value = match &step.outcome {
            Outcome::Match(v) => Some(v.clone()),
            _ => None,
        };
        self.steps.push(step);
        self.result = value;
        assert(self@.steps =~= old(self)@.steps.push(step@));
    }
}

/// Every trace made by [`run_sources`] is short-circuited and ends in its result.
pub proof fn lemma_run_sources_short_circuited(order: Seq<Seq<char>>, step: spec_fn(Seq<char>) -> StepView)
    ensures
        short_circuited(result_of(run_sources(order, step)), run_sources(order, step)),
    decreases order.len(),
{
    if order.len() > 0 && !(step(order[0]).outcome is Match) {
        lemma_run_sources_short_circuited(order.drop_first(), step);
        let rest = run_sources(order.drop_first(), step);
        let all = run_sources(order, step);
        assert(all == seq![step(order[0])] + rest);
        assert forall|i: int| 0 <= i < all.len() - 1 implies !(#[trigger] all[i].outcome is Match) by {
            if i > 0 {
                assert(all[i] == rest[i - 1]);
            }
        }
        if rest.len() > 0 {
            assert(all.last() == rest.last());
        }
    }
}

/// The step for the source at position `k` is the one that this source gives:
/// sources are consulted in their order, one step each.
pub proof fn lemma_run_sources_in_order(order: Seq<Seq<char>>, step: spec_fn(Seq<char>) -> StepView, k: int)
    requires
        0 <= k < run_sources(order, step).len(),
    ensures
        k < order.len(),
        run_sources(order, step)[k] == step(order[k]),
    decreases order.len(),
{
    if k > 0 {
        lemma_run_sources_in_order(order.drop_first(), step, k - 1);
    }
}

/// Once the source at position `k` matches, no later source appears in the trace.
pub proof fn lemma_match_stops_later_sources(order: Seq<Seq<char>>, step: spec_fn(Seq<char>) -> StepView, k: int)
    requires
        0 <= k < order.len(),
        step(order[k]).outcome is Match,
    ensures
        run_sources(order, step).len() <= k + 1,
    decreases order.len(),
{
    if k > 0 && !(step(order[0]).outcome is Match) {
        lemma_match_stops_later_sources(order.drop_first(), step, k - 1);
    }
}

/// When no source of `order` matches, every source is consulted, none of the
/// steps is a match, and there is no result.
pub proof fn lemma_no_match_no_result(order: Seq<Seq<char>>, step: spec_fn(Seq<char>) -> StepView)
    requires
        forall|k: int| 0 <= k < order.len() ==> !(#[trigger] step(order[k]).outcome is Match),
    ensures
        run_sources(order, step).len() == order.len(),
        result_of(run_sources(order, step)) is None,
        forall|i: int| 0 <= i < order.len() ==> !(#[trigger] run_sources(order, step)[i].outcome is Match),
    decreases order.len(),
{
    if order.len() > 0 {
        assert forall|k: int| 0 <= k < order.drop_first().len() implies !(#[trigger] step(order.drop_first()[k]).outcome is Match) by {
            assert(order.drop_first()[k] == order[k + 1]);
        }
        lemma_no_match_no_result(order.drop_first(), step);
        let rest = run_sources(order.drop_first(), step);
        let all = run_sources(order, step);
        assert(all == seq![step(order[0])] + rest);
        assert forall|i: int| 0 <= i < order.len() implies !(#[trigger] all[i].outcome is Match) by {
            if i > 0 {
                assert(all[i] == rest[i - 1]);
            }
        }
        if rest.len() > 0 {
            assert(all.last() == rest.last());
        }
    }
}


/// A short-circuited trace determines its result.
pub proof fn lemma_short_circuited_result(result: Option<Seq<char>>, steps: Seq<StepView>)
    requires
        short_circuited(result, steps),
    ensures
        result == result_of(steps),
{
    if steps.len() > 0 && result is None {
        assert(!(steps[steps.len() - 1].outcome is Match));
    }
}

} // verus!
