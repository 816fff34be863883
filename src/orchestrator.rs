use vstd::prelude::*;
use vstd::string::*;
use crate::decision_tree::{DecisionStep, Outcome, OutcomeView, StepView, make_step};
use crate::resolution::{
    ResolutionResult,
    result_of,
    run_sources,
    lemma_short_circuited_result,
};
use crate::passwd::{UserEntry, users_named, resolve_user_from_passwd};
use crate::group::{GroupEntry, groups_named, resolve_group_from_group};
use crate::text::{strings_view, decimal_of, decimal_string};

verus! {

/// The step for a source that this kind of query does not implement.
pub open spec fn unsupported_view(source: Seq<char>) -> StepView {
    StepView {
        source: source + " (unsupported)"@,
        outcome: OutcomeView::NoMatch,
        reason: "source not implemented"@,
    }
}

/// The per-source step for a kind whose only implemented source is `files`,
/// which gives `files_step`.
pub open spec fn files_only(files_step: StepView) -> spec_fn(Seq<char>) -> StepView {
    |s: Seq<char>| if s == "files"@ { files_step } else { unsupported_view(s) }
}

/// The step that the passwd file gives for a user query.
pub open spec fn user_files_view(name: Seq<char>, users: Seq<UserEntry>) -> StepView {
    let found = users_named(users, name);
    if found.len() > 0 {
        StepView {
            source: "files (/etc/passwd)"@,
            outcome: OutcomeView::Match(decimal_of(found[0].uid as nat)),
            reason: "Found in passwd file"@,
        }
    } else {
        StepView {
            source: "files (/etc/passwd)"@,
            outcome: OutcomeView::NoMatch,
            reason: "Not found in passwd file"@,
        }
    }
}

/// The step that the group file gives for a group query.
pub open spec fn group_files_view(name: Seq<char>, groups: Seq<GroupEntry>) -> StepView {
    let found = groups_named(groups, name);
    if found.len() > 0 {
        StepView {
            source: "files (/etc/group)"@,
            outcome: OutcomeView::Match(decimal_of(found[0].gid as nat)),
            reason: "Found in group file"@,
        }
    } else {
        StepView {
            source: "files (/etc/group)"@,
            outcome: OutcomeView::NoMatch,
            reason: "Not found in group file"@,
        }
    }
}

/// A copy of `s` with the same value.
pub fn copy_step(s: &DecisionStep) -> (r: DecisionStep)
    ensures
        r@ == s@,
{
    let outcome = match &s.outcome {
        Outcome::Match(v) => Outcome::Match(v.clone()),
        Outcome::NoMatch => Outcome::NoMatch,
        Outcome::Error(m) => Outcome::Error(m.clone()),
        Outcome::Unsupported(m) => Outcome::Unsupported(m.clone()),
    };
    DecisionStep { source: s.source.clone(), outcome, reason: s.reason.clone() }
}

/// The step recorded for a source that is not implemented.
pub fn unsupported_step(source: &String) -> (r: DecisionStep)
    ensures
        r@ == unsupported_view(source@),
{
    let label = source.clone().concat(" (unsupported)");
    DecisionStep {
        source: label,
        outcome: Outcome::NoMatch,
        reason: String::from_str("source not implemented"),
    }
}

/// Consults the passwd file for `name`: the first account of that name gives its uid.
pub fn user_files_step(name: &str, users: &[UserEntry]) -> (r: DecisionStep)
    ensures
        r@ == user_files_view(name@, users@),
{
    let found = resolve_user_from_passwd(name, users);
    if found.len() > 0 {
        assert(found@.map_values(|e: &UserEntry| *e)[0] == *found@[0]);
        let uid = decimal_string(found[0].uid);
        make_step("files (/etc/passwd)", Outcome::Match(uid), "Found in passwd file")
    } else {
        make_step("files (/etc/passwd)", Outcome::NoMatch, "Not found in passwd file")
    }
}

/// Consults the group file for `name`: the first group of that name gives its gid.
pub fn group_files_step(name: &str, groups: &[GroupEntry]) -> (r: DecisionStep)
    ensures
        r@ == group_files_view(name@, groups@),
{
    let found = resolve_group_from_group(name, groups);
    if found.len() > 0 {
        assert(found@.map_values(|e: &GroupEntry| *e)[0] == *found@[0]);
        let gid = decimal_string(found[0].gid);
        make_step("files (/etc/group)", Outcome::Match(gid), "Found in group file")
    } else {
        make_step("files (/etc/group)", Outcome::NoMatch, "Not found in group file")
    }
}

/// Walks `order` for a kind whose only implemented source is `files`.
fn run_files_order(name: &str, order: &[String], files_step: &DecisionStep) -> (r: ResolutionResult)
    ensures
        r.wf(),
        r@.name == name@,
        r@.steps == run_sources(strings_view(order@), files_only(files_step@)),
        r@.result == result_of(r@.steps),
{
    let ghost f = files_only(files_step@);
    let ghost ov = strings_view(order@);
    let files_key = String::from_str("files");
    let mut r = ResolutionResult::new(name);
    let mut i: usize = 0;
    assert(ov.subrange(0, ov.len() as int) == ov);
    assert(r@.steps + run_sources(ov, f) == run_sources(ov, f));
    while i < order.len()
        invariant
            i <= order@.len(),
            ov == strings_view(order@),
            f == files_only(files_step@),
            files_key@ == "files"@,
            r.wf(),
            r@.result is None,
            r@.name == name@,
            r@.steps + run_sources(ov.subrange(i as int, ov.len() as int), f) == run_sources(ov, f),
        decreases order@.len() - i,
    {
        let source = &order[i];
        let step = if *source == files_key {
            copy_step(files_step)
        } else {
            unsupported_step(source)
        };
        assert(step@ == f(ov[i as int]));
        let ghost rest = ov.subrange(i as int, ov.len() as int);
        assert(rest[0] == ov[i as int]);
        assert(rest.drop_first() == ov.subrange(i + 1, ov.len() as int));
        let ghost before = r@.steps;
        r.record(step);
        if r.result.is_some() {
            assert(r@.steps == before + run_sources(rest, f));
            proof {
                lemma_short_circuited_result(r@.result, r@.steps);
            }
            return r;
        }
        assert(run_sources(rest, f) == seq![step@] + run_sources(ov.subrange(i + 1, ov.len() as int), f));
        assert(r@.steps + run_sources(ov.subrange(i + 1, ov.len() as int), f) == run_sources(ov, f));
        i = i + 1;
    }
    assert(ov.subrange(ov.len() as int, ov.len() as int) == Seq::<Seq<char>>::empty());
    assert(r@.steps == run_sources(ov, f));
    proof {
        lemma_short_circuited_result(r@.result, r@.steps);
    }
    r
}

/// Resolves a user name by walking the passwd source order. An empty order
/// gives an empty trace and no result.
pub fn resolve_user(name: &str, order: &[String], users: &[UserEntry]) -> (r: ResolutionResult)
    ensures
        r.wf(),
        r@.name == name@,
        r@.steps == run_sources(strings_view(order@), files_only(user_files_view(name@, users@))),
        r@.result == result_of(r@.steps),
{
    let files_step = user_files_step(name, users);
    run_files_order(name, order, &files_step)
}

/// Resolves a group name by walking the group source order. An empty order
/// gives an empty trace and no result.
pub fn resolve_group(name: &str, order: &[String], groups: &[GroupEntry]) -> (r: ResolutionResult)
    ensures
        r.wf(),
        r@.name == name@,
        r@.steps == run_sources(strings_view(order@), files_only(group_files_view(name@, groups@))),
        r@.result == result_of(r@.steps),
{
    let files_step = group_files_step(name, groups);
    run_files_order(name, order, &files_step)
}


/// Resolving the same user query twice against the same order and accounts
/// gives identical traces and results.
pub proof fn lemma_user_resolution_repeatable(
    name: Seq<char>,
    order: Seq<Seq<char>>,
    users: Seq<UserEntry>,
    r1: ResolutionResult,
    r2: ResolutionResult,
)
    requires
        r1@.name == name,
        r1@.steps == run_sources(order, files_only(user_files_view(name, users))),
        r1@.result == result_of(r1@.steps),
        r2@.name == name,
        r2@.steps == run_sources(order, files_only(user_files_view(name, users))),
        r2@.result == result_of(r2@.steps),
    ensures
        r1@ == r2@,
{
}

/// Resolving the same group query twice against the same order and groups
/// gives identical traces and results.
pub proof fn lemma_group_resolution_repeatable(
    name: Seq<char>,
    order: Seq<Seq<char>>,
    groups: Seq<GroupEntry>,
    r1: ResolutionResult,
    r2: ResolutionResult,
)
    requires
        r1@.name == name,
        r1@.steps == run_sources(order, files_only(group_files_view(name, groups))),
        r1@.result == result_of(r1@.steps),
        r2@.name == name,
        r2@.steps == run_sources(order, files_only(group_files_view(name, groups))),
        r2@.result == result_of(r2@.steps),
    ensures
        r1@ == r2@,
{
}

/// A query of one kind is never answered by the records of another: a group
/// query whose name no group has finds nothing, whatever accounts of that name
/// exist.
pub proof fn lemma_group_query_ignores_accounts(name: Seq<char>, order: Seq<Seq<char>>, groups: Seq<GroupEntry>)
    requires
        groups_named(groups, name).len() == 0,
    ensures
        result_of(run_sources(order, files_only(group_files_view(name, groups)))) is None,
{
    let f = files_only(group_files_view(name, groups));
    assert forall|k: int| 0 <= k < order.len() implies !(#[trigger] f(order[k]).outcome is Match) by {}
    crate::resolution::lemma_no_match_no_result(order, f);
}

} // verus!
