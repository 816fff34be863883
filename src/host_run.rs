use vstd::prelude::*;
use vstd::string::*;
use crate::decision_tree::{DecisionStep, Outcome, OutcomeView, StepView, make_step};
use crate::hosts::{HostEntry, hosts_named, resolve_host_from_hosts};
use crate::orchestrator::{files_only, copy_step, unsupported_step};
use crate::text::strings_view;
use crate::resolution::{ResolutionResult, ResultView, result_of};

verus! {

/// What the resolution service said about a host name.
pub enum ServiceReply {
    /// It resolved the name to this address.
    Resolved(String),
    /// The call failed with this message.
    Failed(String),
    /// The service does not exist on this platform; it was not called.
    Unavailable,
}

/// Where a host resolution stands with respect to the `dns` source.
#[derive(PartialEq, Eq, Structural, Clone, Copy)]
pub enum DnsStage {
    Idle,
    AwaitService,
    AwaitSystemResolver,
}

/// What the caller must do next to let a host resolution go on.
#[derive(PartialEq, Eq, Structural, Clone, Copy)]
pub enum HostAction {
    /// Query the resolution service for the name and pass the reply to `service_replied`.
    AskService,
    /// Query the system resolver for the name and pass the reply to `system_replied`.
    AskSystemResolver,
    /// The trace is complete.
    Finished,
}

/// The step that the hosts file gives for a host query.
pub open spec fn host_files_view(name: Seq<char>, hosts: Seq<HostEntry>) -> StepView {
    let found = hosts_named(hosts, name);
    if found.len() > 0 {
        StepView {
            source: "files (/etc/hosts)"@,
            outcome: OutcomeView::Match(found[0].ip@),
            reason: "Found in hosts file"@,
        }
    } else {
        StepView {
            source: "files (/etc/hosts)"@,
            outcome: OutcomeView::NoMatch,
            reason: "Not found in hosts file"@,
        }
    }
}

/// The step recorded for a reply of the resolution service.
pub open spec fn service_view(reply: ServiceReply) -> StepView {
    match reply {
        ServiceReply::Resolved(ip) => StepView {
            source: "dns (systemd-resolved)"@,
            outcome: OutcomeView::Match(ip@),
            reason: "Attempted systemd-resolved"@,
        },
        ServiceReply::Failed(e) => StepView {
            source: "dns (systemd-resolved)"@,
            outcome: OutcomeView::Error("DBus error: "@ + e@),
            reason: "Attempted systemd-resolved"@,
        },
        ServiceReply::Unavailable => StepView {
            source: "dns (systemd-resolved)"@,
            outcome: OutcomeView::Unsupported("systemd-resolved is Linux-only"@),
            reason: "Skipped on non-Linux"@,
        },
    }
}

/// The step recorded for a reply of the system resolver.
pub open spec fn system_view(reply: Result<String, String>) -> StepView {
    match reply {
        Ok(ip) => StepView {
            source: "dns (system resolver)"@,
            outcome: OutcomeView::Match(ip@),
            reason: "Resolved using system resolver"@,
        },
        Err(e) => StepView {
            source: "dns (system resolver)"@,
            outcome: OutcomeView::Error("Libc error: "@ + e@),
            reason: "Failed to resolve via libc"@,
        },
    }
}

/// The host source order used when the configuration gives none.
pub open spec fn default_host_order() -> Seq<Seq<char>> {
    seq!["files"@, "dns"@]
}

/// Consults the hosts file for `name`: the first entry that lists it gives its address.
pub fn host_files_step(name: &str, hosts: &[HostEntry]) -> (r: DecisionStep)
    ensures
        r@ == host_files_view(name@, hosts@),
{
    let found = resolve_host_from_hosts(name, hosts);
    if found.len() > 0 {
        assert(found@.map_values(|e: &HostEntry| *e)[0] == *found@[0]);
        let ip = found[0].ip.clone();
        make_step("files (/etc/hosts)", Outcome::Match(ip), "Found in hosts file")
    } else {
        make_step("files (/etc/hosts)", Outcome::NoMatch, "Not found in hosts file")
    }
}

/// Turns a reply of the resolution service into a step.
pub fn service_step(reply: ServiceReply) -> (r: DecisionStep)
    ensures
        r@ == service_view(reply),
{
    match reply {
        ServiceReply::Resolved(ip) => make_step(
            "dns (systemd-resolved)",
            Outcome::Match(ip),
            "Attempted systemd-resolved",
        ),
        ServiceReply::Failed(e) => {
            let message = String::from_str("DBus error: ").concat(e.as_str());
            make_step("dns (systemd-resolved)", Outcome::Error(message), "Attempted systemd-resolved")
        },
        ServiceReply::Unavailable => make_step(
            "dns (systemd-resolved)",
            Outcome::Unsupported(String::from_str("systemd-resolved is Linux-only")),
            "Skipped on non-Linux",
        ),
    }
}

/// Turns a reply of the system resolver into a step.
pub fn system_step(reply: Result<String, String>) -> (r: DecisionStep)
    ensures
        r@ == system_view(reply),
{
    match reply {
        Ok(ip) => make_step("dns (system resolver)", Outcome::Match(ip), "Resolved using system resolver"),
        Err(e) => {
            let message = String::from_str("Libc error: ").concat(e.as_str());
            make_step("dns (system resolver)", Outcome::Error(message), "Failed to resolve via libc")
        },
    }
}

/// A host resolution in progress. The caller drives it: it calls `advance`,
/// performs the DNS query that the returned action asks for, and hands the reply
/// back, until the action is `Finished`.
pub struct HostRun {
    pub name: String,
    pub order: Vec<String>,
    pub hosts: Vec<HostEntry>,
    /// Position in `order` of the next source to consult.
    pub next: usize,
    pub stage: DnsStage,
    pub trace: ResolutionResult,
}

impl HostRun {
    pub open spec fn wf(&self) -> bool {
        &&& self.next <= self.order@.len()
        &&& self.trace.wf()
        &&& self.trace@.name == self.name@
        &&& self.stage != DnsStage::Idle ==> {
            &&& self.trace@.result is None
            &&& self.next > 0
            &&& self.order@[self.next - 1]@ == "dns"@
        }
    }

    /// The source order, as values.
    pub open spec fn order_view(&self) -> Seq<Seq<char>> {
        strings_view(self.order@)
    }

    /// The step that a source other than `dns` gives in this resolution.
    pub open spec fn plain_step(&self) -> spec_fn(Seq<char>) -> StepView {
        files_only(host_files_view(self.name@, self.hosts@))
    }

    /// What one call of `advance` does: from `old`, it consults the sources
    /// that need no DNS reply, in order, until one matches, the order runs out,
    /// or a `dns` source is reached, which asks for the resolution service.
    pub open spec fn advanced(old: HostRun, new: HostRun, act: HostAction) -> bool {
        &&& new.wf()
        &&& new.name == old.name
        &&& new.order == old.order
        &&& new.hosts == old.hosts
        &&& new.trace@.name == old.trace@.name
        &&& act != HostAction::AskSystemResolver
        &&& old.trace@.result is Some ==> {
            &&& act == HostAction::Finished
            &&& new.next == old.next
            &&& new.stage == DnsStage::Idle
            &&& new.trace@ == old.trace@
        }
        &&& old.trace@.result is None ==> {
            let stop = if act == HostAction::AskService {
                new.next - 1
            } else {
                new.next as int
            };
            &&& old.next <= stop <= new.next
            &&& forall|k: int| old.next <= k < stop ==> #[trigger] old.order_view()[k] != "dns"@
            &&& new.trace@.steps == old.trace@.steps + old.order_view().subrange(
                old.next as int,
                stop,
            ).map_values(old.plain_step())
            &&& act == HostAction::AskService ==> {
                &&& new.next == stop + 1
                &&& old.order_view()[stop] == "dns"@
                &&& new.stage == DnsStage::AwaitService
            }
            &&& act == HostAction::Finished ==> {
                &&& new.next == stop
                &&& new.stage == DnsStage::Idle
                &&& new.trace@.result is Some || new.next == new.order@.len()
            }
        }
    }

    /// Starts resolving `name` against `hosts` along `order`; an empty order is
    /// replaced by `files`, `dns`.
    pub fn new(name: &str, order: Vec<String>, hosts: Vec<HostEntry>) -> (r: HostRun)
        ensures
            r.wf(),
            r.name@ == name@,
            r.hosts@ == hosts@,
            r.order_view() == if order@.len() == 0 {
                default_host_order()
            } else {
                strings_view(order@)
            },
            r.next == 0,
            r.stage == DnsStage::Idle,
            r.trace@ == (ResultView { name: name@, result: None, steps: seq![] }),
    {
        let order = if order.len() == 0 {
            let mut d: Vec<String> = Vec::new();
            d.push(String::from_str("files"));
            d.push(String::from_str("dns"));
            assert(strings_view(d@) =~= default_host_order());
            d
        } else {
            order
        };
        HostRun {
            name: String::from_str(name),
            order,
            hosts,
            next: 0,
            stage: DnsStage::Idle,
            trace: ResolutionResult::new(name),
        }
    }

    /// Consults the sources from `next` on until one matches, the order runs
    /// out, or a `dns` source needs the resolution service.
    pub fn advance(&mut self) -> (act: HostAction)
        requires
            old(self).wf(),
            old(self).stage == DnsStage::Idle,
        ensures
            Self::advanced(*old(self), *final(self), act),
    {
        if self.trace.result.is_some() {
            return HostAction::Finished;
        }
        let ghost ov = self.order_view();
        let ghost f = self.plain_step();
        let ghost start = self.next as int;
        let ghost steps0 = self.trace@.steps;
        let files_key = String::from_str("files");
        let dns_key = String::from_str("dns");
        let files_step = host_files_step(self.name.as_str(), self.hosts.as_slice());
        assert(ov.subrange(start, start) =~= Seq::<Seq<char>>::empty());
        assert(steps0 + ov.subrange(start, start).map_values(f) =~= steps0);
        while self.next < self.order.len()
            invariant
                self.wf(),
                self.stage == DnsStage::Idle,
                self.trace@.result is None,
                old(self).trace@.result is None,
                self.name == old(self).name,
                self.order == old(self).order,
                self.hosts == old(self).hosts,
                ov == old(self).order_view(),
                ov == self.order_view(),
                ov.len() == self.order@.len(),
                f == old(self).plain_step(),
                files_step@ == host_files_view(self.name@, self.hosts@),
                files_key@ == "files"@,
                dns_key@ == "dns"@,
                start == old(self).next as int,
                self.trace@.name == old(self).trace@.name,
                steps0 == old(self).trace@.steps,
                start <= self.next,
                forall|k: int| start <= k < self.next ==> #[trigger] ov[k] != "dns"@,
                self.trace@.steps == steps0 + ov.subrange(start, self.next as int).map_values(f),
            decreases self.order@.len() - self.next,
        {
            let i = self.next;
            let is_dns = self.order[i] == dns_key;
            assert(ov[i as int] == self.order@[i as int]@);
            if is_dns {
                self.next = i + 1;
                self.stage = DnsStage::AwaitService;
                return HostAction::AskService;
            }
            let step = if self.order[i] == files_key {
                copy_step(&files_step)
            } else {
                unsupported_step(&self.order[i])
            };
            assert(step@ == f(ov[i as int]));
            assert(ov.subrange(start, i + 1).map_values(f) =~= ov.subrange(start, i as int).map_values(f).push(f(ov[i as int])));
            self.trace.record(step);
            self.next = i + 1;
            if self.trace.result.is_some() {
                return HostAction::Finished;
            }
        }
        HostAction::Finished
    }

    /// Records the resolution service's reply; a resolved address ends the run,
    /// anything else sends the query on to the system resolver.
    pub fn service_replied(&mut self, reply: ServiceReply) -> (act: HostAction)
        requires
            old(self).wf(),
            old(self).stage == DnsStage::AwaitService,
        ensures
            final(self).wf(),
            final(self).name == old(self).name,
            final(self).order == old(self).order,
            final(self).hosts == old(self).hosts,
            final(self).next == old(self).next,
            final(self).trace@.name == old(self).trace@.name,
            final(self).trace@.steps == old(self).trace@.steps.push(service_view(reply)),
            reply is Resolved ==> {
                &&& act == HostAction::Finished
                &&& final(self).stage == DnsStage::Idle
                &&& final(self).trace@.result == Some(reply->Resolved_0@)
            },
            !(reply is Resolved) ==> {
                &&& act == HostAction::AskSystemResolver
                &&& final(self).stage == DnsStage::AwaitSystemResolver
                &&& final(self).trace@.result is None
            },
    {
        let step = service_step(reply);
        self.trace.record(step);
        if self.trace.result.is_some() {
            self.stage = DnsStage::Idle;
            HostAction::Finished
        } else {
            self.stage = DnsStage::AwaitSystemResolver;
            HostAction::AskSystemResolver
        }
    }

    /// Records the system resolver's reply and goes back to walking the order.
    pub fn system_replied(&mut self, reply: Result<String, String>)
        requires
            old(self).wf(),
            old(self).stage == DnsStage::AwaitSystemResolver,
        ensures
            final(self).wf(),
            final(self).name == old(self).name,
            final(self).order == old(self).order,
            final(self).hosts == old(self).hosts,
            final(self).next == old(self).next,
            final(self).stage == DnsStage::Idle,
            final(self).trace@.name == old(self).trace@.name,
            final(self).trace@.steps == old(self).trace@.steps.push(system_view(reply)),
            final(self).trace@.result == match reply {
                Ok(ip) => Some(ip@),
                Err(_) => None,
            },
    {
        let step = system_step(reply);
        self.trace.record(step);
        self.stage = DnsStage::Idle;
    }

    /// The name that the DNS backends are to be asked about.
    pub fn query_name(&self) -> (r: &str)
        ensures
            r@ == self.name@,
    {
        self.name.as_str()
    }

    /// The finished result with its trace.
    pub fn into_result(self) -> (r: ResolutionResult)
        requires
            self.wf(),
        ensures
            r.wf(),
            r@ == self.trace@,
    {
        self.trace
    }
}


/// From one state, a run that stops earlier than another cannot exist: the
/// sources before the later stop neither match nor are `dns`.
proof fn lemma_stop_not_earlier(s: HostRun, a: HostRun, act_a: HostAction, b: HostRun, act_b: HostAction)
    requires
        s.wf(),
        s.stage == DnsStage::Idle,
        s.trace@.result is None,
        HostRun::advanced(s, a, act_a),
        HostRun::advanced(s, b, act_b),
    ensures
        (if act_a == HostAction::AskService { a.next - 1 } else { a.next as int }) >= (if act_b
            == HostAction::AskService {
            b.next - 1
        } else {
            b.next as int
        }),
{
    let sa = if act_a == HostAction::AskService { a.next - 1 } else { a.next as int };
    let sb = if act_b == HostAction::AskService { b.next - 1 } else { b.next as int };
    let ov = s.order_view();
    let f = s.plain_step();
    let base = s.trace@.steps;
    if sa < sb {
        if act_a == HostAction::AskService {
            assert(ov[sa] != "dns"@);
        } else if a.next == a.order@.len() {
            assert(b.next <= b.order@.len());
        } else {
            let steps_a = a.trace@.steps;
            let steps_b = b.trace@.steps;
            assert(steps_a.len() > 0 && steps_a.last().outcome is Match);
            assert(forall|i: int| 0 <= i < base.len() ==> !(#[trigger] base[i].outcome is Match));
            assert(sa > s.next) by {
                if sa == s.next {
                    assert(ov.subrange(s.next as int, sa).map_values(f) =~= seq![]);
                    assert(steps_a =~= base);
                }
            }
            let idx = base.len() + (sa - 1 - s.next);
            assert(steps_a.len() == base.len() + (sa - s.next));
            assert(steps_a[idx] == steps_a.last());
            assert(steps_b.len() == base.len() + (sb - s.next));
            assert(steps_b[idx] == f(ov[sa - 1]));
            assert(steps_a[idx] == f(ov[sa - 1]));
            assert(idx < steps_b.len() - 1);
            assert(!(steps_b[idx].outcome is Match));
        }
    }
}

/// Driving a host resolution twice from the same state gives the same action,
/// the same position and the same trace: `advance` depends on its state alone.
pub proof fn lemma_advance_repeatable(s: HostRun, a: HostRun, act_a: HostAction, b: HostRun, act_b: HostAction)
    requires
        s.wf(),
        s.stage == DnsStage::Idle,
        HostRun::advanced(s, a, act_a),
        HostRun::advanced(s, b, act_b),
    ensures
        act_a == act_b,
        a.next == b.next,
        a.stage == b.stage,
        a.trace@ == b.trace@,
{
    if s.trace@.result is None {
        lemma_stop_not_earlier(s, a, act_a, b, act_b);
        lemma_stop_not_earlier(s, b, act_b, a, act_a);
        let stop = if act_a == HostAction::AskService { a.next - 1 } else { a.next as int };
        assert(a.trace@.steps == b.trace@.steps);
        crate::resolution::lemma_short_circuited_result(a.trace@.result, a.trace@.steps);
        crate::resolution::lemma_short_circuited_result(b.trace@.result, b.trace@.steps);
        if act_a != act_b {
            let (x, y) = if act_a == HostAction::AskService { (a, b) } else { (b, a) };
            // `x` asked for DNS at `stop`, `y` finished there.
            assert(x.trace@.result is None);
            if y.trace@.result is Some {
                assert(x.trace@.steps == y.trace@.steps);
            } else {
                assert(y.next == y.order@.len());
                assert(x.next <= x.order@.len());
            }
        }
    }
}

/// The steps that a `dns` source gives when the resolution service replies
/// `svc` and the system resolver, asked only if the service did not resolve,
/// replies `sys`.
pub open spec fn dns_steps(svc: ServiceReply, sys: Result<String, String>) -> Seq<StepView> {
    if service_view(svc).outcome is Match {
        seq![service_view(svc)]
    } else {
        seq![service_view(svc), system_view(sys)]
    }
}

/// The steps that each host source gives, with fixed DNS answers.
pub open spec fn host_source_steps(
    name: Seq<char>,
    hosts: Seq<HostEntry>,
    svc: ServiceReply,
    sys: Result<String, String>,
) -> spec_fn(Seq<char>) -> Seq<StepView> {
    |s: Seq<char>|
        if s == "dns"@ {
            dns_steps(svc, sys)
        } else {
            seq![files_only(host_files_view(name, hosts))(s)]
        }
}

/// Whether the steps of one source end in a match.
pub open spec fn ends_in_match(g: Seq<StepView>) -> bool {
    g.len() > 0 && g.last().outcome is Match
}

/// Consults the sources of `order` in turn, each giving its steps, and stops
/// right after the first source whose steps end in a match.
pub open spec fn run_grouped(order: Seq<Seq<char>>, f: spec_fn(Seq<char>) -> Seq<StepView>) -> Seq<StepView>
    decreases order.len(),
{
    if order.len() == 0 {
        seq![]
    } else if ends_in_match(f(order[0])) {
        f(order[0])
    } else {
        f(order[0]) + run_grouped(order.drop_first(), f)
    }
}

/// Once the source at position `k` ends in a match, no later source gives a
/// step: the walk is the walk of the order cut after `k`.
pub proof fn lemma_grouped_match_stops_later_sources(
    order: Seq<Seq<char>>,
    f: spec_fn(Seq<char>) -> Seq<StepView>,
    k: int,
)
    requires
        0 <= k < order.len(),
        ends_in_match(f(order[k])),
    ensures
        run_grouped(order, f) == run_grouped(order.take(k + 1), f),
    decreases order.len(),
{
    let t = order.take(k + 1);
    assert(t[0] == order[0]);
    if k > 0 && !ends_in_match(f(order[0])) {
        lemma_grouped_match_stops_later_sources(order.drop_first(), f, k - 1);
        assert(t.drop_first() == order.drop_first().take(k));
    }
}

/// When no step of any source is a match, every source is consulted, no step
/// of the trace is a match, and there is no result.
pub proof fn lemma_grouped_no_match(order: Seq<Seq<char>>, f: spec_fn(Seq<char>) -> Seq<StepView>)
    requires
        forall|k: int, i: int|
            0 <= k < order.len() && 0 <= i < f(order[k]).len() ==> !(#[trigger] f(order[k])[i].outcome is Match),
    ensures
        result_of(run_grouped(order, f)) is None,
        forall|i: int|
            0 <= i < run_grouped(order, f).len() ==> !(#[trigger] run_grouped(order, f)[i].outcome is Match),
    decreases order.len(),
{
    if order.len() > 0 {
        let g = f(order[0]);
        assert forall|k: int, i: int|
            0 <= k < order.drop_first().len() && 0 <= i < f(order.drop_first()[k]).len() implies !(
            #[trigger] f(order.drop_first()[k])[i].outcome is Match) by {
            assert(order.drop_first()[k] == order[k + 1]);
        }
        lemma_grouped_no_match(order.drop_first(), f);
        if g.len() > 0 {
            assert(!(g[g.len() - 1].outcome is Match));
        }
        let rest = run_grouped(order.drop_first(), f);
        let all = run_grouped(order, f);
        assert(all == g + rest);
        assert forall|i: int| 0 <= i < all.len() implies !(#[trigger] all[i].outcome is Match) by {
            if i < g.len() {
                assert(all[i] == g[i]);
            } else {
                assert(all[i] == rest[i - g.len()]);
            }
        }
        if all.len() > 0 {
            assert(!(all[all.len() - 1].outcome is Match));
        }
    }
}

/// A stretch of sources that are not `dns` and do not match gives one plain
/// step each and lets the walk go on.
proof fn lemma_plain_stretch(
    ov: Seq<Seq<char>>,
    f: spec_fn(Seq<char>) -> Seq<StepView>,
    plain: spec_fn(Seq<char>) -> StepView,
    a: int,
    b: int,
)
    requires
        0 <= a <= b <= ov.len(),
        forall|s: Seq<char>| s != "dns"@ ==> #[trigger] f(s) == seq![plain(s)],
        forall|k: int| a <= k < b ==> #[trigger] ov[k] != "dns"@ && !(plain(ov[k]).outcome is Match),
    ensures
        run_grouped(ov.skip(a), f) == ov.subrange(a, b).map_values(plain) + run_grouped(ov.skip(b), f),
    decreases b - a,
{
    if a < b {
        lemma_plain_stretch(ov, f, plain, a + 1, b);
        assert(ov.skip(a)[0] == ov[a]);
        assert(ov.skip(a).drop_first() == ov.skip(a + 1));
        assert(f(ov[a]) == seq![plain(ov[a])]);
        assert(ov.subrange(a, b).map_values(plain) == seq![plain(ov[a])] + ov.subrange(a + 1, b).map_values(
            plain,
        ));
    } else {
        assert(ov.subrange(a, a).map_values(plain) =~= seq![]);
    }
}

/// A copy of a service reply.
pub fn copy_service_reply(r: &ServiceReply) -> (c: ServiceReply)
    ensures
        c == *r,
{
    match r {
        ServiceReply::Resolved(ip) => ServiceReply::Resolved(ip.clone()),
        ServiceReply::Failed(e) => ServiceReply::Failed(e.clone()),
        ServiceReply::Unavailable => ServiceReply::Unavailable,
    }
}

/// A copy of a system resolver reply.
pub fn copy_system_reply(r: &Result<String, String>) -> (c: Result<String, String>)
    ensures
        c == *r,
{
    match r {
        Ok(ip) => Ok(ip.clone()),
        Err(e) => Err(e.clone()),
    }
}

/// Resolves `name` along `order` (or `files`, `dns` where it is empty) when
/// the resolution service always replies `svc` and the system resolver `sys`:
/// the whole host walk, driven to the end.
pub fn resolve_host_with(
    name: &str,
    order: Vec<String>,
    hosts: Vec<HostEntry>,
    svc: &ServiceReply,
    sys: &Result<String, String>,
) -> (r: ResolutionResult)
    ensures
        r.wf(),
        r@.name == name@,
        r@.steps == run_grouped(
            if order@.len() == 0 {
                default_host_order()
            } else {
                strings_view(order@)
            },
            host_source_steps(name@, hosts@, *svc, *sys),
        ),
        r@.result == result_of(r@.steps),
{
    let ghost want = if order@.len() == 0 {
        default_host_order()
    } else {
        strings_view(order@)
    };
    let ghost hv = hosts@;
    let mut run = HostRun::new(name, order, hosts);
    let ghost ov = run.order_view();
    let ghost f = host_source_steps(name@, run.hosts@, *svc, *sys);
    assert(ov == want && f == host_source_steps(name@, hv, *svc, *sys));
    let ghost plain = run.plain_step();
    assert(ov.skip(0) == ov);
    assert(run.trace@.steps + run_grouped(ov.skip(0), f) =~= run_grouped(ov, f));
    loop
        invariant
            run.wf(),
            run.stage == DnsStage::Idle,
            run.name@ == name@,
            ov == run.order_view(),
            ov == want,
            want == (if order@.len() == 0 {
                default_host_order()
            } else {
                strings_view(order@)
            }),
            hv == hosts@,
            f == host_source_steps(name@, hv, *svc, *sys),
            plain == run.plain_step(),
            f == host_source_steps(name@, run.hosts@, *svc, *sys),
            forall|s: Seq<char>| s != "dns"@ ==> #[trigger] f(s) == seq![plain(s)],
            run.trace@.result is None ==> run.trace@.steps + run_grouped(ov.skip(run.next as int), f)
                == run_grouped(ov, f),
            run.trace@.result is Some ==> run.trace@.steps == run_grouped(ov, f),
        decreases ov.len() - run.next, if run.trace@.result is None { 1int } else { 0int },
    {
        let ghost before = run;
        let act = run.advance();
        proof {
            if before.trace@.result is None {
                let stop = if act == HostAction::AskService { run.next - 1 } else { run.next as int };
                let steps = run.trace@.steps;
                let base = before.trace@.steps;
                assert(steps == base + ov.subrange(before.next as int, stop).map_values(plain));
                if act == HostAction::Finished && run.trace@.result is Some {
                    // the last plain step matched; those before it did not
                    assert(steps.len() > base.len()) by {
                        if stop == before.next {
                            assert(ov.subrange(before.next as int, stop).map_values(plain) =~= seq![]);
                            assert(steps =~= base);
                        }
                    }
                    assert forall|k: int| before.next <= k < stop - 1 implies #[trigger] ov[k] != "dns"@
                        && !(plain(ov[k]).outcome is Match) by {
                        assert(steps[base.len() + k - before.next] == plain(ov[k]));
                    }
                    lemma_plain_stretch(ov, f, plain, before.next as int, stop - 1);
                    assert(ov.skip(stop - 1)[0] == ov[stop - 1]);
                    assert(steps.last() == plain(ov[stop - 1]));
                    assert(ov.subrange(before.next as int, stop).map_values(plain) == ov.subrange(
                        before.next as int,
                        stop - 1,
                    ).map_values(plain).push(plain(ov[stop - 1])));
                    assert(run_grouped(ov.skip(stop - 1), f) == seq![plain(ov[stop - 1])]);
                    assert(steps =~= base + (ov.subrange(before.next as int, stop - 1).map_values(plain)
                        + run_grouped(ov.skip(stop - 1), f)));
                    assert(steps == base + run_grouped(ov.skip(before.next as int), f));
                    assert(steps == run_grouped(ov, f));
                } else {
                    assert forall|k: int| before.next <= k < stop implies #[trigger] ov[k] != "dns"@
                        && !(plain(ov[k]).outcome is Match) by {
                        assert(steps[base.len() + k - before.next] == plain(ov[k]));
                    }
                    lemma_plain_stretch(ov, f, plain, before.next as int, stop);
                    assert(steps + run_grouped(ov.skip(stop), f) =~= base + run_grouped(
                        ov.skip(before.next as int),
                        f,
                    ));
                    if act == HostAction::Finished {
                        assert(ov.skip(stop) =~= seq![]);
                        assert(run_grouped(ov.skip(stop), f) =~= seq![]);
                        assert(steps =~= steps + run_grouped(ov.skip(stop), f));
                        assert(base + run_grouped(ov.skip(before.next as int), f) == run_grouped(ov, f));
                        assert(steps == run_grouped(ov, f));
                    }
                }
            }
        }
        match act {
            HostAction::AskService => {
                let ghost mid = run;
                let ghost stop = run.next - 1;
                proof {
                    assert(ov.skip(stop)[0] == ov[stop]);
                    assert(ov.skip(stop).drop_first() == ov.skip(stop + 1));
                }
                let next_act = run.service_replied(copy_service_reply(svc));
                if next_act == HostAction::AskSystemResolver {
                    run.system_replied(copy_system_reply(sys));
                    proof {
                        assert(mid.trace@.steps.push(service_view(*svc)).push(system_view(*sys))
                            == mid.trace@.steps + dns_steps(*svc, *sys));
                    }
                } else {
                    proof {
                        assert(mid.trace@.steps.push(service_view(*svc)) == mid.trace@.steps + dns_steps(
                            *svc,
                            *sys,
                        ));
                    }
                }
            },
            _ => {
                assert(run.trace@.steps == run_grouped(ov, f));
                proof {
                    crate::resolution::lemma_short_circuited_result(run.trace@.result, run.trace@.steps);
                }
                return run.into_result();
            },
        }
    }
}

/// A host query that no hosts entry answers, that the resolution service does
/// not resolve and that the system resolver fails gets no result, and no step
/// of its trace is a match, whatever the source order.
pub proof fn lemma_host_no_match(
    name: Seq<char>,
    hosts: Seq<HostEntry>,
    order: Seq<Seq<char>>,
    svc: ServiceReply,
    sys: Result<String, String>,
)
    requires
        hosts_named(hosts, name).len() == 0,
        !(svc is Resolved),
        sys is Err,
    ensures
        result_of(run_grouped(order, host_source_steps(name, hosts, svc, sys))) is None,
        forall|i: int|
            0 <= i < run_grouped(order, host_source_steps(name, hosts, svc, sys)).len() ==> !(
            #[trigger] run_grouped(order, host_source_steps(name, hosts, svc, sys))[i].outcome is Match),
{
    let f = host_source_steps(name, hosts, svc, sys);
    assert forall|k: int, i: int| 0 <= k < order.len() && 0 <= i < f(order[k]).len() implies !(
    #[trigger] f(order[k])[i].outcome is Match) by {
        if order[k] != "dns"@ {
            assert(f(order[k]) == seq![files_only(host_files_view(name, hosts))(order[k])]);
        }
    }
    lemma_grouped_no_match(order, f);
}

} // verus!
