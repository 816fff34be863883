use nss_trace::decision_tree::{build_decision_tree, DecisionStep, Outcome};
use nss_trace::group::{parse_group_file, resolve_group_from_group};
use nss_trace::host_run::{resolve_host_with, HostAction, HostRun, ServiceReply};
use nss_trace::hosts::{parse_hosts_file, resolve_host_from_hosts};
use nss_trace::namespaces::{get_proc_root_path, namespace_link_path, namespaces_differ, NamespaceInfo};
use nss_trace::nsswitch::parse_nsswitch_file;
use nss_trace::orchestrator::{resolve_group, resolve_user};
use nss_trace::passwd::{parse_passwd_file, resolve_user_from_passwd};
use nss_trace::render::{describe_outcome, headline, why_lines, QueryKind};
use nss_trace::resolution::ResolutionResult;
use nss_trace::resolv_conf::parse_resolv_conf;

fn order(names: &[&str]) -> Vec<String> {
    names.iter().map(|s| s.to_string()).collect()
}

fn outcome_of(step: &DecisionStep) -> String {
    describe_outcome(&step.outcome)
}

/// Drives a host resolution with fixed DNS answers, counting the DNS calls.
fn run_host(
    name: &str,
    order: Vec<String>,
    hosts_text: &str,
    service: Option<ServiceReply>,
    system: Result<String, String>,
) -> (ResolutionResult, usize) {
    let hosts = parse_hosts_file(hosts_text);
    let mut run = HostRun::new(name, order, hosts);
    let mut calls = 0;
    loop {
        match run.advance() {
            HostAction::Finished => break,
            HostAction::AskSystemResolver => unreachable!(),
            HostAction::AskService => {
                calls += 1;
                let reply = match &service {
                    Some(ServiceReply::Resolved(ip)) => ServiceReply::Resolved(ip.clone()),
                    Some(ServiceReply::Failed(e)) => ServiceReply::Failed(e.clone()),
                    _ => ServiceReply::Unavailable,
                };
                if run.service_replied(reply) == HostAction::AskSystemResolver {
                    calls += 1;
                    run.system_replied(system.clone());
                }
            }
        }
    }
    (run.into_result(), calls)
}

#[test]
fn hosts_file_match_is_one_step() {
    let (r, calls) = run_host(
        "db1",
        order(&["files", "dns"]),
        "127.0.0.1 localhost\n10.0.0.5 db1 db1.local",
        None,
        Err("unused".to_string()),
    );
    assert_eq!(r.result, Some("10.0.0.5".to_string()));
    assert_eq!(r.steps.len(), 1);
    assert_eq!(r.steps[0].source, "files (/etc/hosts)");
    assert_eq!(outcome_of(&r.steps[0]), "Match: 10.0.0.5");
    assert_eq!(calls, 0);
}

#[test]
fn empty_hosts_file_falls_back_to_service() {
    let (r, calls) = run_host(
        "example.com",
        order(&["files", "dns"]),
        "",
        Some(ServiceReply::Resolved("93.184.216.34".to_string())),
        Err("unused".to_string()),
    );
    assert_eq!(r.result, Some("93.184.216.34".to_string()));
    assert_eq!(r.steps.len(), 2);
    assert_eq!(outcome_of(&r.steps[0]), "No match");
    assert_eq!(r.steps[0].source, "files (/etc/hosts)");
    assert_eq!(outcome_of(&r.steps[1]), "Match: 93.184.216.34");
    assert_eq!(r.steps[1].source, "dns (systemd-resolved)");
    assert_eq!(calls, 1);
}

#[test]
fn user_entries_never_answer_group_queries() {
    let users = parse_passwd_file("alice:x:1001:1001:Alice:/home/alice:/bin/bash");
    let groups = parse_group_file("");
    let g = resolve_group("alice", &order(&["files"]), &groups);
    assert_eq!(g.result, None);
    assert_eq!(g.steps.len(), 1);
    assert_eq!(outcome_of(&g.steps[0]), "No match");
    assert_eq!(g.steps[0].source, "files (/etc/group)");
    let u = resolve_user("alice", &order(&["files"]), &users);
    assert_eq!(u.result, Some("1001".to_string()));
}

#[test]
fn match_stops_later_sources() {
    let users = parse_passwd_file("root:x:0:0:root:/root:/bin/sh\nbob:x:1002:1002::/home/bob:/bin/sh\n");
    let r = resolve_user("bob", &order(&["files", "nis", "files"]), &users);
    assert_eq!(r.result, Some("1002".to_string()));
    assert_eq!(r.steps.len(), 1);
    let (h, calls) = run_host(
        "db1",
        order(&["files", "dns", "mdns"]),
        "10.0.0.5 db1",
        Some(ServiceReply::Resolved("1.1.1.1".to_string())),
        Ok("2.2.2.2".to_string()),
    );
    assert_eq!(h.steps.len(), 1);
    assert_eq!(calls, 0);
}

#[test]
fn no_match_leaves_no_result() {
    let users = parse_passwd_file("root:x:0:0:root:/root:/bin/sh");
    let r = resolve_user("carol", &order(&["files", "ldap"]), &users);
    assert_eq!(r.result, None);
    assert_eq!(r.steps.len(), 2);
    for s in &r.steps {
        assert_eq!(outcome_of(s), "No match");
    }
    assert_eq!(r.steps[1].source, "ldap (unsupported)");
    assert_eq!(r.steps[1].reason, "source not implemented");
    let (h, calls) = run_host(
        "nowhere",
        order(&["files", "dns"]),
        "127.0.0.1 localhost",
        Some(ServiceReply::Failed("connection refused".to_string())),
        Err("no address".to_string()),
    );
    assert_eq!(h.result, None);
    assert_eq!(h.steps.len(), 3);
    assert_eq!(outcome_of(&h.steps[1]), "Error: DBus error: connection refused");
    assert_eq!(outcome_of(&h.steps[2]), "Error: Libc error: no address");
    assert_eq!(h.steps[2].source, "dns (system resolver)");
    assert_eq!(calls, 2);
}

#[test]
fn unavailable_service_then_system_resolver() {
    let (h, calls) = run_host("example.org", order(&["dns"]), "", None, Ok("203.0.113.7".to_string()));
    assert_eq!(calls, 2);
    assert_eq!(h.steps.len(), 2);
    assert_eq!(outcome_of(&h.steps[0]), "Unsupported: systemd-resolved is Linux-only");
    assert_eq!(h.steps[0].reason, "Skipped on non-Linux");
    assert_eq!(outcome_of(&h.steps[1]), "Match: 203.0.113.7");
    assert_eq!(h.result, Some("203.0.113.7".to_string()));
}

#[test]
fn empty_host_order_uses_files_then_dns() {
    let (h, calls) = run_host("x", Vec::new(), "", Some(ServiceReply::Resolved("10.1.1.1".to_string())), Err(String::new()));
    assert_eq!(calls, 1);
    assert_eq!(h.steps.len(), 2);
    assert_eq!(h.steps[0].source, "files (/etc/hosts)");
}

#[test]
fn empty_user_and_group_order_gives_empty_trace() {
    let users = parse_passwd_file("alice:x:1001:1001:Alice:/home/alice:/bin/bash");
    let r = resolve_user("alice", &[], &users);
    assert_eq!(r.result, None);
    assert!(r.steps.is_empty());
    let groups = parse_group_file("wheel:x:10:alice");
    let g = resolve_group("wheel", &[], &groups);
    assert_eq!(g.result, None);
    assert!(g.steps.is_empty());
}

#[test]
fn resolving_twice_gives_identical_traces() {
    let groups = parse_group_file("wheel:x:10:alice,bob\nstaff:x:50:");
    let o = order(&["nis", "files"]);
    let a = resolve_group("staff", &o, &groups);
    let b = resolve_group("staff", &o, &groups);
    assert_eq!(a.result, b.result);
    assert_eq!(a.steps.len(), b.steps.len());
    for (x, y) in a.steps.iter().zip(b.steps.iter()) {
        assert_eq!(x.source, y.source);
        assert_eq!(outcome_of(x), outcome_of(y));
        assert_eq!(x.reason, y.reason);
    }
    assert_eq!(a.result, Some("50".to_string()));
}

#[test]
fn hosts_parser_skips_comments_and_short_lines() {
    let hosts = parse_hosts_file("# comment\n\n  10.0.0.1   a b\t c\nlonely\n   # indented comment\n::1 localhost");
    assert_eq!(hosts.len(), 2);
    assert_eq!(hosts[0].ip, "10.0.0.1");
    assert_eq!(hosts[0].names, vec!["a", "b", "c"]);
    assert_eq!(hosts[0].source, "/etc/hosts");
    assert_eq!(hosts[1].ip, "::1");
    let found = resolve_host_from_hosts("b", &hosts);
    assert_eq!(found.len(), 1);
    assert_eq!(found[0].ip, "10.0.0.1");
    assert!(resolve_host_from_hosts("B", &hosts).is_empty());
}

#[test]
fn hosts_first_matching_entry_wins() {
    let (h, _) = run_host("dup", order(&["files"]), "10.0.0.1 dup\n10.0.0.2 dup", None, Err(String::new()));
    assert_eq!(h.result, Some("10.0.0.1".to_string()));
    assert_eq!(h.steps.len(), 1);
}

#[test]
fn passwd_parser_reads_fields() {
    let users = parse_passwd_file("# x\nalice:x:1001:1002:Alice A:/home/alice:/bin/bash\nshort:x:1\nodd:x:abc:+7:g:/h:/s\n");
    assert_eq!(users.len(), 2);
    assert_eq!(users[0].name, "alice");
    assert_eq!(users[0].uid, 1001);
    assert_eq!(users[0].gid, 1002);
    assert_eq!(users[0].gecos, "Alice A");
    assert_eq!(users[0].home, "/home/alice");
    assert_eq!(users[0].shell, "/bin/bash");
    assert_eq!(users[0].source, "/etc/passwd");
    assert_eq!(users[1].uid, 0);
    assert_eq!(users[1].gid, 7);
    assert_eq!(resolve_user_from_passwd("odd", &users).len(), 1);
}

#[test]
fn group_parser_reads_members() {
    let groups = parse_group_file("wheel:x:10:alice,bob\nstaff:x:50:\nbad:x\n");
    assert_eq!(groups.len(), 2);
    assert_eq!(groups[0].gid, 10);
    assert_eq!(groups[0].members, vec!["alice", "bob"]);
    assert!(groups[1].members.is_empty());
    assert_eq!(groups[1].source, "/etc/group");
    assert_eq!(resolve_group_from_group("staff", &groups).len(), 1);
}

#[test]
fn nsswitch_later_line_wins_and_missing_is_empty() {
    let nss = parse_nsswitch_file("# c\npasswd: files systemd\nhosts: files\nhosts:   files mdns4_minimal [NOTFOUND=return] dns\n");
    assert_eq!(nss.hosts, vec!["files", "mdns4_minimal", "[NOTFOUND=return]", "dns"]);
    assert_eq!(nss.passwd, vec!["files", "systemd"]);
    assert!(nss.group.is_empty());
}

#[test]
fn resolv_conf_parser_collects_settings() {
    let c = parse_resolv_conf("nameserver 1.1.1.1\nnameserver\nsearch a.example b.example\ndomain x.example\ndomain y.example\noptions ndots:2 edns0\n# nameserver 9.9.9.9\n");
    assert_eq!(c.nameservers, vec!["1.1.1.1"]);
    assert_eq!(c.search_domains, vec!["a.example", "b.example"]);
    assert_eq!(c.domain, Some("y.example".to_string()));
    assert_eq!(c.options, vec!["ndots:2", "edns0"]);
}

#[test]
fn proc_paths() {
    assert_eq!(get_proc_root_path(42, "/etc/hosts"), "/proc/42/root/etc/hosts");
    assert_eq!(namespace_link_path(1, "net"), "/proc/1/ns/net");
    let a = NamespaceInfo { mnt_ns: "mnt:[1]".to_string(), net_ns: "net:[2]".to_string() };
    let b = NamespaceInfo { mnt_ns: "mnt:[1]".to_string(), net_ns: "net:[3]".to_string() };
    assert!(namespaces_differ(&a, &b));
    assert!(!namespaces_differ(&a, &a.clone()));
}

#[test]
fn summary_lists_every_step_in_order() {
    let (h, _) = run_host(
        "example.com",
        order(&["files", "nis", "dns"]),
        "",
        Some(ServiceReply::Resolved("93.184.216.34".to_string())),
        Err(String::new()),
    );
    assert_eq!(headline(QueryKind::Host, &h), "example.com → 93.184.216.34");
    let lines = why_lines(&h.steps);
    assert_eq!(
        lines,
        vec![
            "  1. files (/etc/hosts) → No match",
            "     Reason: Not found in hosts file",
            "  2. nis (unsupported) → No match",
            "     Reason: source not implemented",
            "  3. dns (systemd-resolved) → Match: 93.184.216.34",
            "     Reason: Attempted systemd-resolved",
        ]
    );
    let users = parse_passwd_file("");
    let u = resolve_user("ghost", &order(&["files"]), &users);
    assert_eq!(headline(QueryKind::User, &u), "ghost not found");
}

#[test]
fn fresh_trace_is_empty() {
    assert!(build_decision_tree().is_empty());
    let o = Outcome::Unsupported("n/a".to_string());
    assert_eq!(describe_outcome(&o), "Unsupported: n/a");
}

#[test]
fn colon_files_are_trimmed_before_splitting() {
    let users = parse_passwd_file("   dave:x:1003:1003:Dave:/home/dave:/bin/zsh   \r\n\t# note\n");
    assert_eq!(users.len(), 1);
    assert_eq!(users[0].name, "dave");
    assert_eq!(users[0].shell, "/bin/zsh");
    let groups = parse_group_file("  audio:x:29:dave  ");
    assert_eq!(groups[0].name, "audio");
    assert_eq!(groups[0].members, vec!["dave"]);
}

#[test]
fn whole_host_walk_with_fixed_answers() {
    let hosts = parse_hosts_file("10.0.0.9 files-host");
    let r = resolve_host_with(
        "files-host",
        order(&["nis", "files", "dns"]),
        hosts,
        &ServiceReply::Resolved("1.2.3.4".to_string()),
        &Ok("5.6.7.8".to_string()),
    );
    assert_eq!(r.result, Some("10.0.0.9".to_string()));
    assert_eq!(r.steps.len(), 2);
    assert_eq!(r.steps[0].source, "nis (unsupported)");

    let r = resolve_host_with(
        "elsewhere",
        order(&["files", "dns", "files"]),
        parse_hosts_file("10.0.0.9 files-host"),
        &ServiceReply::Failed("timeout".to_string()),
        &Err("no address".to_string()),
    );
    assert_eq!(r.result, None);
    let labels: Vec<&str> = r.steps.iter().map(|s| s.source.as_str()).collect();
    assert_eq!(
        labels,
        vec!["files (/etc/hosts)", "dns (systemd-resolved)", "dns (system resolver)", "files (/etc/hosts)"]
    );
    for s in &r.steps {
        assert!(!outcome_of(s).starts_with("Match"));
    }

    let r = resolve_host_with(
        "example.net",
        Vec::new(),
        Vec::new(),
        &ServiceReply::Unavailable,
        &Ok("198.51.100.1".to_string()),
    );
    assert_eq!(r.result, Some("198.51.100.1".to_string()));
    assert_eq!(r.steps.len(), 3);
    assert_eq!(r.steps[2].source, "dns (system resolver)");
}
