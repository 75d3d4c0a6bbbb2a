use tree_sitter_grammars::commit::commit_id;
use tree_sitter_grammars::language::Language;
use tree_sitter_grammars::registry::Registry;
use tree_sitter_grammars::sync::next_action;
use tree_sitter_grammars::sync::plan_update;
use tree_sitter_grammars::sync::register;
use tree_sitter_grammars::sync::SyncAction;
use tree_sitter_grammars::sync::SyncEvent;
use tree_sitter_grammars::sync::SyncFailure;
use tree_sitter_grammars::sync::SyncJob;
use tree_sitter_grammars::sync::SyncOutcome;
use tree_sitter_grammars::sync::UpdateError;

fn lang(name: &str, git: &str, hash: Option<&str>) -> Language {
    Language::new(name.to_string(), git.to_string(), hash.map(|h| h.to_string()))
}

fn abc123_bytes() -> Vec<u8> {
    let mut b = vec![0xab, 0xc1, 0x23];
    b.resize(20, 0);
    b
}

/// Runs one job against a simulated git: `clone_ok` says whether the clone
/// works, `checkout_ok` whether detaching the head does.
fn run(job: &SyncJob, clone_ok: bool, checkout_ok: bool) -> (SyncOutcome, Vec<String>) {
    let mut trace = Vec::new();
    let mut event = SyncEvent::Start;
    loop {
        match next_action(job, event) {
            SyncAction::RemoveDirectory(d) => {
                trace.push(format!("rm {}", d));
                event = SyncEvent::DirectoryAbsent;
            }
            SyncAction::Clone { source, destination } => {
                trace.push(format!("clone {} {}", source, destination));
                event = if clone_ok {
                    SyncEvent::Cloned
                } else {
                    SyncEvent::CloneFailed(format!("cannot reach {}", source))
                };
            }
            SyncAction::DetachHead(bytes) => {
                trace.push(format!("detach {:?}", bytes));
                event = if checkout_ok {
                    SyncEvent::HeadDetached
                } else {
                    SyncEvent::CheckoutFailed("object not found".to_string())
                };
            }
            SyncAction::Finish(outcome) => return (outcome, trace),
        }
    }
}

#[test]
fn commit_id_parses_hex() {
    assert_eq!(commit_id(&"abc123".to_string()), Some(abc123_bytes()));
    let full = "0123456789abcdefABCDEF0123456789abcdef01".to_string();
    let b = commit_id(&full).unwrap();
    assert_eq!(b.len(), 20);
    assert_eq!(b[0], 0x01);
    assert_eq!(b[5], 0xab);
    assert_eq!(b[6], 0xcd);
    assert_eq!(b[10], 0xef);
    assert_eq!(b[19], 0x01);
    assert_eq!(commit_id(&"abc".to_string()).unwrap()[1], 0xc0);
}

#[test]
fn commit_id_rejects_bad_input() {
    assert_eq!(commit_id(&"".to_string()), None);
    assert_eq!(commit_id(&"xyz".to_string()), None);
    assert_eq!(commit_id(&"a".repeat(41)), None);
    assert_eq!(commit_id(&"ab é".to_string()), None);
}

#[test]
fn plan_single_entry() {
    let mut r = Registry::new();
    r.insert("rust".to_string(), lang("tree-sitter-rust", "r.git", None));
    r.insert("c".to_string(), lang("tree-sitter-c", "c.git", None));
    let jobs = plan_update(&r, Some("rust".to_string()), false, &"./grammars/".to_string()).unwrap();
    assert_eq!(jobs.len(), 1);
    assert_eq!(jobs[0].destination, "./grammars/tree-sitter-rust");
    assert_eq!(jobs[0].language.git, "r.git");
}

#[test]
fn plan_name_takes_precedence_over_all() {
    let mut r = Registry::new();
    r.insert("rust".to_string(), lang("tree-sitter-rust", "r.git", None));
    r.insert("c".to_string(), lang("tree-sitter-c", "c.git", None));
    let jobs = plan_update(&r, Some("c".to_string()), true, &"d/".to_string()).unwrap();
    assert_eq!(jobs.len(), 1);
    assert_eq!(jobs[0].destination, "d/tree-sitter-c");
}

#[test]
fn plan_unknown_name_is_entry_not_found() {
    let mut r = Registry::new();
    r.insert("rust".to_string(), lang("tree-sitter-rust", "r.git", None));
    match plan_update(&r, Some("go".to_string()), true, &"d/".to_string()) {
        Err(UpdateError::EntryNotFound(n)) => assert_eq!(n, "go"),
        _ => panic!("expected EntryNotFound"),
    }
}

#[test]
fn plan_without_selection() {
    let r = Registry::new();
    assert!(matches!(
        plan_update(&r, None, false, &"d/".to_string()),
        Err(UpdateError::NoSelection)
    ));
}

#[test]
fn plan_all_in_key_order() {
    let mut r = Registry::new();
    r.insert("rust".to_string(), lang("tree-sitter-rust", "r.git", None));
    r.insert("c".to_string(), lang("tree-sitter-c", "c.git", Some("aa")));
    r.insert("go".to_string(), lang("tree-sitter-go", "go.git", None));
    let jobs = plan_update(&r, None, true, &"g/".to_string()).unwrap();
    let dests: Vec<&str> = jobs.iter().map(|j| j.destination.as_str()).collect();
    assert_eq!(dests, vec!["g/tree-sitter-c", "g/tree-sitter-go", "g/tree-sitter-rust"]);
    assert_eq!(jobs[0].language.hash.as_deref(), Some("aa"));
}

#[test]
fn plan_all_on_empty_registry() {
    let r = Registry::new();
    assert_eq!(plan_update(&r, None, true, &"g/".to_string()).unwrap().len(), 0);
}

#[test]
fn sync_without_pin_stays_at_default_tip() {
    let job = SyncJob { language: lang("tree-sitter-c", "c.git", None), destination: "g/tree-sitter-c".to_string() };
    let (outcome, trace) = run(&job, true, true);
    assert!(matches!(outcome, SyncOutcome::Succeeded));
    assert_eq!(trace, vec!["rm g/tree-sitter-c", "clone c.git g/tree-sitter-c"]);
}

#[test]
fn sync_with_pin_detaches_at_commit() {
    let job = SyncJob { language: lang("tree-sitter-c", "c.git", Some("abc123")), destination: "g/c".to_string() };
    let (outcome, trace) = run(&job, true, true);
    assert!(matches!(outcome, SyncOutcome::Succeeded));
    assert_eq!(trace.len(), 3);
    assert_eq!(trace[2], format!("detach {:?}", abc123_bytes()));
}

#[test]
fn sync_clone_failure_is_reported() {
    let job = SyncJob { language: lang("tree-sitter-c", "bad", Some("abc123")), destination: "g/c".to_string() };
    match run(&job, false, true).0 {
        SyncOutcome::Failed(SyncFailure::CloneFailed(m)) => assert_eq!(m, "cannot reach bad"),
        _ => panic!("expected CloneFailed"),
    }
}

#[test]
fn sync_checkout_failure_is_reported() {
    let job = SyncJob { language: lang("tree-sitter-c", "c.git", Some("abc123")), destination: "g/c".to_string() };
    match run(&job, true, false).0 {
        SyncOutcome::Failed(SyncFailure::CheckoutFailed(m)) => assert_eq!(m, "object not found"),
        _ => panic!("expected CheckoutFailed"),
    }
}

#[test]
fn sync_invalid_pin_is_reported_after_clone() {
    let job = SyncJob { language: lang("tree-sitter-c", "c.git", Some("not-a-commit")), destination: "g/c".to_string() };
    let (outcome, trace) = run(&job, true, true);
    match outcome {
        SyncOutcome::Failed(SyncFailure::InvalidCommit(h)) => assert_eq!(h, "not-a-commit"),
        _ => panic!("expected InvalidCommit"),
    }
    assert_eq!(trace.len(), 2);
}

#[test]
fn removal_failure_still_clones() {
    let job = SyncJob { language: lang("tree-sitter-c", "c.git", None), destination: "g/c".to_string() };
    match next_action(&job, SyncEvent::RemovalFailed("busy".to_string())) {
        SyncAction::Clone { source, destination } => {
            assert_eq!(source, "c.git");
            assert_eq!(destination, "g/c");
        }
        _ => panic!("expected a clone"),
    }
    assert!(matches!(next_action(&job, SyncEvent::DirectoryRemoved), SyncAction::Clone { .. }));
}

#[test]
fn sync_all_reports_each_entry_by_name() {
    let mut r = Registry::new();
    r.insert("a".to_string(), lang("tree-sitter-a", "a.git", None));
    r.insert("bad".to_string(), lang("tree-sitter-bad", "nowhere", None));
    r.insert("c".to_string(), lang("tree-sitter-c", "c.git", Some("abc123")));
    let jobs = plan_update(&r, None, true, &"g/".to_string()).unwrap();
    let reports: Vec<(String, SyncOutcome)> = jobs
        .iter()
        .map(|j| (j.language.name.clone(), run(j, j.language.git != "nowhere", true).0))
        .collect();
    let ok: Vec<&str> = reports
        .iter()
        .filter(|r| matches!(r.1, SyncOutcome::Succeeded))
        .map(|r| r.0.as_str())
        .collect();
    let failed: Vec<&str> = reports
        .iter()
        .filter(|r| matches!(r.1, SyncOutcome::Failed(_)))
        .map(|r| r.0.as_str())
        .collect();
    assert_eq!(ok, vec!["tree-sitter-a", "tree-sitter-c"]);
    assert_eq!(failed, vec!["tree-sitter-bad"]);
}

#[test]
fn register_rust_against_empty_manifest() {
    let mut r = Registry::new();
    let job = register(
        &mut r,
        "rust".to_string(),
        "https://example/tree-sitter-rust.git".to_string(),
        Some("abc123".to_string()),
        &"./grammars/".to_string(),
    );
    assert_eq!(r.len(), 1);
    let entry = r.get(&"rust".to_string()).unwrap();
    assert_eq!(entry.name, "tree-sitter-rust");
    assert_eq!(entry.git, "https://example/tree-sitter-rust.git");
    assert_eq!(entry.hash.as_deref(), Some("abc123"));
    assert_eq!(job.destination, "./grammars/tree-sitter-rust");
    let (outcome, trace) = run(&job, true, true);
    assert!(matches!(outcome, SyncOutcome::Succeeded));
    assert_eq!(trace[2], format!("detach {:?}", abc123_bytes()));
}

#[test]
fn register_again_updates_pin_only() {
    let mut r = Registry::new();
    register(&mut r, "rust".to_string(), "one.git".to_string(), None, &"g/".to_string());
    let job = register(&mut r, "rust".to_string(), "two.git".to_string(), Some("ff".to_string()), &"g/".to_string());
    assert_eq!(r.len(), 1);
    assert_eq!(job.language.git, "one.git");
    assert_eq!(job.language.hash.as_deref(), Some("ff"));
}

#[test]
fn destination_joins_base_and_name() {
    let mut r = Registry::new();
    r.insert("c".to_string(), lang("tree-sitter-c", "c.git", None));
    let dest = |base: &str| {
        plan_update(&r, Some("c".to_string()), false, &base.to_string()).unwrap()[0]
            .destination
            .clone()
    };
    assert_eq!(dest("grammars"), "grammars/tree-sitter-c");
    assert_eq!(dest("grammars/"), "grammars/tree-sitter-c");
    assert_eq!(dest(""), "tree-sitter-c");
    assert_eq!(dest("dé"), "dé/tree-sitter-c");
}
