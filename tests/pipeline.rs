use dit::baseline::{diff_images, find_baseline_snapshot, image_history};
use dit::budget::{check_budgets, image_name, BudgetPolicy, Percent, Violation};
use dit::ci::{attach_context, compare_batch, run_batch, CiConfig, CiOutputFormat, GitContext};
use dit::diff::compute_diff;
use dit::error::{HistoryError, Missing};
use dit::history::select_history;
use dit::model::{Comparison, ImageSnapshot, LayerChange, LayerInfo, Timestamp};
use dit::store::{HistoryStore, StoreState};

const MB: u64 = 1_000_000;

fn layer(digest: &str, size: u64) -> LayerInfo {
    LayerInfo {
        digest: digest.to_string(),
        size,
        command: format!("RUN build {}", digest),
        created: Timestamp { secs: 1_700_000_000, nanos: 0 },
    }
}

fn snap(image: &str, branch: &str, sha: &str, total: u64, layers: Vec<LayerInfo>) -> ImageSnapshot {
    let layer_count = layers.len();
    ImageSnapshot {
        image: image.to_string(),
        tag: Some("latest".to_string()),
        digest: None,
        commit_sha: sha.to_string(),
        branch: branch.to_string(),
        commit_message: "msg".to_string(),
        author: "dev <dev@example.com>".to_string(),
        timestamp: Timestamp { secs: 1_700_000_000, nanos: 0 },
        total_size: total,
        layer_count,
        layers,
        os: "linux".to_string(),
        arch: "amd64".to_string(),
    }
}

fn policy(budget: Option<u64>, percent: Option<u64>, fail_on_increase: bool) -> BudgetPolicy {
    BudgetPolicy {
        budget_bytes: budget,
        increase_percent: percent.map(Percent::whole),
        fail_on_increase,
    }
}

fn compared(before: u64, after: u64) -> Comparison {
    let b = snap("app", "main", "aaa", before, vec![]);
    let a = snap("app", "main", "bbb", after, vec![]);
    Comparison { snapshot: a.clone(), diff: Some(compute_diff(b, a)) }
}

fn first_seen(total: u64) -> Comparison {
    Comparison { snapshot: snap("app", "main", "ccc", total, vec![]), diff: None }
}

#[test]
fn identical_layers_are_all_unchanged() {
    let before = snap("app", "main", "a1", 300, vec![layer("sha:1", 100), layer("sha:2", 200)]);
    let after = snap("app", "main", "a2", 350, vec![layer("sha:1", 100), layer("sha:2", 200)]);
    let d = compute_diff(before.clone(), after.clone());
    assert_eq!(d.layer_changes.len(), 2);
    assert!(d.layer_changes.iter().all(|c| matches!(c, LayerChange::Unchanged(_))));
    assert_eq!(d.total_delta, 50);
    assert_eq!(d.before, before);
    assert_eq!(d.after, after);
}

#[test]
fn diff_classifies_each_digest_once() {
    let before = snap("app", "main", "a1", 0, vec![layer("x", 10), layer("y", 20), layer("z", 30)]);
    let after = snap("app", "main", "a2", 0, vec![layer("w", 5), layer("y", 25), layer("x", 10)]);
    let d = compute_diff(before, after);
    assert_eq!(
        d.layer_changes,
        vec![
            LayerChange::Unchanged(layer("x", 10)),
            LayerChange::Modified { before: layer("y", 20), after: layer("y", 25) },
            LayerChange::Removed(layer("z", 30)),
            LayerChange::Added(layer("w", 5)),
        ]
    );
}

#[test]
fn diff_of_empty_sides() {
    let empty = snap("app", "main", "a1", 0, vec![]);
    let full = snap("app", "main", "a2", 30, vec![layer("x", 10), layer("y", 20)]);
    let grown = compute_diff(empty.clone(), full.clone());
    assert_eq!(
        grown.layer_changes,
        vec![LayerChange::Added(layer("x", 10)), LayerChange::Added(layer("y", 20))]
    );
    let shrunk = compute_diff(full, empty);
    assert_eq!(
        shrunk.layer_changes,
        vec![LayerChange::Removed(layer("x", 10)), LayerChange::Removed(layer("y", 20))]
    );
    assert_eq!(shrunk.total_delta, -30);
}

#[test]
fn total_delta_ignores_layer_sums() {
    let before = snap("app", "main", "a1", 1000, vec![layer("x", 10)]);
    let after = snap("app", "main", "a2", 900, vec![layer("x", 10), layer("y", 500)]);
    let d = compute_diff(before, after);
    assert_eq!(d.total_delta, -100);
}

#[test]
fn duplicate_digest_takes_first_match() {
    let before = snap("app", "main", "a1", 0, vec![layer("x", 10)]);
    let after = snap("app", "main", "a2", 0, vec![layer("x", 11), layer("x", 10)]);
    let d = compute_diff(before, after);
    assert_eq!(
        d.layer_changes,
        vec![LayerChange::Modified { before: layer("x", 10), after: layer("x", 11) }]
    );
}

#[test]
fn layer_change_accessors() {
    let m = LayerChange::Modified { before: layer("y", 20), after: layer("y", 25) };
    assert_eq!(m.size_delta(), 5);
    assert_eq!(m.kind(), "modified");
    assert_eq!(m.layer().size, 25);
    let r = LayerChange::Removed(layer("z", 30));
    assert_eq!(r.size_delta(), -30);
    assert_eq!(r.kind(), "removed");
    assert_eq!(LayerChange::Added(layer("w", 5)).size_delta(), 5);
    assert_eq!(LayerChange::Added(layer("w", 5)).kind(), "added");
    assert_eq!(LayerChange::Unchanged(layer("w", 5)).size_delta(), 0);
    assert_eq!(LayerChange::Unchanged(layer("w", 5)).kind(), "unchanged");
}

#[test]
fn store_round_trip_keeps_append_order() {
    let mut store = HistoryStore::absent();
    let items = vec![
        snap("app", "main", "a1", 100, vec![layer("x", 1)]),
        snap("web", "dev", "a2", 200, vec![]),
        snap("app", "feature", "a3", 300, vec![layer("y", 2)]),
    ];
    for s in items.clone() {
        store.append(s).unwrap();
    }
    assert_eq!(store.state, StoreState::Present);
    assert_eq!(store.load().unwrap(), &items);
}

#[test]
fn absent_store_loads_empty() {
    let store = HistoryStore::absent();
    assert_eq!(store.load().unwrap().len(), 0);
}

#[test]
fn unreadable_store_is_corrupt_and_kept() {
    let mut store = HistoryStore::unreadable();
    assert_eq!(store.load(), Err(HistoryError::Corrupt));
    assert_eq!(store.append(snap("app", "main", "a1", 1, vec![])), Err(HistoryError::Corrupt));
    assert_eq!(store.state, StoreState::Unreadable);
    assert_eq!(store.records.len(), 0);
}

#[test]
fn absolute_budget_exceeded() {
    let batch = vec![first_seen(100 * MB), first_seen(50 * MB)];
    let v = check_budgets(&batch, &policy(Some(100 * MB), None, false));
    assert!(!v.passed);
    assert_eq!(v.violations, vec![Violation::TotalSize { observed: 150 * MB as u128, limit: 100 * MB }]);
}

#[test]
fn absolute_budget_met() {
    let batch = vec![first_seen(90 * MB)];
    let v = check_budgets(&batch, &policy(Some(100 * MB), None, false));
    assert!(v.passed);
    assert!(v.violations.is_empty());
}

#[test]
fn percent_threshold_exceeded() {
    let batch = vec![compared(100 * MB, 111 * MB)];
    let v = check_budgets(&batch, &policy(None, Some(10), false));
    assert!(!v.passed);
    assert_eq!(
        v.violations,
        vec![Violation::PercentIncrease {
            image: "app:latest".to_string(),
            before: 100 * MB,
            delta: 11 * MB as i64,
            threshold: Percent::whole(10),
        }]
    );
}

#[test]
fn percent_threshold_met() {
    let below = vec![compared(100 * MB, 109 * MB)];
    assert!(check_budgets(&below, &policy(None, Some(10), false)).passed);
    let equal = vec![compared(100 * MB, 110 * MB)];
    assert!(check_budgets(&equal, &policy(None, Some(10), false)).passed);
}

#[test]
fn percent_threshold_fractional() {
    let half = Percent { numerator: 105, denominator: 10 };
    let p = BudgetPolicy { budget_bytes: None, increase_percent: Some(half), fail_on_increase: false };
    assert!(check_budgets(&vec![compared(1000, 1106)], &p).violations.len() == 1);
    assert!(check_budgets(&vec![compared(1000, 1105)], &p).passed);
}

#[test]
fn percent_skips_zero_baseline() {
    let batch = vec![compared(0, 500)];
    assert!(check_budgets(&batch, &policy(None, Some(10), false)).passed);
}

#[test]
fn fail_on_increase_flags_growth_only() {
    let batch = vec![compared(100, 101), compared(100, 100), compared(100, 90), first_seen(5)];
    let v = check_budgets(&batch, &policy(None, None, true));
    assert_eq!(v.violations, vec![Violation::Increase { image: "app:latest".to_string(), delta: 1 }]);
    assert!(!v.passed);
}

#[test]
fn all_policies_report_together() {
    let batch = vec![compared(100, 200)];
    let v = check_budgets(&batch, &policy(Some(150), Some(50), true));
    assert_eq!(v.violations.len(), 3);
    assert!(matches!(v.violations[0], Violation::TotalSize { observed: 200, limit: 150 }));
    assert!(matches!(v.violations[1], Violation::PercentIncrease { .. }));
    assert!(matches!(v.violations[2], Violation::Increase { delta: 100, .. }));
}

fn branch_history() -> Vec<ImageSnapshot> {
    vec![
        snap("app", "main", "c1", 100 * MB, vec![]),
        snap("app", "main", "c2", 120 * MB, vec![]),
        snap("app", "feature", "c3", 130 * MB, vec![]),
    ]
}

#[test]
fn baseline_by_branch_takes_newest_on_branch() {
    let history = branch_history();
    let base = find_baseline_snapshot(&history, "app", Some("main")).unwrap();
    assert_eq!(base.total_size, 120 * MB);
    let any = find_baseline_snapshot(&history, "app", None).unwrap();
    assert_eq!(any.total_size, 130 * MB);
    assert!(find_baseline_snapshot(&history, "web", None).is_none());
    assert!(find_baseline_snapshot(&history, "app", Some("release")).is_none());
}

#[test]
fn batch_compares_with_branch_baseline() {
    let history = branch_history();
    let current = vec![snap("app", "feature", "c4", 125 * MB, vec![])];
    let cs = compare_batch(&history, &current, Some("main"));
    let d = cs[0].diff.as_ref().unwrap();
    assert_eq!(d.before.total_size, 120 * MB);
    assert_eq!(d.total_delta, 5 * MB as i64);
}

#[test]
fn first_run_has_no_baseline_and_is_appended() {
    let mut store = HistoryStore::absent();
    let config = CiConfig {
        images: vec!["app".to_string()],
        budget_bytes: Some(100),
        budget_increase_percent: Some(Percent::whole(1)),
        github_comment: false,
        base_branch: None,
        fail_on_increase: true,
        format: CiOutputFormat::Table,
    };
    let current = snap("app", "main", "c1", 500, vec![layer("x", 500)]);
    let out = run_batch(&mut store, vec![current.clone()], &config).unwrap();
    assert_eq!(out.comparisons, vec![Comparison { snapshot: current.clone(), diff: None }]);
    assert!(out.first_run);
    assert_eq!(out.verdict.violations, vec![Violation::TotalSize { observed: 500, limit: 100 }]);
    assert_eq!(store.load().unwrap(), &vec![current]);
}

#[test]
fn second_run_compares_with_first() {
    let mut store = HistoryStore::from_records(vec![snap("app", "main", "c1", 500, vec![])]);
    let config = CiConfig {
        images: vec!["app".to_string()],
        budget_bytes: None,
        budget_increase_percent: None,
        github_comment: false,
        base_branch: Some("main".to_string()),
        fail_on_increase: true,
        format: CiOutputFormat::Json,
    };
    let out = run_batch(&mut store, vec![snap("app", "dev", "c2", 600, vec![])], &config).unwrap();
    assert!(!out.first_run);
    assert_eq!(out.comparisons[0].diff.as_ref().unwrap().total_delta, 100);
    assert!(!out.verdict.passed);
    assert_eq!(store.records.len(), 2);
    assert_eq!(store.records[1].commit_sha, "c2");
}

#[test]
fn batch_on_corrupt_store_fails() {
    let mut store = HistoryStore::unreadable();
    let config = CiConfig {
        images: vec![],
        budget_bytes: None,
        budget_increase_percent: None,
        github_comment: false,
        base_branch: None,
        fail_on_increase: false,
        format: CiOutputFormat::Markdown,
    };
    let r = run_batch(&mut store, vec![snap("app", "main", "c1", 1, vec![])], &config);
    assert!(matches!(r, Err(HistoryError::Corrupt)));
    assert_eq!(store.state, StoreState::Unreadable);
}

#[test]
fn interactive_diff_of_two_newest() {
    let history = branch_history();
    let d = diff_images(&history, "app", None, None, None).unwrap();
    assert_eq!(d.before.total_size, 120 * MB);
    assert_eq!(d.after.total_size, 130 * MB);
}

#[test]
fn interactive_diff_by_commit_prefix() {
    let mut history = branch_history();
    history[0].commit_sha = "abc123".to_string();
    history[2].commit_sha = "def456".to_string();
    let d = diff_images(&history, "app", Some("def".to_string()), Some("abc".to_string()), None).unwrap();
    assert_eq!(d.before.total_size, 130 * MB);
    assert_eq!(d.after.total_size, 100 * MB);
    let missing = diff_images(&history, "app", Some("fff".to_string()), Some("abc".to_string()), None);
    assert_eq!(missing.unwrap_err(), HistoryError::NotFound(Missing::Commit));
}

#[test]
fn interactive_diff_against_branch() {
    let history = branch_history();
    let d = diff_images(&history, "app", None, None, Some("main".to_string())).unwrap();
    assert_eq!(d.before.total_size, 120 * MB);
    assert_eq!(d.after.total_size, 130 * MB);
    let e = diff_images(&history, "app", None, None, Some("nope".to_string()));
    assert_eq!(e.unwrap_err(), HistoryError::NotFound(Missing::Branch));
}

#[test]
fn interactive_diff_errors() {
    assert_eq!(
        diff_images(&vec![], "app", None, None, None).unwrap_err(),
        HistoryError::NotFound(Missing::AnyHistory)
    );
    let history = branch_history();
    assert_eq!(
        diff_images(&history, "web", None, None, None).unwrap_err(),
        HistoryError::NotFound(Missing::Image)
    );
    let one = vec![snap("app", "main", "c1", 1, vec![])];
    assert_eq!(diff_images(&one, "app", None, None, None).unwrap_err(), HistoryError::InsufficientHistory);
}

#[test]
fn image_history_keeps_only_the_image() {
    let mut history = branch_history();
    history.insert(1, snap("web", "main", "w1", 7, vec![]));
    let ih = image_history(&history, "app");
    assert_eq!(ih.len(), 3);
    assert!(ih.iter().all(|s| s.image == "app"));
}

#[test]
fn history_sorted_by_time_and_cut() {
    let mut a = snap("app", "main", "c1", 1, vec![]);
    a.timestamp = Timestamp { secs: 30, nanos: 0 };
    let mut b = snap("app", "main", "c2", 2, vec![]);
    b.timestamp = Timestamp { secs: 10, nanos: 0 };
    let mut c = snap("web", "main", "c3", 3, vec![]);
    c.timestamp = Timestamp { secs: 20, nanos: 0 };
    let mut d = snap("app", "main", "c4", 4, vec![]);
    d.timestamp = Timestamp { secs: 20, nanos: 5 };
    let all = vec![a, b, c, d];
    let sorted = select_history(all.clone(), "app", None).unwrap();
    let sizes: Vec<u64> = sorted.iter().map(|s| s.total_size).collect();
    assert_eq!(sizes, vec![2, 4, 1]);
    let cut = select_history(all.clone(), "app", Some(2)).unwrap();
    let sizes: Vec<u64> = cut.iter().map(|s| s.total_size).collect();
    assert_eq!(sizes, vec![4, 1]);
    assert_eq!(select_history(all.clone(), "db", None).unwrap_err(), HistoryError::NotFound(Missing::Image));
    assert_eq!(select_history(vec![], "app", None).unwrap_err(), HistoryError::NotFound(Missing::AnyHistory));
}

#[test]
fn git_context_is_attached() {
    let mut s = snap("app", "", "", 10, vec![layer("x", 10)]);
    let g = GitContext {
        commit_sha: "abc".to_string(),
        branch: "main".to_string(),
        commit_message: "fix".to_string(),
        author: "me".to_string(),
    };
    let now = Timestamp { secs: 42, nanos: 7 };
    attach_context(&mut s, Some(&g), now);
    assert_eq!(s.commit_sha, "abc");
    assert_eq!(s.branch, "main");
    assert_eq!(s.timestamp, now);
    let mut t = snap("app", "", "", 10, vec![]);
    attach_context(&mut t, None, now);
    assert_eq!(t.commit_sha, "");
    assert_eq!(t.timestamp, now);
}

#[test]
fn image_name_defaults_tag() {
    let mut s = snap("app", "main", "c1", 1, vec![]);
    assert_eq!(image_name(&s), "app:latest");
    s.tag = Some("1.2".to_string());
    assert_eq!(image_name(&s), "app:1.2");
    s.tag = None;
    assert_eq!(image_name(&s), "app:latest");
}
