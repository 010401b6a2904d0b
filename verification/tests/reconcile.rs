use blog::content::{ComponentSpec, IndexEntry, Manifest};
use blog::publish::{check_each, PostSource};
use blog::reconcile::{
    after_step, carry_requests, is_trigger, retained_history, run_again, split_checks, sweep_keys,
    NextMove, ReconcileStep, KEEP_SNAPSHOTS,
};

fn manifest() -> Manifest {
    Manifest {
        components: vec![ComponentSpec { name: "Callout".into(), props: vec![], accepts_children: true }],
    }
}

fn post(slug: &str, body: &str) -> PostSource {
    PostSource {
        slug: slug.into(),
        file: format!("content/blog/{slug}/index.mdx"),
        source: format!("---\ntitle: {slug}\ndate: 2026-01-01\n---\n\n{body}\n"),
    }
}

fn entry(slug: &str) -> IndexEntry {
    IndexEntry {
        slug: slug.into(),
        title: slug.into(),
        date: "2026-01-01".into(),
        description: None,
        tags: vec![],
        draft: false,
    }
}

fn strings(v: &[&str]) -> Vec<String> {
    v.iter().map(|s| s.to_string()).collect()
}

#[test]
fn split_checks_separates_passes_from_failures_in_order() {
    let sources = [post("a", "Fine."), post("b", "<Nope />"), post("c", "Also fine."), post("d", "{x}")];
    let results = check_each(&sources, &manifest());
    let split = split_checks(&sources, results);
    let parsed: Vec<&str> = split.parsed.iter().map(|p| p.slug.as_str()).collect();
    assert_eq!(parsed, ["a", "c"]);
    assert_eq!(split.failed, strings(&["b", "d"]));
    assert!(split.diagnostics.len() >= 2);
    assert!(split.diagnostics[0].file.as_deref() == Some("content/blog/b/index.mdx"));
    assert!(split.diagnostics.last().unwrap().file.as_deref() == Some("content/blog/d/index.mdx"));
}

#[test]
fn carry_requests_point_at_previous_payloads() {
    let prev = [entry("a"), entry("b"), entry("b"), entry("c")];
    let reqs = carry_requests(&strings(&["b", "z", "a"]), &prev, Some("old"));
    let got: Vec<(usize, &str)> = reqs.iter().map(|r| (r.entry, r.key.as_str())).collect();
    assert_eq!(got, [(1, "snapshot:old:post:b"), (0, "snapshot:old:post:a")]);

    let flat = carry_requests(&strings(&["c"]), &prev, None);
    assert_eq!(flat.len(), 1);
    assert_eq!(flat[0].entry, 3);
    assert_eq!(flat[0].key, "post:c");
}

#[test]
fn history_puts_the_new_head_first_and_keeps_ten() {
    let history = strings(&["s1", "s2", "head", "s3"]);
    assert_eq!(retained_history(&history, "head"), strings(&["head", "s1", "s2", "s3"]));

    let long: Vec<String> = (0..15).map(|i| format!("s{i}")).collect();
    let kept = retained_history(&long, "new");
    assert_eq!(kept.len(), KEEP_SNAPSHOTS);
    assert_eq!(kept[0], "new");
    assert_eq!(kept[9], "s8");
    assert_eq!(retained_history(&[], "first"), strings(&["first"]));
}

#[test]
fn sweep_deletes_only_snapshots_outside_history_and_current() {
    let keys = strings(&[
        "snapshot:old:index",
        "snapshot:old:post:a",
        "snapshot:keep:index",
        "snapshot:flip:post:b",
        "current",
        "post:legacy",
        "snapshot::index",
    ]);
    let history = strings(&["keep"]);
    let swept = sweep_keys(&keys, &history, Some("flip"));
    assert_eq!(swept, strings(&["snapshot:old:index", "snapshot:old:post:a"]));
    let swept = sweep_keys(&keys, &history, None);
    assert_eq!(swept, strings(&["snapshot:old:index", "snapshot:old:post:a", "snapshot:flip:post:b"]));
}

#[test]
fn the_just_published_snapshot_survives_the_sweep() {
    let history = retained_history(&strings(&["a", "b"]), "head");
    let keys = strings(&["snapshot:head:index", "snapshot:head:post:x", "snapshot:a:index"]);
    assert!(sweep_keys(&keys, &history, None).is_empty());
}

#[test]
fn coordinator_requests_and_follow_ups() {
    assert!(is_trigger("POST", "/trigger"));
    assert!(!is_trigger("GET", "/trigger"));
    assert!(!is_trigger("POST", "/trigger/"));
    assert!(run_again(Some(true)));
    assert!(!run_again(Some(false)));
    assert!(!run_again(None));
}

fn run(outcomes: &[bool]) -> (Vec<ReconcileStep>, NextMove) {
    let mut steps = vec![ReconcileStep::Read];
    let mut step = ReconcileStep::Read;
    for &ok in outcomes {
        match after_step(step, ok) {
            NextMove::Run(next) => {
                steps.push(next);
                step = next;
            }
            end => return (steps, end),
        }
    }
    (steps, NextMove::Run(step))
}

#[test]
fn a_clean_reconcile_writes_posts_then_index_then_flips_then_sweeps() {
    let (steps, end) = run(&[true; 10]);
    assert_eq!(
        steps,
        vec![
            ReconcileStep::Read,
            ReconcileStep::WritePosts,
            ReconcileStep::WriteIndex,
            ReconcileStep::Flip,
            ReconcileStep::RecordHistory,
            ReconcileStep::ReadCurrent,
            ReconcileStep::ListKeys,
            ReconcileStep::Sweep,
            ReconcileStep::Purge,
            ReconcileStep::Report,
        ]
    );
    assert_eq!(end, NextMove::Finished);
}

#[test]
fn a_failed_read_aborts_before_any_write() {
    let (steps, end) = run(&[false]);
    assert_eq!(steps, vec![ReconcileStep::Read]);
    assert_eq!(end, NextMove::Abort);
}

#[test]
fn a_failed_index_write_never_flips() {
    let (steps, end) = run(&[true, true, false]);
    assert_eq!(steps.last(), Some(&ReconcileStep::WriteIndex));
    assert_eq!(end, NextMove::Abort);
}

#[test]
fn a_failed_history_write_skips_the_sweep_but_still_purges() {
    let (steps, end) = run(&[true, true, true, true, false, true, true]);
    assert_eq!(
        &steps[4..],
        &[ReconcileStep::RecordHistory, ReconcileStep::Purge, ReconcileStep::Report]
    );
    assert!(!steps.contains(&ReconcileStep::Sweep));
    assert_eq!(end, NextMove::Finished);
}
