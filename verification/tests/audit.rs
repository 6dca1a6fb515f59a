use dir_audit::config::Opts;
use dir_audit::frontier::deduplicate;
use dir_audit::paths::strict_descendant;
use dir_audit::rank::{collect_sized, rank, SizeOutcome, SizedDirectory};
use dir_audit::run::{step, Action, Event, Phase};

fn strings(items: &[&str]) -> Vec<String> {
    items.iter().map(|s| s.to_string()).collect()
}

fn sized(items: &[(&str, u64)]) -> Vec<SizedDirectory> {
    items
        .iter()
        .map(|(d, s)| SizedDirectory { directory: d.to_string(), size: *s })
        .collect()
}

fn test_opts(count: usize) -> Opts {
    Opts {
        watcher_path: "/data".to_string(),
        watcher_depth: 2,
        watcher_same_fs: true,
        watcher_count: count,
        db_path: "/data/data.sqlite".to_string(),
    }
}

#[test]
fn descendant_by_segments() {
    assert!(strict_descendant("/data/a/b", "/data/a"));
    assert!(strict_descendant("/data/a", "/data"));
    assert!(strict_descendant("/data", "/"));
    assert!(strict_descendant("/srv/x", "/srv/"));
}

#[test]
fn descendant_rejects_bare_prefix() {
    assert!(!strict_descendant("/data/ab", "/data/a"));
    assert!(!strict_descendant("/data", "/data"));
    assert!(!strict_descendant("/data", "/data/a"));
    assert!(!strict_descendant("/other", "/data"));
}

#[test]
fn frontier_drops_every_ancestor() {
    let dirs = strings(&["/data", "/data/a", "/data/a/b"]);
    let frontier = deduplicate(&dirs);
    assert_eq!(frontier, strings(&["/data/a/b"]));
}

#[test]
fn frontier_keeps_unrelated_directories() {
    let dirs = strings(&["/data/a", "/data/b", "/data/ab"]);
    let frontier = deduplicate(&dirs);
    assert_eq!(frontier, dirs);
}

#[test]
fn frontier_no_nested_pair_remains() {
    let dirs = strings(&["/", "/a", "/a/b", "/a/bc", "/c", "/c/d/e"]);
    let frontier = deduplicate(&dirs);
    assert_eq!(frontier, strings(&["/a/b", "/a/bc", "/c/d/e"]));
    for x in frontier.iter() {
        for y in frontier.iter() {
            assert!(!strict_descendant(x, y));
        }
    }
}

#[test]
fn frontier_is_subset_of_input() {
    let dirs = strings(&["/x", "/x/y", "/z", "/z/w", "/q"]);
    let frontier = deduplicate(&dirs);
    for d in frontier.iter() {
        assert!(dirs.contains(d));
    }
}

#[test]
fn frontier_is_idempotent() {
    let dirs = strings(&["/data", "/data/a", "/data/b", "/data/b/c", "/solo"]);
    let once = deduplicate(&dirs);
    let twice = deduplicate(&once);
    assert_eq!(once, twice);
}

#[test]
fn frontier_of_single_root() {
    let dirs = strings(&["/solo"]);
    assert_eq!(deduplicate(&dirs), strings(&["/solo"]));
}

#[test]
fn collect_sized_drops_failures() {
    let outcomes = vec![
        SizeOutcome { directory: "/a".to_string(), size: Some(10) },
        SizeOutcome { directory: "/b".to_string(), size: None },
        SizeOutcome { directory: "/c".to_string(), size: Some(5) },
    ];
    let kept = collect_sized(&outcomes);
    assert_eq!(kept.len(), 2);
    assert_eq!(kept[0].directory, "/a");
    assert_eq!(kept[0].size, 10);
    assert_eq!(kept[1].directory, "/c");
    assert_eq!(kept[1].size, 5);
}

#[test]
fn rank_sorts_descending_and_truncates() {
    let input = sized(&[("/a", 100), ("/b", 600), ("/c", 50), ("/d", 300)]);
    let ranked = rank(input, 2);
    assert_eq!(ranked.len(), 2);
    assert_eq!(ranked[0].directory, "/b");
    assert_eq!(ranked[0].size, 600);
    assert_eq!(ranked[1].directory, "/d");
    assert_eq!(ranked[1].size, 300);
}

#[test]
fn rank_with_zero_is_empty() {
    let input = sized(&[("/a", 100), ("/b", 600)]);
    let ranked = rank(input, 0);
    assert!(ranked.is_empty());
}

#[test]
fn rank_returns_all_when_fewer_than_requested() {
    let input = sized(&[("/a", 100), ("/b", 600), ("/c", 50)]);
    let ranked = rank(input, 10);
    assert_eq!(ranked.len(), 3);
    assert_eq!(ranked[0].size, 600);
    assert_eq!(ranked[1].size, 100);
    assert_eq!(ranked[2].size, 50);
}

#[test]
fn rank_keeps_ties_sorted_and_counted() {
    let input = sized(&[("/a", 100), ("/b", 300), ("/c", 100), ("/d", 300)]);
    let ranked = rank(input, 3);
    assert_eq!(ranked.len(), 3);
    assert_eq!(ranked[0].size, 300);
    assert_eq!(ranked[1].size, 300);
    assert_eq!(ranked[2].size, 100);
}

#[test]
fn rank_of_empty_is_empty() {
    let ranked = rank(Vec::new(), 10);
    assert!(ranked.is_empty());
}

#[test]
fn run_start_asks_for_enumeration() {
    let opts = test_opts(10);
    let (phase, action) = step(&opts, Phase::Start, Event::Started);
    assert!(matches!(phase, Phase::Enumerating));
    match action {
        Action::Enumerate { root, depth, same_fs } => {
            assert_eq!(root, "/data");
            assert_eq!(depth, 2);
            assert!(same_fs);
        }
        _ => panic!("expected an enumeration request"),
    }
}

#[test]
fn run_records_only_the_frontier() {
    let opts = test_opts(10);
    let (phase, action) = step(&opts, Phase::Start, Event::Started);
    assert!(matches!(action, Action::Enumerate { .. }));
    let dirs = strings(&["/data", "/data/a", "/data/a/b"]);
    let (phase, action) = step(&opts, phase, Event::Enumerated { dirs });
    match &action {
        Action::SizeDir { directory } => assert_eq!(directory, "/data/a/b"),
        _ => panic!("expected a sizing request"),
    }
    let (phase, action) = step(&opts, phase, Event::Sized { size: Some(50) });
    assert!(matches!(action, Action::OpenStore { .. }));
    let (phase, action) = step(&opts, phase, Event::StoreOpened { ok: true });
    match &action {
        Action::InsertRow { directory, size } => {
            assert_eq!(directory, "/data/a/b");
            assert_eq!(*size, 50);
        }
        _ => panic!("expected a row insertion request"),
    }
    let (phase, action) = step(&opts, phase, Event::RowInserted { ok: true });
    assert!(matches!(action, Action::InsertLog));
    let (phase, action) = step(&opts, phase, Event::LogInserted { ok: true });
    assert!(matches!(phase, Phase::Done { ok: true }));
    assert!(matches!(action, Action::Exit { ok: true }));
}

#[test]
fn run_store_open_failure_is_fatal() {
    let opts = test_opts(10);
    let ranked = sized(&[("/data/a", 600)]);
    let (phase, action) = step(
        &opts,
        Phase::Recording { ranked },
        Event::StoreOpened { ok: false },
    );
    assert!(matches!(phase, Phase::Done { ok: false }));
    assert!(matches!(action, Action::Exit { ok: false }));
}

#[test]
fn run_sizing_failure_excludes_only_that_directory() {
    let opts = test_opts(10);
    let (phase, _) = step(&opts, Phase::Start, Event::Started);
    let dirs = strings(&["/a", "/b", "/c"]);
    let (phase, action) = step(&opts, phase, Event::Enumerated { dirs });
    // Sizing proceeds from the end of the frontier.
    match &action {
        Action::SizeDir { directory } => assert_eq!(directory, "/c"),
        _ => panic!("expected a sizing request"),
    }
    let (phase, action) = step(&opts, phase, Event::Sized { size: Some(10) });
    match &action {
        Action::SizeDir { directory } => assert_eq!(directory, "/b"),
        _ => panic!("expected a sizing request"),
    }
    let (phase, action) = step(&opts, phase, Event::Sized { size: None });
    match &action {
        Action::SizeDir { directory } => assert_eq!(directory, "/a"),
        _ => panic!("expected a sizing request"),
    }
    let (phase, action) = step(&opts, phase, Event::Sized { size: Some(5) });
    assert!(matches!(action, Action::OpenStore { .. }));
    let (phase, action) = step(&opts, phase, Event::StoreOpened { ok: true });
    match &action {
        Action::InsertRow { directory, size } => {
            assert_eq!(directory, "/c");
            assert_eq!(*size, 10);
        }
        _ => panic!("expected a row insertion request"),
    }
    let (phase, action) = step(&opts, phase, Event::RowInserted { ok: true });
    match &action {
        Action::InsertRow { directory, size } => {
            assert_eq!(directory, "/a");
            assert_eq!(*size, 5);
        }
        _ => panic!("expected a row insertion request"),
    }
    // A failed row append is absorbed; the log entry is still asked for.
    let (phase, action) = step(&opts, phase, Event::RowInserted { ok: false });
    assert!(matches!(action, Action::InsertLog));
    let (phase, action) = step(&opts, phase, Event::LogInserted { ok: true });
    assert!(matches!(phase, Phase::Done { ok: true }));
    assert!(matches!(action, Action::Exit { ok: true }));
}
