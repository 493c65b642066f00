use urun::backends::by_env::Completions;
use urun::backends::by_env::DirListing;
use urun::backends::by_env::FileMeta;
use urun::backends::by_env::GenStatus;
use urun::backends::stub::StubBackend;
use urun::backends::CompletionBackend;
use urun::backends::CompletionEntry;
use urun::backends::Exec;
use urun::backends::spawn_outcome;

fn meta(name: &str, is_regular: bool, mode: u32) -> FileMeta {
    FileMeta {
        name: name.to_string(),
        is_regular,
        mode,
    }
}

fn usr_bin_listing() -> Vec<DirListing> {
    vec![DirListing {
        dir: "/usr/bin".to_string(),
        entries: vec![
            meta("printf", true, 0o755),
            meta("echo", true, 0o755),
            meta("ls", true, 0o755),
            meta("notes.txt", true, 0o644),
            meta("subdir", false, 0o755),
        ],
    }]
}

fn ready_engine() -> Completions {
    let mut be = Completions::new(Some("/usr/bin"));
    assert!(be.needs_scan());
    be.install_scan(&usr_bin_listing());
    assert!(!be.needs_scan());
    be
}

#[test]
fn env_vars_can_be_read() {
    let be = Completions::new(Some("/usr/bin:/usr/local/bin:/bin"));
    assert!(be.dirs().len() > 0);
    assert!(be
        .dirs()
        .iter()
        .find(|p| p.as_str() == "/usr/bin")
        .is_some());
}

#[test]
fn basic_tools_found() {
    let mut be = ready_engine();
    be.generate_at("pri", 1);
    assert!(be
        .all()
        .iter()
        .find(|v| v.title == "printf".to_string())
        .is_some());
}

#[test]
fn completions_respect_prefix() {
    let mut be = ready_engine();
    be.generate_at("ech", 1);
    assert!(be
        .all()
        .iter()
        .find(|v| v.title == "printf".to_string())
        .is_none());
}

#[test]
fn nonsense_not_found() {
    let mut be = ready_engine();
    be.generate_at("lit", 1);
    assert!(be
        .all()
        .iter()
        .find(|v| v.title == "little red riding hood".to_string())
        .is_none());
}

#[test]
fn empty_input_doesnt_generate() {
    let mut be = Completions::new(Some("/usr/bin"));
    let st = be.generate_at("", 1);
    assert!(matches!(st, GenStatus::Rejected));
    // No scan was requested and no result appeared.
    assert!(be.needs_scan());
    assert!(be
        .all()
        .iter()
        .find(|v| v.title == "ls".to_string())
        .is_none());
}

#[test]
fn resolve_sorts_and_dedups() {
    let be = Completions::new(Some("/b:/a:/c:/a:/b"));
    let dirs: Vec<&str> = be.dirs().iter().map(|d| d.as_str()).collect();
    assert_eq!(dirs, vec!["/a", "/b", "/c"]);
}

#[test]
fn unset_variable_means_no_directories() {
    let be = Completions::new(None);
    assert_eq!(be.dirs().len(), 0);
}

#[test]
fn prefix_match_is_exact_bytes() {
    let mut be = ready_engine();
    let st = be.generate_at("pri", 1);
    assert!(matches!(st, GenStatus::Accepted));
    let titles: Vec<&str> = be.all().iter().map(|e| e.title.as_str()).collect();
    assert_eq!(titles, vec!["printf"]);

    be.generate_at("lit", 3);
    assert_eq!(be.len(), 0);

    // Case-sensitive: "PRI" matches nothing.
    be.generate_at("PRI", 5);
    assert_eq!(be.len(), 0);
}

#[test]
fn entries_carry_full_paths() {
    let mut be = ready_engine();
    be.generate_at("printf", 1);
    assert_eq!(be.len(), 1);
    let e = &be.all()[0];
    assert_eq!(e.title.as_str(), "printf");
    assert_eq!(e.subtitle.as_str(), "/usr/bin");
    assert_eq!(e.action.as_str(), "/usr/bin/printf");
}

#[test]
fn non_executables_and_directories_are_skipped() {
    let mut be = ready_engine();
    be.generate_at("notes.txt", 1);
    assert_eq!(be.len(), 0);
    be.generate_at("subdir", 3);
    assert_eq!(be.len(), 0);
}

#[test]
fn results_keep_title_order() {
    let mut be = ready_engine();
    let st = be.generate_at("e", 1);
    assert!(matches!(st, GenStatus::Accepted));
    let titles: Vec<&str> = be.all().iter().map(|e| e.title.as_str()).collect();
    assert_eq!(titles, vec!["echo"]);

    // A one-letter prefix that matches several entries lists them sorted.
    let mut wide = Completions::new(Some("/opt/tools"));
    wide.install_scan(&vec![DirListing {
        dir: "/opt/tools".to_string(),
        entries: vec![
            meta("netstat", true, 0o755),
            meta("netcat", true, 0o755),
            meta("netcap", true, 0o755),
        ],
    }]);
    wide.generate_at("net", 1);
    let titles: Vec<&str> = wide.all().iter().map(|e| e.title.as_str()).collect();
    assert_eq!(titles, vec!["netcap", "netcat", "netstat"]);
}

#[test]
fn duplicate_titles_from_two_directories_both_stay() {
    let mut be = Completions::new(Some("/one:/two"));
    let listings = vec![
        DirListing {
            dir: "/one".to_string(),
            entries: vec![meta("dup", true, 0o755)],
        },
        DirListing {
            dir: "/two".to_string(),
            entries: vec![meta("dup", true, 0o755)],
        },
    ];
    be.install_scan(&listings);
    be.generate_at("du", 1);
    assert_eq!(be.len(), 2);
    assert!(be.all().iter().all(|e| e.title.as_str() == "dup"));
}

#[test]
fn debounce_suppresses_fast_repeat() {
    let mut be = ready_engine();
    let st = be.generate_at("pri", 10);
    assert!(matches!(st, GenStatus::Accepted));
    let before: Vec<String> = be.all().iter().map(|e| e.title.clone()).collect();

    // Same input again, same tick: suppressed, results unchanged.
    let st = be.generate_at("pri", 10);
    assert!(matches!(st, GenStatus::Rejected));
    let after: Vec<String> = be.all().iter().map(|e| e.title.clone()).collect();
    assert_eq!(before, after);

    // Even a different input is suppressed within the window.
    let st = be.generate_at("ech", 10);
    assert!(matches!(st, GenStatus::Rejected));

    // One tick later the call is accepted again.
    let st = be.generate_at("ech", 11);
    assert!(matches!(st, GenStatus::Accepted));
}

#[test]
fn scan_runs_at_most_once() {
    let mut be = Completions::new(Some("/usr/bin"));
    // The first accepted-to-be call asks for the one scan...
    let st = be.generate_at("pri", 1);
    assert!(matches!(st, GenStatus::NeedsScan));
    assert!(be.needs_scan());
    // ...the consumer installs it once...
    be.install_scan(&usr_bin_listing());
    assert!(!be.needs_scan());
    // ...and no number of generate calls asks again.
    be.generate_at("pri", 2);
    be.generate_at("ech", 4);
    be.generate_at("ls", 6);
    assert!(!be.needs_scan());
}

#[test]
fn first_n_boundaries() {
    let mut be = ready_engine();
    be.generate_at("l", 1);
    assert_eq!(be.len(), 1);

    be.generate_at("e", 3);
    assert_eq!(be.len(), 1);

    let mut wide = Completions::new(Some("/opt/tools"));
    wide.install_scan(&vec![DirListing {
        dir: "/opt/tools".to_string(),
        entries: vec![
            meta("aa", true, 0o755),
            meta("ab", true, 0o755),
            meta("ac", true, 0o755),
        ],
    }]);
    wide.generate_at("a", 1);
    assert_eq!(wide.len(), 3);
    assert_eq!(wide.n(0).len(), 0);
    assert_eq!(wide.n(1).len(), 1);
    assert_eq!(wide.n(1)[0].title.as_str(), "aa");
    assert_eq!(wide.n(3).len(), 3);
    assert_eq!(wide.n(100).len(), 3);
}

fn canned() -> Vec<CompletionEntry> {
    vec![
        CompletionEntry {
            title: "foo".to_string(),
            subtitle: "stub".to_string(),
            action: "foo".to_string(),
        },
        CompletionEntry {
            title: "foobar".to_string(),
            subtitle: "stub".to_string(),
            action: "foobar".to_string(),
        },
        CompletionEntry {
            title: "bar".to_string(),
            subtitle: "stub".to_string(),
            action: "bar".to_string(),
        },
    ]
}

#[test]
fn stub_backend_filters_canned_results() {
    let mut be = StubBackend::new(canned());
    assert_eq!(be.len(), 0);
    be.generate("foo");
    assert_eq!(be.len(), 2);
    let titles: Vec<&str> = be.all().iter().map(|e| e.title.as_str()).collect();
    assert_eq!(titles, vec!["foo", "foobar"]);
    assert_eq!(be.n(1).len(), 1);
    assert_eq!(be.n(9).len(), 2);
    assert_eq!(be.n(0).len(), 0);
}

#[test]
fn stub_backend_rejects_empty_input() {
    let mut be = StubBackend::new(canned());
    be.generate("bar");
    assert_eq!(be.len(), 1);
    be.generate("");
    assert_eq!(be.len(), 1);
}

#[test]
fn stub_backend_never_exits() {
    let be = StubBackend::new(canned());
    let entry = &canned()[0];
    assert!(matches!(be.execute(entry), Exec::Continue));
    assert!(matches!(be.command("rm -rf nothing"), Exec::Continue));
}

#[test]
fn equal_listings_build_equal_snapshots() {
    let listings = vec![
        DirListing {
            dir: "/one".to_string(),
            entries: vec![meta("dup", true, 0o755), meta("apple", true, 0o755)],
        },
        DirListing {
            dir: "/two".to_string(),
            entries: vec![meta("dup", true, 0o755)],
        },
    ];
    let a = urun::backends::by_env::build_snapshot(&listings);
    let b = urun::backends::by_env::build_snapshot(&listings);
    assert_eq!(a.len(), b.len());
    for (x, y) in a.iter().zip(b.iter()) {
        assert_eq!(x.title, y.title);
        assert_eq!(x.subtitle, y.subtitle);
        assert_eq!(x.action, y.action);
    }
    // Among equal titles the earlier-listed directory comes first.
    let subtitles: Vec<&str> = a
        .iter()
        .filter(|e| e.title.as_str() == "dup")
        .map(|e| e.subtitle.as_str())
        .collect();
    assert_eq!(subtitles, vec!["/one", "/two"]);
}

#[test]
fn spawn_outcome_signals_handoff_or_retry() {
    assert!(matches!(spawn_outcome(true), Exec::Exit(0)));
    assert!(matches!(spawn_outcome(false), Exec::Continue));
}
