use cargo_sideload::download::{
    batch_failures, machine_start, select_packages, step, FetchEvent, FetchFailure, FetchOutcome,
    FetchPhase, ResolvedPackage, StepAction,
};

fn resolved(name: &str, version: &str, source_url: &str) -> ResolvedPackage {
    ResolvedPackage {
        name: name.to_string(),
        version: version.to_string(),
        source_url: source_url.to_string(),
    }
}

#[test]
fn cached_archive_short_circuits_without_any_request() {
    let (phase, action) = machine_start(false);
    assert!(matches!(action, StepAction::QueryCache));
    let (phase, action) = step(phase, FetchEvent::CacheReady);
    assert!(matches!(action, StepAction::Finish));
    match phase {
        FetchPhase::Done { outcome } => assert_eq!(outcome, FetchOutcome::AlreadyCached),
        _ => panic!("expected a finished request"),
    }
}

#[test]
fn download_roundtrip_writes_once_and_revalidates() {
    let (phase, action) = machine_start(false);
    assert!(matches!(action, StepAction::QueryCache));

    let (phase, action) = step(
        phase,
        FetchEvent::CacheMiss { url: "https://example.com/a.crate".to_string() },
    );
    match &action {
        StepAction::SendRequest { url } => assert_eq!(url, "https://example.com/a.crate"),
        _ => panic!("expected the request to be sent"),
    }

    let (phase, action) = step(phase, FetchEvent::HttpOk { body: vec![1, 2, 3] });
    match &action {
        StepAction::WriteArchive { body } => assert_eq!(body, &vec![1, 2, 3]),
        _ => panic!("expected the archive to be written"),
    }

    let (phase, action) = step(phase, FetchEvent::WriteOk);
    assert!(matches!(action, StepAction::QueryCache));

    let (phase, action) = step(phase, FetchEvent::CacheReady);
    assert!(matches!(action, StepAction::Finish));
    match phase {
        FetchPhase::Done { outcome } => assert_eq!(outcome, FetchOutcome::Downloaded),
        _ => panic!("expected a finished request"),
    }
}

#[test]
fn force_mode_fails_the_same_way_twice_and_never_writes() {
    let mut outcomes: Vec<FetchOutcome> = Vec::new();
    for _ in 0..2 {
        let (phase, action) = machine_start(true);
        // force mode deletes the existing archive before anything else
        assert!(matches!(action, StepAction::DeleteArchive));

        let (phase, action) = step(phase, FetchEvent::Deleted);
        assert!(matches!(action, StepAction::QueryCache));

        let (phase, action) =
            step(phase, FetchEvent::CacheMiss { url: "https://example.com/a.crate".to_string() });
        assert!(matches!(action, StepAction::SendRequest { .. }));

        // the network is unreachable: no response ever arrives
        let (phase, action) = step(phase, FetchEvent::HttpFailed { status: 0 });
        assert!(matches!(action, StepAction::Finish));
        match phase {
            FetchPhase::Done { outcome } => outcomes.push(outcome),
            _ => panic!("expected a finished request"),
        }
    }
    assert_eq!(outcomes[0], outcomes[1]);
    assert_eq!(
        outcomes[0],
        FetchOutcome::Failed { failure: FetchFailure::Transport { status: 0 } },
    );
}

#[test]
fn non_success_status_is_a_transport_error() {
    let (phase, _) = machine_start(false);
    let (phase, _) =
        step(phase, FetchEvent::CacheMiss { url: "https://example.com/a.crate".to_string() });
    let (phase, action) = step(phase, FetchEvent::HttpFailed { status: 403 });
    assert!(matches!(action, StepAction::Finish));
    match phase {
        FetchPhase::Done { outcome } => assert_eq!(
            outcome,
            FetchOutcome::Failed { failure: FetchFailure::Transport { status: 403 } },
        ),
        _ => panic!("expected a finished request"),
    }
}

#[test]
fn validation_failure_deletes_the_bad_archive() {
    let (phase, _) = machine_start(false);
    let (phase, _) =
        step(phase, FetchEvent::CacheMiss { url: "https://example.com/a.crate".to_string() });
    let (phase, _) = step(phase, FetchEvent::HttpOk { body: vec![9] });
    let (phase, _) = step(phase, FetchEvent::WriteOk);
    // the re-check finds the written archive corrupt
    let (phase, action) = step(phase, FetchEvent::CacheInvalid);
    assert!(matches!(action, StepAction::DeleteArchive));
    let (phase, action) = step(phase, FetchEvent::Deleted);
    assert!(matches!(action, StepAction::Finish));
    match phase {
        FetchPhase::Done { outcome } => {
            assert_eq!(outcome, FetchOutcome::Failed { failure: FetchFailure::Validation });
        },
        _ => panic!("expected a finished request"),
    }
}

#[test]
fn one_failure_does_not_lose_the_other_results() {
    // three requested packages; the second fails validation
    let outcomes = vec![
        FetchOutcome::Downloaded,
        FetchOutcome::Failed { failure: FetchFailure::Validation },
        FetchOutcome::Downloaded,
    ];
    assert_eq!(batch_failures(&outcomes), 1);
    assert_eq!(outcomes[0], FetchOutcome::Downloaded);
    assert_eq!(outcomes[2], FetchOutcome::Downloaded);

    let all_good = vec![FetchOutcome::AlreadyCached, FetchOutcome::Downloaded];
    assert_eq!(batch_failures(&all_good), 0);
}

#[test]
fn select_packages_filters_by_registry_and_name() {
    let packages = vec![
        resolved("a", "1.0.0", "https://git.example.com/index"),
        resolved("b", "2.0.0", "https://other.example.com/index"),
        resolved("c", "3.0.0", "https://git.example.com/index"),
    ];

    let no_filter = select_packages(&packages, &None, "https://git.example.com/index");
    assert_eq!(no_filter.len(), 2);
    assert_eq!(no_filter[0].name, "a");
    assert_eq!(no_filter[1].name, "c");

    let only = Some(vec!["c".to_string()]);
    let filtered = select_packages(&packages, &only, "https://git.example.com/index");
    assert_eq!(filtered.len(), 1);
    assert_eq!(filtered[0].name, "c");
    assert_eq!(filtered[0].version, "3.0.0");
}
