use sqld::lifecycle::{advance, is_finished, start, version_banner, Stage};

#[test]
fn startup_and_shutdown_run_in_order() {
    let mut stage = start();
    let mut seen = vec![stage];
    while !is_finished(stage) {
        stage = advance(stage, true);
        seen.push(stage);
    }
    assert_eq!(
        seen,
        vec![
            Stage::InstallSignalBridge,
            Stage::StartParser,
            Stage::StartListener,
            Stage::AwaitShutdown,
            Stage::RemoveEndpoint,
            Stage::Exited,
        ]
    );
}

#[test]
fn any_failing_stage_aborts() {
    for stage in [
        Stage::InstallSignalBridge,
        Stage::StartParser,
        Stage::StartListener,
        Stage::AwaitShutdown,
        Stage::RemoveEndpoint,
    ] {
        assert_eq!(advance(stage, false), Stage::Aborted);
    }
}

#[test]
fn bind_failure_aborts_startup() {
    let stage = advance(advance(start(), true), true);
    assert_eq!(stage, Stage::StartListener);
    assert_eq!(advance(stage, false), Stage::Aborted);
}

#[test]
fn ended_process_stays_ended() {
    for ok in [true, false] {
        assert_eq!(advance(Stage::Exited, ok), Stage::Exited);
        assert_eq!(advance(Stage::Aborted, ok), Stage::Aborted);
    }
}

#[test]
fn only_exit_and_abort_are_final() {
    assert!(is_finished(Stage::Exited));
    assert!(is_finished(Stage::Aborted));
    assert!(!is_finished(Stage::InstallSignalBridge));
    assert!(!is_finished(Stage::StartParser));
    assert!(!is_finished(Stage::StartListener));
    assert!(!is_finished(Stage::AwaitShutdown));
    assert!(!is_finished(Stage::RemoveEndpoint));
}

#[test]
fn shutdown_removes_endpoint_then_exits() {
    let stage = advance(Stage::AwaitShutdown, true);
    assert_eq!(stage, Stage::RemoveEndpoint);
    assert_eq!(advance(stage, true), Stage::Exited);
}

#[test]
fn banner_names_the_version() {
    assert_eq!(version_banner(Some("0.1.0")), "sqld version 0.1.0");
}

#[test]
fn banner_without_version() {
    assert_eq!(version_banner(None), "sqld version unknown");
}
