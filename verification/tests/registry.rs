//! End-to-end behaviour of the fleet registry.

use shutdown_on_lan::errors::StatusError;
use shutdown_on_lan::infrastructure::InfrastructureStatus;
use shutdown_on_lan::State;
use shutdown_on_lan::CLEANUP_THRESHOLD_SECONDS;
use shutdown_on_lan::PONG_SLEEP_SECONDS;

fn snapshot_state(
    snap: &Vec<(String, Vec<(String, State)>)>,
    group: &str,
    computer: &str,
) -> Option<State> {
    for (g, members) in snap {
        if g == group {
            for (c, st) in members {
                if c == computer {
                    return Some(*st);
                }
            }
        }
    }
    None
}

fn has_group(snap: &Vec<(String, Vec<(String, State)>)>, group: &str) -> bool {
    snap.iter().any(|(g, _)| g == group)
}

#[test]
fn first_heartbeat_bootstraps_online_entry() {
    let mut inf = InfrastructureStatus::new();
    let g = String::from("farm");
    let c = String::from("m1");
    let reported = inf.refresh(&g, &c, 10);
    assert_eq!(reported, State::Online);
    let snap = inf.snapshot();
    assert_eq!(snapshot_state(&snap, "farm", "m1"), Some(State::Online));
}

#[test]
fn single_shot_acceptance_sequence() {
    let mut inf = InfrastructureStatus::new();
    let g = String::from("farm");
    let c = String::from("m1");
    assert_eq!(inf.refresh(&g, &c, 1), State::Online);
    assert_eq!(inf.refresh(&g, &c, 2), State::Online);
    assert_eq!(inf.request_shutdown_computer(&g, &c), Ok(()));
    // The next heartbeat reports the actionable signal once.
    assert_eq!(inf.refresh(&g, &c, 3), State::ShutdownRequested);
    // Every heartbeat after that reports the accepted state.
    assert_eq!(inf.refresh(&g, &c, 4), State::ShutdownAccepted);
    assert_eq!(inf.refresh(&g, &c, 5), State::ShutdownAccepted);
}

#[test]
fn shutdown_twice_fails_with_ineligible_state() {
    let mut inf = InfrastructureStatus::new();
    let g = String::from("farm");
    let c = String::from("m1");
    inf.refresh(&g, &c, 1);
    assert_eq!(inf.request_shutdown_computer(&g, &c), Ok(()));
    assert_eq!(
        inf.request_shutdown_computer(&g, &c),
        Err(StatusError::IneligibleState)
    );
}

#[test]
fn observed_states_never_regress() {
    let mut inf = InfrastructureStatus::new();
    let g = String::from("farm");
    let c = String::from("m1");
    let rank = |s: State| match s {
        State::Online => 0,
        State::ShutdownRequested => 1,
        State::ShutdownAccepted => 2,
    };
    let mut observed: Vec<State> = Vec::new();
    observed.push(inf.refresh(&g, &c, 1));
    observed.push(inf.refresh(&g, &c, 2));
    let _ = inf.request_shutdown_computer(&g, &c);
    observed.push(inf.refresh(&g, &c, 3));
    let _ = inf.request_shutdown_computer(&g, &c);
    observed.push(inf.refresh(&g, &c, 4));
    let _ = inf.request_shutdown_group(&g);
    observed.push(inf.refresh(&g, &c, 5));
    for pair in observed.windows(2) {
        assert!(rank(pair[0]) <= rank(pair[1]));
    }
}

#[test]
fn group_fan_out_hits_every_online_member() {
    let mut inf = InfrastructureStatus::new();
    let g = String::from("farm");
    let a = String::from("a");
    let b = String::from("b");
    let c = String::from("c");
    inf.refresh(&g, &a, 1);
    inf.refresh(&g, &b, 1);
    inf.refresh(&g, &c, 1);
    // Move B to ShutdownRequested beforehand.
    assert_eq!(inf.request_shutdown_computer(&g, &b), Ok(()));
    // A=Online, B=ShutdownRequested, C=Online: the group request succeeds.
    assert_eq!(inf.request_shutdown_group(&g), Ok(()));
    let snap = inf.snapshot();
    assert_eq!(
        snapshot_state(&snap, "farm", "a"),
        Some(State::ShutdownRequested)
    );
    assert_eq!(
        snapshot_state(&snap, "farm", "b"),
        Some(State::ShutdownRequested)
    );
    assert_eq!(
        snapshot_state(&snap, "farm", "c"),
        Some(State::ShutdownRequested)
    );
}

#[test]
fn group_fan_out_fails_without_online_member() {
    let mut inf = InfrastructureStatus::new();
    let g = String::from("farm");
    let a = String::from("a");
    let b = String::from("b");
    inf.refresh(&g, &a, 1);
    inf.refresh(&g, &b, 1);
    assert_eq!(inf.request_shutdown_computer(&g, &a), Ok(()));
    assert_eq!(inf.request_shutdown_computer(&g, &b), Ok(()));
    // A stays ShutdownRequested; B moves on to ShutdownAccepted.
    assert_eq!(inf.refresh(&g, &b, 2), State::ShutdownRequested);
    assert_eq!(
        inf.request_shutdown_group(&g),
        Err(StatusError::NoEligibleMembers)
    );
    // No member's state changed.
    let snap = inf.snapshot();
    assert_eq!(
        snapshot_state(&snap, "farm", "a"),
        Some(State::ShutdownRequested)
    );
    assert_eq!(
        snapshot_state(&snap, "farm", "b"),
        Some(State::ShutdownAccepted)
    );
}

#[test]
fn sweep_evicts_stale_machine_and_cascades_to_group() {
    let mut inf = InfrastructureStatus::new();
    let g = String::from("farm");
    let c = String::from("m1");
    inf.refresh(&g, &c, 100);
    // Exactly the threshold has passed: the machine is stale.
    inf.cleanup(100 + CLEANUP_THRESHOLD_SECONDS);
    let snap = inf.snapshot();
    assert_eq!(snapshot_state(&snap, "farm", "m1"), None);
    // The machine was the group's last member, so the group went with it.
    assert!(!has_group(&snap, "farm"));
}

#[test]
fn sweep_keeps_machine_within_threshold() {
    let mut inf = InfrastructureStatus::new();
    let g = String::from("farm");
    let c = String::from("m1");
    inf.refresh(&g, &c, 100);
    inf.cleanup(100 + CLEANUP_THRESHOLD_SECONDS - 1);
    let snap = inf.snapshot();
    assert_eq!(snapshot_state(&snap, "farm", "m1"), Some(State::Online));
}

#[test]
fn sweep_keeps_group_while_some_member_is_live() {
    let mut inf = InfrastructureStatus::new();
    let g = String::from("farm");
    let stale = String::from("stale");
    let live = String::from("live");
    inf.refresh(&g, &stale, 0);
    inf.refresh(&g, &live, 90);
    inf.cleanup(100);
    let snap = inf.snapshot();
    assert_eq!(snapshot_state(&snap, "farm", "stale"), None);
    assert_eq!(snapshot_state(&snap, "farm", "live"), Some(State::Online));
    assert!(has_group(&snap, "farm"));
}

#[test]
fn heartbeat_refreshes_staleness_clock() {
    let mut inf = InfrastructureStatus::new();
    let g = String::from("farm");
    let c = String::from("m1");
    inf.refresh(&g, &c, 0);
    inf.refresh(&g, &c, 90);
    // Stale relative to the first heartbeat, not to the second.
    inf.cleanup(100);
    let snap = inf.snapshot();
    assert_eq!(snapshot_state(&snap, "farm", "m1"), Some(State::Online));
}

#[test]
fn sweep_is_idempotent() {
    let mut inf = InfrastructureStatus::new();
    let g = String::from("farm");
    let other = String::from("barn");
    let c1 = String::from("m1");
    let c2 = String::from("m2");
    inf.refresh(&g, &c1, 0);
    inf.refresh(&g, &c2, 95);
    inf.refresh(&other, &c1, 1);
    inf.cleanup(100);
    let mut once = inf.snapshot();
    inf.cleanup(100);
    let mut twice = inf.snapshot();
    let norm = |snap: &mut Vec<(String, Vec<(String, State)>)>| {
        for (_, members) in snap.iter_mut() {
            members.sort_by(|x, y| x.0.cmp(&y.0));
        }
        snap.sort_by(|x, y| x.0.cmp(&y.0));
    };
    norm(&mut once);
    norm(&mut twice);
    assert_eq!(once, twice);
}

#[test]
fn unknown_targets_fail_with_not_found() {
    let mut inf = InfrastructureStatus::new();
    let g = String::from("farm");
    let c = String::from("m1");
    inf.refresh(&g, &c, 1);
    let missing_group = String::from("void");
    let missing_computer = String::from("ghost");
    assert_eq!(
        inf.request_shutdown_group(&missing_group),
        Err(StatusError::GroupNotFound)
    );
    assert_eq!(
        inf.request_shutdown_computer(&missing_group, &c),
        Err(StatusError::GroupNotFound)
    );
    assert_eq!(
        inf.request_shutdown_computer(&g, &missing_computer),
        Err(StatusError::ComputerNotFound)
    );
    // Nothing changed: the known machine is still online.
    let snap = inf.snapshot();
    assert_eq!(snapshot_state(&snap, "farm", "m1"), Some(State::Online));
    assert!(!has_group(&snap, "void"));
}

#[test]
fn staleness_threshold_is_four_heartbeat_intervals() {
    assert_eq!(PONG_SLEEP_SECONDS, 4);
    assert_eq!(CLEANUP_THRESHOLD_SECONDS, 4 * PONG_SLEEP_SECONDS);
}

#[test]
fn snapshot_lists_groups_and_machines_once() {
    let mut inf = InfrastructureStatus::new();
    let g1 = String::from("farm");
    let g2 = String::from("barn");
    let a = String::from("a");
    let b = String::from("b");
    inf.refresh(&g1, &a, 1);
    inf.refresh(&g1, &b, 1);
    inf.refresh(&g1, &a, 2);
    inf.refresh(&g2, &a, 1);
    let snap = inf.snapshot();
    assert_eq!(snap.len(), 2);
    let farm = snap.iter().find(|(g, _)| g == "farm").unwrap();
    assert_eq!(farm.1.len(), 2);
    let barn = snap.iter().find(|(g, _)| g == "barn").unwrap();
    assert_eq!(barn.1.len(), 1);
}
