use jumpseat::models::Connection;
use jumpseat::ssh::{launch_of, Failure, Handoff, Step};

fn run(reports: &[bool]) -> (Vec<Step>, Handoff) {
    let mut handoff = Handoff::new();
    let mut steps = Vec::new();
    for ok in reports {
        if handoff.next != Step::Done {
            steps.push(handoff.next);
        }
        handoff.advance(*ok);
    }
    (steps, handoff)
}

#[test]
fn a_hand_off_starts_by_giving_the_terminal_away() {
    let handoff = Handoff::new();
    assert_eq!(handoff.next, Step::Release);
    assert_eq!(handoff.failure, None);
}

#[test]
fn a_hand_off_that_goes_well_takes_four_steps() {
    let (steps, end) = run(&[true, true, true, true]);
    assert_eq!(steps, vec![Step::Release, Step::Launch, Step::Acknowledge, Step::Restore]);
    assert_eq!(end, Handoff { next: Step::Done, failure: None });
}

#[test]
fn a_shell_that_cannot_be_run_still_has_the_terminal_taken_back() {
    let mut handoff = Handoff::new();
    handoff.advance(true);
    assert_eq!(handoff.next, Step::Launch);
    handoff.advance(false);
    assert_eq!(handoff.next, Step::Restore);
    assert_eq!(handoff.failure, Some(Failure::Launch));
    handoff.advance(true);
    assert_eq!(handoff, Handoff { next: Step::Done, failure: Some(Failure::Launch) });
}

#[test]
fn without_the_terminal_given_away_nothing_is_run() {
    let (steps, end) = run(&[false, true, true, true]);
    assert_eq!(steps, vec![Step::Release]);
    assert_eq!(end, Handoff { next: Step::Done, failure: Some(Failure::Release) });
}

#[test]
fn a_terminal_that_cannot_be_taken_back_is_reported() {
    let (steps, end) = run(&[true, true, true, false]);
    assert_eq!(steps, vec![Step::Release, Step::Launch, Step::Acknowledge, Step::Restore]);
    assert_eq!(end, Handoff { next: Step::Done, failure: Some(Failure::Restore) });
    let (steps, end) = run(&[true, false, false]);
    assert_eq!(steps, vec![Step::Release, Step::Launch, Step::Restore]);
    assert_eq!(end, Handoff { next: Step::Done, failure: Some(Failure::Restore) });
}

#[test]
fn a_key_that_cannot_be_read_is_ignored() {
    let (steps, end) = run(&[true, true, false, true]);
    assert_eq!(steps, vec![Step::Release, Step::Launch, Step::Acknowledge, Step::Restore]);
    assert_eq!(end, Handoff { next: Step::Done, failure: None });
}

#[test]
fn a_finished_hand_off_stays_finished() {
    let (steps, end) = run(&[true, true, true, true, false, true, false]);
    assert_eq!(steps.len(), 4);
    assert_eq!(end, Handoff { next: Step::Done, failure: None });
    let (steps, end) = run(&[false, false, false]);
    assert_eq!(steps.len(), 1);
    assert_eq!(end, Handoff { next: Step::Done, failure: Some(Failure::Release) });
}

#[test]
fn every_hand_off_takes_the_terminal_back_once_it_was_given_away() {
    for bits in 0..16u32 {
        let reports: Vec<bool> = (0..4).map(|i| bits & (1 << i) != 0).collect();
        let (steps, end) = run(&reports);
        assert_eq!(end.next, Step::Done);
        assert_eq!(steps[0], Step::Release);
        let restores = steps.iter().filter(|s| **s == Step::Restore).count();
        if reports[0] {
            assert_eq!(restores, 1);
            assert_eq!(steps.last(), Some(&Step::Restore));
            assert_eq!(steps[1], Step::Launch);
        } else {
            assert_eq!(restores, 0);
            assert!(!steps.contains(&Step::Launch));
        }
        assert_eq!(steps.contains(&Step::Acknowledge), reports[0] && reports[1]);
        assert_eq!(end.failure.is_none(), reports[0] && reports[1] && reports[3]);
    }
}

#[test]
fn the_shell_gets_user_host_and_port() {
    let conn = Connection {
        name: "box".to_string(),
        user: "alice".to_string(),
        host: "10.0.0.1".to_string(),
        port: Some(2200),
        term: Some("xterm".to_string()),
    };
    let launch = launch_of(&conn);
    assert_eq!(launch.program, "ssh");
    assert_eq!(launch.args, vec!["alice@10.0.0.1", "-p", "2200"]);
    assert_eq!(launch.term, "xterm");
}

#[test]
fn without_a_port_and_a_terminal_type_the_defaults_hold() {
    let conn = Connection {
        name: "box".to_string(),
        user: "alice".to_string(),
        host: "example.org".to_string(),
        port: None,
        term: None,
    };
    let launch = launch_of(&conn);
    assert_eq!(launch.program, "ssh");
    assert_eq!(launch.args, vec!["alice@example.org"]);
    assert_eq!(launch.term, "xterm-256color");
}
