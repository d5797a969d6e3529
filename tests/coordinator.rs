use weather_client::coordinator::{Coordinator, Phase};
use weather_client::report::{render_line, Failure, WeatherRecord};

/// Runs a coordinator to the end, completing in-flight targets in the order
/// that `pick` chooses, and checks the limit at every step.
fn drive(targets: usize, limit: usize, fails: &[usize], mut pick: impl FnMut(&[usize]) -> usize) -> Coordinator {
    let mut c = Coordinator::new(targets, limit);
    let mut active: Vec<usize> = Vec::new();
    loop {
        while let Some(i) = c.start_next() {
            active.push(i);
            assert!(c.in_flight() <= limit);
            assert_eq!(c.in_flight(), active.len());
        }
        if active.is_empty() {
            break;
        }
        let k = pick(&active);
        let i = active.remove(k);
        assert!(c.complete(i, !fails.contains(&i)));
        assert!(c.in_flight() <= limit);
    }
    c
}

fn assert_one_outcome_each(c: &Coordinator, targets: usize) {
    assert!(c.is_finished());
    let mut order = c.completion_order();
    assert_eq!(order.len(), targets);
    order.sort();
    assert_eq!(order, (0..targets).collect::<Vec<usize>>());
}

#[test]
fn every_target_gets_one_outcome_in_any_order() {
    for limit in 1..5 {
        for targets in 0..7 {
            let first = drive(targets, limit, &[], |_| 0);
            assert_one_outcome_each(&first, targets);
            let last = drive(targets, limit, &[], |a| a.len() - 1);
            assert_one_outcome_each(&last, targets);
            let mut seed: usize = 7;
            let mixed = drive(targets, limit, &[1, 3], |a| {
                seed = seed.wrapping_mul(31).wrapping_add(17);
                seed % a.len()
            });
            assert_one_outcome_each(&mixed, targets);
        }
    }
}

#[test]
fn completion_order_is_recorded() {
    let c = drive(3, 3, &[], |a| a.len() - 1);
    assert_eq!(c.completion_order(), vec![2, 1, 0]);
}

#[test]
fn never_more_than_limit_in_flight() {
    let mut c = Coordinator::new(5, 2);
    assert_eq!(c.max_in_flight(), 2);
    assert_eq!(c.start_next(), Some(0));
    assert_eq!(c.start_next(), Some(1));
    assert_eq!(c.start_next(), None);
    assert_eq!(c.in_flight(), 2);
    assert_eq!(c.phase(2), Phase::Pending);
    assert!(c.complete(1, true));
    assert_eq!(c.start_next(), Some(2));
    assert_eq!(c.start_next(), None);
}

#[test]
fn failure_does_not_hold_up_other_target() {
    let mut c = Coordinator::new(2, 2);
    assert_eq!(c.start_next(), Some(0));
    assert_eq!(c.start_next(), Some(1));
    assert!(c.complete(0, false));
    assert_eq!(c.phase(0), Phase::Failed);
    assert_eq!(c.phase(1), Phase::InFlight);
    assert!(!c.is_finished());
    assert!(c.complete(1, true));
    assert_eq!(c.phase(1), Phase::Succeeded);
    assert!(c.is_finished());
}

#[test]
fn failure_frees_its_slot() {
    let mut c = Coordinator::new(3, 1);
    assert_eq!(c.start_next(), Some(0));
    assert_eq!(c.start_next(), None);
    assert!(c.complete(0, false));
    assert_eq!(c.start_next(), Some(1));
}

#[test]
fn completion_only_for_targets_in_flight() {
    let mut c = Coordinator::new(2, 1);
    assert!(!c.complete(0, true));
    assert!(!c.complete(7, true));
    assert_eq!(c.start_next(), Some(0));
    assert!(!c.complete(1, true));
    assert!(c.complete(0, true));
    assert!(!c.complete(0, false));
    assert_eq!(c.phase(0), Phase::Succeeded);
    assert_eq!(c.completion_order(), vec![0]);
}

#[test]
fn no_targets_is_finished_at_once() {
    let mut c = Coordinator::new(0, 3);
    assert_eq!(c.target_count(), 0);
    assert!(c.is_finished());
    assert_eq!(c.start_next(), None);
}

#[test]
fn malformed_body_leaves_other_targets_rendered() {
    let records = vec![
        WeatherRecord {
            name: "London".to_string(),
            wind_speed_milli: 3000,
            wind_deg: 200,
            conditions: vec![],
            temp_milli: 11000,
            temp_min_milli: 9000,
            temp_max_milli: 12000,
        },
        WeatherRecord {
            name: "Paris".to_string(),
            wind_speed_milli: 2000,
            wind_deg: 90,
            conditions: vec!["Rain".to_string()],
            temp_milli: 18000,
            temp_min_milli: 15000,
            temp_max_milli: 20000,
        },
    ];
    let mut c = Coordinator::new(2, 2);
    let mut lines = Vec::new();
    let mut failures = Vec::new();
    while let Some(i) = c.start_next() {
        match render_line(&records[i]) {
            Ok(line) => lines.push(line),
            Err(f) => failures.push(f),
        }
        assert!(c.complete(i, true));
    }
    assert!(c.is_finished());
    assert_eq!(failures, vec![Failure::Parse]);
    assert_eq!(lines, vec!["Paris        18° 15⬇ 20⬆  😀🧥  2⬅  ⛈".to_string()]);
}

#[test]
fn outcomes_do_not_depend_on_completion_order() {
    let first = drive(5, 2, &[1, 4], |_| 0);
    let last = drive(5, 2, &[1, 4], |a| a.len() - 1);
    assert_ne!(first.completion_order(), last.completion_order());
    for i in 0..5 {
        assert_eq!(first.phase(i), last.phase(i));
        let expected = if i == 1 || i == 4 { Phase::Failed } else { Phase::Succeeded };
        assert_eq!(first.phase(i), expected);
    }
}
