use combine_latest::latest::LatestValues;

#[test]
fn new_cache_has_no_items() {
    let latest: LatestValues<u8> = LatestValues::new(3);
    assert_eq!(latest.arity(), 3);
    assert!(!latest.all_present());
    assert_eq!(latest.latest(0), None);
    assert_eq!(latest.latest_all(), None);
    assert_eq!(latest.latest_each(), vec![None, None, None]);
    assert_eq!(latest.combined(), None);
    assert_eq!(latest.combined_each(), vec![None, None, None]);
}

#[test]
fn observe_replaces_only_its_slot() {
    let mut latest = LatestValues::new(2);
    latest.observe(1, 'x');
    assert_eq!(latest.latest(0), None);
    assert_eq!(latest.latest(1), Some(&'x'));
    latest.observe(1, 'y');
    assert_eq!(latest.latest(1), Some(&'y'));
    latest.observe(0, 'a');
    assert_eq!(latest.latest_all(), Some(vec![&'a', &'y']));
    assert_eq!(latest.combined(), Some(vec!['a', 'y']));
}

#[test]
fn combine_latest_step_waits_for_every_stream() {
    let mut latest = LatestValues::new(2);
    assert_eq!(latest.combine_latest_step(0, 1), None);
    assert_eq!(latest.combine_latest_step(0, 2), None);
    assert_eq!(latest.combine_latest_step(1, 10), Some(vec![2, 10]));
    assert_eq!(latest.combine_latest_step(0, 3), Some(vec![3, 10]));
}

#[test]
fn combine_latest_opt_step_yields_at_once() {
    let mut latest = LatestValues::new(2);
    assert_eq!(latest.combine_latest_opt_step(1, "b"), vec![None, Some("b")]);
    assert_eq!(latest.combine_latest_opt_step(0, "a"), vec![Some("a"), Some("b")]);
}

#[test]
fn with_latest_from_step_emits_only_on_primary() {
    let mut latest = LatestValues::new(2);
    assert_eq!(latest.with_latest_from_step(0, 1), None);
    assert_eq!(latest.with_latest_from_step(1, 10), None);
    assert_eq!(latest.with_latest_from_step(1, 11), None);
    assert_eq!(latest.with_latest_from_step(0, 2), Some(vec![2, 11]));
}

#[test]
fn latest_on_primary_ignores_secondary_items() {
    let mut latest = LatestValues::new(2);
    latest.observe(0, 5);
    latest.observe(1, 6);
    assert_eq!(latest.latest_on_primary(1), None);
    assert_eq!(latest.latest_on_primary(0), Some(vec![&5, &6]));
}

#[test]
fn clones_are_independent_of_the_cache() {
    let mut latest = LatestValues::new(2);
    latest.observe(0, String::from("left"));
    latest.observe(1, String::from("right"));
    let first = latest.combined().unwrap();
    latest.observe(0, String::from("changed"));
    assert_eq!(first, vec![String::from("left"), String::from("right")]);
    assert_eq!(
        latest.combined_each(),
        vec![Some(String::from("changed")), Some(String::from("right"))]
    );
}
