use mc_server_wrapper::watch::{ChangeEvent, Debouncer, EventKind};

#[test]
fn burst_within_window_collapses_to_one_event() {
    let mut d = Debouncer::new(300);
    assert!(d.observe(1000));
    assert!(!d.observe(1100));
    assert!(!d.observe(1250));
    assert!(!d.observe(1300));
}

#[test]
fn events_separated_by_more_than_the_window_all_pass() {
    let mut d = Debouncer::new(300);
    assert!(d.observe(1000));
    assert!(d.observe(1400));
    assert!(d.observe(1800));
}

#[test]
fn a_gap_of_exactly_the_window_still_collapses() {
    let mut d = Debouncer::new(300);
    assert!(d.observe(1000));
    assert!(!d.observe(1300));
    assert!(d.observe(1301));
}

#[test]
fn the_first_event_always_passes() {
    let mut d = Debouncer::new(0);
    assert!(d.observe(0));
}

#[test]
fn change_events_carry_path_and_kind() {
    let ev = ChangeEvent { path: "wrapper.cfg".to_owned(), kind: EventKind::Modify };
    assert_eq!(ev.path, "wrapper.cfg");
    assert_eq!(ev.kind, EventKind::Modify);
}
