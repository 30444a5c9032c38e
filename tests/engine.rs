use i3tracker::engine::{Engine, Event, FocusSnapshot, LogRecord, Outcome};

fn snap(id: u64, title: &str) -> FocusSnapshot {
    FocusSnapshot::new(id, title.to_string(), "1".to_string())
}

fn focus(id: u64, title: &str) -> Event {
    Event::FocusChanged(snap(id, title))
}

fn record(out: &Outcome) -> &LogRecord {
    out.record.as_ref().expect("a record")
}

#[test]
fn delay_split_example() {
    let mut e = Engine::new(1);
    let o = e.step(focus(1, "A"), 0);
    assert!(o.record.is_none());
    assert_eq!(o.arm, Some(1));
    let o = e.step(focus(2, "B"), 3);
    let r = record(&o);
    assert_eq!((r.id, r.snapshot.title.as_str(), r.duration()), (1, "A", 3));
    assert_eq!(o.arm, Some(2));
    // the tick armed for A's session is stale by now
    let o = e.step(Event::Tick(1), 10);
    assert!(o.record.is_none() && o.arm.is_none() && !o.exit);
    let o = e.step(Event::Tick(2), 13);
    let r = record(&o);
    assert_eq!((r.id, r.snapshot.title.as_str(), r.duration()), (2, "B", 10));
    assert_eq!(o.arm, Some(3));
    let o = e.step(Event::Shutdown, 15);
    let r = record(&o);
    assert_eq!((r.id, r.snapshot.title.as_str(), r.duration()), (3, "B", 2));
    assert!(o.exit);
    assert!(o.arm.is_none());
}

#[test]
fn focus_changes_emit_one_fewer_record() {
    let mut e = Engine::new(7);
    let mut ids = Vec::new();
    for k in 0..5u64 {
        let o = e.step(focus(k, "w"), k * 2);
        if let Some(r) = o.record {
            ids.push(r.id);
        }
    }
    assert_eq!(ids, vec![7, 8, 9, 10]);
    assert_eq!(e.next_id(), 11);
}

#[test]
fn resumed_engine_numbers_from_prior_max() {
    let mut e = Engine::new(42 + 1);
    e.step(focus(1, "a"), 0);
    let o = e.step(focus(2, "b"), 1);
    assert_eq!(record(&o).id, 43);
}

#[test]
fn stale_ticks_change_nothing() {
    let mut e = Engine::new(5);
    e.step(focus(1, "a"), 0);
    for t in [0u64, 4, 6, 100] {
        let o = e.step(Event::Tick(t), 20);
        assert!(o.record.is_none() && o.arm.is_none() && !o.exit);
    }
    assert_eq!(e.next_id(), 5);
    assert!(e.is_tracking());
    let o = e.step(Event::Shutdown, 30);
    let r = record(&o);
    assert_eq!((r.start, r.end), (0, 30));
}

#[test]
fn ticks_in_idle_are_ignored() {
    let mut e = Engine::new(1);
    let o = e.step(Event::Tick(1), 5);
    assert!(o.record.is_none() && o.arm.is_none());
    assert!(!e.is_tracking());
}

#[test]
fn shutdown_while_tracking_then_nothing() {
    let mut e = Engine::new(1);
    e.step(focus(1, "a"), 0);
    let o = e.step(Event::Shutdown, 4);
    assert_eq!(record(&o).duration(), 4);
    assert!(o.exit);
    assert!(e.is_done());
    for ev in [Event::Tick(2), Event::Tick(1), Event::Shutdown, focus(3, "c")] {
        let o = e.step(ev, 9);
        assert!(o.record.is_none() && o.arm.is_none() && !o.exit);
    }
}

#[test]
fn shutdown_while_idle_emits_nothing() {
    let mut e = Engine::new(1);
    let o = e.step(Event::Shutdown, 3);
    assert!(o.record.is_none());
    assert!(o.exit);
    assert!(e.is_done());
    assert_eq!(e.next_id(), 1);
}

#[test]
fn split_session_durations_sum_to_focus_time() {
    let mut e = Engine::new(1);
    e.step(focus(1, "a"), 100);
    let mut total = 0;
    let mut token = e.next_id();
    for t in [110u64, 120, 130] {
        let o = e.step(Event::Tick(token), t);
        total += record(&o).duration();
        token = o.arm.unwrap();
    }
    let o = e.step(focus(2, "b"), 137);
    total += record(&o).duration();
    assert_eq!(total, 37);
}

#[test]
fn clock_going_back_gives_zero_duration() {
    let mut e = Engine::new(1);
    e.step(focus(1, "a"), 50);
    let o = e.step(focus(2, "b"), 40);
    let r = record(&o);
    assert_eq!((r.start, r.end, r.duration()), (50, 50, 0));
}

#[test]
fn tick_keeps_snapshot() {
    let mut e = Engine::new(1);
    e.step(Event::FocusChanged(FocusSnapshot::new(9, "term".to_string(), "dev".to_string())), 0);
    e.step(Event::Tick(1), 10);
    let o = e.step(Event::Shutdown, 12);
    let r = record(&o);
    assert_eq!(r.snapshot.window_id, 9);
    assert_eq!(r.snapshot.title, "term");
    assert_eq!(r.snapshot.workspace, "dev");
    assert_eq!((r.id, r.start, r.end), (2, 10, 12));
}
