use named_event::event::Event;
use named_event::session::Session;

#[test]
fn create_then_open_shares_signal() {
    let mut s = Session::new();
    let a = Event::create(&mut s, Some("sess")).unwrap();
    let b = Event::open(&mut s, "sess").unwrap();
    assert!(a.signal(&mut s).is_some());
    assert!(b.signalled(&mut s).is_some());
    assert!(b.signalled(&mut s).is_none());
    assert!(b.signal(&mut s).is_some());
    assert!(a.signalled(&mut s).is_some());
}

#[test]
fn open_without_create_fails() {
    let mut s = Session::new();
    assert!(Event::open(&mut s, "nobody").is_none());
}

#[test]
fn fresh_event_polls_non_signalled() {
    let mut s = Session::new();
    let a = Event::create(&mut s, Some("quiet")).unwrap();
    assert!(a.signalled(&mut s).is_none());
    let b = Event::open(&mut s, "quiet").unwrap();
    assert!(b.signalled(&mut s).is_none());
    assert!(a.signal(&mut s).is_some());
    assert!(a.signalled(&mut s).is_some());
}

#[test]
fn one_signal_consumed_once() {
    let mut s = Session::new();
    let a = Event::create(&mut s, Some("tick")).unwrap();
    let b = Event::open(&mut s, "tick").unwrap();
    assert!(a.signal(&mut s).is_some());
    let first = b.signalled(&mut s);
    let second = a.signalled(&mut s);
    assert!(first.is_some());
    assert!(second.is_none());
}

#[test]
fn signals_do_not_queue() {
    let mut s = Session::new();
    let a = Event::create(&mut s, Some("burst")).unwrap();
    let b = Event::open(&mut s, "burst").unwrap();
    assert!(a.signal(&mut s).is_some());
    assert!(a.signal(&mut s).is_some());
    assert!(b.signalled(&mut s).is_some());
    assert!(b.signalled(&mut s).is_none());
}

#[test]
fn create_is_idempotent() {
    let mut s = Session::new();
    let a = Event::create(&mut s, Some("shared")).unwrap();
    let b = Event::create(&mut s, Some("shared")).unwrap();
    assert!(a.signal(&mut s).is_some());
    assert!(b.signalled(&mut s).is_some());
}

#[test]
fn close_releases_local_handle_only() {
    let mut s = Session::new();
    let a = Event::create(&mut s, Some("pair")).unwrap();
    let b = Event::open(&mut s, "pair").unwrap();
    a.close(&mut s);
    let c = Event::open(&mut s, "pair").unwrap();
    assert!(c.signal(&mut s).is_some());
    assert!(b.signalled(&mut s).is_some());
    b.close(&mut s);
    c.close(&mut s);
    assert!(Event::open(&mut s, "pair").is_none());
}

#[test]
fn recreate_after_destruction_starts_non_signalled() {
    let mut s = Session::new();
    let a = Event::create(&mut s, Some("again")).unwrap();
    assert!(a.signal(&mut s).is_some());
    a.close(&mut s);
    let b = Event::create(&mut s, Some("again")).unwrap();
    assert!(b.signalled(&mut s).is_none());
}

#[test]
fn anonymous_event_signals_locally() {
    let mut s = Session::new();
    let a = Event::create(&mut s, None).unwrap();
    assert!(a.signalled(&mut s).is_none());
    assert!(a.signal(&mut s).is_some());
    assert!(a.signalled(&mut s).is_some());
}

#[test]
fn anonymous_events_are_distinct() {
    let mut s = Session::new();
    let a = Event::create(&mut s, None).unwrap();
    let b = Event::create(&mut s, None).unwrap();
    assert!(a.signal(&mut s).is_some());
    assert!(b.signalled(&mut s).is_none());
    assert!(a.signalled(&mut s).is_some());
}

#[test]
fn nul_in_name_is_rejected() {
    let mut s = Session::new();
    assert!(Event::create(&mut s, Some("bad\0name")).is_none());
    assert!(Event::open(&mut s, "bad\0name").is_none());
}

#[test]
fn empty_name_is_a_name() {
    let mut s = Session::new();
    let a = Event::create(&mut s, Some("")).unwrap();
    let b = Event::open(&mut s, "").unwrap();
    assert!(a.signal(&mut s).is_some());
    assert!(b.signalled(&mut s).is_some());
}

#[test]
fn distinct_names_are_distinct_objects() {
    let mut s = Session::new();
    let a = Event::create(&mut s, Some("left")).unwrap();
    let b = Event::create(&mut s, Some("right")).unwrap();
    assert!(a.signal(&mut s).is_some());
    assert!(b.signalled(&mut s).is_none());
    assert!(a.signalled(&mut s).is_some());
}

#[test]
fn handle_value_is_stable_and_per_instance() {
    let mut s = Session::new();
    let a = Event::create(&mut s, Some("raw")).unwrap();
    let h = a.handle();
    assert_eq!(a.handle(), h);
    let b = Event::open(&mut s, "raw").unwrap();
    assert_ne!(b.handle(), h);
}

#[test]
fn end_to_end_session() {
    let mut s = Session::new();
    let a = Event::create(&mut s, Some("sess-42")).unwrap();
    let b = Event::open(&mut s, "sess-42").unwrap();
    assert!(a.signal(&mut s).is_some());
    assert!(b.signalled(&mut s).is_some());
    assert!(b.signalled(&mut s).is_none());
}
