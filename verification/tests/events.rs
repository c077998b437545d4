use punpun::events::{EventSet, PollOpt};

#[test]
fn insert_then_remove_leaves_other_kinds() {
    let mut s = EventSet::hup();
    s.insert(EventSet::readable());
    s.insert(EventSet::writable());
    s.insert(EventSet::writable());
    assert_eq!(s, EventSet { readable: true, writable: true, error: false, hup: true });
    s.remove(EventSet::writable());
    assert_eq!(s, EventSet { readable: true, writable: false, error: false, hup: true });
    s.remove(EventSet::error());
    assert!(s.is_readable() && !s.is_writable());
    assert_eq!(EventSet::none(), EventSet { readable: false, writable: false, error: false, hup: false });
    assert_eq!(PollOpt::edge_oneshot(), PollOpt { edge: true, level: false, oneshot: true });
}
