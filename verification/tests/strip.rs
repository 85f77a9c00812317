use simulboot::strip::{StripCore, StripItem};

fn id(b: u8) -> [u8; 32] {
    [b; 32]
}

fn strip3() -> StripCore<&'static str> {
    let mut s = StripCore::new();
    s.append(id(1), "s1");
    s.append(id(2), "s2");
    s.append(id(3), "s3");
    s
}

#[test]
fn append_assigns_order_and_default_size() {
    let s = strip3();
    assert_eq!(s.len(), 3);
    assert_eq!(s.items()[0].order, 0);
    assert_eq!(s.items()[2].order, 2);
}

#[test]
fn click_sets_focus() {
    let mut s = strip3();
    assert!(s.set_focus(id(2)));
    assert_eq!(s.focus(), Some(id(2)));
    assert!(!s.set_focus(id(9)));
    assert_eq!(s.focus(), Some(id(2)));
}

#[test]
fn remove_closes_gap_and_clears_focus() {
    let mut s = strip3();
    s.set_focus(id(2));
    let removed = s.remove(&id(2)).unwrap();
    assert_eq!(removed.geom, "s2");
    assert_eq!(s.len(), 2);
    assert_eq!(s.focus(), None);
    assert_eq!(s.get(&id(3)).unwrap().order, 1);
    assert_eq!(s.position(&id(3)), Some(1));
    assert!(s.remove(&id(2)).is_none());
}

#[test]
fn insert_ordered_keeps_order() {
    let mut s: StripCore<&str> = StripCore::new();
    for (b, o) in [(1u8, 2u32), (2, 0), (3, 1), (4, 1)] {
        s.insert_ordered(StripItem { id: id(b), order: o, last_pts: None, frames_received: 0, geom: "g" });
    }
    let ids: Vec<u8> = s.items().iter().map(|i| i.id[0]).collect();
    assert_eq!(ids, vec![2, 3, 4, 1]);
}

#[test]
fn focus_follows_membership() {
    let mut s = strip3();
    s.set_focus_opt(Some(id(7)));
    assert_eq!(s.focus(), None);
    s.set_focus_opt(Some(id(3)));
    assert_eq!(s.focus(), Some(id(3)));
    s.remove(&id(1));
    assert_eq!(s.focus(), Some(id(3)));
    s.set_focus_opt(None);
    assert_eq!(s.focus(), None);
    assert!(!s.is_empty());
}

#[test]
fn frames_are_counted() {
    let mut s = strip3();
    s.note_frame(&id(2), 10);
    s.note_frame(&id(2), 11);
    s.note_frame(&id(9), 12);
    let it = s.get(&id(2)).unwrap();
    assert_eq!(it.last_pts, Some(11));
    assert_eq!(it.frames_received, 2);
    assert_eq!(s.get(&id(1)).unwrap().frames_received, 0);
}
