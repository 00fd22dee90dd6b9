//! The expiry index on its own: ordering, cancellation, readiness.
use spoilerbot::expiry::ExpiryIndex;
use spoilerbot::spoiler::Content;

#[test]
fn pops_nothing_before_the_deadline() {
    let mut index = ExpiryIndex::new();
    let key = index.schedule(String::from("a"), 100);
    assert_eq!(index.pop_expired(99), None);
    // polling early does not consume the entry
    assert_eq!(index.pop_expired(100), Some((key, String::from("a"))));
    assert_eq!(index.pop_expired(u64::MAX), None);
}

#[test]
fn pops_earliest_deadline_first() {
    let mut index = ExpiryIndex::new();
    index.schedule(String::from("late"), 300);
    index.schedule(String::from("early"), 100);
    index.schedule(String::from("middle"), 200);
    assert_eq!(index.pop_expired(400).unwrap().1, "early");
    assert_eq!(index.pop_expired(400).unwrap().1, "middle");
    assert_eq!(index.pop_expired(400).unwrap().1, "late");
    assert_eq!(index.pop_expired(400), None);
}

#[test]
fn equal_deadlines_leave_in_scheduling_order() {
    let mut index = ExpiryIndex::new();
    index.schedule(String::from("first"), 100);
    index.schedule(String::from("second"), 100);
    index.schedule(String::from("third"), 100);
    assert_eq!(index.pop_expired(100).unwrap().1, "first");
    assert_eq!(index.pop_expired(100).unwrap().1, "second");
    assert_eq!(index.pop_expired(100).unwrap().1, "third");
}

#[test]
fn cancelled_entries_never_fire() {
    let mut index = ExpiryIndex::new();
    let keep = index.schedule(String::from("keep"), 100);
    let drop = index.schedule(String::from("drop"), 50);
    index.cancel(drop);
    // cancelling twice, or cancelling a handle that already fired, is safe
    index.cancel(drop);
    let popped = index.pop_expired(200).unwrap();
    assert_eq!(popped, (keep, String::from("keep")));
    index.cancel(keep);
    assert_eq!(index.pop_expired(200), None);
}

#[test]
fn handles_are_never_reused() {
    let mut index = ExpiryIndex::new();
    let a = index.schedule(String::from("a"), 10);
    index.pop_expired(10);
    let b = index.schedule(String::from("b"), 10);
    assert_ne!(a, b);
}

#[test]
fn content_text_value() {
    let text = Content::Text { value: String::from("short") };
    assert_eq!(text.text_value(), Some(&String::from("short")));
    let raw = Content::RawString { value: String::from("raw") };
    assert_eq!(raw.text_value(), Some(&String::from("raw")));
    let sticker = Content::Sticker { file_id: String::from("file-1") };
    assert_eq!(sticker.text_value(), None);
}
