//! The registry: sessions, staging, finalize, lookup, the confirmation
//! gate, and expiry.
use spoilerbot::spoiler::Content;
use spoilerbot::spoiler::ONE_DAY_IN_SECS;
use spoilerbot::state::State;
use spoilerbot::util::parse_duration;

fn text_content(s: &str) -> Content {
    Content::Text { value: String::from(s) }
}

#[test]
fn session_exclusivity() {
    let mut state = State::new();
    let user = 11;
    assert!(!state.waiting_for_spoiler(user));
    assert!(!state.waiting_for_title(user));

    assert_eq!(state.set_waiting_for_spoiler(user), None);
    assert!(state.waiting_for_spoiler(user));
    assert!(!state.waiting_for_title(user));

    state.set_waiting_for_title(user);
    assert!(!state.waiting_for_spoiler(user));
    assert!(state.waiting_for_title(user));

    state.cancel_spoiler_creation(user);
    assert!(!state.waiting_for_spoiler(user));
    assert!(!state.waiting_for_title(user));
}

#[test]
fn session_transitions_report_the_previous_state() {
    let mut state = State::new();
    let user = 12;
    assert_eq!(state.cancel_spoiler_creation(user), None);
    assert_eq!(state.set_waiting_for_spoiler(user), None);
    assert!(state.set_waiting_for_title(user).is_some());
    assert!(state.cancel_spoiler_creation(user).is_some());
    assert_eq!(state.cancel_spoiler_creation(user), None);
}

#[test]
fn finalize_round_trip() {
    let mut state = State::new();
    let user = 21;
    state.new_spoiler(user, text_content("the butler did it"));
    let id = state.set_spoiler_title_and_expiration(
        user,
        String::from("My title"),
        Some(60),
        1_000,
    );
    assert_eq!(id.chars().count(), 48);

    let spoiler = state.get_spoiler(&id).expect("the spoiler was registered");
    assert_eq!(spoiler.content, text_content("the butler did it"));
    assert_eq!(spoiler.title, Some(String::from("My title")));
    assert_eq!(spoiler.expires_in, 60);
    assert_eq!(spoiler.id, id);

    // lookups are idempotent and do not consume the entry
    assert!(state.get_spoiler(&id).is_some());
    assert_eq!(state.get_spoiler_title(&id), Some(String::from("My title")));
}

#[test]
fn finalize_dash_skips_the_title() {
    let mut state = State::new();
    let user = 22;
    state.new_spoiler(user, text_content("secret"));
    let id = state.set_spoiler_title_and_expiration(user, String::from("-"), None, 0);
    let spoiler = state.get_spoiler(&id).unwrap();
    assert_eq!(spoiler.title, None);
    assert_eq!(spoiler.expires_in, ONE_DAY_IN_SECS);
    // an absent title reads back as the empty string
    assert_eq!(state.get_spoiler_title(&id), Some(String::new()));
}

#[test]
fn finalize_strips_the_duration_shorthand() {
    let mut state = State::new();
    let user = 23;
    state.new_spoiler(user, text_content("secret"));
    // callers parse the duration out of the submitted title themselves
    let submitted = String::from("spoiled/10d");
    let duration = parse_duration(&submitted);
    assert_eq!(duration, Some(10 * 86400));
    let id = state.set_spoiler_title_and_expiration(user, submitted, duration, 500);
    let spoiler = state.get_spoiler(&id).unwrap();
    assert_eq!(spoiler.title, Some(String::from("spoiled")));
    assert_eq!(spoiler.expires_in, 10 * 86400);
}

#[test]
fn finalize_without_staged_content_yields_a_dangling_id() {
    let mut state = State::new();
    let id = state.set_spoiler_title_and_expiration(31, String::from("t"), None, 0);
    assert_eq!(id.chars().count(), 48);
    assert!(state.get_spoiler(&id).is_none());
    assert_eq!(state.get_spoiler_title(&id), None);
}

#[test]
fn staging_overwrites_and_is_consumed_once() {
    let mut state = State::new();
    let user = 41;
    state.new_spoiler(user, text_content("first"));
    state.new_spoiler(user, text_content("second"));
    let id = state.set_spoiler_title_and_expiration(user, String::from("t"), None, 0);
    assert_eq!(state.get_spoiler(&id).unwrap().content, text_content("second"));
    // the staged content was consumed: a second finalize dangles
    let id2 = state.set_spoiler_title_and_expiration(user, String::from("t"), None, 0);
    assert!(state.get_spoiler(&id2).is_none());
}

#[test]
fn finalize_isolation_between_users() {
    let mut state = State::new();
    state.new_spoiler(51, text_content("alpha"));
    state.new_spoiler(52, text_content("beta"));
    let id1 = state.set_spoiler_title_and_expiration(51, String::from("a"), None, 0);
    let id2 = state.set_spoiler_title_and_expiration(52, String::from("b"), None, 0);
    assert_ne!(id1, id2);
    assert_eq!(state.get_spoiler(&id1).unwrap().content, text_content("alpha"));
    assert_eq!(state.get_spoiler(&id2).unwrap().content, text_content("beta"));
}

#[test]
fn gate_alternates() {
    let mut state = State::new();
    let id = String::from("some-spoiler-id");
    assert!(state.needs_to_tap_once_more(61, &id));
    assert!(!state.needs_to_tap_once_more(61, &id));
    assert!(state.needs_to_tap_once_more(61, &id));
    assert!(!state.needs_to_tap_once_more(61, &id));
}

#[test]
fn gate_is_keyed_per_user_and_id() {
    let mut state = State::new();
    let id_a = String::from("spoiler-a");
    let id_b = String::from("spoiler-b");
    assert!(state.needs_to_tap_once_more(61, &id_a));
    // a different id for the same user starts its own cycle
    assert!(state.needs_to_tap_once_more(61, &id_b));
    // a different user on the same id starts its own cycle
    assert!(state.needs_to_tap_once_more(62, &id_a));
    // and the first pair's flag is still armed
    assert!(!state.needs_to_tap_once_more(61, &id_a));
}

#[test]
fn expiry_is_enforced_by_the_sweep() {
    let mut state = State::new();
    let user = 71;
    state.new_spoiler(user, text_content("short-lived"));
    let id = state.set_spoiler_title_and_expiration(user, String::from("t"), Some(60), 1_000);

    // before the deadline the entry stays
    state.sweep_expired(1_000);
    assert!(state.get_spoiler(&id).is_some());
    state.sweep_expired(1_059);
    assert!(state.get_spoiler(&id).is_some());

    // from the deadline on it is gone
    state.sweep_expired(1_060);
    assert!(state.get_spoiler(&id).is_none());
}

#[test]
fn sweep_removes_only_elapsed_entries() {
    let mut state = State::new();
    state.new_spoiler(81, text_content("a"));
    state.new_spoiler(82, text_content("b"));
    state.new_spoiler(83, text_content("c"));
    let id1 = state.set_spoiler_title_and_expiration(81, String::from("t"), Some(10), 100);
    let id2 = state.set_spoiler_title_and_expiration(82, String::from("t"), Some(20), 100);
    let id3 = state.set_spoiler_title_and_expiration(83, String::from("t"), Some(30), 100);

    state.sweep_expired(115);
    assert!(state.get_spoiler(&id1).is_none());
    assert!(state.get_spoiler(&id2).is_some());
    assert!(state.get_spoiler(&id3).is_some());

    state.sweep_expired(130);
    assert!(state.get_spoiler(&id2).is_none());
    assert!(state.get_spoiler(&id3).is_none());
}

#[test]
fn deadlines_saturate_at_the_clock_limit() {
    let mut state = State::new();
    state.new_spoiler(101, text_content("late"));
    let id = state.set_spoiler_title_and_expiration(
        101,
        String::from("t"),
        Some(100),
        u64::MAX - 10,
    );
    // the deadline saturates instead of wrapping around to the past
    state.sweep_expired(u64::MAX - 1);
    assert!(state.get_spoiler(&id).is_some());
    state.sweep_expired(u64::MAX);
    assert!(state.get_spoiler(&id).is_none());
}

#[test]
fn sweeping_an_empty_registry_is_safe() {
    let mut state = State::new();
    state.sweep_expired(0);
    state.sweep_expired(u64::MAX);
    assert!(state.get_spoiler(&String::from("x")).is_none());
}

#[test]
fn removal_is_idempotent() {
    let mut state = State::new();
    let user = 91;
    state.new_spoiler(user, text_content("gone soon"));
    let id = state.set_spoiler_title_and_expiration(user, String::from("t"), None, 0);
    assert!(state.get_spoiler(&id).is_some());

    state.remove_expired(&id);
    assert!(state.get_spoiler(&id).is_none());

    // the second call is a no-op and must not fail
    state.remove_expired(&id);
    assert!(state.get_spoiler(&id).is_none());

    // removing an id that never existed is just as safe
    state.remove_expired(&String::from("no-such-id"));
}

#[test]
fn lookup_of_an_unknown_id_is_none() {
    let state = State::new();
    assert!(state.get_spoiler(&String::from("missing")).is_none());
    assert_eq!(state.get_spoiler_title(&String::from("missing")), None);
}

#[test]
fn capacity_is_reported() {
    let state = State::new();
    assert!(state.has_capacity());
}
