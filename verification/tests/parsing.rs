//! Duration shorthand, identifier and help-text behaviour.
use spoilerbot::strings::help_text;
use spoilerbot::util::DAY_IN_SECS;
use spoilerbot::util::HOUR_IN_SECS;
use spoilerbot::util::MINUTE_IN_SECS;
use spoilerbot::util::MONTH_IN_SECS;
use spoilerbot::util::SPOILER_ID_LENGTH;
use spoilerbot::util::WEEK_IN_SECS;
use spoilerbot::util::YEAR_IN_SECS;
use spoilerbot::util::is_spoiler_id;
use spoilerbot::util::parse_duration;
use spoilerbot::util::random_id;
use spoilerbot::util::strip_expiration_suffix;

#[test]
fn parse_duration_table() {
    assert_eq!(parse_duration("foo/10d"), Some(10 * 86400));
    assert_eq!(parse_duration("foo/5h"), Some(5 * 3600));
    assert_eq!(parse_duration("foo/3m"), Some(180));
    assert_eq!(parse_duration("foo"), None);
}

#[test]
fn strip_suffix_table() {
    assert_eq!(strip_expiration_suffix("foo/10d"), "foo");
    assert_eq!(strip_expiration_suffix("foo"), "foo");
}

#[test]
fn parse_duration_units() {
    assert_eq!(parse_duration("x/7s"), Some(7));
    assert_eq!(parse_duration("x/7S"), Some(7));
    assert_eq!(parse_duration("x/2h"), Some(2 * HOUR_IN_SECS));
    assert_eq!(parse_duration("x/2H"), Some(2 * HOUR_IN_SECS));
    assert_eq!(parse_duration("x/4d"), Some(4 * DAY_IN_SECS));
    assert_eq!(parse_duration("x/4D"), Some(4 * DAY_IN_SECS));
    assert_eq!(parse_duration("x/3w"), Some(3 * WEEK_IN_SECS));
    assert_eq!(parse_duration("x/3W"), Some(3 * WEEK_IN_SECS));
    assert_eq!(parse_duration("x/1y"), Some(YEAR_IN_SECS));
    assert_eq!(parse_duration("x/1Y"), Some(YEAR_IN_SECS));
}

#[test]
fn parse_duration_minutes_and_months_differ_by_case() {
    // The deliberate ambiguity: a lowercase m is minutes, an uppercase M
    // is months of thirty days.
    assert_eq!(parse_duration("x/6m"), Some(6 * MINUTE_IN_SECS));
    assert_eq!(parse_duration("x/6M"), Some(6 * MONTH_IN_SECS));
}

#[test]
fn parse_duration_shapes() {
    // no digits between the slash and the unit letter
    assert_eq!(parse_duration("foo/d"), None);
    // no slash in front of the digits
    assert_eq!(parse_duration("foo10d"), None);
    // the shorthand must sit at the very end
    assert_eq!(parse_duration("foo/10d "), None);
    // an unknown unit letter
    assert_eq!(parse_duration("foo/10x"), None);
    // the shorthand may span the whole text
    assert_eq!(parse_duration("/5d"), Some(5 * DAY_IN_SECS));
    // leading zeros are plain digits
    assert_eq!(parse_duration("x/007s"), Some(7));
    assert_eq!(parse_duration(""), None);
}

#[test]
fn parse_duration_overflow_is_rejected() {
    // the amount alone does not fit in 64 bits
    assert_eq!(parse_duration("a/99999999999999999999s"), None);
    // the amount fits, the total does not
    assert_eq!(parse_duration("a/1000000000000y"), None);
    // the largest second count is representable
    assert_eq!(parse_duration("a/18446744073709551615s"), Some(u64::MAX));
}

#[test]
fn strip_suffix_shapes() {
    assert_eq!(strip_expiration_suffix("title/6M"), "title");
    assert_eq!(strip_expiration_suffix("a/b/10d"), "a/b");
    // an unknown unit letter is not a duration, so nothing is removed
    assert_eq!(strip_expiration_suffix("foo/10x"), "foo/10x");
    assert_eq!(strip_expiration_suffix("/5d"), "");
    assert_eq!(strip_expiration_suffix(""), "");
}

#[test]
fn random_id_shape() {
    let id = random_id();
    assert_eq!(id.chars().count(), SPOILER_ID_LENGTH);
    assert!(id.chars().all(|c| c.is_ascii_alphanumeric()));
    // two draws colliding has negligible probability
    assert_ne!(random_id(), id);
}

#[test]
fn spoiler_id_prefix() {
    assert!(is_spoiler_id("id-_-abcdef"));
    assert!(is_spoiler_id("id-_-"));
    assert!(!is_spoiler_id("id-_"));
    assert!(!is_spoiler_id("abcdef"));
    assert!(!is_spoiler_id(""));
    assert_eq!(spoilerbot::util::inline_query_separator_str(), "id-_-");
}

#[test]
fn start_url_points_at_the_bot() {
    assert_eq!(
        spoilerbot::util::start_url("spoilbot", "id-_-abc"),
        "https://t.me/spoilbot?start=id-_-abc"
    );
}

#[test]
fn expires_at_renders_utc() {
    assert_eq!(spoilerbot::util::expires_at(0, 0), "1970-01-01 00:00 UTC");
    assert_eq!(spoilerbot::util::expires_at(86_399, 1), "1970-01-02 00:00 UTC");
    assert_eq!(spoilerbot::util::expires_at(1_000_000_000, 3_600), "2001-09-09 02:46 UTC");
    // a deadline beyond the clock's range saturates, past what chrono can
    // represent, and renders as nothing
    assert_eq!(spoilerbot::util::expires_at(u64::MAX, 1), "");
}

#[test]
fn help_text_mentions_the_username() {
    let text = help_text(String::from("spoilbot"));
    let expected = format!(
        "Type /start to prepare an advanced spoiler with a custom title.\n\n\
         You can type quick spoilers by using @{} in inline mode:\n\
         @{} your spoiler message\u{2026}\n\n\
         Custom titles can also be used from inline mode as follows:\n\
         @{} title for the spoiler:::contents of the spoiler\n\
         Note that the title will be immediately visible!",
        "spoilbot", "spoilbot", "spoilbot"
    );
    assert_eq!(text, expected);
}
