//! Identifier and duration utilities used throughout the registry.
use vstd::prelude::*;

verus! {

/// One minute in seconds.
pub const MINUTE_IN_SECS: u64 = 60;

/// One hour in seconds.
pub const HOUR_IN_SECS: u64 = 60 * MINUTE_IN_SECS;

/// One day in seconds.
pub const DAY_IN_SECS: u64 = 24 * HOUR_IN_SECS;

/// One week in seconds.
pub const WEEK_IN_SECS: u64 = 7 * DAY_IN_SECS;

/// One month in seconds.  A month is assumed to equal 30 days.
pub const MONTH_IN_SECS: u64 = 30 * DAY_IN_SECS;

/// One year in seconds.  A year is assumed to equal 365 days.
pub const YEAR_IN_SECS: u64 = 365 * DAY_IN_SECS;

/// Is `c` a decimal digit?
pub open spec fn is_digit_char(c: char) -> bool {
    '0' <= c && c <= '9'
}

/// The numeric value of a digit character.
pub open spec fn digit_value(c: char) -> nat {
    (c as int - '0' as int) as nat
}

/// Is `c` one of the letters the duration shorthand accepts as a unit?
///
/// Matching is case-insensitive except for the one deliberate ambiguity:
/// `m` means minutes while `M` means months.
pub open spec fn is_unit_char(c: char) -> bool {
    ||| c == 's'
    ||| c == 'S'
    ||| c == 'm'
    ||| c == 'M'
    ||| c == 'h'
    ||| c == 'H'
    ||| c == 'd'
    ||| c == 'D'
    ||| c == 'w'
    ||| c == 'W'
    ||| c == 'y'
    ||| c == 'Y'
}

/// How many seconds one unit of `c` lasts.
pub open spec fn unit_in_secs(c: char) -> u64 {
    if c == 'm' {
        MINUTE_IN_SECS
    } else if c == 'M' {
        MONTH_IN_SECS
    } else if c == 's' || c == 'S' {
        1
    } else if c == 'h' || c == 'H' {
        HOUR_IN_SECS
    } else if c == 'd' || c == 'D' {
        DAY_IN_SECS
    } else if c == 'w' || c == 'W' {
        WEEK_IN_SECS
    } else if c == 'y' || c == 'Y' {
        YEAR_IN_SECS
    } else {
        0
    }
}

/// The length of the run of digit characters that ends right before
/// position `end` of `s`.
pub open spec fn digit_run(s: Seq<char>, end: int) -> int
    decreases end,
{
    if end <= 0 || end > s.len() || !is_digit_char(s[end - 1]) {
        0
    } else {
        digit_run(s, end - 1) + 1
    }
}

/// Does `s` end with the duration shorthand: a `/`, one or more digits, and
/// a single unit letter?
pub open spec fn has_duration_suffix(s: Seq<char>) -> bool {
    let n = s.len() as int;
    let k = digit_run(s, n - 1);
    &&& n >= 3
    &&& is_unit_char(s[n - 1])
    &&& k >= 1
    &&& n - 2 - k >= 0
    &&& s[n - 2 - k] == '/'
}

/// The index of the `/` that opens the duration shorthand.  Meaningful only
/// when `has_duration_suffix` holds.
pub open spec fn suffix_start(s: Seq<char>) -> int {
    s.len() - 2 - digit_run(s, s.len() - 1)
}

/// The numeric value of a string of digit characters.
pub open spec fn digits_value(s: Seq<char>) -> nat
    decreases s.len(),
{
    if s.len() == 0 {
        0
    } else {
        digits_value(s.drop_last()) * 10 + digit_value(s.last())
    }
}

/// The amount written between the `/` and the unit letter.
pub open spec fn suffix_amount(s: Seq<char>) -> nat {
    digits_value(s.subrange(suffix_start(s) + 1, s.len() - 1))
}

/// The unit letter of the shorthand: the last character.
pub open spec fn suffix_unit(s: Seq<char>) -> char {
    s[s.len() - 1]
}

/// What `parse_duration` returns: the amount times the unit, in seconds,
/// when the shorthand is present and the total fits in `u64`.
pub open spec fn spec_parse_duration(s: Seq<char>) -> Option<u64> {
    if has_duration_suffix(s) && suffix_amount(s) * unit_in_secs(suffix_unit(s)) <= u64::MAX {
        Some((suffix_amount(s) * unit_in_secs(suffix_unit(s))) as u64)
    } else {
        None
    }
}

/// What `strip_expiration_suffix` returns: the text with the shorthand
/// removed when present, the text unchanged otherwise.
pub open spec fn spec_strip_suffix(s: Seq<char>) -> Seq<char> {
    if has_duration_suffix(s) {
        s.subrange(0, suffix_start(s))
    } else {
        s
    }
}

/// A maximal digit run bounded on the left by a non-digit has exactly the
/// length of the scanned range.
proof fn lemma_digit_run_exact(s: Seq<char>, j: int, end: int)
    requires
        0 <= j <= end <= s.len(),
        forall|i: int| j <= i < end ==> is_digit_char(s[i]),
        j == 0 || !is_digit_char(s[j - 1]),
    ensures
        digit_run(s, end) == end - j,
    decreases end - j,
{
    if end > j {
        lemma_digit_run_exact(s, j, end - 1);
    }
}

/// Every character covered by the digit run is a digit.
proof fn lemma_digit_run_digits(s: Seq<char>, end: int)
    requires
        0 <= end <= s.len(),
    ensures
        forall|i: int| end - digit_run(s, end) <= i < end ==> is_digit_char(s[i]),
    decreases end,
{
    if end > 0 && is_digit_char(s[end - 1]) {
        lemma_digit_run_digits(s, end - 1);
    }
}

/// Locates the duration shorthand: returns the index of its `/` when the
/// text ends with one, `None` otherwise.
fn find_suffix_start(text: &str) -> (r: Option<usize>)
    ensures
        match r {
            Some(start) => has_duration_suffix(text@) && start == suffix_start(text@),
            None => !has_duration_suffix(text@),
        },
{
    let n = text.unicode_len();
    if n < 3 {
        return None;
    }
    let unit = text.get_char(n - 1);
    if !exec_is_unit_char(unit) {
        return None;
    }
    let mut j: usize = n - 1;
    while j > 0 && exec_is_digit_char(text.get_char(j - 1))
        invariant
            j <= n - 1,
            3 <= n,
            n == text@.len(),
            forall|i: int| j <= i < n - 1 ==> is_digit_char(text@[i]),
        decreases j,
    {
        j = j - 1;
    }
    proof {
        lemma_digit_run_exact(text@, j as int, n - 1 as int);
    }
    if j == n - 1 {
        // no digits before the unit letter
        return None;
    }
    if j == 0 {
        // digits reach the start of the text, leaving no room for a slash
        return None;
    }
    if text.get_char(j - 1) == '/' {
        Some(j - 1)
    } else {
        None
    }
}

/// Is `c` a decimal digit?  Executable twin of `is_digit_char`.
fn exec_is_digit_char(c: char) -> (r: bool)
    ensures
        r == is_digit_char(c),
{
    '0' <= c && c <= '9'
}

/// Is `c` a unit letter?  Executable twin of `is_unit_char`.
fn exec_is_unit_char(c: char) -> (r: bool)
    ensures
        r == is_unit_char(c),
{
    c == 's' || c == 'S' || c == 'm' || c == 'M' || c == 'h' || c == 'H' || c == 'd' || c == 'D'
        || c == 'w' || c == 'W' || c == 'y' || c == 'Y'
}

/// Reads the digits in `text[from..to)` as a number, reporting `None` when
/// the value does not fit in `u64`.
fn read_digits(text: &str, from: usize, to: usize) -> (r: Option<u64>)
    requires
        from <= to <= text@.len(),
        forall|i: int| from <= i < to ==> is_digit_char(text@[i]),
    ensures
        match r {
            Some(v) => v == digits_value(text@.subrange(from as int, to as int)),
            None => digits_value(text@.subrange(from as int, to as int)) > u64::MAX,
        },
{
    let mut value: u64 = 0;
    let mut too_big: bool = false;
    let mut i: usize = from;
    while i < to
        invariant
            from <= i <= to <= text@.len(),
            forall|k: int| from <= k < to ==> is_digit_char(text@[k]),
            !too_big ==> value == digits_value(text@.subrange(from as int, i as int)),
            too_big ==> digits_value(text@.subrange(from as int, i as int)) > u64::MAX,
        decreases to - i,
    {
        let c = text.get_char(i);
        let d = (c as u32 - '0' as u32) as u64;
        proof {
            assert(text@.subrange(from as int, i + 1 as int).drop_last() =~= text@.subrange(
                from as int,
                i as int,
            ));
            assert(text@.subrange(from as int, i + 1 as int).last() == text@[i as int]);
        }
        if !too_big {
            match value.checked_mul(10) {
                Some(shifted) => {
                    match shifted.checked_add(d) {
                        Some(next) => {
                            value = next;
                        },
                        None => {
                            too_big = true;
                        },
                    }
                },
                None => {
                    too_big = true;
                },
            }
        } else {
            proof {
                let prefix = digits_value(text@.subrange(from as int, i as int));
                assert(digits_value(text@.subrange(from as int, i + 1 as int)) == prefix * 10
                    + digit_value(text@[i as int]));
                assert(prefix * 10 > u64::MAX);
            }
        }
        i = i + 1;
    }
    if too_big {
        None
    } else {
        Some(value)
    }
}

/// How many seconds one unit of `c` lasts.  Executable twin of
/// `unit_in_secs`.
fn exec_unit_in_secs(c: char) -> (r: u64)
    ensures
        r == unit_in_secs(c),
{
    if c == 'm' {
        MINUTE_IN_SECS
    } else if c == 'M' {
        MONTH_IN_SECS
    } else if c == 's' || c == 'S' {
        1
    } else if c == 'h' || c == 'H' {
        HOUR_IN_SECS
    } else if c == 'd' || c == 'D' {
        DAY_IN_SECS
    } else if c == 'w' || c == 'W' {
        WEEK_IN_SECS
    } else if c == 'y' || c == 'Y' {
        YEAR_IN_SECS
    } else {
        0
    }
}

/// Parses the duration shorthand a user may append to a text.
///
/// A duration is written as `/`, an amount, and a unit letter at the very
/// end of the text: seconds (`s`), minutes (`m`), hours (`h`), days (`d`),
/// weeks (`w`), months of thirty days (`M`), or years of 365 days (`y`).
/// Unit letters match either case, except that `m` is minutes and `M` is
/// months.  Returns the duration in seconds, or `None` when the text carries
/// no shorthand or the total would not fit in `u64`.
pub fn parse_duration(text: &str) -> (r: Option<u64>)
    ensures
        r == spec_parse_duration(text@),
{
    let n = text.unicode_len();
    let start = match find_suffix_start(text) {
        Some(start) => start,
        None => {
            return None;
        },
    };
    proof {
        lemma_digit_run_digits(text@, n - 1 as int);
    }
    let unit = text.get_char(n - 1);
    let secs = exec_unit_in_secs(unit);
    let amount = match read_digits(text, start + 1, n - 1) {
        Some(amount) => amount,
        None => {
            proof {
                lemma_amount_overflow(text@);
            }
            return None;
        },
    };
    match amount.checked_mul(secs) {
        Some(total) => Some(total),
        None => None,
    }
}

/// When the written amount does not even fit in `u64`, the total duration
/// cannot either, because every unit lasts at least one second.
proof fn lemma_amount_overflow(s: Seq<char>)
    requires
        has_duration_suffix(s),
        suffix_amount(s) > u64::MAX,
    ensures
        suffix_amount(s) * unit_in_secs(suffix_unit(s)) > u64::MAX,
{
    assert(unit_in_secs(suffix_unit(s)) >= 1);
    assert(suffix_amount(s) * unit_in_secs(suffix_unit(s)) >= suffix_amount(s) * 1) by (
    nonlinear_arith)
        requires
            unit_in_secs(suffix_unit(s)) >= 1,
    ;
}

/// Removes the duration shorthand from the end of the text if one is
/// present, and returns the text unchanged otherwise.
pub fn strip_expiration_suffix(text: &str) -> (r: String)
    ensures
        r@ == spec_strip_suffix(text@),
{
    match find_suffix_start(text) {
        Some(start) => {
            let head = text.substring_char(0, start);
            head.to_owned()
        },
        None => text.to_owned(),
    }
}

/// The second count that waiting `dur` seconds from `now` reaches; a sum
/// beyond the clock's range saturates.
pub open spec fn saturating_deadline(now: u64, dur: u64) -> u64 {
    if now + dur <= u64::MAX {
        (now + dur) as u64
    } else {
        u64::MAX
    }
}

/// The text chrono renders for an instant, given as seconds since the Unix
/// epoch: date, minute and zone in UTC.
pub uninterp spec fn utc_display_of(secs: u64) -> Seq<char>;

/// Relies on chrono: `DateTime::from_timestamp` builds the UTC instant for
/// an epoch second count (`None` outside chrono's representable range, here
/// rendered as the empty string), and `format` with `"%F %R %Z"` writes
/// date, minute and zone.  Both depend on the second count alone.
#[verifier::external_body]
fn format_utc(secs: u64) -> (r: String)
    ensures
        r@ == utc_display_of(secs),
{
    match i64::try_from(secs).ok().and_then(|s| chrono::DateTime::from_timestamp(s, 0)) {
        Some(t) => t.format("%F %R %Z").to_string(),
        None => String::new(),
    }
}

/// A text representation of the instant `duration` seconds after `now`
/// (both in seconds since the Unix epoch): when a spoiler created now with
/// that duration will expire.
pub fn expires_at(now: u64, duration: u64) -> (r: String)
    ensures
        r@ == utc_display_of(saturating_deadline(now, duration)),
{
    let t = match now.checked_add(duration) {
        Some(t) => t,
        None => u64::MAX,
    };
    format_utc(t)
}

/// The deep-link address that `start_url` builds.
pub open spec fn spec_start_url(username: Seq<char>, start_param: Seq<char>) -> Seq<char> {
    "https://t.me/"@ + username + "?start="@ + start_param
}

/// Builds the deep-link address that opens a private chat with the bot and
/// hands it `start_param`; the transport layer supplies the bot's username.
pub fn start_url(username: &str, start_param: &str) -> (r: String)
    ensures
        r@ == spec_start_url(username@, start_param@),
{
    let mut r = String::from_str("https://t.me/");
    r.append(username);
    r.append("?start=");
    r.append(start_param);
    proof {
        assert(r@ =~= spec_start_url(username@, start_param@));
    }
    r
}

/// A character allowed in a spoiler id: ASCII letters and digits.
pub open spec fn is_id_char(c: char) -> bool {
    ||| 'a' <= c && c <= 'z'
    ||| 'A' <= c && c <= 'Z'
    ||| '0' <= c && c <= '9'
}

/// The length of a generated spoiler id.
pub const SPOILER_ID_LENGTH: usize = 48;

/// Relies on rand's `Alphanumeric` distribution: `sample_string` appends
/// exactly `len` characters, each drawn uniformly from a-z, A-Z and 0-9, to
/// an empty string.  It aborts only if the operating system's randomness
/// source fails when the thread-local generator is first seeded.
#[verifier::external_body]
fn sample_alphanumeric(len: usize) -> (r: String)
    ensures
        r@.len() == len,
        forall|i: int| 0 <= i < r@.len() ==> is_id_char(#[trigger] r@[i]),
{
    rand::distr::SampleString::sample_string(&rand::distr::Alphanumeric, &mut rand::rng(), len)
}

/// Generates a random string that acts as an identifier, i.e. a spoiler id.
///
/// The result is long enough that a collision with a live id, or a guess by
/// another party, has negligible probability; nothing beyond its length and
/// alphabet is promised.
pub fn random_id() -> (r: String)
    ensures
        r@.len() == SPOILER_ID_LENGTH,
        forall|i: int| 0 <= i < r@.len() ==> is_id_char(#[trigger] r@[i]),
{
    sample_alphanumeric(SPOILER_ID_LENGTH)
}

/// The prefix that distinguishes spoiler ids passed through inline queries
/// from free text that is still to become a spoiler.
pub open spec fn inline_query_separator() -> Seq<char> {
    seq!['i', 'd', '-', '_', '-']
}

/// Does the query carry a spoiler id, i.e. start with the separator?
pub open spec fn spec_is_spoiler_id(q: Seq<char>) -> bool {
    q.len() >= 5 && q.subrange(0, 5) == inline_query_separator()
}

/// The inline query separator as text, for callers that build or split
/// prefixed ids.
pub fn inline_query_separator_str() -> (r: &'static str)
    ensures
        r@ == inline_query_separator(),
{
    let s = "id-_-";
    proof {
        reveal_strlit("id-_-");
        assert(s@ =~= inline_query_separator());
    }
    s
}

/// Returns true if the query starts with the inline query separator.
pub fn is_spoiler_id(query: &str) -> (r: bool)
    ensures
        r == spec_is_spoiler_id(query@),
{
    if query.unicode_len() < 5 {
        return false;
    }
    let matches_prefix = query.get_char(0) == 'i' && query.get_char(1) == 'd' && query.get_char(2)
        == '-' && query.get_char(3) == '_' && query.get_char(4) == '-';
    proof {
        assert(forall|i: int| 0 <= i < 5 ==> query@.subrange(0, 5)[i] == query@[i]);
        if matches_prefix {
            assert(query@.subrange(0, 5) =~= inline_query_separator());
        } else {
            assert(query@.subrange(0, 5)[0] == query@[0]);
        }
    }
    matches_prefix
}

} // verus!
