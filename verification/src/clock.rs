//! Wall-clock readings and the clock-face label given to new
//! recordings.

use vstd::prelude::*;

verus! {

/// Relies on std::time::SystemTime::now: the Unix clock in seconds
/// (zero before the epoch). The result depends on the clock, so nothing
/// is promised of it.
#[verifier::external_body]
pub fn unix_seconds_now() -> (r: u64) {
    std::time::SystemTime::now().duration_since(std::time::UNIX_EPOCH).unwrap_or_default().as_secs()
}

/// Relies on std::time::SystemTime::now: the Unix clock in milliseconds
/// (zero before the epoch), truncated to 64 bits. The result depends on
/// the clock, so nothing is promised of it.
#[verifier::external_body]
pub fn unix_millis_now() -> (r: u64) {
    std::time::SystemTime::now().duration_since(std::time::UNIX_EPOCH).unwrap_or_default().as_millis() as u64
}

/// The character of one decimal digit.
pub open spec fn spec_digit_char(d: int) -> char {
    if d == 0 {
        '0'
    } else if d == 1 {
        '1'
    } else if d == 2 {
        '2'
    } else if d == 3 {
        '3'
    } else if d == 4 {
        '4'
    } else if d == 5 {
        '5'
    } else if d == 6 {
        '6'
    } else if d == 7 {
        '7'
    } else if d == 8 {
        '8'
    } else {
        '9'
    }
}

/// A number below one hundred written as exactly two digits.
pub open spec fn spec_two_digits(n: int) -> Seq<char> {
    seq![spec_digit_char(n / 10), spec_digit_char(n % 10)]
}

/// The clock-face form of a second count: `hh:mm:ss` on a 24-hour dial.
pub open spec fn spec_clock_label(secs: int) -> Seq<char> {
    spec_two_digits(secs / 3600 % 24) + seq![':'] + spec_two_digits(secs / 60 % 60) + seq![':']
        + spec_two_digits(secs % 60)
}

/// One decimal digit as a string.
fn digit_str(d: u64) -> (r: &'static str)
    requires
        d <= 9,
    ensures
        r@ == seq![spec_digit_char(d as int)],
{
    proof {
        reveal_strlit("0");
        reveal_strlit("1");
        reveal_strlit("2");
        reveal_strlit("3");
        reveal_strlit("4");
        reveal_strlit("5");
        reveal_strlit("6");
        reveal_strlit("7");
        reveal_strlit("8");
        reveal_strlit("9");
    }
    let r = if d == 0 {
        "0"
    } else if d == 1 {
        "1"
    } else if d == 2 {
        "2"
    } else if d == 3 {
        "3"
    } else if d == 4 {
        "4"
    } else if d == 5 {
        "5"
    } else if d == 6 {
        "6"
    } else if d == 7 {
        "7"
    } else if d == 8 {
        "8"
    } else {
        "9"
    };
    proof {
        assert(r@ =~= seq![spec_digit_char(d as int)]);
    }
    r
}

/// Append `n` as exactly two digits.
fn push_two_digits(s: &mut String, n: u64)
    requires
        n < 100,
    ensures
        final(s)@ == old(s)@ + spec_two_digits(n as int),
{
    s.append(digit_str(n / 10));
    s.append(digit_str(n % 10));
    proof {
        assert(old(s)@ + seq![spec_digit_char(n as int / 10)] + seq![
            spec_digit_char(n as int % 10),
        ] =~= old(s)@ + spec_two_digits(n as int));
    }
}

/// Write a second count as `hh:mm:ss` on a 24-hour dial.
pub fn format_clock_label(secs: u64) -> (r: String)
    ensures
        r@ == spec_clock_label(secs as int),
{
    let hours = (secs / 3600) % 24;
    let minutes = (secs / 60) % 60;
    let seconds = secs % 60;
    let mut s = String::new();
    push_two_digits(&mut s, hours);
    s.append(":");
    push_two_digits(&mut s, minutes);
    s.append(":");
    push_two_digits(&mut s, seconds);
    proof {
        reveal_strlit(":");
        assert(":"@ =~= seq![':']);
        assert(s@ =~= spec_clock_label(secs as int));
    }
    s
}

/// The clock-face label of the present moment, used to name new
/// recordings. The exact digits depend on the clock; the shape is
/// always `hh:mm:ss`.
pub fn chrono_like_now() -> (r: String)
    ensures
        r@.len() == 8,
        r@[2] == ':',
        r@[5] == ':',
{
    let now = unix_seconds_now();
    let r = format_clock_label(now);
    r
}

} // verus!
