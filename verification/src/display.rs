//! Texts for the user: clocks as minutes and seconds, and what a
//! notification says.

use crate::time::{Duration, NANOS_PER_SEC};
use crate::timer::FiredTimer;
use vstd::prelude::*;
use vstd::string::StringExecFns;

verus! {

/// The character of a digit.
pub open spec fn digit_char(digit: nat) -> char {
    if digit == 0 {
        '0'
    } else if digit == 1 {
        '1'
    } else if digit == 2 {
        '2'
    } else if digit == 3 {
        '3'
    } else if digit == 4 {
        '4'
    } else if digit == 5 {
        '5'
    } else if digit == 6 {
        '6'
    } else if digit == 7 {
        '7'
    } else if digit == 8 {
        '8'
    } else {
        '9'
    }
}

/// A number in base ten, without zeros in front.
pub open spec fn decimal(n: nat) -> Seq<char>
    decreases n,
{
    if n < 10 {
        seq![digit_char(n)]
    } else {
        decimal(n / 10).push(digit_char(n % 10))
    }
}

/// A number in base ten with at least two digits.
pub open spec fn two_digits(n: nat) -> Seq<char> {
    if n < 10 {
        seq!['0'] + decimal(n)
    } else {
        decimal(n)
    }
}

/// A number of seconds as minutes and seconds, `MM:SS`.
pub open spec fn mmss_text(secs: nat) -> Seq<char> {
    two_digits(secs / 60) + seq![':'] + two_digits(secs % 60)
}

/// The text of one digit.
fn digit_str(digit: u64) -> (text: &'static str)
    requires
        digit < 10,
    ensures
        text@ == seq![digit_char(digit as nat)],
{
    proof {
        reveal_strlit("0");
        reveal_strlit("1");
        reveal_strlit("2");
        reveal_strlit("3");
        reveal_strlit("4");
        reveal_strlit("5");
        reveal_strlit("6");
        reveal_strlit("7");
        reveal_strlit("8");
        reveal_strlit("9");
    }
    let text = if digit == 0 {
        "0"
    } else if digit == 1 {
        "1"
    } else if digit == 2 {
        "2"
    } else if digit == 3 {
        "3"
    } else if digit == 4 {
        "4"
    } else if digit == 5 {
        "5"
    } else if digit == 6 {
        "6"
    } else if digit == 7 {
        "7"
    } else if digit == 8 {
        "8"
    } else {
        "9"
    };
    assert(text@ =~= seq![digit_char(digit as nat)]);
    text
}

/// Writes a number in base ten at the end of a text.
fn push_decimal(out: &mut String, n: u64)
    ensures
        final(out)@ == old(out)@ + decimal(n as nat),
    decreases n,
{
    if n >= 10 {
        push_decimal(out, n / 10);
    }
    out.append(digit_str(n % 10));
    assert(out@ =~= old(out)@ + decimal(n as nat));
}

/// Writes a number with at least two digits at the end of a text.
fn push_two_digits(out: &mut String, n: u64)
    ensures
        final(out)@ == old(out)@ + two_digits(n as nat),
{
    if n < 10 {
        out.append("0");
        proof {
            reveal_strlit("0");
        }
    }
    push_decimal(out, n);
    assert(out@ =~= old(out)@ + two_digits(n as nat));
}

/// A span of time as minutes and seconds, `MM:SS`, each with at least two
/// digits. Parts of a second are left out.
pub fn format_duration(d: Duration) -> (text: String)
    ensures
        text@ == mmss_text(d.as_nanos() / (NANOS_PER_SEC as nat)),
{
    let secs = d.as_secs();
    let mut out = String::new();
    push_two_digits(&mut out, secs / 60);
    out.append(":");
    proof {
        reveal_strlit(":");
    }
    push_two_digits(&mut out, secs % 60);
    assert(out@ =~= mmss_text(secs as nat));
    out
}

/// What the notification for a timer says in its first line.
pub open spec fn title_of(name: Seq<char>) -> Seq<char> {
    "Timer "@ + name + " went off"@
}

/// The two lines of the notification for a timer that went off, where the
/// timer asks for one.
pub fn notification(fired: &FiredTimer) -> (r: Option<(String, String)>)
    ensures
        r is Some <==> fired.notify,
        r matches Some((title, body)) ==> title@ == title_of(fired.name@) && body@ == "Time to take a break!"@,
{
    if fired.notify {
        let mut title = String::from_str("Timer ");
        title.append(fired.name.as_str());
        title.append(" went off");
        Some((title, String::from_str("Time to take a break!")))
    } else {
        None
    }
}

} // verus!
