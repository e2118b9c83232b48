//! Rendering of whole-second durations as text: decimal digits,
//! the `mm:ss` clock display, and the `hh\h mm\m ss\s` summary display.

use vstd::prelude::*;
use vstd::string::StringExecFns;

verus! {

/// The decimal digit character for a value below ten.
pub open spec fn spec_digit(d: nat) -> char {
    if d == 0 {
        '0'
    } else if d == 1 {
        '1'
    } else if d == 2 {
        '2'
    } else if d == 3 {
        '3'
    } else if d == 4 {
        '4'
    } else if d == 5 {
        '5'
    } else if d == 6 {
        '6'
    } else if d == 7 {
        '7'
    } else if d == 8 {
        '8'
    } else {
        '9'
    }
}

/// Decimal rendering of a natural number, most significant digit first,
/// with no leading zeros (zero itself renders as one digit).
pub open spec fn spec_dec(n: nat) -> Seq<char>
    decreases n,
{
    if n < 10 {
        seq![spec_digit(n)]
    } else {
        spec_dec(n / 10) + seq![spec_digit(n % 10)]
    }
}

/// Decimal rendering padded with a leading zero to at least two digits.
pub open spec fn spec_two_digits(n: nat) -> Seq<char> {
    if n < 10 {
        seq!['0', spec_digit(n)]
    } else {
        spec_dec(n)
    }
}

/// The `mm:ss` clock display of a whole-second duration; minutes wrap at
/// one hour.
pub open spec fn spec_mm_ss(secs: nat) -> Seq<char> {
    spec_two_digits((secs / 60) % 60) + seq![':'] + spec_two_digits(secs % 60)
}

/// The summary display of a whole-second duration: hours, minutes and
/// seconds when the duration reaches one hour, else minutes and seconds.
pub open spec fn spec_h_m_s(secs: nat) -> Seq<char> {
    if secs >= 3600 {
        spec_two_digits((secs / 3600) % 3600) + seq!['h'] + spec_two_digits((secs / 60) % 60)
            + seq!['m'] + spec_two_digits(secs % 60) + seq!['s']
    } else {
        spec_two_digits((secs / 60) % 60) + seq!['m'] + spec_two_digits(secs % 60) + seq!['s']
    }
}

fn digit_str(d: u64) -> (r: &'static str)
    requires
        d < 10,
    ensures
        r@ == seq![spec_digit(d as nat)],
{
    proof {
        reveal_strlit("0");
        reveal_strlit("1");
        reveal_strlit("2");
        reveal_strlit("3");
        reveal_strlit("4");
        reveal_strlit("5");
        reveal_strlit("6");
        reveal_strlit("7");
        reveal_strlit("8");
        reveal_strlit("9");
    }
    let r = match d {
        0 => "0",
        1 => "1",
        2 => "2",
        3 => "3",
        4 => "4",
        5 => "5",
        6 => "6",
        7 => "7",
        8 => "8",
        _ => "9",
    };
    proof {
        assert(r@ =~= seq![spec_digit(d as nat)]);
    }
    r
}

/// The decimal text of `n`, exactly `spec_dec(n)`.
pub fn dec_string(n: u64) -> (r: String)
    ensures
        r@ == spec_dec(n as nat),
    decreases n,
{
    if n < 10 {
        digit_str(n).to_owned()
    } else {
        let mut s = dec_string(n / 10);
        s.append(digit_str(n % 10));
        proof {
            assert(s@ =~= spec_dec(n as nat));
        }
        s
    }
}

/// The decimal text of `n` padded to at least two digits.
pub fn two_digits(n: u64) -> (r: String)
    ensures
        r@ == spec_two_digits(n as nat),
{
    if n < 10 {
        proof {
            reveal_strlit("0");
        }
        let mut s = "0".to_owned();
        s.append(digit_str(n));
        proof {
            assert(s@ =~= spec_two_digits(n as nat));
        }
        s
    } else {
        dec_string(n)
    }
}

/// The `mm:ss` clock display of a duration given in whole seconds.
pub fn to_display(secs: u64) -> (r: String)
    ensures
        r@ == spec_mm_ss(secs as nat),
{
    proof {
        reveal_strlit(":");
    }
    let mut s = two_digits((secs / 60) % 60);
    s.append(":");
    let t = two_digits(secs % 60);
    s.append(t.as_str());
    proof {
        assert(s@ =~= spec_mm_ss(secs as nat));
    }
    s
}

/// The hours/minutes/seconds summary display of a duration given in
/// whole seconds.
pub fn to_display_h_m_s(secs: u64) -> (r: String)
    ensures
        r@ == spec_h_m_s(secs as nat),
{
    proof {
        reveal_strlit("h");
        reveal_strlit("m");
        reveal_strlit("s");
    }
    if secs >= 3600 {
        let mut s = two_digits((secs / 3600) % 3600);
        s.append("h");
        let m = two_digits((secs / 60) % 60);
        s.append(m.as_str());
        s.append("m");
        let sec = two_digits(secs % 60);
        s.append(sec.as_str());
        s.append("s");
        proof {
            assert(s@ =~= spec_h_m_s(secs as nat));
        }
        s
    } else {
        let mut s = two_digits((secs / 60) % 60);
        s.append("m");
        let sec = two_digits(secs % 60);
        s.append(sec.as_str());
        s.append("s");
        proof {
            assert(s@ =~= spec_h_m_s(secs as nat));
        }
        s
    }
}

} // verus!
