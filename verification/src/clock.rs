//! Rendering a number of seconds as zero-padded `HH:MM:SS`, and reading such
//! a text back.

use vstd::prelude::*;

verus! {

/// The character that stands for the digit `d`.
pub open spec fn digit_char(d: nat) -> char
    recommends
        d < 10,
{
    ((48 + d) as u8) as char
}

/// Whether `c` is one of `'0'` to `'9'`.
pub open spec fn is_digit(c: char) -> bool {
    '0' <= c && c <= '9'
}

/// The digit that `c` stands for; zero for any other character.
pub open spec fn digit_value(c: char) -> nat {
    if is_digit(c) {
        (c as u32 - 48) as nat
    } else {
        0
    }
}

/// The decimal notation of `n`, without leading zeros.
pub open spec fn decimal(n: nat) -> Seq<char>
    decreases n,
{
    if n < 10 {
        seq![digit_char(n)]
    } else {
        decimal(n / 10).push(digit_char(n % 10))
    }
}

/// Whether `s` is a non-empty run of decimal digits.
pub open spec fn is_decimal(s: Seq<char>) -> bool {
    s.len() > 0 && forall|i: int| 0 <= i < s.len() ==> is_digit(#[trigger] s[i])
}

/// The number that a run of decimal digits denotes.
pub open spec fn decimal_value(s: Seq<char>) -> nat
    decreases s.len(),
{
    if s.len() == 0 {
        0
    } else {
        decimal_value(s.drop_last()) * 10 + digit_value(s.last())
    }
}

/// `n` in decimal, padded with a zero on the left to at least two digits.
pub open spec fn two_digits(n: nat) -> Seq<char> {
    if n < 10 {
        seq!['0', digit_char(n)]
    } else {
        decimal(n)
    }
}

/// The text `HH:MM:SS` for `seconds`: minutes and seconds below sixty, hours
/// as large as they come.
pub open spec fn hh_mm_ss(seconds: nat) -> Seq<char> {
    two_digits(seconds / 3600) + seq![':'] + two_digits((seconds % 3600) / 60) + seq![':']
        + two_digits(seconds % 60)
}

/// The number of seconds that a text of the form `H..H:MM:SS` denotes, where
/// it has that form.
pub open spec fn clock_seconds(text: Seq<char>) -> Option<nat> {
    let n = text.len() as int;
    if n < 8 {
        None
    } else {
        let hours = text.subrange(0, n - 6);
        let minutes = text.subrange(n - 5, n - 3);
        let seconds = text.subrange(n - 2, n);
        if text[n - 6] == ':' && text[n - 3] == ':' && is_decimal(hours) && is_decimal(minutes)
            && is_decimal(seconds) && decimal_value(minutes) < 60 && decimal_value(seconds) < 60 {
            Some(decimal_value(hours) * 3600 + decimal_value(minutes) * 60 + decimal_value(seconds))
        } else {
            None
        }
    }
}

/// The decimal notation of a number is a run of digits that denotes it.
pub proof fn lemma_decimal_value(n: nat)
    ensures
        is_decimal(decimal(n)),
        decimal_value(decimal(n)) == n,
        n < 10 ==> decimal(n).len() == 1,
        10 <= n < 100 ==> decimal(n).len() == 2,
        n >= 100 ==> decimal(n).len() >= 3,
    decreases n,
{
    if n < 10 {
        let s = decimal(n);
        assert(s.drop_last().len() == 0);
        assert(decimal_value(s.drop_last()) == 0);
    } else {
        lemma_decimal_value(n / 10);
        let s = decimal(n);
        assert(s.drop_last() =~= decimal(n / 10));
        assert(s.last() == digit_char(n % 10));
    }
}

/// A two-digit field is a run of digits that denotes its number, and is two
/// characters wide exactly when the number is below one hundred.
pub proof fn lemma_two_digits(n: nat)
    ensures
        is_decimal(two_digits(n)),
        decimal_value(two_digits(n)) == n,
        two_digits(n).len() >= 2,
        two_digits(n).len() == 2 <==> n < 100,
{
    lemma_decimal_value(n);
    if n < 10 {
        let s = two_digits(n);
        assert(s.drop_last() =~= seq!['0']);
        assert(seq!['0'].drop_last().len() == 0);
        assert(decimal_value(seq!['0'].drop_last()) == 0);
        assert(decimal_value(seq!['0']) == 0);
    }
}

/// Reading a rendered time back gives the seconds it was rendered from, for
/// every number of seconds.
pub proof fn lemma_clock_round_trip(seconds: nat)
    ensures
        clock_seconds(hh_mm_ss(seconds)) == Some(seconds),
{
    let h = two_digits(seconds / 3600);
    let m = two_digits((seconds % 3600) / 60);
    let s = two_digits(seconds % 60);
    lemma_two_digits(seconds / 3600);
    lemma_two_digits((seconds % 3600) / 60);
    lemma_two_digits(seconds % 60);
    let text = hh_mm_ss(seconds);
    let n = text.len() as int;
    assert(n == h.len() + 6);
    assert(text.subrange(0, n - 6) =~= h);
    assert(text.subrange(n - 5, n - 3) =~= m);
    assert(text.subrange(n - 2, n) =~= s);
    assert(text[n - 6] == ':');
    assert(text[n - 3] == ':');
}

/// Below one hundred hours the rendered time is exactly eight characters,
/// two digits to each field with a colon between; from one hundred hours on
/// the hours take more room.
pub proof fn lemma_clock_width(seconds: nat)
    ensures
        hh_mm_ss(seconds).len() == 8 <==> seconds <= 359999,
        hh_mm_ss(seconds).len() >= 8,
        seconds <= 359999 ==> {
            let text = hh_mm_ss(seconds);
            &&& text[2] == ':'
            &&& text[5] == ':'
            &&& is_digit(text[0]) && is_digit(text[1])
            &&& is_digit(text[3]) && is_digit(text[4])
            &&& is_digit(text[6]) && is_digit(text[7])
        },
{
    let h = two_digits(seconds / 3600);
    let m = two_digits((seconds % 3600) / 60);
    let s = two_digits(seconds % 60);
    lemma_two_digits(seconds / 3600);
    lemma_two_digits((seconds % 3600) / 60);
    lemma_two_digits(seconds % 60);
    let text = hh_mm_ss(seconds);
    assert(text.len() == h.len() + 6);
    if seconds <= 359999 {
        assert(text[0] == h[0] && text[1] == h[1]);
        assert(text[3] == m[0] && text[4] == m[1]);
        assert(text[6] == s[0] && text[7] == s[1]);
    }
}

/// The one-character text of a digit.
fn digit_text(d: u64) -> (text: &'static str)
    requires
        d < 10,
    ensures
        text@ == seq![digit_char(d as nat)],
{
    proof {
        reveal_strlit("0");
        reveal_strlit("1");
        reveal_strlit("2");
        reveal_strlit("3");
        reveal_strlit("4");
        reveal_strlit("5");
        reveal_strlit("6");
        reveal_strlit("7");
        reveal_strlit("8");
        reveal_strlit("9");
    }
    let text = if d == 0 {
        "0"
    } else if d == 1 {
        "1"
    } else if d == 2 {
        "2"
    } else if d == 3 {
        "3"
    } else if d == 4 {
        "4"
    } else if d == 5 {
        "5"
    } else if d == 6 {
        "6"
    } else if d == 7 {
        "7"
    } else if d == 8 {
        "8"
    } else {
        "9"
    };
    assert(text@ =~= seq![digit_char(d as nat)]);
    text
}

/// Appends the decimal notation of `n` to `text`.
fn append_decimal(text: &mut String, n: u64)
    ensures
        final(text)@ == old(text)@ + decimal(n as nat),
    decreases n,
{
    if n >= 10 {
        append_decimal(text, n / 10);
    }
    text.append(digit_text(n % 10));
    proof {
        if n >= 10 {
            assert(old(text)@ + decimal((n / 10) as nat) + seq![digit_char((n % 10) as nat)]
                =~= old(text)@ + decimal(n as nat));
        }
    }
}

/// Appends `n` to `text`, padded to at least two digits.
fn append_two_digits(text: &mut String, n: u64)
    ensures
        final(text)@ == old(text)@ + two_digits(n as nat),
{
    if n < 10 {
        text.append(digit_text(0));
        text.append(digit_text(n));
        assert(final(text)@ =~= old(text)@ + two_digits(n as nat));
    } else {
        append_decimal(text, n);
    }
}

/// Renders `time`, a number of seconds, as `HH:MM:SS`. Each field is padded
/// with zeros to two digits; the hours are not wrapped at a day and grow
/// past two digits from one hundred hours on.
pub fn convert_seconds_to_hh_mm_ss(time: u64) -> (text: String)
    ensures
        text@ == hh_mm_ss(time as nat),
        clock_seconds(text@) == Some(time as nat),
        text@.len() == 8 <==> time <= 359999,
{
    let hours: u64 = time / 3600;
    let time_left: u64 = time - hours * 3600;
    let minutes: u64 = time_left / 60;
    let seconds: u64 = time_left - minutes * 60;
    proof {
        reveal_strlit(":");
        assert(":"@ =~= seq![':']);
    }
    let mut text = String::new();
    append_two_digits(&mut text, hours);
    text.append(":");
    append_two_digits(&mut text, minutes);
    text.append(":");
    append_two_digits(&mut text, seconds);
    proof {
        assert(text@ =~= hh_mm_ss(time as nat));
        lemma_clock_round_trip(time as nat);
        lemma_clock_width(time as nat);
    }
    text
}

} // verus!
