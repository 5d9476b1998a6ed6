// modules/clock.rs — the HH:MM:SS text of the clock module.

use vstd::prelude::*;
use vstd::utf8::*;

use crate::util::ascii_string;

verus! {

/// The character of the decimal digit `d` (below ten).
pub open spec fn digit_char(d: nat) -> char {
    ((48 + d) as u8) as char
}

/// The decimal digits of `n`, most significant first, without leading zeros.
pub open spec fn decimal_digits(n: nat) -> Seq<char>
    decreases n,
{
    if n < 10 {
        seq![digit_char(n)]
    } else {
        decimal_digits(n / 10).push(digit_char(n % 10))
    }
}

/// What `format!("{:02}", n)` writes: the decimal form of `n`, with a leading zero when it
/// is a single digit.
pub open spec fn two_digits(n: int) -> Seq<char> {
    if 0 <= n < 10 {
        seq!['0', digit_char(n as nat)]
    } else if n >= 0 {
        decimal_digits(n as nat)
    } else {
        seq!['-'] + decimal_digits((-n) as nat)
    }
}

/// What `format!("{:02}:{:02}:{:02}", h, m, s)` writes.
pub open spec fn hms_text(h: int, m: int, s: int) -> Seq<char> {
    two_digits(h) + seq![':'] + two_digits(m) + seq![':'] + two_digits(s)
}

proof fn lemma_decimal_ascii(n: nat)
    ensures
        is_ascii_chars(decimal_digits(n)),
    decreases n,
{
    if n >= 10 {
        lemma_decimal_ascii(n / 10);
    }
}

/// Appends the decimal digits of `n` to `out`.
fn push_decimal(n: u64, out: &mut Vec<char>)
    ensures
        final(out)@ == old(out)@ + decimal_digits(n as nat),
    decreases n,
{
    if n >= 10 {
        push_decimal(n / 10, out);
    }
    let d = (n % 10) as u8;
    out.push((48u8 + d) as char);
    assert(old(out)@ + decimal_digits(n as nat) =~= final(out)@);
}

/// Appends `format!("{:02}", n)` to `out`.
fn push_two_digits(n: i32, out: &mut Vec<char>)
    ensures
        final(out)@ == old(out)@ + two_digits(n as int),
{
    if 0 <= n && n < 10 {
        out.push('0');
        out.push((48u8 + n as u8) as char);
        assert(final(out)@ =~= old(out)@ + two_digits(n as int));
    } else if n >= 0 {
        push_decimal(n as u64, out);
    } else {
        out.push('-');
        let a: u64 = (-(n as i64)) as u64;
        push_decimal(a, out);
        assert(final(out)@ =~= old(out)@ + two_digits(n as int));
    }
}

/// The clock text `HH:MM:SS` for an hour, minute and second.
pub fn format_hms(h: i32, m: i32, s: i32) -> (r: String)
    ensures
        r@ == hms_text(h as int, m as int, s as int),
{
    let mut cs: Vec<char> = Vec::new();
    push_two_digits(h, &mut cs);
    cs.push(':');
    push_two_digits(m, &mut cs);
    cs.push(':');
    push_two_digits(s, &mut cs);
    proof {
        assert(cs@ =~= hms_text(h as int, m as int, s as int));
        lemma_two_digits_ascii(h as int);
        lemma_two_digits_ascii(m as int);
        lemma_two_digits_ascii(s as int);
        assert(is_ascii_chars(cs@));
    }
    ascii_string(&cs)
}

proof fn lemma_two_digits_ascii(n: int)
    ensures
        is_ascii_chars(two_digits(n)),
{
    if n < 0 {
        lemma_decimal_ascii((-n) as nat);
    } else if n >= 10 {
        lemma_decimal_ascii(n as nat);
    }
}

// ── laws ──

/// A time of day, each part below 100, is shown as eight characters `HH:MM:SS`: two digits,
/// a colon, two digits, a colon, two digits.
pub proof fn lemma_hms_shape(h: int, m: int, s: int)
    requires
        0 <= h < 100,
        0 <= m < 100,
        0 <= s < 100,
    ensures
        hms_text(h, m, s).len() == 8,
        hms_text(h, m, s)[2] == ':',
        hms_text(h, m, s)[5] == ':',
        forall|i: int|
            0 <= i < 8 && i != 2 && i != 5 ==> '0' <= #[trigger] hms_text(h, m, s)[i] <= '9',
{
    lemma_two_digits_shape(h);
    lemma_two_digits_shape(m);
    lemma_two_digits_shape(s);
    let t = hms_text(h, m, s);
    assert forall|i: int| 0 <= i < 8 && i != 2 && i != 5 implies '0' <= #[trigger] t[i] <= '9' by {
        if i < 2 {
            assert(t[i] == two_digits(h)[i]);
        } else if i < 5 {
            assert(t[i] == two_digits(m)[i - 3]);
        } else {
            assert(t[i] == two_digits(s)[i - 6]);
        }
    }
}

proof fn lemma_two_digits_shape(n: int)
    requires
        0 <= n < 100,
    ensures
        two_digits(n).len() == 2,
        '0' <= two_digits(n)[0] <= '9',
        '0' <= two_digits(n)[1] <= '9',
{
    if n >= 10 {
        let k = n as nat;
        assert(decimal_digits(k / 10) == seq![digit_char(k / 10)]);
        assert(decimal_digits(k) == seq![digit_char(k / 10)].push(digit_char(k % 10)));
    }
}

} // verus!
