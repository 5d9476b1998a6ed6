// Small text helpers shared by the modules: character scanning, whitespace
// trimming, decimal integer parsing and UTF-8 conversion.

use vstd::prelude::*;
use vstd::utf8::*;

verus! {

broadcast use vstd::utf8::group_utf8_lib;

// ── whitespace and trimming ──

/// The Unicode `White_Space` characters, which `char::is_whitespace` accepts.
pub open spec fn is_space(c: char) -> bool {
    let u = c as u32;
    ||| 0x09 <= u <= 0x0d
    ||| u == 0x20
    ||| u == 0x85
    ||| u == 0xa0
    ||| u == 0x1680
    ||| 0x2000 <= u <= 0x200a
    ||| u == 0x2028
    ||| u == 0x2029
    ||| u == 0x202f
    ||| u == 0x205f
    ||| u == 0x3000
}

/// `s` without its leading whitespace.
pub open spec fn trim_start(s: Seq<char>) -> Seq<char>
    decreases s.len(),
{
    if s.len() > 0 && is_space(s[0]) {
        trim_start(s.drop_first())
    } else {
        s
    }
}

/// `s` without its trailing whitespace.
pub open spec fn trim_end(s: Seq<char>) -> Seq<char>
    decreases s.len(),
{
    if s.len() > 0 && is_space(s.last()) {
        trim_end(s.drop_last())
    } else {
        s
    }
}

/// `s` without leading and trailing whitespace, as `str::trim` gives it.
pub open spec fn trim(s: Seq<char>) -> Seq<char> {
    trim_end(trim_start(s))
}

/// Whether `c` is a whitespace character.
pub fn is_whitespace(c: char) -> (r: bool)
    ensures
        r == is_space(c),
{
    let u = c as u32;
    (0x09 <= u && u <= 0x0d) || u == 0x20 || u == 0x85 || u == 0xa0 || u == 0x1680 || (0x2000 <= u
        && u <= 0x200a) || u == 0x2028 || u == 0x2029 || u == 0x202f || u == 0x205f || u == 0x3000
}

/// The characters of a string slice, in order.
pub fn chars_of(s: &str) -> (r: Vec<char>)
    ensures
        r@ == s@,
{
    let mut out: Vec<char> = Vec::new();
    for c in it: s.chars()
        invariant
            out@ == it.seq().take(it.index() as int),
            it.seq() == s@,
    {
        out.push(c);
    }
    out
}

/// The bounds `(a, b)` of the trimmed part of `cs`: `cs[a..b]` is `cs` trimmed.
pub fn trim_bounds(cs: &Vec<char>) -> (r: (usize, usize))
    ensures
        r.0 <= r.1 <= cs@.len(),
        cs@.subrange(r.0 as int, r.1 as int) == trim(cs@),
{
    let len = cs.len();
    let mut a: usize = 0;
    assert(cs@.subrange(0, len as int) =~= cs@);
    while a < len && is_whitespace(cs[a])
        invariant
            a <= len == cs@.len(),
            trim_start(cs@) == trim_start(cs@.subrange(a as int, len as int)),
        decreases len - a,
    {
        assert(cs@.subrange(a as int, len as int).drop_first() =~= cs@.subrange(
            a + 1,
            len as int,
        ));
        a = a + 1;
    }
    let ghost front = cs@.subrange(a as int, len as int);
    assert(trim_start(front) == front);
    let mut b: usize = len;
    while b > a && is_whitespace(cs[b - 1])
        invariant
            a <= b <= len == cs@.len(),
            front == cs@.subrange(a as int, len as int),
            trim_end(front) == trim_end(cs@.subrange(a as int, b as int)),
        decreases b,
    {
        assert(cs@.subrange(a as int, b as int).drop_last() =~= cs@.subrange(
            a as int,
            b - 1,
        ));
        b = b - 1;
    }
    (a, b)
}

// ── decimal integers ──

pub open spec fn is_digit(c: char) -> bool {
    '0' <= c <= '9'
}

pub open spec fn digit_value(c: char) -> int {
    c as int - '0' as int
}

pub open spec fn all_digits(d: Seq<char>) -> bool {
    forall|i: int| 0 <= i < d.len() ==> is_digit(#[trigger] d[i])
}

/// The number that a run of decimal digits denotes.
pub open spec fn digits_value(d: Seq<char>) -> int
    decreases d.len(),
{
    if d.len() == 0 {
        0
    } else {
        digits_value(d.drop_last()) * 10 + digit_value(d.last())
    }
}

/// The integer that `t` spells: an optional `+` or `-`, then at least one ASCII digit,
/// and nothing else.
pub open spec fn decimal_value(t: Seq<char>) -> Option<int> {
    if t.len() == 0 {
        None
    } else if t[0] == '+' || t[0] == '-' {
        let d = t.drop_first();
        if d.len() > 0 && all_digits(d) {
            Some(
                if t[0] == '-' {
                    -digits_value(d)
                } else {
                    digits_value(d)
                },
            )
        } else {
            None
        }
    } else if all_digits(t) {
        Some(digits_value(t))
    } else {
        None
    }
}

/// What `s.trim().parse::<i64>()` gives.
pub open spec fn parsed_i64(s: Seq<char>) -> Option<i64> {
    match decimal_value(trim(s)) {
        Some(v) => if i64::MIN <= v <= i64::MAX {
            Some(v as i64)
        } else {
            None
        },
        None => None,
    }
}

/// What `s.trim().parse::<i32>()` gives.
pub open spec fn parsed_i32(s: Seq<char>) -> Option<i32> {
    match decimal_value(trim(s)) {
        Some(v) => if i32::MIN <= v <= i32::MAX {
            Some(v as i32)
        } else {
            None
        },
        None => None,
    }
}

proof fn lemma_digits_nonneg(d: Seq<char>)
    requires
        all_digits(d),
    ensures
        digits_value(d) >= 0,
    decreases d.len(),
{
    if d.len() > 0 {
        assert(is_digit(d[d.len() - 1]));
        lemma_digits_nonneg(d.drop_last());
    }
}

/// A prefix of a digit run never denotes more than the whole run.
proof fn lemma_digits_prefix_le(d: Seq<char>, k: int)
    requires
        all_digits(d),
        0 <= k <= d.len(),
    ensures
        digits_value(d.subrange(0, k)) <= digits_value(d),
    decreases d.len(),
{
    if k < d.len() {
        let p = d.drop_last();
        assert(p.subrange(0, k) =~= d.subrange(0, k));
        lemma_digits_prefix_le(p, k);
        lemma_digits_nonneg(p);
        assert(is_digit(d[d.len() - 1]));
    } else {
        assert(d.subrange(0, k) =~= d);
    }
}

/// The value of the digits `cs[start..end]`, or `None` when one of them is not a digit
/// or the value exceeds `u64::MAX`.
fn digits_u64(cs: &Vec<char>, start: usize, end: usize) -> (r: Option<u64>)
    requires
        start <= end <= cs@.len(),
    ensures
        r matches Some(v) ==> all_digits(cs@.subrange(start as int, end as int)) && v
            == digits_value(cs@.subrange(start as int, end as int)),
        r is None ==> !all_digits(cs@.subrange(start as int, end as int)) || digits_value(
            cs@.subrange(start as int, end as int),
        ) > u64::MAX,
{
    let ghost d = cs@.subrange(start as int, end as int);
    let mut acc: u64 = 0;
    let mut i: usize = start;
    while i < end
        invariant
            start <= i <= end <= cs@.len(),
            d == cs@.subrange(start as int, end as int),
            all_digits(cs@.subrange(start as int, i as int)),
            acc == digits_value(cs@.subrange(start as int, i as int)),
        decreases end - i,
    {
        let c = cs[i];
        let ghost pre = cs@.subrange(start as int, i as int);
        let ghost next = cs@.subrange(start as int, i + 1);
        assert(next.drop_last() =~= pre);
        assert(d.subrange(0, i - start) =~= pre);
        assert(d.subrange(0, i + 1 - start) =~= next);
        if !('0' <= c && c <= '9') {
            assert(d[i - start] == c);
            return None;
        }
        let dv = (c as u32 - '0' as u32) as u64;
        assert(all_digits(next)) by {
            assert forall|j: int| 0 <= j < next.len() implies is_digit(#[trigger] next[j]) by {
                if j < pre.len() {
                    assert(next[j] == pre[j]);
                }
            }
        }
        if acc > (u64::MAX - dv) / 10 {
            assert(digits_value(next) > u64::MAX);
            proof {
                if all_digits(d) {
                    lemma_digits_prefix_le(d, i + 1 - start);
                }
            }
            return None;
        }
        acc = acc * 10 + dv;
        i = i + 1;
    }
    Some(acc)
}

/// `s.trim().parse::<i64>().ok()`: the integer that `s` spells once surrounding whitespace
/// is dropped, or `None` when it spells none or the value does not fit in an `i64`.
pub fn parse_i64(s: &str) -> (r: Option<i64>)
    ensures
        r == parsed_i64(s@),
{
    let cs = chars_of(s);
    let (a, b) = trim_bounds(&cs);
    let ghost t = cs@.subrange(a as int, b as int);
    if a == b {
        return None;
    }
    let first = cs[a];
    let negative = first == '-';
    let start = if first == '+' || first == '-' {
        a + 1
    } else {
        a
    };
    if (first == '+' || first == '-') && start == b {
        return None;
    }
    assert(t.drop_first() =~= cs@.subrange(a + 1, b as int));
    assert(t[0] == first);
    assert(start == a ==> t =~= cs@.subrange(start as int, b as int));
    match digits_u64(&cs, start, b) {
        None => {
            proof {
                let d = cs@.subrange(start as int, b as int);
                if all_digits(d) {
                    lemma_digits_nonneg(d);
                }
            }
            None
        },
        Some(v) => {
            if negative {
                if v <= 0x8000_0000_0000_0000u64 {
                    if v == 0x8000_0000_0000_0000u64 {
                        Some(i64::MIN)
                    } else {
                        Some(-(v as i64))
                    }
                } else {
                    None
                }
            } else if v <= i64::MAX as u64 {
                Some(v as i64)
            } else {
                None
            }
        },
    }
}

/// `s.trim().parse::<i32>().ok()`: the integer that `s` spells once surrounding whitespace
/// is dropped, or `None` when it spells none or the value does not fit in an `i32`.
pub fn parse_int(s: &str) -> (r: Option<i32>)
    ensures
        r == parsed_i32(s@),
{
    match parse_i64(s) {
        Some(v) => {
            if i32::MIN as i64 <= v && v <= i32::MAX as i64 {
                Some(v as i32)
            } else {
                None
            }
        },
        None => None,
    }
}

// ── byte order ──

/// The little-endian bytes of `x`.
pub open spec fn le_bytes(x: u32) -> Seq<u8> {
    seq![
        (x % 256) as u8,
        ((x / 256) % 256) as u8,
        ((x / 65536) % 256) as u8,
        ((x / 16777216) % 256) as u8,
    ]
}

/// The number that four bytes spell in little-endian order.
pub open spec fn le_value(b: Seq<u8>) -> int {
    b[0] + b[1] * 256 + b[2] * 65536 + b[3] * 16777216
}

/// The big-endian bytes of `x`.
pub open spec fn be_bytes(x: u32) -> Seq<u8> {
    le_bytes(x).reverse()
}

/// The number that four bytes spell in big-endian order.
pub open spec fn be_value(b: Seq<u8>) -> int {
    le_value(b.reverse())
}

// ── UTF-8 ──

/// Calls `String::from_utf8`. Its documentation states that it fails exactly when the bytes
/// are not valid UTF-8; on success the string holds the characters that the bytes encode.
#[verifier::external_body]
pub(crate) fn string_from_utf8(bytes: Vec<u8>) -> (r: Option<String>)
    ensures
        r is Some <==> valid_utf8(bytes@),
        r matches Some(s) ==> s@ == decode_utf8(bytes@),
{
    String::from_utf8(bytes).ok()
}

/// A `String` holding the ASCII characters `cs`.
pub fn ascii_string(cs: &Vec<char>) -> (r: String)
    requires
        is_ascii_chars(cs@),
    ensures
        r@ == cs@,
{
    let mut bytes: Vec<u8> = Vec::new();
    let n = cs.len();
    for i in 0..n
        invariant
            n == cs@.len(),
            is_ascii_chars(cs@),
            bytes@.len() == i,
            forall|j: int| 0 <= j < i ==> bytes@[j] == cs@[j] as u8,
    {
        bytes.push(cs[i] as u8);
    }
    proof {
        assert(bytes@ =~= encode_utf8(cs@));
    }
    match string_from_utf8(bytes) {
        Some(s) => s,
        None => {
            assert(false);
            String::new()
        },
    }
}

} // verus!
