//! Rendering of numbers and number lists into message text.

use vstd::prelude::*;
use vstd::string::*;

verus! {

/// The decimal digit `d`.
pub open spec fn digit(d: int) -> char {
    if d == 0 { '0' }
    else if d == 1 { '1' }
    else if d == 2 { '2' }
    else if d == 3 { '3' }
    else if d == 4 { '4' }
    else if d == 5 { '5' }
    else if d == 6 { '6' }
    else if d == 7 { '7' }
    else if d == 8 { '8' }
    else { '9' }
}

/// `n` in decimal, without leading zeros.
pub open spec fn dec(n: nat) -> Seq<char>
    decreases n,
{
    if n < 10 {
        seq![digit(n as int)]
    } else {
        dec(n / 10).push(digit((n % 10) as int))
    }
}

/// A signed `n` in decimal: a minus sign before the magnitude of a negative.
pub open spec fn dec_int(n: int) -> Seq<char> {
    if n < 0 {
        "-"@ + dec((-n) as nat)
    } else {
        dec(n as nat)
    }
}

/// The first `k` numbers of `s` in decimal, separated by a comma and a space.
pub open spec fn dec_items(s: Seq<nat>, k: nat) -> Seq<char>
    decreases k,
{
    if k == 0 {
        Seq::empty()
    } else if k == 1 {
        dec(s[0])
    } else {
        dec_items(s, (k - 1) as nat) + ", "@ + dec(s[k - 1])
    }
}

/// All of `s` as a bracketed list.
pub open spec fn dec_list(s: Seq<nat>) -> Seq<char> {
    "["@ + dec_items(s, s.len()) + "]"@
}

/// The numbers of a `usize` sequence as naturals.
pub open spec fn nats(s: Seq<usize>) -> Seq<nat> {
    Seq::new(s.len(), |i: int| s[i] as nat)
}

/// The numbers of a `u64` sequence as naturals.
pub open spec fn nats64(s: Seq<u64>) -> Seq<nat> {
    Seq::new(s.len(), |i: int| s[i] as nat)
}

/// `Some(n)` or `None`, as an optional number is written in messages.
pub open spec fn dec_option(n: Option<usize>) -> Seq<char> {
    match n {
        Some(n) => "Some("@ + dec(n as nat) + ")"@,
        None => "None"@,
    }
}

fn digit_str(d: u64) -> (s: &'static str)
    requires
        d < 10,
    ensures
        s@ == seq![digit(d as int)],
{
    proof {
        reveal_strlit("0");
        reveal_strlit("1");
        reveal_strlit("2");
        reveal_strlit("3");
        reveal_strlit("4");
        reveal_strlit("5");
        reveal_strlit("6");
        reveal_strlit("7");
        reveal_strlit("8");
        reveal_strlit("9");
    }
    if d == 0 { "0" }
    else if d == 1 { "1" }
    else if d == 2 { "2" }
    else if d == 3 { "3" }
    else if d == 4 { "4" }
    else if d == 5 { "5" }
    else if d == 6 { "6" }
    else if d == 7 { "7" }
    else if d == 8 { "8" }
    else { "9" }
}

/// Renders `n` in decimal.
pub fn dec_string(n: u64) -> (s: String)
    ensures
        s@ == dec(n as nat),
    decreases n,
{
    if n < 10 {
        digit_str(n).to_owned()
    } else {
        let mut s = dec_string(n / 10);
        s.append(digit_str(n % 10));
        assert(s@ =~= dec(n as nat));
        s
    }
}

/// Renders a signed `n` in decimal.
pub fn dec_int_string(n: i64) -> (s: String)
    ensures
        s@ == dec_int(n as int),
{
    if n < 0 {
        let magnitude: u64 = (-(n + 1)) as u64 + 1;
        let mut s = "-".to_owned();
        s.append(dec_string(magnitude).as_str());
        s
    } else {
        dec_string(n as u64)
    }
}

/// Renders a list of numbers in brackets.
pub fn dec_list_string(items: &[usize]) -> (s: String)
    ensures
        s@ == dec_list(nats(items@)),
{
    let mut s = "[".to_owned();
    let mut i: usize = 0;
    while i < items.len()
        invariant
            i <= items@.len(),
            s@ =~= "["@ + dec_items(nats(items@), i as nat),
        decreases items@.len() - i,
    {
        if i > 0 {
            s.append(", ");
        }
        s.append(dec_string(items[i] as u64).as_str());
        i = i + 1;
    }
    s.append("]");
    s
}

/// Renders a list of 64-bit numbers in brackets.
pub fn dec_list64_string(items: &[u64]) -> (s: String)
    ensures
        s@ == dec_list(nats64(items@)),
{
    let mut s = "[".to_owned();
    let mut i: usize = 0;
    while i < items.len()
        invariant
            i <= items@.len(),
            s@ =~= "["@ + dec_items(nats64(items@), i as nat),
        decreases items@.len() - i,
    {
        if i > 0 {
            s.append(", ");
        }
        s.append(dec_string(items[i]).as_str());
        i = i + 1;
    }
    s.append("]");
    s
}

/// Renders an optional number.
pub fn dec_option_string(n: Option<usize>) -> (s: String)
    ensures
        s@ == dec_option(n),
{
    match n {
        Some(n) => {
            let mut s = "Some(".to_owned();
            s.append(dec_string(n as u64).as_str());
            s.append(")");
            s
        }
        None => "None".to_owned(),
    }
}

/// Different numbers are written differently.
pub proof fn law_decimals_are_distinct(a: nat, b: nat)
    requires
        dec(a) == dec(b),
    ensures
        a == b,
    decreases a,
{
    lemma_dec_length(a);
    lemma_dec_length(b);
    if a < 10 {
        assert(b < 10);
        assert(dec(a)[0] == digit(a as int));
        assert(dec(b)[0] == digit(b as int));
    } else {
        assert(dec(a).last() == dec(b).last());
        assert(dec(a).last() == digit((a % 10) as int));
        assert(dec(b).last() == digit((b % 10) as int));
        assert(a % 10 == b % 10);
        assert(dec(a).drop_last() =~= dec(a / 10));
        assert(dec(b).drop_last() =~= dec(b / 10));
        law_decimals_are_distinct(a / 10, b / 10);
    }
}

proof fn lemma_dec_length(n: nat)
    ensures
        dec(n).len() >= 1,
        dec(n).len() == 1 <==> n < 10,
    decreases n,
{
    if n >= 10 {
        lemma_dec_length(n / 10);
    }
}

/// The value of a decimal digit.
pub open spec fn digit_value(c: char) -> Option<nat> {
    if '0' <= c <= '9' {
        Some((c as int - '0' as int) as nat)
    } else {
        None
    }
}

/// The number that a text of decimal digits stands for.
pub open spec fn digits_value(s: Seq<char>) -> Option<nat>
    decreases s.len(),
{
    if s.len() == 0 {
        Some(0)
    } else {
        match (digits_value(s.drop_last()), digit_value(s.last())) {
            (Some(high), Some(low)) => Some(high * 10 + low),
            _ => None,
        }
    }
}

/// The digits of a number that may have a plus sign.
pub open spec fn unsigned_part(s: Seq<char>) -> Seq<char> {
    if s.len() > 0 && s[0] == '+' {
        s.subrange(1, s.len() as int)
    } else {
        s
    }
}

/// The number that a text stands for: a plus sign or none, then one digit or
/// more, of a number that fits.
pub open spec fn parsed(s: Seq<char>) -> Option<usize> {
    let digits = unsigned_part(s);
    if digits.len() == 0 {
        None
    } else {
        match digits_value(digits) {
            Some(value) => if value <= usize::MAX {
                Some(value as usize)
            } else {
                None
            },
            None => None,
        }
    }
}

/// A text whose first characters are no number, or one that does not fit, is
/// none itself.
proof fn lemma_digits_prefix(s: Seq<char>, k: int)
    requires
        0 <= k <= s.len(),
        digits_value(s) is Some,
    ensures
        digits_value(s.subrange(0, k)) matches Some(value) && value <= digits_value(s)->0,
    decreases s.len() - k,
{
    if k == s.len() {
        assert(s.subrange(0, k) =~= s);
    } else {
        lemma_digits_prefix(s.drop_last(), k);
        assert(s.drop_last().subrange(0, k) =~= s.subrange(0, k));
    }
}

/// Reads a number.
pub fn parse_usize(s: &str) -> (value: Option<usize>)
    ensures
        value == parsed(s@),
{
    let n = s.unicode_len();
    let start: usize = if n > 0 && s.get_char(0) == '+' { 1 } else { 0 };
    let ghost digits = unsigned_part(s@);
    if start >= n {
        return None;
    }
    let mut value: usize = 0;
    let mut i: usize = start;
    assert(digits.subrange(0, 0) =~= Seq::empty());
    while i < n
        invariant
            start <= i <= n,
            start <= 1,
            n == s@.len(),
            digits == s@.subrange(start as int, n as int),
            digits == unsigned_part(s@),
            digits.len() > 0,
            digits_value(digits.subrange(0, i - start)) == Some(value as nat),
        decreases n - i,
    {
        let c = s.get_char(i);
        let ghost before = digits.subrange(0, i - start);
        let ghost after = digits.subrange(0, i - start + 1);
        proof {
            assert(after.drop_last() =~= before);
            assert(after.last() == c);
        }
        if c < '0' || c > '9' {
            proof {
                if digits_value(digits) is Some {
                    lemma_digits_prefix(digits, i - start + 1);
                }
            }
            return None;
        }
        let low: usize = (c as u32 - '0' as u32) as usize;
        if value > usize::MAX / 10 || value * 10 > usize::MAX - low {
            proof {
                assert(digits_value(after) == Some(value as nat * 10 + low as nat));
                assert(value * 10 + low > usize::MAX);
                if digits_value(digits) is Some {
                    lemma_digits_prefix(digits, i - start + 1);
                }
            }
            return None;
        }
        value = value * 10 + low;
        i = i + 1;
    }
    assert(digits.subrange(0, i - start) =~= digits);
    Some(value)
}

/// A number that is written and read back is the same, with a plus sign before it
/// or without, as long as it fits.
pub proof fn law_written_numbers_read_back(n: nat)
    ensures
        digits_value(dec(n)) == Some(n),
        parsed(dec(n)) == if n <= usize::MAX {
            Some(n as usize)
        } else {
            None
        },
        parsed(seq!['+'] + dec(n)) == parsed(dec(n)),
    decreases n,
{
    lemma_dec_digits(n);
    lemma_dec_length(n);
    assert((seq!['+'] + dec(n)).subrange(1, (1 + dec(n).len()) as int) =~= dec(n));
    assert(dec(n)[0] != '+') by {
        lemma_dec_no_sign(n);
    }
}

proof fn lemma_dec_digits(n: nat)
    ensures
        digits_value(dec(n)) == Some(n),
    decreases n,
{
    if n < 10 {
        assert(dec(n).drop_last() =~= Seq::<char>::empty());
        assert(dec(n).last() == digit(n as int));
        assert(digits_value(Seq::<char>::empty()) == Some(0nat));
    } else {
        lemma_dec_digits(n / 10);
        assert(dec(n).drop_last() =~= dec(n / 10));
        assert(dec(n).last() == digit((n % 10) as int));
    }
}

proof fn lemma_dec_no_sign(n: nat)
    ensures
        dec(n).len() > 0,
        dec(n)[0] != '+',
    decreases n,
{
    if n >= 10 {
        lemma_dec_no_sign(n / 10);
    }
}

/// A text is a number only where it has a digit, and nothing but digits after a
/// sign that it may have.
pub proof fn law_only_digits_are_numbers(s: Seq<char>, i: int)
    requires
        parsed(s) is Some,
        0 <= i < s.len(),
    ensures
        '0' <= s[i] <= '9' || (i == 0 && s[i] == '+' && s.len() > 1),
{
    let digits = unsigned_part(s);
    let at = if digits.len() == s.len() { i } else { i - 1 };
    if at >= 0 {
        assert(digits[at] == s[i]);
        lemma_digits_prefix(digits, at + 1);
        assert(digits.subrange(0, at + 1).last() == digits[at]);
    }
}

/// A digit more makes ten times the number, and the digit.
pub proof fn law_digits_are_places(s: Seq<char>, n: nat, d: nat)
    requires
        digits_value(s) == Some(n),
        d < 10,
    ensures
        digits_value(s.push((('0' as int + d) as u8) as char)) == Some(10 * n + d),
{
    let c = (('0' as int + d) as u8) as char;
    assert(s.push(c).drop_last() =~= s);
    assert(s.push(c).last() == c);
}

/// A negative number is written with a minus sign before its magnitude, and no
/// other is: what is written tells signed numbers apart.
pub proof fn law_signed_numbers_are_told_apart(a: int, b: int)
    requires
        dec_int(a) == dec_int(b),
    ensures
        a == b,
        a >= 0 ==> digits_value(dec_int(a)) == Some(a as nat),
        a < 0 ==> digits_value(dec_int(a).subrange(1, dec_int(a).len() as int)) == Some((-a) as nat) && dec_int(a)[0]
            == '-',
{
    reveal_strlit("-");
    lemma_signed_digits(a);
    lemma_signed_digits(b);
    if a >= 0 && b < 0 {
        lemma_digits_only(dec_int(a));
    }
    if b >= 0 && a < 0 {
        lemma_digits_only(dec_int(b));
    }
}

proof fn lemma_digits_only(s: Seq<char>)
    requires
        digits_value(s) is Some,
    ensures
        s.len() > 0 ==> s[0] != '-',
{
    if s.len() > 0 {
        lemma_digits_prefix(s, 1);
        assert(s.subrange(0, 1).last() == s[0]);
    }
}

proof fn lemma_signed_digits(a: int)
    ensures
        a >= 0 ==> digits_value(dec_int(a)) == Some(a as nat),
        a < 0 ==> digits_value(dec_int(a).subrange(1, dec_int(a).len() as int)) == Some((-a) as nat) && dec_int(a)[0]
            == '-',
{
    reveal_strlit("-");
    if a >= 0 {
        lemma_dec_digits(a as nat);
    } else {
        lemma_dec_digits((-a) as nat);
        assert(dec_int(a).subrange(1, dec_int(a).len() as int) =~= dec((-a) as nat));
    }
}

} // verus!
