//! Text as it appears on the wire: letter case, white space, decimal numbers
//! and the split of a request target at its query string.
//!
//! Every definition works on characters; the executable functions walk `&str`
//! in one pass.

use vstd::prelude::*;
use vstd::string::*;
use vstd::utf8::*;

verus! {

/// The code of `c` with the ASCII capital letters folded onto the small ones.
pub open spec fn folded(c: char) -> u32 {
    if 'A' <= c && c <= 'Z' {
        (c as u32 + 32) as u32
    } else {
        c as u32
    }
}

/// Two strings are the same when ASCII letter case is ignored.
pub open spec fn same_ignoring_case(a: Seq<char>, b: Seq<char>) -> bool {
    &&& a.len() == b.len()
    &&& forall|i: int| 0 <= i < a.len() ==> folded(#[trigger] a[i]) == folded(b[i])
}

fn fold(c: char) -> (code: u32)
    ensures
        code == folded(c),
{
    if 'A' <= c && c <= 'Z' {
        c as u32 + 32
    } else {
        c as u32
    }
}

/// Compares two strings without regard to ASCII letter case.
pub fn eq_ignore_ascii_case(a: &str, b: &str) -> (same: bool)
    ensures
        same == same_ignoring_case(a@, b@),
{
    let mut left = a.chars();
    let mut right = b.chars();
    let ghost mut seen: int = 0;
    loop
        invariant
            0 <= seen <= a@.len(),
            seen <= b@.len(),
            vstd::std_specs::iter::IteratorSpec::remaining(&left) == a@.skip(seen),
            vstd::std_specs::iter::IteratorSpec::remaining(&right) == b@.skip(seen),
            forall|i: int| 0 <= i < seen ==> folded(#[trigger] a@[i]) == folded(b@[i]),
        decreases a@.len() - seen,
    {
        match (left.next(), right.next()) {
            (Some(x), Some(y)) => {
                assert(x == a@[seen] && y == b@[seen]);
                if fold(x) != fold(y) {
                    return false;
                }
                proof {
                    assert(a@.skip(seen).drop_first() =~= a@.skip(seen + 1));
                    assert(b@.skip(seen).drop_first() =~= b@.skip(seen + 1));
                    seen = seen + 1;
                }
            },
            (None, None) => {
                return true;
            },
            _ => {
                return false;
            },
        }
    }
}

/// The characters that count as white space: the Unicode property
/// `White_Space`.
pub open spec fn is_white_space(c: char) -> bool {
    let code = c as u32;
    ||| 0x09 <= code <= 0x0D
    ||| code == 0x20
    ||| code == 0x85
    ||| code == 0xA0
    ||| code == 0x1680
    ||| 0x2000 <= code <= 0x200A
    ||| code == 0x2028
    ||| code == 0x2029
    ||| code == 0x202F
    ||| code == 0x205F
    ||| code == 0x3000
}

/// `s` without the white space at its two ends.
pub open spec fn trimmed(s: Seq<char>) -> Seq<char>
    decreases s.len(),
{
    if s.len() > 0 && is_white_space(s.first()) {
        trimmed(s.drop_first())
    } else if s.len() > 0 && is_white_space(s.last()) {
        trimmed(s.drop_last())
    } else {
        s
    }
}

proof fn lemma_trimmed_skips_leading(s: Seq<char>, k: int)
    requires
        0 <= k <= s.len(),
        forall|i: int| 0 <= i < k ==> is_white_space(#[trigger] s[i]),
    ensures
        trimmed(s) == trimmed(s.skip(k)),
    decreases k,
{
    if k > 0 {
        assert(s.skip(k) =~= s.drop_first().skip(k - 1));
        lemma_trimmed_skips_leading(s.drop_first(), k - 1);
    } else {
        assert(s.skip(0) =~= s);
    }
}

proof fn lemma_trimmed_drops_trailing(s: Seq<char>, end: int)
    requires
        0 < end <= s.len(),
        !is_white_space(s[0]),
        !is_white_space(s[end - 1]),
        forall|i: int| end <= i < s.len() ==> is_white_space(#[trigger] s[i]),
    ensures
        trimmed(s) == s.take(end),
    decreases s.len() - end,
{
    if end < s.len() {
        assert(is_white_space(s[s.len() - 1]));
        lemma_trimmed_drops_trailing(s.drop_last(), end);
        assert(s.drop_last().take(end) =~= s.take(end));
    } else {
        assert(s.take(end) =~= s);
    }
}

fn white_space(c: char) -> (yes: bool)
    ensures
        yes == is_white_space(c),
{
    let code: u32 = c as u32;
    (0x09 <= code && code <= 0x0D) || code == 0x20 || code == 0x85 || code == 0xA0 || code == 0x1680
        || (0x2000 <= code && code <= 0x200A) || code == 0x2028 || code == 0x2029 || code == 0x202F
        || code == 0x205F || code == 0x3000
}

/// Returns `s` without the white space at its two ends.
pub fn trim(s: &str) -> (inner: &str)
    ensures
        inner@ == trimmed(s@),
{
    let length: usize = s.unicode_len();
    let mut rest = s.chars();
    let mut index: usize = 0;
    let mut from: usize = 0;
    let mut to: usize = 0;
    while index < length
        invariant
            length == s@.len(),
            from <= to <= index <= length,
            vstd::std_specs::iter::IteratorSpec::remaining(&rest) == s@.skip(index as int),
            forall|i: int| 0 <= i < from ==> is_white_space(#[trigger] s@[i]),
            forall|i: int| to <= i < index ==> is_white_space(#[trigger] s@[i]),
            from == to ==> to == index,
            from < to ==> !is_white_space(s@[from as int]) && !is_white_space(s@[to - 1]),
        decreases length - index,
    {
        if let Some(c) = rest.next() {
            assert(c == s@[index as int]);
            assert(s@.skip(index as int).drop_first() =~= s@.skip(index + 1));
            if white_space(c) {
                if from == to {
                    from = from + 1;
                    to = to + 1;
                }
            } else {
                to = index + 1;
            }
        }
        index = index + 1;
    }
    proof {
        lemma_trimmed_skips_leading(s@, from as int);
        if from < to {
            lemma_trimmed_drops_trailing(s@.skip(from as int), to - from);
        }
        assert(s@.subrange(from as int, to as int) =~= s@.skip(from as int).take(to - from));
    }
    s.substring_char(from, to)
}

/// The place of the first `c` in `s`, or the length of `s` where there is none.
pub open spec fn first_index(s: Seq<char>, c: char) -> int
    decreases s.len(),
{
    if s.len() == 0 || s.first() == c {
        0
    } else {
        1 + first_index(s.drop_first(), c)
    }
}

/// `s` parted at its first `c`, which belongs to neither half. The second half
/// is empty where `s` holds no `c`.
pub open spec fn parted(s: Seq<char>, c: char) -> (Seq<char>, Seq<char>) {
    let i = first_index(s, c);
    if i < s.len() {
        (s.take(i), s.skip(i + 1))
    } else {
        (s, Seq::empty())
    }
}

proof fn lemma_first_index(s: Seq<char>, c: char, k: int)
    requires
        0 <= k <= s.len(),
        forall|i: int| 0 <= i < k ==> #[trigger] s[i] != c,
        k < s.len() ==> s[k] == c,
    ensures
        first_index(s, c) == k,
    decreases s.len(),
{
    if k > 0 {
        assert forall|i: int| 0 <= i < k - 1 implies #[trigger] s.drop_first()[i] != c by {
            assert(s[i + 1] != c);
        }
        lemma_first_index(s.drop_first(), c, k - 1);
    }
}

/// Parts `s` at its first `c`.
pub fn split_once(s: &str, c: char) -> (halves: (&str, &str))
    ensures
        (halves.0@, halves.1@) == parted(s@, c),
{
    let length: usize = s.unicode_len();
    let mut rest = s.chars();
    let mut index: usize = 0;
    while index < length
        invariant
            length == s@.len(),
            index <= length,
            vstd::std_specs::iter::IteratorSpec::remaining(&rest) == s@.skip(index as int),
            forall|i: int| 0 <= i < index ==> #[trigger] s@[i] != c,
        decreases length - index,
    {
        let next = rest.next();
        assert(next == Some(s@[index as int]));
        if next == Some(c) {
            let before = s.substring_char(0, index);
            let after = s.substring_char(index + 1, length);
            proof {
                lemma_first_index(s@, c, index as int);
                assert(before@ =~= s@.take(index as int));
                assert(after@ =~= s@.skip(index + 1));
            }
            return (before, after);
        }
        assert(s@.skip(index as int).drop_first() =~= s@.skip(index + 1));
        index = index + 1;
    }
    let after = s.substring_char(length, length);
    proof {
        lemma_first_index(s@, c, length as int);
        assert(after@ =~= Seq::<char>::empty());
    }
    (s, after)
}

/// `core::str::Utf8Error`, which says where a byte sequence stops being UTF-8.
/// The library only carries it.
#[verifier::external_type_specification]
#[verifier::external_body]
pub struct ExUtf8Error(core::str::Utf8Error);

/// `core::str::from_utf8` borrows `v` as a string where, and only where, `v` is
/// UTF-8 throughout; the string then holds the characters that `v` encodes.
pub assume_specification<'a>[ core::str::from_utf8 ](v: &'a [u8]) -> (decoded: Result<
    &'a str,
    core::str::Utf8Error,
>)
    ensures
        match decoded {
            Ok(s) => valid_utf8(v@) && s@ == decode_utf8(v@),
            Err(_) => !valid_utf8(v@),
        },
;

/// The decimal digit that stands for `d`.
pub open spec fn digit(d: int) -> char {
    (48 + d) as char
}

/// `n` in decimal, without leading zeros.
pub open spec fn decimal(n: nat) -> Seq<char>
    decreases n,
{
    if n < 10 {
        seq![digit(n as int)]
    } else {
        decimal(n / 10).push(digit((n % 10) as int))
    }
}

/// `n` in decimal, behind a minus sign where it is negative.
pub open spec fn signed_decimal(n: int) -> Seq<char> {
    if n < 0 {
        seq!['-'] + decimal((-n) as nat)
    } else {
        decimal(n as nat)
    }
}

fn digit_text(d: u64) -> (text: &'static str)
    requires
        d < 10,
    ensures
        text@ == seq![digit(d as int)],
{
    proof {
        reveal_strlit("0");
        reveal_strlit("1");
        reveal_strlit("2");
        reveal_strlit("3");
        reveal_strlit("4");
        reveal_strlit("5");
        reveal_strlit("6");
        reveal_strlit("7");
        reveal_strlit("8");
        reveal_strlit("9");
    }
    match d {
        0 => "0",
        1 => "1",
        2 => "2",
        3 => "3",
        4 => "4",
        5 => "5",
        6 => "6",
        7 => "7",
        8 => "8",
        _ => "9",
    }
}

/// Writes `n` in decimal.
pub fn decimal_text(n: u64) -> (text: String)
    ensures
        text@ == decimal(n as nat),
    decreases n,
{
    if n < 10 {
        digit_text(n).to_owned()
    } else {
        let mut text = decimal_text(n / 10);
        text.append(digit_text(n % 10));
        text
    }
}

/// Writes `n` in decimal, behind a minus sign where it is negative.
pub fn signed_decimal_text(n: i64) -> (text: String)
    ensures
        text@ == signed_decimal(n as int),
{
    if n >= 0 {
        decimal_text(n as u64)
    } else {
        let magnitude: u64 = ((-(n + 1)) as u64) + 1;
        let mut text = "-".to_owned();
        proof {
            reveal_strlit("-");
        }
        text.append(decimal_text(magnitude).as_str());
        text
    }
}

/// `c` is one of the ten ASCII digits.
pub open spec fn is_digit(c: char) -> bool {
    '0' <= c && c <= '9'
}

/// What a row of digits amounts to.
pub open spec fn digits_value(s: Seq<char>) -> nat
    decreases s.len(),
{
    if s.len() == 0 {
        0
    } else {
        10 * digits_value(s.drop_last()) + (s.last() as u32 - 48) as nat
    }
}

/// The digits of an unsigned number: what stands behind an optional plus sign.
pub open spec fn unsigned_digits(s: Seq<char>) -> Seq<char> {
    if s.len() > 0 && s.first() == '+' {
        s.drop_first()
    } else {
        s
    }
}

/// The number that `s` denotes: an optional plus sign and at least one digit,
/// with nothing else around them.
pub open spec fn unsigned_value(s: Seq<char>) -> Option<nat> {
    let digits = unsigned_digits(s);
    if digits.len() > 0 && forall|i: int| 0 <= i < digits.len() ==> is_digit(#[trigger] digits[i]) {
        Some(digits_value(digits))
    } else {
        None
    }
}

proof fn lemma_digits_value_grows(s: Seq<char>, k: int)
    requires
        0 <= k <= s.len(),
    ensures
        digits_value(s.take(k)) <= digits_value(s),
    decreases s.len() - k,
{
    if k < s.len() {
        lemma_digits_value_grows(s.drop_last(), k);
        assert(s.drop_last().take(k) =~= s.take(k));
    } else {
        assert(s.take(k) =~= s);
    }
}

/// Reads an unsigned number that fits a `usize`.
pub fn parse_usize(s: &str) -> (number: Option<usize>)
    ensures
        match unsigned_value(s@) {
            Some(n) if n <= usize::MAX => number == Some(n as usize),
            _ => number is None,
        },
{
    let length: usize = s.unicode_len();
    let mut rest = s.chars();
    let mut index: usize = 0;
    let mut value: usize = 0;
    let ghost digits = unsigned_digits(s@);
    if length > 0 && s.get_char(0) == '+' {
        let _plus = rest.next();
        assert(s@.drop_first() =~= s@.skip(1));
        index = 1;
    } else {
        assert(s@.skip(0) =~= s@);
    }
    let ghost start = index as int;
    if index == length {
        return None;
    }
    assert(digits =~= s@.skip(start));
    assert(digits.take(0) =~= Seq::<char>::empty());
    while index < length
        invariant
            length == s@.len(),
            0 <= start <= index <= length,
            start < length,
            digits == unsigned_digits(s@),
            digits == s@.skip(start),
            vstd::std_specs::iter::IteratorSpec::remaining(&rest) == s@.skip(index as int),
            forall|i: int| 0 <= i < index - start ==> is_digit(#[trigger] digits[i]),
            value == digits_value(digits.take(index - start)),
        decreases length - index,
    {
        let next = rest.next();
        assert(next == Some(s@[index as int]));
        assert(s@[index as int] == digits[index - start]);
        assert(s@.skip(index as int).drop_first() =~= s@.skip(index + 1));
        let ghost longer = digits.take(index - start + 1);
        assert(longer.drop_last() =~= digits.take(index - start));
        proof {
            lemma_digits_value_grows(digits, index - start + 1);
        }
        match next {
            Some(c) if '0' <= c && c <= '9' => {
                let unit: usize = (c as u32 - 48) as usize;
                match value.checked_mul(10) {
                    Some(tens) => match tens.checked_add(unit) {
                        Some(sum) => {
                            value = sum;
                        },
                        None => {
                            return None;
                        },
                    },
                    None => {
                        return None;
                    },
                }
            },
            _ => {
                return None;
            },
        }
        index = index + 1;
    }
    assert(digits.take(length - start) =~= digits);
    Some(value)
}

/// A number written in decimal is made of digits and reads back as itself.
pub proof fn decimal_reads_back(n: nat)
    ensures
        decimal(n).len() > 0,
        forall|i: int| 0 <= i < decimal(n).len() ==> is_digit(#[trigger] decimal(n)[i]),
        unsigned_value(decimal(n)) == Some(n),
    decreases n,
{
    reveal_with_fuel(digits_value, 2);
    if n < 10 {
        assert(decimal(n).drop_last() =~= Seq::<char>::empty());
    } else {
        decimal_reads_back(n / 10);
        assert(decimal(n).drop_last() =~= decimal(n / 10));
        assert(is_digit(decimal(n / 10)[0]));
        assert(decimal(n)[0] == decimal(n / 10)[0]);
    }
    assert(decimal(n)[0] != '+');
}

} // verus!
