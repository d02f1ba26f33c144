//! What clients and applications can count on, said of the characters and bytes
//! themselves: each law here speaks of what goes in and what comes out, in words that
//! nothing else in the library is defined by.

pub mod answers;
pub mod connections;
pub mod requests;
pub mod service;

use vstd::prelude::*;
use crate::text;

verus! {

// ---- Letters, white space and numbers ----

/// `name` is `word`, which is in small letters, but for letter case.
pub open spec fn spells(name: Seq<char>, word: Seq<char>) -> bool {
    &&& name.len() == word.len()
    &&& forall|i: int|
        0 <= i < name.len() ==> #[trigger] name[i] == word[i] || ('A' <= name[i] && name[i] <= 'Z'
            && name[i] as u32 + 32 == word[i] as u32)
}

/// `c` is one of the 25 characters that are white space.
pub open spec fn blank(c: char) -> bool {
    seq![
        0x09u32,
        0x0A,
        0x0B,
        0x0C,
        0x0D,
        0x20,
        0x85,
        0xA0,
        0x1680,
        0x2000,
        0x2001,
        0x2002,
        0x2003,
        0x2004,
        0x2005,
        0x2006,
        0x2007,
        0x2008,
        0x2009,
        0x200A,
        0x2028,
        0x2029,
        0x202F,
        0x205F,
        0x3000,
    ].contains(c as u32)
}

/// `s` is white space from `from` up to `to`.
pub open spec fn blank_between(s: Seq<char>, from: int, to: int) -> bool {
    forall|k: int| from <= k < to ==> blank(#[trigger] s[k])
}

/// `name` is `word` but for letter case and for white space around it, and `word`
/// begins at `at`.
pub open spec fn goes_by_at(name: Seq<char>, word: Seq<char>, at: int) -> bool {
    &&& 0 <= at <= name.len() - word.len()
    &&& blank_between(name, 0, at)
    &&& spells(name.subrange(at, at + word.len()), word)
    &&& blank_between(name, at + word.len(), name.len() as int)
}

/// `name` is `word` but for letter case and for white space around it.
pub open spec fn goes_by(name: Seq<char>, word: Seq<char>) -> bool {
    exists|at: int| goes_by_at(name, word, at)
}

/// `word` is made of small letters and hyphens, and there is something of it.
pub open spec fn is_word(word: Seq<char>) -> bool {
    &&& word.len() > 0
    &&& forall|i: int|
        0 <= i < word.len() ==> ('a' <= #[trigger] word[i] && word[i] <= 'z') || word[i] == '-'
}

/// White space is what it is in Unicode, character by character.
pub proof fn white_space_is_told_by_its_characters(c: char)
    ensures
        text::is_white_space(c) <==> blank(c),
{
    let codes = seq![
        0x09u32,
        0x0A,
        0x0B,
        0x0C,
        0x0D,
        0x20,
        0x85,
        0xA0,
        0x1680,
        0x2000,
        0x2001,
        0x2002,
        0x2003,
        0x2004,
        0x2005,
        0x2006,
        0x2007,
        0x2008,
        0x2009,
        0x200A,
        0x2028,
        0x2029,
        0x202F,
        0x205F,
        0x3000,
    ];
    let code = c as u32;
    if text::is_white_space(c) {
        let at: int = if code <= 0x0D {
            code - 0x09
        } else if code == 0x20 {
            5
        } else if code == 0x85 {
            6
        } else if code == 0xA0 {
            7
        } else if code == 0x1680 {
            8
        } else if code <= 0x200A {
            code - 0x2000 + 9
        } else if code == 0x2028 {
            20
        } else if code == 0x2029 {
            21
        } else if code == 0x202F {
            22
        } else if code == 0x205F {
            23
        } else {
            24
        };
        assert(codes[at] == code);
        assert(codes.contains(code));
    } else if codes.contains(code) {
        let at = choose|at: int| 0 <= at < codes.len() && codes[at] == code;
        assert(codes[at] == code);
    }
}

proof fn lemma_folding(x: char, y: char)
    ensures
        text::folded(x) == text::folded(y) <==> x == y || ('A' <= x && x <= 'Z' && x as u32 + 32
            == y as u32) || ('A' <= y && y <= 'Z' && y as u32 + 32 == x as u32),
{
}

/// Two strings are compared character by character: each is the other's, or the
/// same ASCII letter in the other case.
pub proof fn comparing_ignores_the_case_of_letters_only(a: Seq<char>, b: Seq<char>)
    ensures
        text::same_ignoring_case(a, b) <==> {
            &&& a.len() == b.len()
            &&& forall|i: int|
                0 <= i < a.len() ==> #[trigger] a[i] == b[i] || ('A' <= a[i] && a[i] <= 'Z'
                    && a[i] as u32 + 32 == b[i] as u32) || ('A' <= b[i] && b[i] <= 'Z'
                    && b[i] as u32 + 32 == a[i] as u32)
        },
{
    if text::same_ignoring_case(a, b) {
        assert forall|i: int| 0 <= i < a.len() implies #[trigger] a[i] == b[i] || ('A' <= a[i]
            && a[i] <= 'Z' && a[i] as u32 + 32 == b[i] as u32) || ('A' <= b[i] && b[i] <= 'Z'
            && b[i] as u32 + 32 == a[i] as u32) by {
            assert(text::folded(a[i]) == text::folded(b[i]));
            lemma_folding(a[i], b[i]);
        }
    } else if a.len() == b.len() {
        let i = choose|i: int| 0 <= i < a.len() && text::folded(#[trigger] a[i]) != text::folded(
            b[i],
        );
        lemma_folding(a[i], b[i]);
    }
}

/// Trimming takes white space off the two ends, all of it, and nothing else.
pub proof fn trimming_takes_off_white_space_only(s: Seq<char>) -> (ends: (int, int))
    ensures
        0 <= ends.0 <= ends.1 <= s.len(),
        text::trimmed(s) == s.subrange(ends.0, ends.1),
        blank_between(s, 0, ends.0),
        blank_between(s, ends.1, s.len() as int),
        ends.0 < ends.1 ==> !blank(s[ends.0]) && !blank(s[ends.1 - 1]),
    decreases s.len(),
{
    if s.len() > 0 && text::is_white_space(s.first()) {
        white_space_is_told_by_its_characters(s.first());
        let rest = s.drop_first();
        let inner = trimming_takes_off_white_space_only(rest);
        assert(s.subrange(inner.0 + 1, inner.1 + 1) =~= rest.subrange(inner.0, inner.1));
        assert forall|k: int| 0 <= k < inner.0 + 1 implies blank(#[trigger] s[k]) by {
            if k > 0 {
                assert(blank(rest[k - 1]));
            }
        }
        assert forall|k: int| inner.1 + 1 <= k < s.len() implies blank(#[trigger] s[k]) by {
            assert(blank(rest[k - 1]));
        }
        (inner.0 + 1, inner.1 + 1)
    } else if s.len() > 0 && text::is_white_space(s.last()) {
        white_space_is_told_by_its_characters(s.last());
        let rest = s.drop_last();
        let inner = trimming_takes_off_white_space_only(rest);
        assert(s.subrange(inner.0, inner.1) =~= rest.subrange(inner.0, inner.1));
        assert forall|k: int| 0 <= k < inner.0 implies blank(#[trigger] s[k]) by {
            assert(blank(rest[k]));
        }
        assert forall|k: int| inner.1 <= k < s.len() implies blank(#[trigger] s[k]) by {
            if k < s.len() - 1 {
                assert(blank(rest[k]));
            }
        }
        inner
    } else {
        if s.len() > 0 {
            white_space_is_told_by_its_characters(s.first());
            white_space_is_told_by_its_characters(s.last());
        }
        assert(s.subrange(0, s.len() as int) =~= s);
        (0, s.len() as int)
    }
}

/// Between white space and other characters there is one way to tell them apart.
pub(crate) proof fn lemma_ends_are_unique(s: Seq<char>, i: int, j: int, k: int, l: int)
    requires
        0 <= i < j <= s.len(),
        blank_between(s, 0, i),
        blank_between(s, j, s.len() as int),
        !blank(s[i]),
        !blank(s[j - 1]),
        0 <= k <= l <= s.len(),
        blank_between(s, 0, k),
        blank_between(s, l, s.len() as int),
        k < l ==> !blank(s[k]) && !blank(s[l - 1]),
    ensures
        i == k,
        j == l,
{
    if k == l {
        if i < k {
            assert(blank(s[i]));
        } else {
            assert(blank(s[i]));
        }
    } else {
        if i < k {
            assert(blank(s[i]));
        }
        if k < i {
            assert(blank(s[k]));
        }
        if j < l {
            assert(blank(s[l - 1]));
        }
        if l < j {
            assert(blank(s[j - 1]));
        }
    }
}

proof fn lemma_letters_are_not_blank(name: Seq<char>, word: Seq<char>, i: int)
    requires
        spells(name, word),
        is_word(word),
        0 <= i < name.len(),
    ensures
        !blank(name[i]),
{
    white_space_is_told_by_its_characters(name[i]);
    assert(name[i] == word[i] || ('A' <= name[i] && name[i] <= 'Z'));
    assert(('a' <= word[i] && word[i] <= 'z') || word[i] == '-');
}

/// A name goes by a word where, and only where, trimming it and ignoring letter case
/// gives that word.
pub proof fn names_are_told_by_their_letters(name: Seq<char>, word: Seq<char>)
    requires
        is_word(word),
    ensures
        text::same_ignoring_case(text::trimmed(name), word) <==> goes_by(name, word),
        text::same_ignoring_case(name, word) <==> spells(name, word),
{
    lemma_spelling(name, word);
    let ends = trimming_takes_off_white_space_only(name);
    let core = text::trimmed(name);
    lemma_spelling(core, word);
    if text::same_ignoring_case(core, word) {
        assert(goes_by_at(name, word, ends.0));
    }
    if goes_by(name, word) {
        let at = choose|at: int| goes_by_at(name, word, at);
        let part = name.subrange(at, at + word.len());
        lemma_letters_are_not_blank(part, word, 0);
        lemma_letters_are_not_blank(part, word, part.len() - 1);
        assert(part[0] == name[at]);
        assert(part[part.len() - 1] == name[at + word.len() - 1]);
        lemma_ends_are_unique(name, at, at + word.len(), ends.0, ends.1);
    }
}

proof fn lemma_spelling(name: Seq<char>, word: Seq<char>)
    requires
        is_word(word),
    ensures
        text::same_ignoring_case(name, word) <==> spells(name, word),
{
    comparing_ignores_the_case_of_letters_only(name, word);
    if spells(name, word) {
        assert forall|i: int| 0 <= i < name.len() implies #[trigger] name[i] == word[i] || ('A'
            <= name[i] && name[i] <= 'Z' && name[i] as u32 + 32 == word[i] as u32) || ('A'
            <= word[i] && word[i] <= 'Z' && word[i] as u32 + 32 == name[i] as u32) by {}
    }
    if text::same_ignoring_case(name, word) {
        assert forall|i: int| 0 <= i < name.len() implies #[trigger] name[i] == word[i] || ('A'
            <= name[i] && name[i] <= 'Z' && name[i] as u32 + 32 == word[i] as u32) by {
            assert(('a' <= word[i] && word[i] <= 'z') || word[i] == '-');
        }
    }
}

/// A string is parted at its first `c`, and nothing of it is lost: the two parts with
/// `c` between them are the string, and there is no `c` in the first. Where there is
/// none at all, the first part is the string.
pub proof fn parting_loses_nothing(s: Seq<char>, c: char)
    ensures
        !text::parted(s, c).0.contains(c),
        s.contains(c) ==> s == text::parted(s, c).0 + seq![c] + text::parted(s, c).1,
        !s.contains(c) ==> text::parted(s, c) == (s, Seq::<char>::empty()),
{
    let at = lemma_first_index(s, c);
    let parts = text::parted(s, c);
    if at < s.len() {
        assert(s[at] == c);
        assert(s =~= parts.0 + seq![c] + parts.1);
    } else {
        assert(!s.contains(c));
    }
}

proof fn lemma_first_index(s: Seq<char>, c: char) -> (at: int)
    ensures
        at == text::first_index(s, c),
        0 <= at <= s.len(),
        forall|i: int| 0 <= i < at ==> #[trigger] s[i] != c,
        at < s.len() ==> s[at] == c,
    decreases s.len(),
{
    if s.len() == 0 || s.first() == c {
        0
    } else {
        let rest = s.drop_first();
        let inner = lemma_first_index(rest, c);
        assert forall|i: int| 0 <= i < inner + 1 implies #[trigger] s[i] != c by {
            if i > 0 {
                assert(rest[i - 1] != c);
            }
        }
        inner + 1
    }
}

/// The ten digits in order.
pub open spec fn ten_digits() -> Seq<char> {
    seq!['0', '1', '2', '3', '4', '5', '6', '7', '8', '9']
}

/// Numbers are written in decimal: a number below ten is its digit, and ten times a
/// number and a digit more is that number with the digit behind it.
pub proof fn numbers_are_written_digit_by_digit(n: nat, d: nat)
    requires
        d < 10,
    ensures
        text::decimal(d) == seq![ten_digits()[d as int]],
        n > 0 ==> text::decimal(10 * n + d) == text::decimal(n).push(ten_digits()[d as int]),
        text::signed_decimal(n as int) == text::decimal(n),
        n > 0 ==> text::signed_decimal(-n) == seq!['-'] + text::decimal(n),
{
    assert(ten_digits()[d as int] == text::digit(d as int)) by {
        assert(d == 0 || d == 1 || d == 2 || d == 3 || d == 4 || d == 5 || d == 6 || d == 7 || d
            == 8 || d == 9);
    }
    if n > 0 {
        assert((10 * n + d) / 10 == n);
        assert((10 * n + d) % 10 == d);
    }
}

/// `c` is a digit.
pub open spec fn is_numeral(c: char) -> bool {
    ten_digits().contains(c)
}

/// `s` without a plus sign in front.
pub open spec fn behind_plus(s: Seq<char>) -> Seq<char> {
    if s.len() > 0 && s[0] == '+' {
        s.skip(1)
    } else {
        s
    }
}

/// `s` is at least one digit, and nothing else but perhaps a plus sign in front.
pub open spec fn is_unsigned(s: Seq<char>) -> bool {
    &&& behind_plus(s).len() > 0
    &&& forall|i: int|
        0 <= i < behind_plus(s).len() ==> is_numeral(#[trigger] behind_plus(s)[i])
}

proof fn lemma_numeral(c: char)
    ensures
        is_numeral(c) <==> text::is_digit(c),
        is_numeral(c) ==> ten_digits()[c as u32 - 48] == c,
{
    if text::is_digit(c) {
        let d = c as u32 - 48;
        assert(d == 0 || d == 1 || d == 2 || d == 3 || d == 4 || d == 5 || d == 6 || d == 7 || d
            == 8 || d == 9);
        assert(ten_digits()[d] == c);
        assert(ten_digits().contains(c));
    } else if is_numeral(c) {
        let d = choose|d: int| 0 <= d < ten_digits().len() && ten_digits()[d] == c;
        assert(ten_digits()[d] == c);
    }
}

proof fn lemma_unsigned(s: Seq<char>)
    ensures
        text::unsigned_value(s) is Some <==> is_unsigned(s),
{
    let digits = text::unsigned_digits(s);
    assert(behind_plus(s) =~= digits);
    if text::unsigned_value(s) is Some {
        assert forall|i: int| 0 <= i < behind_plus(s).len() implies is_numeral(
            #[trigger] behind_plus(s)[i],
        ) by {
            assert(text::is_digit(digits[i]));
            lemma_numeral(digits[i]);
        }
    }
    if is_unsigned(s) {
        assert forall|i: int| 0 <= i < digits.len() implies text::is_digit(#[trigger] digits[i]) by {
            assert(is_numeral(behind_plus(s)[i]));
            lemma_numeral(digits[i]);
        }
    }
}

proof fn lemma_digit(d: nat)
    requires
        d < 10,
    ensures
        ten_digits()[d as int] as u32 == 48 + d,
        text::is_digit(ten_digits()[d as int]),
        is_numeral(ten_digits()[d as int]),
{
    assert(d == 0 || d == 1 || d == 2 || d == 3 || d == 4 || d == 5 || d == 6 || d == 7 || d == 8
        || d == 9);
    assert(ten_digits().contains(ten_digits()[d as int]));
}

/// A string is read as a number exactly where it is digits, with perhaps a plus sign
/// in front; a digit is read as itself; one more digit makes ten times as much and
/// the digit; and the plus sign changes nothing.
pub proof fn numbers_are_read_digit_by_digit(s: Seq<char>, d: nat)
    requires
        d < 10,
    ensures
        text::unsigned_value(s) is Some <==> is_unsigned(s),
        text::unsigned_value(seq![ten_digits()[d as int]]) == Some(d),
        is_unsigned(s) ==> text::unsigned_value(s.push(ten_digits()[d as int])) == Some(
            10 * text::unsigned_value(s)->0 + d,
        ),
        is_unsigned(s) && s[0] != '+' ==> text::unsigned_value(seq!['+'] + s)
            == text::unsigned_value(s),
{
    let c = ten_digits()[d as int];
    let digits = text::unsigned_digits(s);
    lemma_digit(d);
    lemma_unsigned(s);
    reveal_with_fuel(text::digits_value, 2);
    let single = seq![c];
    assert(text::unsigned_digits(single) =~= single);
    assert(single.drop_last() =~= Seq::<char>::empty());
    if is_unsigned(s) {
        assert(text::unsigned_digits(s.push(c)) =~= digits.push(c));
        assert(digits.push(c).drop_last() =~= digits);
        if s[0] != '+' {
            assert(text::unsigned_digits(seq!['+'] + s) =~= s);
        }
    }
}

// ---- The operations on text ----

/// Comparing two strings tells whether they are the same but for the case of ASCII
/// letters.
pub proof fn comparisons_are_right(a: &str, b: &str, same: bool)
    requires
        call_ensures(text::eq_ignore_ascii_case, (a, b), same),
    ensures
        same <==> {
            &&& a@.len() == b@.len()
            &&& forall|i: int|
                0 <= i < a@.len() ==> #[trigger] a@[i] == b@[i] || ('A' <= a@[i] && a@[i] <= 'Z'
                    && a@[i] as u32 + 32 == b@[i] as u32) || ('A' <= b@[i] && b@[i] <= 'Z'
                    && b@[i] as u32 + 32 == a@[i] as u32)
        },
{
    comparing_ignores_the_case_of_letters_only(a@, b@);
}

/// Trimming a string gives the part of it from its first character that is not white
/// space up to its last.
pub proof fn trims_are_right(s: &str, inner: &str) -> (ends: (int, int))
    requires
        call_ensures(text::trim, (s,), inner),
    ensures
        0 <= ends.0 <= ends.1 <= s@.len(),
        inner@ == s@.subrange(ends.0, ends.1),
        blank_between(s@, 0, ends.0),
        blank_between(s@, ends.1, s@.len() as int),
        ends.0 < ends.1 ==> !blank(s@[ends.0]) && !blank(s@[ends.1 - 1]),
{
    trimming_takes_off_white_space_only(s@)
}

/// Parting a string at its first `c` loses nothing of it.
pub proof fn splits_are_right(s: &str, c: char, halves: (&str, &str))
    requires
        call_ensures(text::split_once, (s, c), halves),
    ensures
        !halves.0@.contains(c),
        s@.contains(c) ==> s@ == halves.0@ + seq![c] + halves.1@,
        !s@.contains(c) ==> halves.0@ == s@ && halves.1@.len() == 0,
{
    parting_loses_nothing(s@, c);
}

/// A number is written with its digits: one below ten as its digit, and any other as
/// its tenth, rounded down, is written, with its last digit behind. One that is
/// negative has a minus sign in front.
pub proof fn written_numbers_are_right(
    n: u64,
    digits: String,
    tenth: String,
    signed: i64,
    sign_and_digits: String,
    magnitude: String,
)
    requires
        call_ensures(text::decimal_text, (n,), digits),
        call_ensures(text::decimal_text, ((n / 10) as u64,), tenth),
        call_ensures(text::signed_decimal_text, (signed,), sign_and_digits),
        call_ensures(
            text::decimal_text,
            ((if signed < 0 {
                -signed
            } else {
                signed as int
            }) as u64,),
            magnitude,
        ),
    ensures
        n < 10 ==> digits@ == seq![ten_digits()[n as int]],
        n >= 10 ==> digits@ == tenth@.push(ten_digits()[(n % 10) as int]),
        signed >= 0 ==> sign_and_digits@ == magnitude@,
        signed < 0 ==> sign_and_digits@ == seq!['-'] + magnitude@,
{
    let d = (n % 10) as nat;
    numbers_are_written_digit_by_digit((n / 10) as nat, d);
    if signed < 0 {
        numbers_are_written_digit_by_digit((-signed) as nat, 0);
    } else {
        numbers_are_written_digit_by_digit(signed as nat, 0);
    }
}

/// Reading a number gives `None` for what is not digits with perhaps a plus sign in
/// front. A digit is read as itself. With one more digit behind it what is read is ten
/// times as much and the digit, or `None` where that does not fit, or did not even
/// before. A plus sign in front changes nothing. And what was written is read again.
pub proof fn read_numbers_are_right(
    s: &str,
    number: Option<usize>,
    longer: &str,
    next: Option<usize>,
    d: nat,
    n: u64,
    digits: String,
)
    requires
        d < 10,
        call_ensures(text::parse_usize, (s,), number),
        call_ensures(text::parse_usize, (longer,), next),
        call_ensures(text::decimal_text, (n,), digits),
    ensures
        !is_unsigned(s@) ==> number is None,
        s@ == seq![ten_digits()[d as int]] ==> number == Some(d as usize),
        is_unsigned(s@) && longer@ == s@.push(ten_digits()[d as int]) ==> match number {
            Some(read) => next == (if 10 * read + d <= usize::MAX {
                Some((10 * read + d) as usize)
            } else {
                None::<usize>
            }),
            None => next is None,
        },
        is_unsigned(s@) && s@[0] != '+' && longer@ == seq!['+'] + s@ ==> next == number,
        s@ == digits@ && n <= usize::MAX ==> number == Some(n as usize),
{
    lemma_unsigned(s@);
    numbers_are_read_digit_by_digit(s@, d);
    text::decimal_reads_back(n as nat);
}

} // verus!
