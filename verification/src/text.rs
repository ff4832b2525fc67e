//! Text as sequences of characters: searching, counting, substituting, and decimal
//! numbers.

use vstd::prelude::*;

verus! {

/// Position of the first `c` in `s`, or the length of `s` where it holds none.
pub open spec fn first_index(s: Seq<char>, c: char) -> int
    decreases s.len(),
{
    if s.len() == 0 || s[0] == c {
        0
    } else {
        1 + first_index(s.drop_first(), c)
    }
}

/// How many times `c` occurs in `s`.
pub open spec fn count(s: Seq<char>, c: char) -> nat
    decreases s.len(),
{
    if s.len() == 0 {
        0
    } else {
        count(s.drop_last(), c) + if s.last() == c {
            1nat
        } else {
            0nat
        }
    }
}

/// `s` with every occurrence of `token` replaced by `value`. Occurrences are taken
/// from left to right and do not overlap; an empty token occurs nowhere.
pub open spec fn substituted(s: Seq<char>, token: Seq<char>, value: Seq<char>) -> Seq<char>
    decreases s.len(),
{
    if s.len() == 0 {
        s
    } else if token.len() > 0 && token.is_prefix_of(s) {
        value + substituted(s.skip(token.len() as int), token, value)
    } else {
        seq![s[0]] + substituted(s.drop_first(), token, value)
    }
}

/// The character that writes the digit `d`.
pub open spec fn digit_char(d: nat) -> char {
    ('0' as u8 + d) as char
}

/// Whether `c` is one of the ten decimal digits.
pub open spec fn is_digit(c: char) -> bool {
    '0' <= c && c <= '9'
}

/// The number that the digit `c` writes.
pub open spec fn digit_value(c: char) -> nat {
    (c as u32 - '0' as u32) as nat
}

/// The decimal notation of `n`, without leading zeros.
pub open spec fn decimal(n: nat) -> Seq<char>
    decreases n,
{
    if n < 10 {
        seq![digit_char(n)]
    } else {
        decimal(n / 10).push(digit_char(n % 10))
    }
}

/// The number that a sequence of digits writes in decimal notation.
pub open spec fn decimal_value(s: Seq<char>) -> nat
    decreases s.len(),
{
    if s.len() == 0 {
        0
    } else {
        10 * decimal_value(s.drop_last()) + digit_value(s.last())
    }
}

/// Whether every character of `s` is a decimal digit.
pub open spec fn all_digits(s: Seq<char>) -> bool {
    forall|i: int| 0 <= i < s.len() ==> is_digit(#[trigger] s[i])
}

/// Whether `s` writes a number that fits in 64 bits: one digit or more, nothing but
/// digits. Leading zeros are accepted.
pub open spec fn is_number(s: Seq<char>) -> bool {
    s.len() > 0 && all_digits(s) && decimal_value(s) <= u64::MAX
}

/// The number that `s` writes, where it writes one.
pub open spec fn number_of(s: Seq<char>) -> Option<u64> {
    if is_number(s) {
        Some(decimal_value(s) as u64)
    } else {
        None
    }
}

/// Whether `a` comes before `b` in the order of their characters: where they first
/// differ `a` holds the lower character, or `a` ends there and `b` goes on.
pub open spec fn text_precedes(a: Seq<char>, b: Seq<char>) -> bool
    decreases a.len(),
{
    if b.len() == 0 {
        false
    } else if a.len() == 0 {
        true
    } else if a[0] != b[0] {
        a[0] < b[0]
    } else {
        text_precedes(a.drop_first(), b.drop_first())
    }
}

/// `s` with zeros before it, as many as bring it to `width` characters; `s` itself
/// where it is that long already.
pub open spec fn zero_padded(s: Seq<char>, width: nat) -> Seq<char>
    decreases width - s.len(),
{
    if s.len() >= width {
        s
    } else {
        zero_padded(seq!['0'] + s, width)
    }
}

/// `first_index` lies within the text, nothing before it is `c`, and it points at a
/// `c` unless it is the length.
pub proof fn lemma_first_index(s: Seq<char>, c: char)
    ensures
        0 <= first_index(s, c) <= s.len(),
        forall|j: int| 0 <= j < first_index(s, c) ==> s[j] != c,
        first_index(s, c) < s.len() ==> s[first_index(s, c)] == c,
    decreases s.len(),
{
    if s.len() == 0 || s[0] == c {
    } else {
        let t = s.drop_first();
        lemma_first_index(t, c);
        assert forall|j: int| 0 <= j < first_index(s, c) implies s[j] != c by {
            if j > 0 {
                assert(s[j] == t[j - 1]);
            }
        }
    }
}

/// A position that holds `c` with no `c` before it is the first index; so is the
/// length where no position holds `c`.
pub proof fn lemma_first_index_is(s: Seq<char>, c: char, i: int)
    requires
        0 <= i <= s.len(),
        forall|j: int| 0 <= j < i ==> s[j] != c,
        i < s.len() ==> s[i] == c,
    ensures
        first_index(s, c) == i,
{
    lemma_first_index(s, c);
}

/// A text of one character holds that character once and no other.
pub proof fn lemma_count_in_one(only: char, c: char)
    ensures
        count(seq![only], c) == if only == c {
            1nat
        } else {
            0nat
        },
{
    assert(seq![only].drop_last() =~= Seq::<char>::empty());
    assert(count(Seq::<char>::empty(), c) == 0);
}

/// One digit writes its own value.
pub proof fn lemma_decimal_value_of_one(digit: char)
    ensures
        decimal_value(seq![digit]) == digit_value(digit),
{
    assert(seq![digit].drop_last() =~= Seq::<char>::empty());
    assert(decimal_value(Seq::<char>::empty()) == 0);
}

/// In a text made of two parts, the first `c` is the first `c` of the first part, or
/// else follows the first part at the first `c` of the second.
pub proof fn lemma_first_index_of_parts(a: Seq<char>, b: Seq<char>, c: char)
    ensures
        first_index(a + b, c) == if first_index(a, c) < a.len() {
            first_index(a, c)
        } else {
            a.len() + first_index(b, c)
        },
{
    lemma_first_index(a, c);
    lemma_first_index(b, c);
    let i = first_index(a, c);
    let j = first_index(b, c);
    if i < a.len() {
        lemma_first_index_is(a + b, c, i);
    } else {
        lemma_first_index_is(a + b, c, a.len() + j);
    }
}

/// The occurrences in a text made of two parts are those in the one and those in
/// the other.
pub proof fn lemma_count_of_parts(a: Seq<char>, b: Seq<char>, c: char)
    ensures
        count(a + b, c) == count(a, c) + count(b, c),
    decreases b.len(),
{
    if b.len() > 0 {
        lemma_count_of_parts(a, b.drop_last(), c);
        assert((a + b).drop_last() =~= a + b.drop_last());
    }
}

/// A character occurs in a text unless the first index of it is the length.
pub proof fn lemma_count_is_zero(s: Seq<char>, c: char)
    ensures
        count(s, c) == 0 <==> first_index(s, c) == s.len(),
    decreases s.len(),
{
    lemma_first_index(s, c);
    if s.len() > 0 {
        let t = s.drop_last();
        lemma_count_is_zero(t, c);
        lemma_first_index(t, c);
        if first_index(t, c) == t.len() {
            assert forall|j: int| 0 <= j < t.len() implies s[j] != c by {
                assert(s[j] == t[j]);
            }
        }
    }
}

/// Digits hold nothing but digits: a character that is no digit does not occur.
pub proof fn lemma_digits_hold_no(s: Seq<char>, c: char)
    requires
        all_digits(s),
        !is_digit(c),
    ensures
        first_index(s, c) == s.len(),
        count(s, c) == 0,
{
    lemma_first_index_is(s, c, s.len() as int);
    lemma_count_is_zero(s, c);
}

/// The decimal notation of a number is one digit or more, nothing but digits, and
/// writes that number.
pub proof fn lemma_decimal_writes(n: nat)
    ensures
        decimal(n).len() > 0,
        all_digits(decimal(n)),
        decimal_value(decimal(n)) == n,
    decreases n,
{
    if n < 10 {
        lemma_decimal_value_of_one(digit_char(n));
    } else {
        lemma_decimal_writes(n / 10);
        let s = decimal(n);
        assert(s.drop_last() =~= decimal(n / 10));
        assert forall|i: int| 0 <= i < s.len() implies is_digit(#[trigger] s[i]) by {}
    }
}

/// The number written by the first `k` digits is at most the number written by all.
pub proof fn lemma_decimal_value_prefix(s: Seq<char>, k: int)
    requires
        0 <= k <= s.len(),
    ensures
        decimal_value(s.take(k)) <= decimal_value(s),
    decreases s.len() - k,
{
    if k == s.len() {
        assert(s.take(k) =~= s);
    } else {
        lemma_decimal_value_prefix(s.drop_last(), k);
        assert(s.drop_last().take(k) =~= s.take(k));
    }
}

/// No text comes before itself.
pub proof fn lemma_text_precedes_is_strict(a: Seq<char>)
    ensures
        !text_precedes(a, a),
    decreases a.len(),
{
    if a.len() > 0 {
        lemma_text_precedes_is_strict(a.drop_first());
    }
}

/// If `a` comes before `b`, and `b` before `c`, then `a` comes before `c`.
pub proof fn lemma_text_precedes_is_transitive(a: Seq<char>, b: Seq<char>, c: Seq<char>)
    requires
        text_precedes(a, b),
        text_precedes(b, c),
    ensures
        text_precedes(a, c),
    decreases a.len(),
{
    if a.len() > 0 && a[0] == b[0] && b[0] == c[0] {
        lemma_text_precedes_is_transitive(a.drop_first(), b.drop_first(), c.drop_first());
    }
}

/// Of two different texts one comes before the other.
pub proof fn lemma_text_precedes_is_total(a: Seq<char>, b: Seq<char>)
    requires
        a != b,
    ensures
        text_precedes(a, b) || text_precedes(b, a),
    decreases a.len(),
{
    if a.len() > 0 && b.len() > 0 && a[0] == b[0] {
        if a.drop_first() == b.drop_first() {
            assert(a =~= seq![a[0]] + a.drop_first());
            assert(b =~= seq![b[0]] + b.drop_first());
        }
        lemma_text_precedes_is_total(a.drop_first(), b.drop_first());
    } else if a.len() == 0 && b.len() == 0 {
        assert(a =~= b);
    }
}

/// For texts of one length, the order of the characters can be told from the end:
/// the texts without their last characters decide, and between equal ones the last
/// characters.
pub proof fn lemma_text_precedes_from_the_end(a: Seq<char>, b: Seq<char>)
    requires
        a.len() == b.len(),
        a.len() > 0,
    ensures
        text_precedes(a, b) == (text_precedes(a.drop_last(), b.drop_last()) || (a.drop_last()
            == b.drop_last() && a.last() < b.last())),
    decreases a.len(),
{
    if a.len() == 1 {
        assert(a.drop_last() =~= b.drop_last());
        assert(!text_precedes(a.drop_first(), b.drop_first()));
    } else if a[0] == b[0] {
        lemma_text_precedes_from_the_end(a.drop_first(), b.drop_first());
        assert(a.drop_first().drop_last() =~= a.drop_last().drop_first());
        assert(b.drop_first().drop_last() =~= b.drop_last().drop_first());
        assert(text_precedes(a.drop_last(), b.drop_last()) == text_precedes(
            a.drop_last().drop_first(),
            b.drop_last().drop_first(),
        ));
        if a.drop_last().drop_first() == b.drop_last().drop_first() {
            assert(a.drop_last() =~= seq![a[0]] + a.drop_last().drop_first());
            assert(b.drop_last() =~= seq![b[0]] + b.drop_last().drop_first());
        }
    }
}

/// Digits of one length are in the order of the numbers they write, and write the
/// same number only where they are the same.
pub proof fn lemma_digits_of_one_length(a: Seq<char>, b: Seq<char>)
    requires
        a.len() == b.len(),
        all_digits(a),
        all_digits(b),
    ensures
        (decimal_value(a) < decimal_value(b)) == text_precedes(a, b),
        decimal_value(a) == decimal_value(b) ==> a == b,
    decreases a.len(),
{
    if a.len() > 0 {
        lemma_digits_of_one_length(a.drop_last(), b.drop_last());
        lemma_text_precedes_from_the_end(a, b);
        if a.drop_last() == b.drop_last() && a.last() == b.last() {
            assert(a =~= a.drop_last().push(a.last()));
        }
    }
}

/// A zero in front does not change the number that digits write.
pub proof fn lemma_leading_zero(s: Seq<char>)
    ensures
        decimal_value(seq!['0'] + s) == decimal_value(s),
    decreases s.len(),
{
    if s.len() == 0 {
        lemma_decimal_value_of_one('0');
    } else {
        lemma_leading_zero(s.drop_last());
        assert((seq!['0'] + s).drop_last() =~= seq!['0'] + s.drop_last());
    }
}

/// Padding with zeros gives the width asked for, unless the text is longer; it
/// keeps digits digits, and the number they write.
pub proof fn lemma_zero_padded(s: Seq<char>, width: nat)
    ensures
        zero_padded(s, width).len() == if s.len() >= width {
            s.len()
        } else {
            width
        },
        all_digits(s) ==> all_digits(zero_padded(s, width)),
        decimal_value(zero_padded(s, width)) == decimal_value(s),
    decreases width - s.len(),
{
    if s.len() < width {
        lemma_zero_padded(seq!['0'] + s, width);
        lemma_leading_zero(s);
        if all_digits(s) {
            assert forall|i: int| 0 <= i < (seq!['0'] + s).len() implies is_digit(
                #[trigger] (seq!['0'] + s)[i],
            ) by {}
        }
    }
}

/// Position of the first `c` in `s`, or the number of characters where there is none.
pub fn find_char(s: &str, c: char) -> (i: usize)
    ensures
        i == first_index(s@, c),
{
    let n = s.unicode_len();
    let mut i: usize = 0;
    while i < n
        invariant
            n == s@.len(),
            i <= n,
            forall|j: int| 0 <= j < i ==> s@[j] != c,
        decreases n - i,
    {
        if s.get_char(i) == c {
            proof {
                lemma_first_index_is(s@, c, i as int);
            }
            return i;
        }
        i += 1;
    }
    proof {
        lemma_first_index_is(s@, c, i as int);
    }
    i
}

/// How many times `c` occurs in `s`.
pub fn count_char(s: &str, c: char) -> (k: usize)
    ensures
        k == count(s@, c),
{
    let n = s.unicode_len();
    let mut i: usize = 0;
    let mut k: usize = 0;
    while i < n
        invariant
            n == s@.len(),
            i <= n,
            k == count(s@.take(i as int), c),
            k <= i,
        decreases n - i,
    {
        proof {
            assert(s@.take(i + 1).drop_last() =~= s@.take(i as int));
        }
        if s.get_char(i) == c {
            k += 1;
        }
        i += 1;
    }
    proof {
        assert(s@.take(n as int) =~= s@);
    }
    k
}

/// Whether `a` and `b` hold the same characters.
pub fn same_text(a: &str, b: &str) -> (same: bool)
    ensures
        same == (a@ == b@),
{
    String::from_str(a) == String::from_str(b)
}

/// Whether a non-empty `token` stands in `s` at position `at`, which lies within `s`.
pub fn occurs_at(s: &str, at: usize, token: &str) -> (found: bool)
    ensures
        found == (at <= s@.len() && token@.len() > 0 && token@.is_prefix_of(s@.skip(at as int))),
{
    let n = s.unicode_len();
    let m = token.unicode_len();
    if m == 0 || at > n || m > n - at {
        return false;
    }
    let mut j: usize = 0;
    while j < m
        invariant
            n == s@.len(),
            m == token@.len(),
            at + m <= n,
            j <= m,
            forall|k: int| 0 <= k < j ==> s@[at + k] == token@[k],
        decreases m - j,
    {
        if s.get_char(at + j) != token.get_char(j) {
            return false;
        }
        j += 1;
    }
    true
}

/// Replaces every occurrence of `token` in `s` by `value`.
pub fn substitute(s: &str, token: &str, value: &str) -> (res: String)
    ensures
        res@ == substituted(s@, token@, value@),
{
    let n = s.unicode_len();
    let m = token.unicode_len();
    let mut out = String::new();
    let mut i: usize = 0;
    proof {
        assert(s@.skip(0) =~= s@);
    }
    while i < n
        invariant
            n == s@.len(),
            m == token@.len(),
            i <= n,
            out@ + substituted(s@.skip(i as int), token@, value@) == substituted(
                s@,
                token@,
                value@,
            ),
        decreases n - i,
    {
        let ghost rest = s@.skip(i as int);
        if occurs_at(s, i, token) {
            proof {
                assert(rest.skip(m as int) =~= s@.skip(i + m));
                assert((out@ + value@) + substituted(rest.skip(m as int), token@, value@)
                    =~= out@ + (value@ + substituted(rest.skip(m as int), token@, value@)));
            }
            out.append(value);
            i += m;
        } else {
            proof {
                assert(rest.drop_first() =~= s@.skip(i + 1));
                assert((out@ + seq![rest[0]]) + substituted(rest.drop_first(), token@, value@)
                    =~= out@ + (seq![rest[0]] + substituted(rest.drop_first(), token@, value@)));
            }
            out.append(s.substring_char(i, i + 1));
            i += 1;
        }
    }
    out
}

/// Whether `a` comes before `b` in the order of their characters.
pub fn text_less(a: &str, b: &str) -> (less: bool)
    ensures
        less == text_precedes(a@, b@),
    decreases a@.len(),
{
    let n = a.unicode_len();
    let m = b.unicode_len();
    if m == 0 {
        false
    } else if n == 0 {
        true
    } else if a.get_char(0) != b.get_char(0) {
        a.get_char(0) < b.get_char(0)
    } else {
        text_less(a.substring_char(1, n), b.substring_char(1, m))
    }
}

/// Whether every character of `s` is a decimal digit.
pub fn is_all_digits(s: &str) -> (all: bool)
    ensures
        all == all_digits(s@),
{
    let n = s.unicode_len();
    let mut i: usize = 0;
    while i < n
        invariant
            n == s@.len(),
            i <= n,
            forall|j: int| 0 <= j < i ==> is_digit(#[trigger] s@[j]),
        decreases n - i,
    {
        let c = s.get_char(i);
        if !('0' <= c && c <= '9') {
            return false;
        }
        i += 1;
    }
    true
}

/// Puts zeros before `s`, as many as bring it to `width` characters.
pub fn pad_with_zeros(s: &str, width: usize) -> (res: String)
    ensures
        res@ == zero_padded(s@, width as nat),
{
    let mut out = String::from_str(s);
    let mut n = s.unicode_len();
    while n < width
        invariant
            n == out@.len(),
            zero_padded(out@, width as nat) == zero_padded(s@, width as nat),
        decreases width - n,
    {
        proof {
            reveal_strlit("0");
            assert("0"@ =~= seq!['0']);
        }
        out = String::from_str("0").concat(out.as_str());
        n += 1;
    }
    out
}

/// The text of one decimal digit.
fn digit_text(d: u64) -> (text: &'static str)
    requires
        d < 10,
    ensures
        text@ == seq![digit_char(d as nat)],
{
    proof {
        reveal_strlit("0");
        reveal_strlit("1");
        reveal_strlit("2");
        reveal_strlit("3");
        reveal_strlit("4");
        reveal_strlit("5");
        reveal_strlit("6");
        reveal_strlit("7");
        reveal_strlit("8");
        reveal_strlit("9");
    }
    if d == 0 {
        "0"
    } else if d == 1 {
        "1"
    } else if d == 2 {
        "2"
    } else if d == 3 {
        "3"
    } else if d == 4 {
        "4"
    } else if d == 5 {
        "5"
    } else if d == 6 {
        "6"
    } else if d == 7 {
        "7"
    } else if d == 8 {
        "8"
    } else {
        "9"
    }
}

/// Writes `n` in decimal notation.
pub fn decimal_string(n: u64) -> (res: String)
    ensures
        res@ == decimal(n as nat),
{
    let mut rest: u64 = n / 10;
    let mut out = String::from_str(digit_text(n % 10));
    proof {
        if n >= 10 {
            assert(decimal((n / 10) as nat).push(digit_char((n % 10) as nat)) =~= decimal(
                rest as nat,
            ) + out@);
        }
    }
    while rest > 0
        invariant
            decimal(n as nat) == if rest == 0 {
                out@
            } else {
                decimal(rest as nat) + out@
            },
        decreases rest,
    {
        let ghost before = out@;
        let digit = digit_text(rest % 10);
        out = String::from_str(digit).concat(out.as_str());
        proof {
            if rest >= 10 {
                assert(decimal((rest / 10) as nat).push(digit_char((rest % 10) as nat)) + before
                    =~= decimal((rest / 10) as nat) + out@);
            }
        }
        rest = rest / 10;
    }
    out
}

/// Reads a decimal number: `None` unless `s` is one digit or more, nothing but digits,
/// and the number fits in 64 bits.
pub fn parse_number(s: &str) -> (res: Option<u64>)
    ensures
        res == number_of(s@),
{
    let n = s.unicode_len();
    if n == 0 {
        return None;
    }
    let mut acc: u64 = 0;
    let mut i: usize = 0;
    while i < n
        invariant
            n == s@.len(),
            i <= n,
            all_digits(s@.take(i as int)),
            acc == decimal_value(s@.take(i as int)),
        decreases n - i,
    {
        let c = s.get_char(i);
        if !('0' <= c && c <= '9') {
            return None;
        }
        let d: u64 = (c as u32 - '0' as u32) as u64;
        proof {
            assert(s@.take(i + 1).drop_last() =~= s@.take(i as int));
        }
        if acc > (u64::MAX - d) / 10 {
            proof {
                lemma_decimal_value_prefix(s@, i + 1);
            }
            return None;
        }
        acc = acc * 10 + d;
        i += 1;
        proof {
            assert forall|k: int| 0 <= k < i implies is_digit(#[trigger] s@.take(i as int)[k]) by {}
        }
    }
    proof {
        assert(s@.take(n as int) =~= s@);
    }
    Some(acc)
}

} // verus!
