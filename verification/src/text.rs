//! Decimal numbers as text, and text cut into fields.
//!
//! Text is modelled as a sequence of characters.  A number is written with
//! the digits `0` to `9`, most significant first; it is read back from an
//! optional `+` followed by at least one digit.

use vstd::prelude::*;
use vstd::std_specs::iter::IteratorSpec;
use vstd::string::StringExecFns;

verus! {

/// Whether `c` is one of the digits `0` to `9`.
pub open spec fn is_digit(c: char) -> bool {
    48 <= c as int <= 57
}

/// The digit that stands for `d`, for `d` from 0 to 9.
pub open spec fn digit_char(d: int) -> char {
    (d + 48) as char
}

/// The number a digit stands for.
pub open spec fn digit_of(c: char) -> int {
    c as int - 48
}

/// Whether every character of `s` is a digit.
pub open spec fn all_digits(s: Seq<char>) -> bool {
    forall|i: int| 0 <= i < s.len() ==> is_digit(#[trigger] s[i])
}

/// The digits of `n`, most significant first, without leading zeros.
pub open spec fn decimal_digits(n: nat) -> Seq<char>
    decreases n,
{
    if n < 10 {
        seq![digit_char(n as int)]
    } else {
        decimal_digits(n / 10).push(digit_char((n % 10) as int))
    }
}

/// The number that a sequence of digits writes; leading zeros count for
/// nothing and the empty sequence writes 0.
pub open spec fn digits_value(s: Seq<char>) -> nat
    decreases s.len(),
{
    if s.len() == 0 {
        0
    } else {
        (digits_value(s.drop_last()) * 10 + digit_of(s.last())) as nat
    }
}

/// `width - s.len()` zeros in front of `s`, or `s` itself where it is
/// already that long.
pub open spec fn zero_padded(s: Seq<char>, width: nat) -> Seq<char>
    decreases width - s.len(),
{
    if s.len() >= width {
        s
    } else {
        zero_padded(seq!['0'] + s, width)
    }
}

/// The number that `s` reads as: an optional `+`, then one or more digits
/// whose value is at most `max`.  `None` for any other text.
pub open spec fn unsigned_from_text(s: Seq<char>, max: nat) -> Option<nat> {
    let digits = if s.len() > 0 && s[0] == '+' {
        s.drop_first()
    } else {
        s
    };
    if digits.len() > 0 && all_digits(digits) && digits_value(digits) <= max {
        Some(digits_value(digits))
    } else {
        None
    }
}

/// The position of the first `c` in `s`, or the length of `s` where there
/// is none.
pub open spec fn first_index_of(s: Seq<char>, c: char) -> int
    decreases s.len(),
{
    if s.len() == 0 {
        0
    } else if s[0] == c {
        0
    } else {
        1 + first_index_of(s.drop_first(), c)
    }
}

/// The written form of a number consists of digits, at least one.
pub proof fn lemma_decimal_digits_are_digits(n: nat)
    ensures
        decimal_digits(n).len() >= 1,
        all_digits(decimal_digits(n)),
    decreases n,
{
    if n >= 10 {
        lemma_decimal_digits_are_digits(n / 10);
    }
}

/// Reading the written form of a number gives the number back.
pub proof fn lemma_digits_value_of_decimal(n: nat)
    ensures
        digits_value(decimal_digits(n)) == n,
    decreases n,
{
    if n < 10 {
        let s = decimal_digits(n);
        assert(s.drop_last().len() == 0);
        assert(digits_value(s.drop_last()) == 0);
    } else {
        lemma_digits_value_of_decimal(n / 10);
        let s = decimal_digits(n);
        assert(s.drop_last() =~= decimal_digits(n / 10));
    }
}

/// A number that fits is read back from its written form.
pub proof fn lemma_unsigned_round_trip(n: nat, max: nat)
    requires
        n <= max,
    ensures
        unsigned_from_text(decimal_digits(n), max) == Some(n),
{
    lemma_decimal_digits_are_digits(n);
    lemma_digits_value_of_decimal(n);
    let s = decimal_digits(n);
    assert(is_digit(s[0]));
}

/// The value of a sequence of digits is at least the value of any of its
/// prefixes.
pub proof fn lemma_digits_value_grows(s: Seq<char>, k: int)
    requires
        all_digits(s),
        0 <= k <= s.len(),
    ensures
        digits_value(s.take(k)) <= digits_value(s),
    decreases s.len() - k,
{
    if k == s.len() {
        assert(s.take(k) =~= s);
    } else {
        lemma_digits_value_grows(s, k + 1);
        let t = s.take(k + 1);
        assert(t.drop_last() =~= s.take(k));
        assert(is_digit(t.last()));
    }
}

/// Nothing before the first `c` is `c`, and what stands at that position,
/// if anything, is `c`.
pub proof fn lemma_first_index_of(s: Seq<char>, c: char)
    ensures
        0 <= first_index_of(s, c) <= s.len(),
        forall|i: int| 0 <= i < first_index_of(s, c) ==> #[trigger] s[i] != c,
        first_index_of(s, c) < s.len() ==> s[first_index_of(s, c)] == c,
    decreases s.len(),
{
    if s.len() > 0 && s[0] != c {
        let rest = s.drop_first();
        lemma_first_index_of(rest, c);
        assert forall|i: int| 0 <= i < first_index_of(s, c) implies #[trigger] s[i] != c by {
            if i > 0 {
                assert(rest[i - 1] == s[i]);
            }
        }
    }
}

/// A position that holds `c` with no `c` before it is the first index of `c`.
pub proof fn lemma_first_index_of_unique(s: Seq<char>, c: char, k: int)
    requires
        0 <= k <= s.len(),
        forall|i: int| 0 <= i < k ==> #[trigger] s[i] != c,
        k < s.len() ==> s[k] == c,
    ensures
        first_index_of(s, c) == k,
{
    lemma_first_index_of(s, c);
    let f = first_index_of(s, c);
    if f < k {
        assert(s[f] != c);
    } else if k < f {
        assert(s[k] != c);
    }
}

/// The characters of `s`, one by one.
pub fn chars_of(s: &str) -> (chars: Vec<char>)
    ensures
        chars@ == s@,
{
    let mut chars: Vec<char> = Vec::new();
    let it = s.chars();
    for c in iter: it
        invariant
            chars@ == s@.take(iter.index() as int),
            iter.seq() == s@,
    {
        chars.push(c);
    }
    chars
}

/// Reads the characters of `chars` from position `from` up to `to` as an
/// unsigned number of at most `max`.
#[verifier::loop_isolation(false)]
pub fn parse_unsigned(chars: &Vec<char>, from: usize, to: usize, max: u64) -> (number: Option<u64>)
    requires
        from <= to <= chars.len(),
    ensures
        number matches Some(n) ==> unsigned_from_text(chars@.subrange(from as int, to as int), max as nat)
            == Some(n as nat),
        number is None ==> unsigned_from_text(chars@.subrange(from as int, to as int), max as nat)
            is None,
{
    let ghost text = chars@.subrange(from as int, to as int);
    let mut i: usize = from;
    if i < to && chars[i] == '+' {
        i = i + 1;
    }
    let start: usize = i;
    let ghost digits = chars@.subrange(start as int, to as int);
    proof {
        if start > from {
            assert(text[0] == '+');
            assert(digits =~= text.drop_first());
        } else {
            if text.len() > 0 {
                assert(text[0] == chars@[from as int]);
            }
            assert(digits =~= text);
        }
    }
    if start == to {
        return None;
    }
    let mut acc: u64 = 0;
    while i < to
        invariant
            start <= i <= to <= chars.len(),
            digits == chars@.subrange(start as int, to as int),
            all_digits(digits.take(i - start)),
            acc == digits_value(digits.take(i - start)),
            acc <= max,
        decreases to - i,
    {
        let c: char = chars[i];
        if !(c >= '0' && c <= '9') {
            assert(!is_digit(digits[i - start]));
            return None;
        }
        let d: u64 = (c as u32 - 48) as u64;
        proof {
            let longer = digits.take(i - start + 1);
            assert(longer.drop_last() =~= digits.take(i - start));
            assert(longer.last() == c);
            assert(digits_value(longer) == acc * 10 + d);
            assert forall|j: int| 0 <= j < longer.len() implies is_digit(#[trigger] longer[j]) by {
                if j < i - start {
                    assert(digits.take(i - start)[j] == longer[j]);
                }
            }
            if all_digits(digits) {
                lemma_digits_value_grows(digits, i - start + 1);
            }
        }
        if d > max || acc > (max - d) / 10 {
            return None;
        }
        acc = acc * 10 + d;
        i = i + 1;
    }
    proof {
        assert(digits.take(i - start) =~= digits);
    }
    Some(acc)
}

/// Writes the digit `d` at the end of `out`.
fn append_digit(out: &mut String, d: u8)
    requires
        d < 10,
    ensures
        final(out)@ == old(out)@.push(digit_char(d as int)),
{
    proof {
        reveal_strlit("0");
        reveal_strlit("1");
        reveal_strlit("2");
        reveal_strlit("3");
        reveal_strlit("4");
        reveal_strlit("5");
        reveal_strlit("6");
        reveal_strlit("7");
        reveal_strlit("8");
        reveal_strlit("9");
    }
    let digit: &str = if d == 0 {
        "0"
    } else if d == 1 {
        "1"
    } else if d == 2 {
        "2"
    } else if d == 3 {
        "3"
    } else if d == 4 {
        "4"
    } else if d == 5 {
        "5"
    } else if d == 6 {
        "6"
    } else if d == 7 {
        "7"
    } else if d == 8 {
        "8"
    } else {
        "9"
    };
    assert(digit@ =~= seq![digit_char(d as int)]);
    out.append(digit);
    assert(out@ =~= old(out)@.push(digit_char(d as int)));
}

/// Writes `n` in decimal at the end of `out`.
pub fn append_decimal(out: &mut String, n: u64)
    ensures
        final(out)@ == old(out)@ + decimal_digits(n as nat),
    decreases n,
{
    if n >= 10 {
        append_decimal(out, n / 10);
    }
    append_digit(out, (n % 10) as u8);
    assert(out@ =~= old(out)@ + decimal_digits(n as nat));
}

/// Whether `a` comes before `b` in the order of texts: character by
/// character, a text before every text that it begins.
pub open spec fn text_before(a: Seq<char>, b: Seq<char>) -> bool
    decreases a.len(),
{
    if b.len() == 0 {
        false
    } else if a.len() == 0 {
        true
    } else if a[0] != b[0] {
        (a[0] as int) < (b[0] as int)
    } else {
        text_before(a.drop_first(), b.drop_first())
    }
}

/// `text` without `prefix` in front, or `text` itself where it does not
/// begin with `prefix`.
pub open spec fn without_prefix(text: Seq<char>, prefix: Seq<char>) -> Seq<char> {
    if prefix.is_prefix_of(text) {
        text.skip(prefix.len() as int)
    } else {
        text
    }
}

/// No text comes before itself, and of two texts at most one comes before
/// the other.
pub proof fn lemma_text_before_asymmetric(a: Seq<char>, b: Seq<char>)
    ensures
        !(text_before(a, b) && text_before(b, a)),
        !text_before(a, a),
    decreases a.len(),
{
    if a.len() > 0 && b.len() > 0 && a[0] == b[0] {
        lemma_text_before_asymmetric(a.drop_first(), b.drop_first());
    }
    if a.len() > 0 {
        lemma_text_before_asymmetric(a.drop_first(), a.drop_first());
    }
}

/// The order of texts is transitive.
pub proof fn lemma_text_before_transitive(a: Seq<char>, b: Seq<char>, c: Seq<char>)
    requires
        text_before(a, b),
        text_before(b, c),
    ensures
        text_before(a, c),
    decreases a.len(),
{
    if a.len() > 0 && a[0] == b[0] && b[0] == c[0] {
        lemma_text_before_transitive(a.drop_first(), b.drop_first(), c.drop_first());
    }
}

/// Whether `a` comes before `b` in the order of texts.
pub fn chars_before(a: &Vec<char>, b: &Vec<char>) -> (before: bool)
    ensures
        before == text_before(a@, b@),
{
    let mut i: usize = 0;
    assert(a@.skip(0) =~= a@ && b@.skip(0) =~= b@);
    while i < a.len() && i < b.len()
        invariant
            i <= a.len(),
            i <= b.len(),
            text_before(a@, b@) == text_before(a@.skip(i as int), b@.skip(i as int)),
        decreases a.len() - i,
    {
        proof {
            assert(a@.skip(i as int).drop_first() =~= a@.skip(i + 1));
            assert(b@.skip(i as int).drop_first() =~= b@.skip(i + 1));
            assert(a@.skip(i as int)[0] == a@[i as int]);
            assert(b@.skip(i as int)[0] == b@[i as int]);
        }
        if a[i] != b[i] {
            return a[i] < b[i];
        }
        i = i + 1;
    }
    i < b.len()
}

/// The characters of `text` without `prefix` in front.
pub fn strip_prefix(text: &Vec<char>, prefix: &Vec<char>) -> (rest: Vec<char>)
    ensures
        rest@ == without_prefix(text@, prefix@),
{
    let mut begins = prefix.len() <= text.len();
    let mut i: usize = 0;
    while begins && i < prefix.len()
        invariant
            i <= prefix.len(),
            begins ==> prefix.len() <= text.len(),
            begins ==> forall|j: int| 0 <= j < i ==> prefix@[j] == text@[j],
            !begins ==> !prefix@.is_prefix_of(text@),
        decreases prefix.len() - i + (if begins { 1int } else { 0int }),
    {
        if prefix[i] != text[i] {
            begins = false;
            assert(!prefix@.is_prefix_of(text@)) by {
                if prefix@.is_prefix_of(text@) {
                    assert(prefix@[i as int] == text@.subrange(0, prefix@.len() as int)[i as int]);
                }
            }
        } else {
            i = i + 1;
        }
    }
    let from: usize = if begins {
        assert(prefix@ =~= text@.subrange(0, prefix@.len() as int));
        prefix.len()
    } else {
        0
    };
    let mut rest: Vec<char> = Vec::new();
    let mut k: usize = from;
    while k < text.len()
        invariant
            from <= k <= text.len(),
            rest@ == text@.subrange(from as int, k as int),
        decreases text.len() - k,
    {
        rest.push(text[k]);
        assert(rest@ =~= text@.subrange(from as int, k + 1));
        k = k + 1;
    }
    assert(rest@ =~= text@.skip(from as int));
    rest
}

/// The field number `n`, counted from 0, of `text` cut at every `sep`, or
/// `None` where the text has fewer fields.  Two `sep` in a row enclose an
/// empty field, and a text without `sep` is one field.
pub open spec fn nth_field(text: Seq<char>, sep: char, n: nat) -> Option<Seq<char>>
    decreases n,
{
    let cut = first_index_of(text, sep);
    if n == 0 {
        Some(text.take(cut))
    } else if cut >= text.len() {
        None
    } else {
        nth_field(text.skip(cut + 1), sep, (n - 1) as nat)
    }
}

/// The position of the first `c` in `chars` at or after `from`, or the
/// length of `chars` where there is none.
pub fn find_char_from(chars: &Vec<char>, from: usize, c: char) -> (position: usize)
    requires
        from <= chars.len(),
    ensures
        position == from + first_index_of(chars@.skip(from as int), c),
        from <= position <= chars.len(),
{
    let mut i: usize = from;
    while i < chars.len() && chars[i] != c
        invariant
            from <= i <= chars.len(),
            forall|j: int| from <= j < i ==> #[trigger] chars@[j] != c,
        decreases chars.len() - i,
    {
        i = i + 1;
    }
    proof {
        let rest = chars@.skip(from as int);
        assert forall|j: int| 0 <= j < i - from implies #[trigger] rest[j] != c by {
            assert(rest[j] == chars@[j + from]);
        }
        lemma_first_index_of_unique(rest, c, i - from);
    }
    i
}

/// Where field number `n` of `chars` cut at every `sep` begins and ends, or
/// `None` where there are fewer fields.
pub fn field_bounds(chars: &Vec<char>, sep: char, n: usize) -> (bounds: Option<(usize, usize)>)
    ensures
        bounds is None <==> nth_field(chars@, sep, n as nat) is None,
        bounds matches Some((from, to)) ==> from <= to <= chars.len() && nth_field(
            chars@,
            sep,
            n as nat,
        ) == Some(chars@.subrange(from as int, to as int)),
{
    let mut from: usize = 0;
    let mut left: usize = n;
    assert(chars@.skip(0) =~= chars@);
    while left > 0
        invariant
            from <= chars.len(),
            nth_field(chars@, sep, n as nat) == nth_field(chars@.skip(from as int), sep, left as nat),
        decreases left,
    {
        let cut = find_char_from(chars, from, sep);
        if cut >= chars.len() {
            return None;
        }
        proof {
            assert(chars@.skip(from as int).skip(cut - from + 1) =~= chars@.skip(cut + 1));
        }
        from = cut + 1;
        left = left - 1;
    }
    let to = find_char_from(chars, from, sep);
    proof {
        assert(chars@.skip(from as int).take(to - from) =~= chars@.subrange(from as int, to as int));
    }
    Some((from, to))
}

/// Whether two texts are the same.
pub fn same_text(a: &str, b: &str) -> (same: bool)
    ensures
        same == (a@ == b@),
{
    let a = String::from_str(a);
    let b = String::from_str(b);
    a == b
}

} // verus!
