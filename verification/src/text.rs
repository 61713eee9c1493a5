//! Small text routines that the rest of the library is built on: numbers
//! written in decimal, and the part of a string that precedes a given
//! character.

use vstd::prelude::*;
use vstd::string::*;

verus! {

/// The texts of a sequence of strings.
pub open spec fn texts(items: Seq<String>) -> Seq<Seq<char>> {
    Seq::new(items.len(), |i: int| items[i]@)
}

/// The ten decimal digits, in order.
pub open spec fn digit_chars() -> Seq<char> {
    "0123456789"@
}

/// The symbols that `digits` select, given least significant first, written
/// most significant first.
pub open spec fn written(symbols: Seq<char>, digits: Seq<usize>) -> Seq<char> {
    Seq::new(digits.len(), |t: int| symbols[digits[digits.len() - 1 - t] as int])
}

/// Writes out the symbols that `digits` select, last digit first.
pub fn write_digits(symbols: &str, digits: &Vec<usize>) -> (text: String)
    requires
        symbols.is_ascii(),
        symbols@.len() <= usize::MAX,
        forall|t: int| 0 <= t < digits@.len() ==> digits@[t] < symbols@.len(),
    ensures
        text@ == written(symbols@, digits@),
{
    let mut text = String::new();
    let mut j: usize = digits.len();
    while j > 0
        invariant
            j <= digits@.len(),
            symbols.is_ascii(),
            symbols@.len() <= usize::MAX,
            forall|t: int| 0 <= t < digits@.len() ==> digits@[t] < symbols@.len(),
            text@ == written(symbols@, digits@).subrange(0, digits@.len() - j),
        decreases j,
    {
        j -= 1;
        let digit: usize = digits[j];
        let symbol = symbols.substring_ascii(digit, digit + 1);
        proof {
            assert(text@ + symbol@ =~= written(symbols@, digits@).subrange(
                0,
                digits@.len() - j,
            ));
        }
        text.append(symbol);
    }
    assert(text@ =~= written(symbols@, digits@));
    text
}

/// A natural number in decimal, without leading zeros.
pub open spec fn decimal(n: nat) -> Seq<char>
    decreases n,
{
    if n < 10 {
        seq![digit_chars()[n as int]]
    } else {
        decimal(n / 10).push(digit_chars()[(n % 10) as int])
    }
}

/// The ten digits are the characters from `0` on, in order.
pub proof fn lemma_digit_chars()
    ensures
        digit_chars().len() == 10,
        forall|k: int| 0 <= k < 10 ==> #[trigger] digit_chars()[k] as int == '0' as int + k,
{
    reveal_strlit("0123456789");
}

/// A number in decimal has at least one symbol, each of them a digit.
pub proof fn lemma_decimal_shape(n: nat)
    ensures
        decimal(n).len() >= 1,
        n >= 10 ==> decimal(n).len() >= 2,
        forall|k: int| 0 <= k < decimal(n).len() ==> decimal(n)[k] != '-',
    decreases n,
{
    lemma_digit_chars();
    if n >= 10 {
        lemma_decimal_shape(n / 10);
    }
}

/// Two numbers that are written the same are the same number.
pub proof fn lemma_decimal_injective(a: nat, b: nat)
    requires
        decimal(a) == decimal(b),
    ensures
        a == b,
    decreases a,
{
    lemma_digit_chars();
    lemma_decimal_shape(a);
    lemma_decimal_shape(b);
    if a < 10 && b < 10 {
        assert(decimal(a)[0] == digit_chars()[a as int]);
        assert(decimal(b)[0] == digit_chars()[b as int]);
    } else if a >= 10 && b >= 10 {
        assert(decimal(a).last() == digit_chars()[(a % 10) as int]);
        assert(decimal(b).last() == digit_chars()[(b % 10) as int]);
        assert(decimal(a).drop_last() =~= decimal(a / 10));
        assert(decimal(b).drop_last() =~= decimal(b / 10));
        lemma_decimal_injective(a / 10, b / 10);
    }
}

/// An integer in decimal, with a minus sign in front where it is negative.
pub open spec fn signed_decimal(n: int) -> Seq<char> {
    if n < 0 {
        seq!['-'] + decimal((-n) as nat)
    } else {
        decimal(n as nat)
    }
}

/// Two integers that are written the same are the same integer.
pub proof fn lemma_signed_decimal_injective(a: int, b: int)
    requires
        signed_decimal(a) == signed_decimal(b),
    ensures
        a == b,
{
    let wa = signed_decimal(a);
    let wb = signed_decimal(b);
    lemma_decimal_shape((-a) as nat);
    lemma_decimal_shape((-b) as nat);
    lemma_decimal_shape(a as nat);
    lemma_decimal_shape(b as nat);
    if a < 0 && b < 0 {
        assert(wa.skip(1) =~= decimal((-a) as nat));
        assert(wb.skip(1) =~= decimal((-b) as nat));
        lemma_decimal_injective((-a) as nat, (-b) as nat);
    } else if a >= 0 && b >= 0 {
        lemma_decimal_injective(a as nat, b as nat);
    } else {
        assert(wa[0] == wb[0]);
    }
}

/// `n` written in decimal.
pub fn decimal_string(n: u64) -> (text: String)
    ensures
        text@ == decimal(n as nat),
{
    let symbols = "0123456789";
    proof {
        reveal_strlit("0123456789");
    }
    let mut digits: Vec<usize> = Vec::new();
    let first: u64 = n % 10;
    digits.push(first as usize);
    let mut rest: u64 = n / 10;
    assert(written(symbols@, digits@) =~= seq![symbols@[first as int]]);
    assert(decimal(n as nat) =~= (if rest > 0 {
        decimal(rest as nat)
    } else {
        Seq::empty()
    }) + written(symbols@, digits@));
    while rest > 0
        invariant
            symbols@ == digit_chars(),
            symbols@.len() == 10,
            forall|t: int| 0 <= t < digits@.len() ==> digits@[t] < 10,
            decimal(n as nat) == (if rest > 0 {
                decimal(rest as nat)
            } else {
                Seq::empty()
            }) + written(symbols@, digits@),
        decreases rest,
    {
        let digit: u64 = rest % 10;
        proof {
            let after = digits@.push(digit as usize);
            assert(written(symbols@, after) =~= seq![symbols@[digit as int]] + written(
                symbols@,
                digits@,
            ));
            let head = if rest / 10 > 0 {
                decimal((rest / 10) as nat)
            } else {
                Seq::empty()
            };
            assert(decimal(rest as nat) =~= head + seq![symbols@[digit as int]]);
            assert(decimal(rest as nat) + written(symbols@, digits@) =~= head + written(
                symbols@,
                after,
            ));
        }
        digits.push(digit as usize);
        rest = rest / 10;
    }
    assert(decimal(n as nat) =~= written(symbols@, digits@));
    write_digits(symbols, &digits)
}

/// `n` written in decimal, negative numbers with a leading minus sign.
pub fn signed_decimal_string(n: i32) -> (text: String)
    ensures
        text@ == signed_decimal(n as int),
{
    if n < 0 {
        let magnitude: u64 = (-(n as i64)) as u64;
        let digits = decimal_string(magnitude);
        let mut text = String::from_str("-");
        proof {
            reveal_strlit("-");
            assert("-"@ =~= seq!['-']);
        }
        text.append(digits.as_str());
        text
    } else {
        decimal_string(n as u64)
    }
}

/// How many symbols at the front of `text` satisfy `keep`, up to the first
/// that does not.
pub open spec fn leading_run(text: Seq<char>, keep: spec_fn(char) -> bool) -> nat
    decreases text.len(),
{
    if text.len() == 0 || !keep(text[0]) {
        0
    } else {
        1 + leading_run(text.skip(1), keep)
    }
}

/// How many symbols at the end of `text` satisfy `keep`, back to the last
/// that does not.
pub open spec fn trailing_run(text: Seq<char>, keep: spec_fn(char) -> bool) -> nat
    decreases text.len(),
{
    if text.len() == 0 || !keep(text.last()) {
        0
    } else {
        1 + trailing_run(text.drop_last(), keep)
    }
}

/// The leading run is the one position up to which every symbol satisfies
/// `keep` and at which the text ends or a symbol fails it.
pub proof fn lemma_leading_run(text: Seq<char>, keep: spec_fn(char) -> bool, n: nat)
    requires
        n <= text.len(),
        forall|t: int| 0 <= t < n ==> keep(#[trigger] text[t]),
        n < text.len() ==> !keep(text[n as int]),
    ensures
        leading_run(text, keep) == n,
    decreases n,
{
    if n > 0 {
        let rest = text.skip(1);
        assert forall|t: int| 0 <= t < n - 1 implies keep(#[trigger] rest[t]) by {
            assert(rest[t] == text[t + 1]);
        }
        lemma_leading_run(rest, keep, (n - 1) as nat);
    }
}

/// The trailing run is the one count of symbols at the end that all
/// satisfy `keep` and before which the text begins or a symbol fails it.
pub proof fn lemma_trailing_run(text: Seq<char>, keep: spec_fn(char) -> bool, n: nat)
    requires
        n <= text.len(),
        forall|t: int| text.len() - n <= t < text.len() ==> keep(#[trigger] text[t]),
        n < text.len() ==> !keep(text[text.len() - n - 1]),
    ensures
        trailing_run(text, keep) == n,
    decreases n,
{
    if n > 0 {
        let rest = text.drop_last();
        assert forall|t: int| rest.len() - (n - 1) <= t < rest.len() implies keep(
            #[trigger] rest[t],
        ) by {
            assert(rest[t] == text[t]);
        }
        lemma_trailing_run(rest, keep, (n - 1) as nat);
    }
}

/// The test "is not `stop`".
pub open spec fn other_than(stop: char) -> spec_fn(char) -> bool {
    |c: char| c != stop
}

/// The part of `text` before the first `stop`; all of it where it holds no
/// `stop`.
pub open spec fn prefix_before(text: Seq<char>, stop: char) -> Seq<char> {
    text.subrange(0, leading_run(text, other_than(stop)) as int)
}

/// The position of the first `stop` in `text` at or after `from`, or the
/// length of `text` where there is none.
pub fn find_from(text: &str, from: usize, stop: char) -> (at: usize)
    requires
        from <= text@.len(),
    ensures
        from <= at <= text@.len(),
        at == from + leading_run(text@.skip(from as int), other_than(stop)),
{
    let len: usize = text.unicode_len();
    let mut at: usize = from;
    while at < len
        invariant
            from <= at <= len,
            len == text@.len(),
            forall|t: int| from <= t < at ==> text@[t] != stop,
        ensures
            from <= at <= len,
            forall|t: int| from <= t < at ==> text@[t] != stop,
            at < len ==> text@[at as int] == stop,
        decreases len - at,
    {
        if text.get_char(at) == stop {
            break ;
        }
        at += 1;
    }
    proof {
        let rest = text@.skip(from as int);
        assert forall|t: int| 0 <= t < at - from implies other_than(stop)(#[trigger] rest[t]) by {
            assert(rest[t] == text@[from + t]);
        }
        if at < len {
            assert(rest[at - from] == text@[at as int]);
        }
        lemma_leading_run(rest, other_than(stop), (at - from) as nat);
    }
    at
}

/// The part of `text` before the first `stop`.
pub fn before_first(text: &str, stop: char) -> (head: String)
    ensures
        head@ == prefix_before(text@, stop),
{
    let at = find_from(text, 0, stop);
    assert(text@.skip(0) =~= text@);
    String::from_str(text.substring_char(0, at))
}

/// Whether `c` is white space: one of the characters to which Unicode gives
/// the property White_Space.
pub open spec fn is_space(c: char) -> bool {
    ||| '\u{9}' <= c <= '\u{d}'
    ||| c == ' '
    ||| c == '\u{85}'
    ||| c == '\u{a0}'
    ||| c == '\u{1680}'
    ||| '\u{2000}' <= c <= '\u{200a}'
    ||| c == '\u{2028}'
    ||| c == '\u{2029}'
    ||| c == '\u{202f}'
    ||| c == '\u{205f}'
    ||| c == '\u{3000}'
}

/// The test `is_space` as a value.
pub open spec fn space() -> spec_fn(char) -> bool {
    |c: char| is_space(c)
}

/// `text` without the white space at its two ends.
pub open spec fn trimmed(text: Seq<char>) -> Seq<char> {
    let from = leading_run(text, space());
    let rest = text.skip(from as int);
    rest.subrange(0, rest.len() - trailing_run(rest, space()))
}

/// Whether `c` is white space.
pub fn is_space_char(c: char) -> (yes: bool)
    ensures
        yes == is_space(c),
{
    ('\u{9}' <= c && c <= '\u{d}') || c == ' ' || c == '\u{85}' || c == '\u{a0}' || c
        == '\u{1680}' || ('\u{2000}' <= c && c <= '\u{200a}') || c == '\u{2028}' || c
        == '\u{2029}' || c == '\u{202f}' || c == '\u{205f}' || c == '\u{3000}'
}

/// The part of `text` from `from` up to `to`, without the white space at
/// its two ends.
pub fn trimmed_part(text: &str, from: usize, to: usize) -> (part: String)
    requires
        from <= to <= text@.len(),
    ensures
        part@ == trimmed(text@.subrange(from as int, to as int)),
{
    let ghost piece = text@.subrange(from as int, to as int);
    let mut start: usize = from;
    while start < to
        invariant
            from <= start <= to <= text@.len(),
            forall|t: int| from <= t < start ==> is_space(text@[t]),
        ensures
            from <= start <= to,
            forall|t: int| from <= t < start ==> is_space(text@[t]),
            start < to ==> !is_space(text@[start as int]),
        decreases to - start,
    {
        if !is_space_char(text.get_char(start)) {
            break ;
        }
        start += 1;
    }
    let mut end: usize = to;
    while end > start
        invariant
            start <= end <= to <= text@.len(),
            forall|t: int| end <= t < to ==> is_space(text@[t]),
        ensures
            start <= end <= to,
            forall|t: int| end <= t < to ==> is_space(text@[t]),
            end > start ==> !is_space(text@[end - 1]),
        decreases end,
    {
        if !is_space_char(text.get_char(end - 1)) {
            break ;
        }
        end -= 1;
    }
    proof {
        assert forall|t: int| 0 <= t < start - from implies space()(#[trigger] piece[t]) by {
            assert(piece[t] == text@[from + t]);
        }
        lemma_leading_run(piece, space(), (start - from) as nat);
        let rest = piece.skip(start - from);
        assert forall|t: int| rest.len() - (to - end) <= t < rest.len() implies space()(
            #[trigger] rest[t],
        ) by {
            assert(rest[t] == text@[start + t]);
        }
        if to - end < rest.len() {
            assert(rest[rest.len() - (to - end) - 1] == text@[end - 1]);
        }
        lemma_trailing_run(rest, space(), (to - end) as nat);
        assert(text@.subrange(start as int, end as int) =~= trimmed(piece));
    }
    String::from_str(text.substring_char(start, end))
}

} // verus!
