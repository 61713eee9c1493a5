//! The candidate generator: every string of a fixed length over one of three
//! alphabets, in positional order.

use vstd::arithmetic::div_mod::{
    lemma_div_denominator, lemma_div_multiples_vanish_fancy, lemma_fundamental_div_mod,
    lemma_mod_bound, lemma_mod_multiples_vanish, lemma_multiply_divide_lt,
};
use vstd::arithmetic::power::{lemma_pow_increases, lemma_pow_positive, pow};
use vstd::prelude::*;
use vstd::string::*;

use crate::text::{digit_chars, texts, write_digits, written};

verus! {

/// The twenty-six lowercase letters.
pub open spec fn letter_chars() -> Seq<char> {
    "abcdefghijklmnopqrstuvwxyz"@
}

/// Letters followed by digits.
pub open spec fn alphanumeric_chars() -> Seq<char> {
    "abcdefghijklmnopqrstuvwxyz0123456789"@
}

/// The alphabet that the two mode flags select. `numbers_only` wins over
/// `letters_only`; with neither set the alphabet is the combined one.
pub open spec fn alphabet(letters_only: bool, numbers_only: bool) -> Seq<char> {
    if numbers_only {
        digit_chars()
    } else if letters_only {
        letter_chars()
    } else {
        alphanumeric_chars()
    }
}

/// The string that stands for `index` in base `symbols.len()`, written with
/// exactly `length` symbols, most significant first.
pub open spec fn candidate(symbols: Seq<char>, length: nat, index: nat) -> Seq<char>
    decreases length,
{
    if length == 0 {
        Seq::empty()
    } else {
        candidate(symbols, (length - 1) as nat, index / symbols.len()).push(
            symbols[(index % symbols.len()) as int],
        )
    }
}

/// How many candidates of `length` symbols the alphabet gives.
pub open spec fn candidate_count(symbols: Seq<char>, length: nat) -> int {
    pow(symbols.len() as int, length)
}

/// No symbol occurs twice.
pub open spec fn distinct_symbols(symbols: Seq<char>) -> bool {
    forall|i: int, j: int|
        0 <= i < symbols.len() && 0 <= j < symbols.len() && i != j ==> symbols[i] != symbols[j]
}

/// Every symbol of `text` is one of `symbols`.
pub open spec fn over_alphabet(symbols: Seq<char>, text: Seq<char>) -> bool {
    forall|k: int| 0 <= k < text.len() ==> symbols.contains(#[trigger] text[k])
}

/// What the three alphabets hold: their sizes, their symbols by position,
/// and that none repeats a symbol.
pub proof fn lemma_alphabets()
    ensures
        digit_chars().len() == 10,
        letter_chars().len() == 26,
        alphanumeric_chars().len() == 36,
        forall|k: int| 0 <= k < 10 ==> #[trigger] digit_chars()[k] as int == '0' as int + k,
        forall|k: int| 0 <= k < 26 ==> #[trigger] letter_chars()[k] as int == 'a' as int + k,
        forall|k: int|
            0 <= k < 26 ==> #[trigger] alphanumeric_chars()[k] as int == 'a' as int + k,
        forall|k: int|
            26 <= k < 36 ==> #[trigger] alphanumeric_chars()[k] as int == '0' as int + k - 26,
        distinct_symbols(digit_chars()),
        distinct_symbols(letter_chars()),
        distinct_symbols(alphanumeric_chars()),
{
    reveal_strlit("0123456789");
    reveal_strlit("abcdefghijklmnopqrstuvwxyz");
    reveal_strlit("abcdefghijklmnopqrstuvwxyz0123456789");
}

/// The count of candidates grows by one factor of the alphabet's size with
/// each further symbol.
pub proof fn lemma_count_unfold(symbols: Seq<char>, length: nat)
    ensures
        candidate_count(symbols, 0) == 1,
        length > 0 ==> candidate_count(symbols, length) == symbols.len() * candidate_count(
            symbols,
            (length - 1) as nat,
        ),
        symbols.len() > 0 ==> candidate_count(symbols, length) > 0,
{
    reveal(pow);
    if symbols.len() > 0 {
        lemma_pow_positive(symbols.len() as int, length);
    }
}

/// A candidate has the length asked for and is made of the alphabet's
/// symbols.
pub proof fn lemma_candidate_shape(symbols: Seq<char>, length: nat, index: nat)
    requires
        symbols.len() > 0,
    ensures
        candidate(symbols, length, index).len() == length,
        over_alphabet(symbols, candidate(symbols, length, index)),
    decreases length,
{
    if length > 0 {
        let rest = candidate(symbols, (length - 1) as nat, index / symbols.len());
        lemma_candidate_shape(symbols, (length - 1) as nat, index / symbols.len());
        lemma_mod_bound(index as int, symbols.len() as int);
        let last = symbols[(index % symbols.len()) as int];
        assert(symbols.contains(last));
        assert forall|k: int| 0 <= k < length implies symbols.contains(
            #[trigger] candidate(symbols, length, index)[k],
        ) by {
            if k < length - 1 {
                assert(candidate(symbols, length, index)[k] == rest[k]);
            }
        }
    }
}

/// The symbol at each place of a candidate is the digit of that place in
/// the positional notation of its index: the index divided by the base to
/// the power of the number of places that follow, modulo the base.
pub proof fn lemma_candidate_symbol(symbols: Seq<char>, length: nat, index: nat, place: int)
    requires
        symbols.len() > 0,
        0 <= place < length,
    ensures
        candidate(symbols, length, index)[place] == symbols[(index as int / pow(
            symbols.len() as int,
            (length - 1 - place) as nat,
        )) % (symbols.len() as int)],
    decreases length,
{
    let b = symbols.len() as int;
    reveal(pow);
    lemma_candidate_shape(symbols, length, index);
    if place == length - 1 {
        assert(pow(b, 0) == 1);
    } else {
        let shorter = (length - 1) as nat;
        let lower = pow(b, (length - 2 - place) as nat);
        lemma_candidate_shape(symbols, shorter, index / symbols.len());
        lemma_candidate_symbol(symbols, shorter, index / symbols.len(), place);
        lemma_pow_positive(b, (length - 2 - place) as nat);
        lemma_div_denominator(index as int, b, lower);
        assert(pow(b, (length - 1 - place) as nat) == b * lower);
    }
}

/// Two indices below the count that give the same candidate are the same
/// index: no string is produced twice.
pub proof fn lemma_candidate_injective(symbols: Seq<char>, length: nat, i: nat, j: nat)
    requires
        distinct_symbols(symbols),
        symbols.len() > 0,
        i < candidate_count(symbols, length),
        j < candidate_count(symbols, length),
        candidate(symbols, length, i) == candidate(symbols, length, j),
    ensures
        i == j,
    decreases length,
{
    let b = symbols.len() as int;
    lemma_count_unfold(symbols, length);
    if length > 0 {
        let shorter = (length - 1) as nat;
        let ci = candidate(symbols, length, i);
        let cj = candidate(symbols, length, j);
        lemma_candidate_shape(symbols, shorter, i / symbols.len());
        lemma_candidate_shape(symbols, shorter, j / symbols.len());
        assert(ci.drop_last() =~= candidate(symbols, shorter, i / symbols.len()));
        assert(cj.drop_last() =~= candidate(symbols, shorter, j / symbols.len()));
        assert(ci.last() == symbols[i as int % b]);
        assert(cj.last() == symbols[j as int % b]);
        lemma_mod_bound(i as int, b);
        lemma_mod_bound(j as int, b);
        assert(i as int % b == j as int % b);
        lemma_multiply_divide_lt(i as int, b, candidate_count(symbols, shorter));
        lemma_multiply_divide_lt(j as int, b, candidate_count(symbols, shorter));
        lemma_candidate_injective(symbols, shorter, i / symbols.len(), j / symbols.len());
        lemma_fundamental_div_mod(i as int, b);
        lemma_fundamental_div_mod(j as int, b);
    }
}

/// The index at which a string over the alphabet is produced: its value as a
/// number in base `symbols.len()`, most significant symbol first.
pub open spec fn index_of_text(symbols: Seq<char>, text: Seq<char>) -> nat
    decreases text.len(),
{
    if text.len() == 0 {
        0
    } else {
        (index_of_text(symbols, text.drop_last()) * symbols.len() + symbols.index_of(
            text.last(),
        )) as nat
    }
}

/// Every string of the given length over the alphabet is the candidate of
/// an index below the count, namely of `index_of_text`.
pub proof fn lemma_candidate_surjective(symbols: Seq<char>, text: Seq<char>)
    requires
        symbols.len() > 0,
        over_alphabet(symbols, text),
    ensures
        index_of_text(symbols, text) < candidate_count(symbols, text.len()),
        candidate(symbols, text.len(), index_of_text(symbols, text)) == text,
    decreases text.len(),
{
    let b = symbols.len() as int;
    lemma_count_unfold(symbols, text.len());
    if text.len() > 0 {
        let front = text.drop_last();
        assert(over_alphabet(symbols, front)) by {
            assert forall|k: int| 0 <= k < front.len() implies symbols.contains(
                #[trigger] front[k],
            ) by {
                assert(front[k] == text[k]);
            }
        }
        lemma_candidate_surjective(symbols, front);
        let q = index_of_text(symbols, front) as int;
        assert(symbols.contains(text[text.len() - 1]));
        let d = symbols.index_of(text.last());
        assert(0 <= d < b && symbols[d] == text.last());
        let idx = index_of_text(symbols, text) as int;
        assert(q * b == b * q) by (nonlinear_arith);
        assert(idx == b * q + d);
        lemma_div_multiples_vanish_fancy(q, d, b);
        lemma_mod_multiples_vanish(q, d, b);
        vstd::arithmetic::div_mod::lemma_small_mod(d as nat, b as nat);
        assert(idx / b == q);
        assert(idx % b == d);
        assert(candidate(symbols, text.len(), idx as nat) =~= text);
        let rest = candidate_count(symbols, front.len());
        assert(b * q + d < b * rest) by (nonlinear_arith)
            requires
                0 <= q < rest,
                0 <= d < b,
        ;
    }
}

/// All candidates of one length and alphabet, in the order of their indices.
pub open spec fn combinations(length: nat, letters_only: bool, numbers_only: bool) -> Seq<
    Seq<char>,
> {
    let symbols = alphabet(letters_only, numbers_only);
    Seq::new(
        candidate_count(symbols, length) as nat,
        |i: int| candidate(symbols, length, i as nat),
    )
}

/// The generated sequence has exactly `size^length` members, no two of them
/// equal, and holds every string of that length over the alphabet; in
/// particular the one made of the alphabet's first symbol only and the one
/// made of its last symbol only.
pub proof fn lemma_combinations_enumerate(length: nat, letters_only: bool, numbers_only: bool)
    ensures
        combinations(length, letters_only, numbers_only).len() == pow(
            alphabet(letters_only, numbers_only).len() as int,
            length,
        ),
        combinations(length, letters_only, numbers_only).no_duplicates(),
        forall|text: Seq<char>|
            text.len() == length && over_alphabet(alphabet(letters_only, numbers_only), text)
                <==> #[trigger] combinations(length, letters_only, numbers_only).contains(text),
{
    let symbols = alphabet(letters_only, numbers_only);
    let all = combinations(length, letters_only, numbers_only);
    lemma_alphabets();
    lemma_count_unfold(symbols, length);
    assert forall|i: int, j: int| 0 <= i < all.len() && 0 <= j < all.len() && i != j implies all[i]
        != all[j] by {
        if all[i] == all[j] {
            lemma_candidate_injective(symbols, length, i as nat, j as nat);
        }
    }
    assert forall|text: Seq<char>|
        text.len() == length && over_alphabet(symbols, text) implies #[trigger] all.contains(
        text,
    ) by {
        lemma_candidate_surjective(symbols, text);
        assert(all[index_of_text(symbols, text) as int] == text);
    }
    assert forall|text: Seq<char>| #[trigger] all.contains(text) implies text.len() == length
        && over_alphabet(symbols, text) by {
        let i = choose|i: int| 0 <= i < all.len() && all[i] == text;
        lemma_candidate_shape(symbols, length, i as nat);
    }
}

/// Two sequences that both are the generated one are equal, member by
/// member and in the same order: generation leaves nothing to chance.
pub proof fn lemma_generation_deterministic(
    first: Seq<String>,
    second: Seq<String>,
    length: nat,
    letters_only: bool,
    numbers_only: bool,
)
    requires
        texts(first) == combinations(length, letters_only, numbers_only),
        texts(second) == combinations(length, letters_only, numbers_only),
    ensures
        first.len() == second.len(),
        forall|i: int| 0 <= i < first.len() ==> (#[trigger] first[i])@ == second[i]@,
{
    assert(texts(first).len() == first.len());
    assert(texts(second).len() == second.len());
    assert forall|i: int| 0 <= i < first.len() implies (#[trigger] first[i])@ == second[i]@ by {
        assert(texts(first)[i] == first[i]@);
        assert(texts(second)[i] == second[i]@);
    }
}

/// The alphabet that the two mode flags select, as a string slice.
pub fn alphabet_for(letters_only: bool, numbers_only: bool) -> (symbols: &'static str)
    ensures
        symbols@ == alphabet(letters_only, numbers_only),
        symbols.is_ascii(),
        symbols@.len() == 10 || symbols@.len() == 26 || symbols@.len() == 36,
{
    proof {
        lemma_alphabets();
        reveal_strlit("0123456789");
        reveal_strlit("abcdefghijklmnopqrstuvwxyz");
        reveal_strlit("abcdefghijklmnopqrstuvwxyz0123456789");
    }
    if numbers_only {
        "0123456789"
    } else if letters_only {
        "abcdefghijklmnopqrstuvwxyz"
    } else {
        "abcdefghijklmnopqrstuvwxyz0123456789"
    }
}

/// The number of candidates of `length` symbols, or `None` where that number
/// does not fit in a `usize`.
pub fn combination_count(length: u8, letters_only: bool, numbers_only: bool) -> (count: Option<
    usize,
>)
    ensures
        count is Some <==> candidate_count(alphabet(letters_only, numbers_only), length as nat)
            <= usize::MAX,
        count is Some ==> count->Some_0 == candidate_count(
            alphabet(letters_only, numbers_only),
            length as nat,
        ),
{
    let symbols = alphabet_for(letters_only, numbers_only);
    let base: usize = symbols.unicode_len();
    let mut total: usize = 1;
    let mut k: u8 = 0;
    proof {
        lemma_count_unfold(symbols@, 0);
    }
    while k < length
        invariant
            k <= length,
            symbols@ == alphabet(letters_only, numbers_only),
            base == symbols@.len(),
            base > 0,
            total == candidate_count(symbols@, k as nat),
        decreases length - k,
    {
        proof {
            lemma_count_unfold(symbols@, (k + 1) as nat);
            assert(total * base == base * total) by (nonlinear_arith);
        }
        match total.checked_mul(base) {
            Some(next) => {
                total = next;
            },
            None => {
                proof {
                    lemma_pow_increases(base as nat, (k + 1) as nat, length as nat);
                }
                return None;
            },
        }
        k += 1;
    }
    Some(total)
}

/// Writes `index` in base `symbols.len()` with exactly `length` symbols.
fn write_candidate(symbols: &str, length: u8, index: usize) -> (text: String)
    requires
        symbols.is_ascii(),
        0 < symbols@.len() <= usize::MAX,
    ensures
        text@ == candidate(symbols@, length as nat, index as nat),
{
    let base: usize = symbols.unicode_len();
    let mut digits: Vec<usize> = Vec::new();
    let mut rest: usize = index;
    let mut k: u8 = 0;
    assert(candidate(symbols@, length as nat, index as nat) =~= candidate(
        symbols@,
        length as nat,
        index as nat,
    ) + written(symbols@, digits@));
    while k < length
        invariant
            k <= length,
            base == symbols@.len(),
            base > 0,
            digits@.len() == k,
            forall|t: int| 0 <= t < k ==> digits@[t] < base,
            candidate(symbols@, length as nat, index as nat) == candidate(
                symbols@,
                (length - k) as nat,
                rest as nat,
            ) + written(symbols@, digits@),
        decreases length - k,
    {
        let digit: usize = rest % base;
        proof {
            lemma_mod_bound(rest as int, base as int);
            let before = digits@;
            let after = digits@.push(digit);
            assert(written(symbols@, after) =~= seq![symbols@[digit as int]] + written(
                symbols@,
                before,
            ));
            assert(candidate(symbols@, (length - k) as nat, rest as nat) + written(
                symbols@,
                before,
            ) =~= candidate(symbols@, (length - k - 1) as nat, (rest / base) as nat) + written(
                symbols@,
                after,
            ));
        }
        digits.push(digit);
        rest = rest / base;
        k += 1;
    }
    assert(candidate(symbols@, 0, rest as nat) =~= Seq::<char>::empty());
    write_digits(symbols, &digits)
}

/// Every string of `length` symbols over the chosen alphabet, once each, in
/// the order of the numbers they stand for.
///
/// `numbers_only` selects the digits, otherwise `letters_only` selects the
/// lowercase letters, otherwise both are used, letters before digits. The
/// number of candidates must fit in a `usize`; `combination_count` tells.
pub fn generate_combinations(length: u8, letters_only: bool, numbers_only: bool) -> (out: Vec<
    String,
>)
    requires
        candidate_count(alphabet(letters_only, numbers_only), length as nat) <= usize::MAX,
    ensures
        texts(out@) == combinations(length as nat, letters_only, numbers_only),
        out@.len() == candidate_count(alphabet(letters_only, numbers_only), length as nat),
        forall|i: int|
            0 <= i < out@.len() ==> (#[trigger] out@[i])@ == candidate(
                alphabet(letters_only, numbers_only),
                length as nat,
                i as nat,
            ),
{
    let symbols = alphabet_for(letters_only, numbers_only);
    let total: usize = match combination_count(length, letters_only, numbers_only) {
        Some(n) => n,
        None => 0,
    };
    let mut out: Vec<String> = Vec::new();
    let mut i: usize = 0;
    while i < total
        invariant
            i <= total,
            symbols.is_ascii(),
            0 < symbols@.len() <= 36,
            out@.len() == i,
            forall|t: int|
                0 <= t < i ==> (#[trigger] out@[t])@ == candidate(
                    symbols@,
                    length as nat,
                    t as nat,
                ),
        decreases total - i,
    {
        let text = write_candidate(symbols, length, i);
        out.push(text);
        i += 1;
    }
    assert(texts(out@) =~= combinations(length as nat, letters_only, numbers_only));
    out
}

} // verus!
