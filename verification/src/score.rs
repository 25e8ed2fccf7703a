//! The score of an item: the sum of the integers among the
//! whitespace-separated words of its points text.

use vstd::prelude::*;
use vstd::slice::slice_subrange;

verus! {

/// Unicode white space.
pub open spec fn is_space(c: char) -> bool {
    let u = c as u32;
    ||| 0x09 <= u <= 0x0D
    ||| u == 0x20
    ||| u == 0x85
    ||| u == 0xA0
    ||| u == 0x1680
    ||| 0x2000 <= u <= 0x200A
    ||| u == 0x2028
    ||| u == 0x2029
    ||| u == 0x202F
    ||| u == 0x205F
    ||| u == 0x3000
}

pub open spec fn is_digit(c: char) -> bool {
    '0' <= c <= '9'
}

pub open spec fn digit_value(c: char) -> int {
    c as int - '0' as int
}

pub open spec fn all_digits(s: Seq<char>) -> bool {
    forall|i: int| 0 <= i < s.len() ==> is_digit(#[trigger] s[i])
}

/// The number that a run of decimal digits writes.
pub open spec fn decimal_value(digits: Seq<char>) -> int
    decreases digits.len(),
{
    if digits.len() == 0 {
        0
    } else {
        decimal_value(digits.drop_last()) * 10 + digit_value(digits.last())
    }
}

/// A word without its leading sign.
pub open spec fn unsigned_part(word: Seq<char>) -> Seq<char> {
    if word.len() > 0 && (word[0] == '-' || word[0] == '+') {
        word.skip(1)
    } else {
        word
    }
}

/// The number that a word writes, whether or not it is a well-formed one.
pub open spec fn signed_value(word: Seq<char>) -> int {
    if word.len() > 0 && word[0] == '-' {
        -decimal_value(unsigned_part(word))
    } else {
        decimal_value(unsigned_part(word))
    }
}

/// A word is an integer when it is an optional sign followed by at least one
/// decimal digit, and the number it writes fits in 32 signed bits.
pub open spec fn is_integer_word(word: Seq<char>) -> bool {
    &&& unsigned_part(word).len() > 0
    &&& all_digits(unsigned_part(word))
    &&& i32::MIN <= signed_value(word) <= i32::MAX
}

/// What a word adds to a score: its number if it is an integer, else nothing.
pub open spec fn word_value(word: Seq<char>) -> int {
    if is_integer_word(word) {
        signed_value(word)
    } else {
        0
    }
}

/// The length of the run of non-space characters that `s` starts with.
pub open spec fn word_len(s: Seq<char>) -> nat
    decreases s.len(),
{
    if s.len() == 0 || is_space(s[0]) {
        0
    } else {
        1 + word_len(s.skip(1))
    }
}

/// The maximal runs of non-space characters of `s`, from left to right.
pub open spec fn words(s: Seq<char>) -> Seq<Seq<char>>
    decreases s.len(),
    via words_terminates
{
    if s.len() == 0 {
        Seq::empty()
    } else if is_space(s[0]) {
        words(s.skip(1))
    } else {
        seq![s.take(word_len(s) as int)] + words(s.skip(word_len(s) as int))
    }
}

#[via_fn]
proof fn words_terminates(s: Seq<char>) {
    lemma_word_len_bounds(s);
}

pub open spec fn sum_values(ws: Seq<Seq<char>>) -> int
    decreases ws.len(),
{
    if ws.len() == 0 {
        0
    } else {
        word_value(ws[0]) + sum_values(ws.skip(1))
    }
}

/// The score of a points text.
pub open spec fn score_of(text: Seq<char>) -> int {
    sum_values(words(text))
}

pub proof fn lemma_word_len_bounds(s: Seq<char>)
    ensures
        word_len(s) <= s.len(),
        s.len() > 0 && !is_space(s[0]) ==> word_len(s) >= 1,
        forall|i: int| 0 <= i < word_len(s) ==> !is_space(#[trigger] s[i]),
        word_len(s) < s.len() ==> is_space(s[word_len(s) as int]),
    decreases s.len(),
{
    if s.len() == 0 || is_space(s[0]) {
    } else {
        let rest = s.skip(1);
        lemma_word_len_bounds(rest);
        assert forall|i: int| 0 <= i < word_len(s) implies !is_space(#[trigger] s[i]) by {
            if i > 0 {
                assert(s[i] == rest[i - 1]);
            }
        }
        if word_len(s) < s.len() {
            assert(s[word_len(s) as int] == rest[word_len(rest) as int]);
        }
    }
}

/// A run of non-space characters that ends at a space or at the end is a word.
pub proof fn lemma_word_len_is(s: Seq<char>, n: int)
    requires
        0 <= n <= s.len(),
        forall|i: int| 0 <= i < n ==> !is_space(#[trigger] s[i]),
        n < s.len() ==> is_space(s[n]),
    ensures
        word_len(s) == n,
    decreases s.len(),
{
    if s.len() == 0 || is_space(s[0]) {
    } else {
        let rest = s.skip(1);
        assert forall|i: int| 0 <= i < n - 1 implies !is_space(#[trigger] rest[i]) by {
            assert(rest[i] == s[i + 1]);
        }
        lemma_word_len_is(rest, n - 1);
    }
}

/// A run: at least one character, none of them white space.
pub open spec fn is_run(word: Seq<char>) -> bool {
    word.len() > 0 && forall|j: int| 0 <= j < word.len() ==> !is_space(#[trigger] word[j])
}

/// Every word is a run.
pub proof fn lemma_words_are_runs(text: Seq<char>)
    ensures
        forall|i: int| 0 <= i < words(text).len() ==> is_run(#[trigger] words(text)[i]),
    decreases text.len(),
{
    if text.len() == 0 {
        assert(words(text).len() == 0);
    } else if is_space(text[0]) {
        lemma_words_are_runs(text.skip(1));
        assert(words(text) == words(text.skip(1)));
    } else {
        let n = word_len(text) as int;
        lemma_word_len_bounds(text);
        lemma_words_are_runs(text.skip(n));
        assert(words(text) == seq![text.take(n)] + words(text.skip(n)));
        let first = text.take(n);
        assert forall|i: int| 0 <= i < words(text).len() implies is_run(
            #[trigger] words(text)[i],
        ) by {
            if i == 0 {
                assert(words(text)[0] == first);
                assert forall|j: int| 0 <= j < first.len() implies !is_space(
                    #[trigger] first[j],
                ) by {
                    assert(first[j] == text[j]);
                }
            } else {
                assert(words(text)[i] == words(text.skip(n))[i - 1]);
            }
        }
    }
}

/// A text none of whose words is an integer scores nothing.
pub proof fn lemma_score_without_integers(text: Seq<char>)
    requires
        forall|i: int| 0 <= i < words(text).len() ==> !is_integer_word(#[trigger] words(text)[i]),
    ensures
        score_of(text) == 0,
{
    lemma_sum_without_integers(words(text));
}

proof fn lemma_sum_without_integers(ws: Seq<Seq<char>>)
    requires
        forall|i: int| 0 <= i < ws.len() ==> !is_integer_word(#[trigger] ws[i]),
    ensures
        sum_values(ws) == 0,
    decreases ws.len(),
{
    if ws.len() > 0 {
        assert forall|i: int| 0 <= i < ws.skip(1).len() implies !is_integer_word(
            #[trigger] ws.skip(1)[i],
        ) by {
            assert(ws.skip(1)[i] == ws[i + 1]);
        }
        lemma_sum_without_integers(ws.skip(1));
    }
}

pub fn is_whitespace(c: char) -> (b: bool)
    ensures
        b == is_space(c),
{
    let u: u32 = c as u32;
    (0x09 <= u && u <= 0x0D) || u == 0x20 || u == 0x85 || u == 0xA0 || u == 0x1680 || (0x2000 <= u
        && u <= 0x200A) || u == 0x2028 || u == 0x2029 || u == 0x202F || u == 0x205F || u == 0x3000
}

/// The number that `word` writes, if it is an integer.
pub fn parse_word(word: &[char]) -> (value: Option<i32>)
    ensures
        value is Some <==> is_integer_word(word@),
        value matches Some(v) ==> v == signed_value(word@),
{
    let to: usize = word.len();
    if to == 0 {
        return None;
    }
    let negative = word[0] == '-';
    let start: usize = if word[0] == '-' || word[0] == '+' {
        1
    } else {
        0
    };
    let ghost digits = word@.subrange(start as int, to as int);
    assert(digits =~= unsigned_part(word@));
    if start == to {
        return None;
    }
    // `magnitude` is exact while it stays within `LIMIT`; beyond it the word is out of range.
    let limit: i64 = 0x8000_0000;
    let mut magnitude: i64 = 0;
    let mut exceeded = false;
    let mut i: usize = start;
    while i < to
        invariant
            start <= i <= to == word.len(),
            limit == 0x8000_0000,
            digits == word@.subrange(start as int, to as int),
            digits == unsigned_part(word@),
            all_digits(digits.take(i - start)),
            0 <= decimal_value(digits.take(i - start)),
            !exceeded ==> magnitude == decimal_value(digits.take(i - start)) && magnitude <= limit,
            exceeded ==> decimal_value(digits.take(i - start)) > limit,
        decreases to - i,
    {
        let c = word[i];
        let ghost prefix = digits.take(i - start);
        let ghost next = digits.take(i + 1 - start);
        assert(next.drop_last() =~= prefix);
        assert(next.last() == c);
        if !(c >= '0' && c <= '9') {
            assert(!is_digit(digits[i - start]));
            return None;
        }
        assert(all_digits(next)) by {
            assert forall|j: int| 0 <= j < next.len() implies is_digit(#[trigger] next[j]) by {
                if j < prefix.len() {
                    assert(next[j] == prefix[j]);
                }
            }
        }
        if !exceeded {
            magnitude = magnitude * 10 + (c as i64 - '0' as i64);
            if magnitude > limit {
                exceeded = true;
            }
        }
        i += 1;
    }
    assert(digits.take(to - start) =~= digits);
    if exceeded {
        None
    } else if negative {
        Some((-magnitude) as i32)
    } else if magnitude == limit {
        None
    } else {
        Some(magnitude as i32)
    }
}

/// The sum of the integers among the whitespace-separated words of `text`.
pub fn score(text: &str) -> (total: i128)
    ensures
        total == score_of(text@),
{
    let chars = crate::text::chars_of(text);
    let bound: i128 = 0x8000_0000;
    let mut total: i128 = 0;
    let mut i: usize = 0;
    assert(chars@.skip(0) =~= chars@);
    while i < chars.len()
        invariant
            i <= chars.len(),
            chars@ == text@,
            bound == 0x8000_0000,
            -bound * i <= total <= bound * i,
            total + score_of(chars@.skip(i as int)) == score_of(text@),
        decreases chars.len() - i,
    {
        let ghost rest = chars@.skip(i as int);
        assert(rest[0] == chars@[i as int]);
        if is_whitespace(chars[i]) {
            assert(rest.skip(1) =~= chars@.skip(i + 1));
            i += 1;
        } else {
            let from: usize = i;
            let mut to: usize = i + 1;
            while to < chars.len() && !is_whitespace(chars[to])
                invariant
                    from < to <= chars.len(),
                    forall|j: int| from <= j < to ==> !is_space(#[trigger] chars@[j]),
                decreases chars.len() - to,
            {
                to += 1;
            }
            proof {
                assert forall|j: int| 0 <= j < to - from implies !is_space(#[trigger] rest[j]) by {
                    assert(rest[j] == chars@[from + j]);
                }
                if to - from < rest.len() {
                    assert(rest[to - from] == chars@[to as int]);
                }
                lemma_word_len_is(rest, to - from);
                assert(rest.take(to - from) =~= chars@.subrange(from as int, to as int));
                assert(rest.skip(to - from) =~= chars@.skip(to as int));
                let ws = words(rest);
                assert(ws[0] == rest.take(to - from));
                assert(ws.skip(1) =~= words(rest.skip(to - from)));
            }
            let value = parse_word(slice_subrange(chars.as_slice(), from, to));
            match value {
                Some(v) => {
                    assert(-bound * to <= total + v <= bound * to) by (nonlinear_arith)
                        requires
                            -bound * from <= total <= bound * from,
                            from < to,
                            -bound <= v <= bound,
                            bound == 0x8000_0000,
                    ;
                    assert(bound * to <= 0x8000_0000 * 0x1_0000_0000_0000_0000) by (nonlinear_arith)
                        requires
                            bound == 0x8000_0000,
                            to <= 0xffff_ffff_ffff_ffff,
                    ;
                    total = total + v as i128;
                },
                None => {
                    assert(bound * from <= bound * to) by (nonlinear_arith)
                        requires
                            from < to,
                            bound == 0x8000_0000,
                    ;
                },
            }
            i = to;
        }
    }
    assert(chars@.skip(chars.len() as int) =~= Seq::<char>::empty());
    total
}

} // verus!
