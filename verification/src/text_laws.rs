//! What holds of searching, splitting and trimming, and of numbers as text.
use vstd::prelude::*;

use crate::number::{all_digits, decimal, digit_char, digits_value, whole_number};
use crate::text::{
    equal_but_for_case, find, folded, is_free_of, is_white_space, lemma_find_after,
    lemma_find_bounds, split, split_once, trimmed, trimmed_end, trimmed_start, without_trailing,
};

verus! {

/// Whether `pattern` stands in `s` at `at`.
pub open spec fn stands_at(s: Seq<char>, pattern: Seq<char>, at: int) -> bool {
    &&& 0 <= at
    &&& at + pattern.len() <= s.len()
    &&& forall|k: int| 0 <= k < pattern.len() ==> s[at + k] == #[trigger] pattern[k]
}

proof fn lemma_stands_in_front(s: Seq<char>, pattern: Seq<char>)
    ensures
        pattern.is_prefix_of(s) <==> stands_at(s, pattern, 0),
{
    if pattern.len() <= s.len() {
        let front = s.subrange(0, pattern.len() as int);
        if pattern.is_prefix_of(s) {
            assert forall|k: int| 0 <= k < pattern.len() implies s[0 + k] == #[trigger] pattern[k] by {
                assert(front[k] == pattern[k]);
            }
        }
        if stands_at(s, pattern, 0) {
            assert forall|k: int| 0 <= k < pattern.len() implies front[k] == pattern[k] by {
                assert(s[0 + k] == pattern[k]);
            }
            assert(front =~= pattern);
        }
    }
}

proof fn lemma_stands_behind(s: Seq<char>, pattern: Seq<char>, at: int)
    requires
        s.len() > 0,
        at >= 0,
    ensures
        stands_at(s.drop_first(), pattern, at) <==> stands_at(s, pattern, at + 1),
{
    let rest = s.drop_first();
    if stands_at(rest, pattern, at) {
        assert forall|k: int| 0 <= k < pattern.len() implies s[at + 1 + k] == #[trigger] pattern[k] by {
            assert(rest[at + k] == pattern[k]);
        }
    }
    if stands_at(s, pattern, at + 1) {
        assert forall|k: int| 0 <= k < pattern.len() implies rest[at + k] == #[trigger] pattern[k] by {
            assert(s[at + 1 + k] == pattern[k]);
        }
    }
}

/// What is found is the first place at which the pattern stands, and nothing is
/// found exactly if it stands nowhere.
pub proof fn first_match_is_found(s: Seq<char>, pattern: Seq<char>)
    ensures
        find(s, pattern) is None <==> forall|k: int| !stands_at(s, pattern, k),
        find(s, pattern) matches Some(at) ==> stands_at(s, pattern, at) && forall|k: int|
            0 <= k < at ==> !stands_at(s, pattern, k),
    decreases s.len(),
{
    lemma_stands_in_front(s, pattern);
    if !pattern.is_prefix_of(s) && s.len() > 0 {
        let rest = s.drop_first();
        first_match_is_found(rest, pattern);
        assert forall|k: int| k > 0 && stands_at(s, pattern, k) implies stands_at(
            rest,
            pattern,
            k - 1,
        ) by {
            lemma_stands_behind(s, pattern, k - 1);
        }
        if let Some(at) = find(rest, pattern) {
            lemma_stands_behind(s, pattern, at);
            assert(stands_at(s, pattern, at + 1));
        } else {
            assert forall|k: int| !stands_at(s, pattern, k) by {
                if k > 0 && stands_at(s, pattern, k) {
                    assert(stands_at(rest, pattern, k - 1));
                }
            }
        }
    }
}

/// A text is cut at a separator into what stands before it and what stands behind
/// it, where the part before does not hold the separator.
pub proof fn text_is_cut_at_the_first_separator(
    before: Seq<char>,
    separator: char,
    after: Seq<char>,
)
    requires
        forall|i: int| 0 <= i < before.len() ==> #[trigger] before[i] != separator,
    ensures
        split_once(before + seq![separator] + after, seq![separator]) == Some((before, after)),
        split_once(before, seq![separator]) is None,
{
    let pattern = seq![separator];
    let whole = before + pattern + after;
    let rest = pattern + after;
    assert(rest.subrange(0, 1) =~= pattern);
    assert(find(rest, pattern) == Some(0int));
    lemma_find_after(before, rest, pattern);
    assert(whole =~= before + rest);
    assert(whole.take(before.len() as int) =~= before);
    assert(whole.skip(before.len() as int + 1) =~= after);
    let nothing = Seq::<char>::empty();
    lemma_find_after(before, nothing, pattern);
    assert(before + nothing =~= before);
    assert(find(nothing, pattern) is None);
}

/// A text without the separator is one piece, and a separator with such a text
/// behind it adds that text as a piece.
pub proof fn separator_adds_a_piece(text: Seq<char>, separator: char, last: Seq<char>)
    requires
        forall|i: int| 0 <= i < last.len() ==> #[trigger] last[i] != separator,
    ensures
        split(last, seq![separator]) == seq![last],
        split(text + seq![separator] + last, seq![separator]) == split(
            text,
            seq![separator],
        ).push(last),
    decreases text.len(),
{
    let pattern = seq![separator];
    let whole = text + pattern + last;
    text_is_cut_at_the_first_separator(last, separator, Seq::empty());
    lemma_find_bounds(text, pattern);
    match find(text, pattern) {
        None => {
            first_match_is_found(text, pattern);
            assert forall|i: int| 0 <= i < text.len() implies #[trigger] text[i] != separator by {
                if text[i] == separator {
                    assert(stands_at(text, pattern, i));
                }
            }
            text_is_cut_at_the_first_separator(text, separator, last);
            lemma_find_bounds(whole, pattern);
            let at = find(whole, pattern)->0;
            assert(split(last, pattern) =~= seq![last]);
            assert(split(whole, pattern) == seq![whole.take(at)] + split(
                whole.skip(at + 1),
                pattern,
            ));
            assert(split(whole, pattern) =~= seq![text] + seq![last]);
            assert(split(text, pattern).push(last) =~= seq![text] + seq![last]);
        },
        Some(at) => {
            let front = text.take(at);
            let rest = text.skip(at + 1);
            first_match_is_found(text, pattern);
            assert forall|i: int| 0 <= i < front.len() implies #[trigger] front[i] != separator by {
                if front[i] == separator {
                    assert(stands_at(text, pattern, i));
                }
            }
            assert(text[at] == pattern[0]) by {
                assert(text[at + 0] == pattern[0]);
            }
            assert(whole =~= front + pattern + (rest + pattern + last));
            text_is_cut_at_the_first_separator(front, separator, rest + pattern + last);
            lemma_find_bounds(whole, pattern);
            separator_adds_a_piece(rest, separator, last);
            let later = split(rest, pattern);
            assert(split(text, pattern) == seq![front] + later);
            assert(split(whole, pattern) == seq![front] + split(rest + pattern + last, pattern));
            assert(seq![front] + later.push(last) =~= (seq![front] + later).push(last));
        },
    }
}

/// White space is what Unicode gives the property `White_Space`.
pub proof fn white_space_is_that_of_unicode(c: char)
    ensures
        is_white_space(c) <==> {
            ||| c == '\u{9}'
            ||| c == '\u{a}'
            ||| c == '\u{b}'
            ||| c == '\u{c}'
            ||| c == '\u{d}'
            ||| c == '\u{20}'
            ||| c == '\u{85}'
            ||| c == '\u{a0}'
            ||| c == '\u{1680}'
            ||| '\u{2000}' <= c <= '\u{200a}'
            ||| c == '\u{2028}'
            ||| c == '\u{2029}'
            ||| c == '\u{202f}'
            ||| c == '\u{205f}'
            ||| c == '\u{3000}'
        },
{
}

/// Whether a text holds nothing but white space.
pub open spec fn is_blank(s: Seq<char>) -> bool {
    forall|i: int| 0 <= i < s.len() ==> is_white_space(#[trigger] s[i])
}

/// Whether a text neither begins nor ends with white space.
pub open spec fn has_clean_ends(s: Seq<char>) -> bool {
    s.len() > 0 ==> !is_white_space(s[0]) && !is_white_space(s[s.len() - 1])
}

proof fn lemma_trimmed_start(before: Seq<char>, text: Seq<char>)
    requires
        is_blank(before),
        text.len() > 0 ==> !is_white_space(text[0]),
    ensures
        trimmed_start(before + text) == text,
    decreases before.len(),
{
    if before.len() == 0 {
        assert(before + text =~= text);
    } else {
        assert((before + text)[0] == before[0]);
        assert((before + text).drop_first() =~= before.drop_first() + text);
        assert forall|i: int| 0 <= i < before.len() - 1 implies is_white_space(
            #[trigger] before.drop_first()[i],
        ) by {
            assert(before.drop_first()[i] == before[i + 1]);
        }
        lemma_trimmed_start(before.drop_first(), text);
    }
}

proof fn lemma_trimmed_end(text: Seq<char>, after: Seq<char>)
    requires
        is_blank(after),
        text.len() > 0 ==> !is_white_space(text[text.len() - 1]),
    ensures
        trimmed_end(text + after) == text,
    decreases after.len(),
{
    if after.len() == 0 {
        assert(text + after =~= text);
    } else {
        assert((text + after).last() == after[after.len() - 1]);
        assert((text + after).drop_last() =~= text + after.drop_last());
        assert forall|i: int| 0 <= i < after.len() - 1 implies is_white_space(
            #[trigger] after.drop_last()[i],
        ) by {
            assert(after.drop_last()[i] == after[i]);
        }
        lemma_trimmed_end(text, after.drop_last());
    }
}

/// Trimming takes off the white space around a text and nothing else.
pub proof fn trimming_takes_off_white_space(before: Seq<char>, text: Seq<char>, after: Seq<char>)
    requires
        is_blank(before),
        has_clean_ends(text),
        is_blank(after),
    ensures
        trimmed(before + text + after) == text,
{
    if text.len() == 0 {
        let all = before + text + after;
        assert(is_blank(all)) by {
            assert forall|i: int| 0 <= i < all.len() implies is_white_space(#[trigger] all[i]) by {
                if i < before.len() {
                    assert(all[i] == before[i]);
                } else {
                    assert(all[i] == after[i - before.len()]);
                }
            }
        }
        lemma_trimmed_start(all, text);
        assert(all + text =~= all);
    } else {
        lemma_trimmed_start(before, text + after);
        assert(before + text + after =~= before + (text + after));
        lemma_trimmed_end(text, after);
    }
}

proof fn lemma_start_of(s: Seq<char>) -> (n: int)
    ensures
        0 <= n <= s.len(),
        is_blank(s.take(n)),
        n < s.len() ==> !is_white_space(s[n]),
    decreases s.len(),
{
    if s.len() > 0 && is_white_space(s[0]) {
        let n = lemma_start_of(s.drop_first());
        assert forall|i: int| 0 <= i < n + 1 implies is_white_space(#[trigger] s.take(n + 1)[i]) by {
            if i > 0 {
                assert(s.drop_first().take(n)[i - 1] == s[i]);
            }
        }
        if n < s.drop_first().len() {
            assert(s.drop_first()[n] == s[n + 1]);
        }
        n + 1
    } else {
        0
    }
}

proof fn lemma_end_of(s: Seq<char>) -> (n: int)
    ensures
        0 <= n <= s.len(),
        is_blank(s.skip(n)),
        n > 0 ==> !is_white_space(s[n - 1]),
    decreases s.len(),
{
    if s.len() > 0 && is_white_space(s.last()) {
        let n = lemma_end_of(s.drop_last());
        assert forall|i: int| 0 <= i < s.skip(n).len() implies is_white_space(
            #[trigger] s.skip(n)[i],
        ) by {
            if i < s.skip(n).len() - 1 {
                assert(s.drop_last().skip(n)[i] == s[n + i]);
            }
        }
        n
    } else {
        s.len() as int
    }
}

/// What is left of a text that is trimmed has clean ends, and only white space was
/// taken off. It is empty exactly if the text is blank.
pub proof fn trimmed_text_has_clean_ends(s: Seq<char>)
    ensures
        has_clean_ends(trimmed(s)),
        exists|before: Seq<char>, after: Seq<char>|
            is_blank(before) && is_blank(after) && s == #[trigger] (before + trimmed(s) + after),
        trimmed(s).len() == 0 <==> is_blank(s),
        has_clean_ends(s) ==> trimmed(s) == s,
        trimmed(trimmed(s)) == trimmed(s),
{
    let n = lemma_start_of(s);
    let before = s.take(n);
    let rest = s.skip(n);
    let m = lemma_end_of(rest);
    let text = rest.take(m);
    let after = rest.skip(m);
    assert(s =~= before + text + after);
    if m > 0 {
        assert(text[0] == s[n]);
        assert(text[m - 1] == rest[m - 1]);
    }
    trimming_takes_off_white_space(before, text, after);
    assert(s == before + trimmed(s) + after);
    if text.len() > 0 {
        assert(!is_white_space(s[n]));
        assert(!is_blank(s));
    } else {
        assert forall|i: int| 0 <= i < s.len() implies is_white_space(#[trigger] s[i]) by {
            if i < n {
                assert(s[i] == before[i]);
            } else {
                assert(s[i] == after[i - n]);
            }
        }
    }
    let nothing = Seq::<char>::empty();
    if has_clean_ends(s) {
        trimming_takes_off_white_space(nothing, s, nothing);
        assert(nothing + s + nothing =~= s);
    }
    trimming_takes_off_white_space(nothing, text, nothing);
    assert(nothing + text + nothing =~= text);
}

/// Only the run of a character at the end of a text is taken off it.
pub proof fn only_the_trailing_run_is_taken_off(text: Seq<char>, c: char, run: Seq<char>)
    requires
        text.len() > 0 ==> text[text.len() - 1] != c,
        forall|i: int| 0 <= i < run.len() ==> #[trigger] run[i] == c,
    ensures
        without_trailing(text + run, c) == text,
    decreases run.len(),
{
    if run.len() == 0 {
        assert(text + run =~= text);
    } else {
        assert((text + run).last() == run[run.len() - 1]);
        assert((text + run).drop_last() =~= text + run.drop_last());
        only_the_trailing_run_is_taken_off(text, c, run.drop_last());
    }
}

proof fn lemma_folded(c: char)
    ensures
        folded(c) == (if 'A' <= c <= 'Z' {
            c as int + 32
        } else {
            c as int
        }),
{
}

/// Two texts count as the same word exactly if they are as long as each other and
/// each character is the same in both, but for the case of a letter A to Z.
pub proof fn words_are_compared_without_case(a: Seq<char>, b: Seq<char>)
    ensures
        equal_but_for_case(a, b) <==> a.len() == b.len() && forall|i: int|
            0 <= i < a.len() ==> {
                ||| #[trigger] a[i] == b[i]
                ||| 'A' <= a[i] <= 'Z' && b[i] as int == a[i] as int + 32
                ||| 'A' <= b[i] <= 'Z' && a[i] as int == b[i] as int + 32
            },
{
    if equal_but_for_case(a, b) {
        assert forall|i: int| 0 <= i < a.len() implies {
            ||| #[trigger] a[i] == b[i]
            ||| 'A' <= a[i] <= 'Z' && b[i] as int == a[i] as int + 32
            ||| 'A' <= b[i] <= 'Z' && a[i] as int == b[i] as int + 32
        } by {
            lemma_folded(a[i]);
            lemma_folded(b[i]);
            assert(folded(a[i]) == folded(b[i]));
        }
    }
}

/// A number in decimal is its digits, the most significant one first.
pub proof fn decimal_is_written_digit_by_digit(n: nat, d: nat)
    requires
        d < 10,
    ensures
        decimal(d) == seq![(48 + d) as char],
        n > 0 ==> decimal(n * 10 + d) == decimal(n).push((48 + d) as char),
{
    if n > 0 {
        assert((n * 10 + d) / 10 == n && (n * 10 + d) % 10 == d);
    }
}

proof fn lemma_leading_zeros(zeros: Seq<char>, n: nat)
    requires
        forall|i: int| 0 <= i < zeros.len() ==> #[trigger] zeros[i] == '0',
    ensures
        all_digits(zeros + decimal(n)),
        digits_value(zeros + decimal(n)) == n,
        decimal(n).len() > 0,
    decreases zeros.len() + n,
{
    let s = zeros + decimal(n);
    if n >= 10 {
        lemma_leading_zeros(zeros, n / 10);
        let shorter = zeros + decimal(n / 10);
        assert(s.drop_last() =~= shorter);
        assert(s.last() == digit_char(n % 10));
        assert forall|i: int| 0 <= i < s.len() implies '0' <= #[trigger] s[i] <= '9' by {
            if i < s.len() - 1 {
                assert(s[i] == shorter[i]);
            }
        }
    } else {
        assert(s.drop_last() =~= zeros);
        assert(s.last() == digit_char(n));
        if zeros.len() > 0 {
            let fewer = zeros.drop_last();
            lemma_leading_zeros(fewer, 0);
            assert(fewer + decimal(0) =~= zeros);
        }
        assert(digits_value(zeros) == 0);
        assert forall|i: int| 0 <= i < s.len() implies '0' <= #[trigger] s[i] <= '9' by {
            if i < zeros.len() {
                assert(s[i] == zeros[i]);
            }
        }
    }
}

/// A whole number is read from its decimal digits, with any number of zeros and
/// one plus sign in front of them.
pub proof fn whole_number_is_read(zeros: Seq<char>, n: u64)
    requires
        forall|i: int| 0 <= i < zeros.len() ==> #[trigger] zeros[i] == '0',
    ensures
        whole_number(zeros + decimal(n as nat)) == Some(n),
        whole_number(seq!['+'] + zeros + decimal(n as nat)) == Some(n),
{
    lemma_leading_zeros(zeros, n as nat);
    let digits = zeros + decimal(n as nat);
    let signed = seq!['+'] + zeros + decimal(n as nat);
    assert(signed.drop_first() =~= digits);
    assert(signed[0] == '+');
    assert(digits[0] != '+');
}

proof fn lemma_digits_are_decimal(s: Seq<char>) -> (z: int)
    requires
        s.len() > 0,
        all_digits(s),
    ensures
        0 <= z < s.len(),
        forall|i: int| 0 <= i < z ==> #[trigger] s[i] == '0',
        s.skip(z) == decimal(digits_value(s)),
    decreases s.len(),
{
    reveal_with_fuel(digits_value, 2);
    let front = s.drop_last();
    let d = (s.last() as nat - 48) as nat;
    assert('0' <= s[s.len() - 1] <= '9');
    if s.len() == 1 {
        assert(front =~= Seq::empty());
        assert(s.skip(0) =~= seq![digit_char(d)]);
        0
    } else {
        assert forall|i: int| 0 <= i < front.len() implies '0' <= #[trigger] front[i] <= '9' by {
            assert(front[i] == s[i]);
        }
        let z = lemma_digits_are_decimal(front);
        let v = digits_value(front);
        assert forall|i: int| 0 <= i < z implies #[trigger] s[i] == '0' by {
            assert(front[i] == s[i]);
        }
        if v == 0 {
            assert(front.skip(z) =~= seq!['0']);
            assert(front.skip(z)[0] == front[z]);
            assert(front.skip(z).len() == 1);
            assert(s[z] == '0');
            assert(s.skip(z + 1) =~= seq![digit_char(d)]);
            z + 1
        } else {
            decimal_is_written_digit_by_digit(v, d);
            assert(s.skip(z) =~= front.skip(z).push(s.last()));
            z
        }
    }
}

/// Nothing else is read as a whole number: behind one plus sign, if there is one,
/// there are zeros and then the decimal digits of a number that fits in 64 bits.
pub proof fn only_whole_numbers_are_read(s: Seq<char>)
    ensures
        whole_number(s) matches Some(n) ==> exists|zeros: Seq<char>|
            (forall|i: int| 0 <= i < zeros.len() ==> #[trigger] zeros[i] == '0') && (s
                == #[trigger] (zeros + decimal(n as nat)) || s == seq!['+'] + (zeros + decimal(
                n as nat,
            ))),
{
    if let Some(n) = whole_number(s) {
        let digits = if s.len() > 0 && s[0] == '+' {
            s.drop_first()
        } else {
            s
        };
        let z = lemma_digits_are_decimal(digits);
        let zeros = digits.take(z);
        assert forall|i: int| 0 <= i < zeros.len() implies #[trigger] zeros[i] == '0' by {
            assert(zeros[i] == digits[i]);
        }
        assert(digits =~= zeros + decimal(n as nat));
        if s[0] == '+' {
            assert(s =~= seq!['+'] + (zeros + decimal(n as nat)));
        }
    }
}

} // verus!
