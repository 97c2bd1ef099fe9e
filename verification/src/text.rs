//! Text as sequences of characters: searching, splitting, trimming, numbers.
//!
//! Every operation is stated on `Seq<char>`, the view of `str` and `String`,
//! and the executable functions are proved equal to those statements.
use vstd::prelude::*;

verus! {

/// The views of a sequence of strings.
pub open spec fn views(strings: Seq<String>) -> Seq<Seq<char>> {
    strings.map_values(|s: String| s@)
}

/// The views of pairs of strings.
pub open spec fn pair_views(pairs: Seq<(String, String)>) -> Seq<(Seq<char>, Seq<char>)> {
    pairs.map_values(|p: (String, String)| (p.0@, p.1@))
}

/// Whether `c` has the Unicode property `White_Space`.
pub open spec fn is_white_space(c: char) -> bool {
    ||| '\u{9}' <= c <= '\u{d}'
    ||| c == '\u{20}'
    ||| c == '\u{85}'
    ||| c == '\u{a0}'
    ||| c == '\u{1680}'
    ||| '\u{2000}' <= c <= '\u{200a}'
    ||| c == '\u{2028}'
    ||| c == '\u{2029}'
    ||| c == '\u{202f}'
    ||| c == '\u{205f}'
    ||| c == '\u{3000}'
}

/// `s` without its leading white space.
pub open spec fn trimmed_start(s: Seq<char>) -> Seq<char>
    decreases s.len(),
{
    if s.len() > 0 && is_white_space(s[0]) {
        trimmed_start(s.drop_first())
    } else {
        s
    }
}

/// `s` without its trailing white space.
pub open spec fn trimmed_end(s: Seq<char>) -> Seq<char>
    decreases s.len(),
{
    if s.len() > 0 && is_white_space(s.last()) {
        trimmed_end(s.drop_last())
    } else {
        s
    }
}

/// `s` without its leading and trailing white space.
pub open spec fn trimmed(s: Seq<char>) -> Seq<char> {
    trimmed_end(trimmed_start(s))
}

/// `s` without the run of `c` at its end.
pub open spec fn without_trailing(s: Seq<char>, c: char) -> Seq<char>
    decreases s.len(),
{
    if s.len() > 0 && s.last() == c {
        without_trailing(s.drop_last(), c)
    } else {
        s
    }
}

/// Where `pattern` first occurs in `s`.
pub open spec fn find(s: Seq<char>, pattern: Seq<char>) -> Option<int>
    decreases s.len(),
{
    if pattern.is_prefix_of(s) {
        Some(0)
    } else if s.len() == 0 {
        None
    } else {
        match find(s.drop_first(), pattern) {
            Some(i) => Some(i + 1),
            None => None,
        }
    }
}

/// What stands before and after the first occurrence of `pattern`.
pub open spec fn split_once(s: Seq<char>, pattern: Seq<char>) -> Option<(Seq<char>, Seq<char>)> {
    match find(s, pattern) {
        Some(i) => Some((s.take(i), s.skip(i + pattern.len()))),
        None => None,
    }
}

/// The pieces of `s` between the occurrences of `pattern`, found from the left
/// and without overlap. There is always at least one piece.
pub open spec fn split(s: Seq<char>, pattern: Seq<char>) -> Seq<Seq<char>>
    decreases s.len(),
    when pattern.len() > 0
{
    match find(s, pattern) {
        None => seq![s],
        Some(i) => {
            proof {
                lemma_find_bounds(s, pattern);
            }
            seq![s.take(i)] + split(s.skip(i + pattern.len()), pattern)
        },
    }
}

pub proof fn lemma_find_bounds(s: Seq<char>, pattern: Seq<char>)
    ensures
        find(s, pattern) matches Some(i) ==> {
            &&& 0 <= i
            &&& i + pattern.len() <= s.len()
            &&& s.subrange(i, i + pattern.len()) == pattern
        },
    decreases s.len(),
{
    if pattern.is_prefix_of(s) {
        assert(s.subrange(0, pattern.len() as int) =~= pattern);
    } else if s.len() > 0 {
        lemma_find_bounds(s.drop_first(), pattern);
        if let Some(i) = find(s.drop_first(), pattern) {
            assert(s.subrange(i + 1, i + 1 + pattern.len()) =~= s.drop_first().subrange(
                i,
                i + pattern.len(),
            ));
        }
    }
}

/// An occurrence is found at a position exactly if it stands there and at no
/// position before.
proof fn lemma_find_is_first(s: Seq<char>, pattern: Seq<char>, at: int)
    requires
        0 <= at,
        at + pattern.len() <= s.len(),
        pattern.is_prefix_of(s.skip(at)),
        forall|k: int| 0 <= k < at ==> !pattern.is_prefix_of(#[trigger] s.skip(k)),
    ensures
        find(s, pattern) == Some(at),
    decreases at,
{
    assert(s.skip(0) =~= s);
    if at > 0 {
        let rest = s.drop_first();
        assert(rest.skip(at - 1) =~= s.skip(at));
        assert forall|k: int| 0 <= k < at - 1 implies !pattern.is_prefix_of(
            #[trigger] rest.skip(k),
        ) by {
            assert(rest.skip(k) =~= s.skip(k + 1));
        }
        lemma_find_is_first(rest, pattern, at - 1);
    }
}

proof fn lemma_find_is_none(s: Seq<char>, pattern: Seq<char>)
    requires
        forall|k: int| 0 <= k <= s.len() ==> !pattern.is_prefix_of(#[trigger] s.skip(k)),
    ensures
        find(s, pattern) is None,
    decreases s.len(),
{
    assert(s.skip(0) =~= s);
    if s.len() > 0 {
        let rest = s.drop_first();
        assert forall|k: int| 0 <= k <= rest.len() implies !pattern.is_prefix_of(
            #[trigger] rest.skip(k),
        ) by {
            assert(rest.skip(k) =~= s.skip(k + 1));
        }
        lemma_find_is_none(rest, pattern);
    }
}

/// `c` does not occur in `s`.
pub open spec fn is_free_of(s: Seq<char>, c: char) -> bool {
    forall|i: int| 0 <= i < s.len() ==> #[trigger] s[i] != c
}

/// A part that lacks the first character of `pattern` only moves what is found.
pub proof fn lemma_find_after(s: Seq<char>, rest: Seq<char>, pattern: Seq<char>)
    requires
        pattern.len() > 0,
        is_free_of(s, pattern[0]),
    ensures
        find(s + rest, pattern) == (match find(rest, pattern) {
            Some(i) => Some(s.len() + i),
            None => None,
        }),
    decreases s.len(),
{
    let whole = s + rest;
    if s.len() == 0 {
        assert(whole =~= rest);
    } else {
        assert(whole[0] != pattern[0]);
        assert(!pattern.is_prefix_of(whole)) by {
            if pattern.is_prefix_of(whole) {
                assert(pattern[0] == whole.subrange(0, pattern.len() as int)[0]);
            }
        }
        assert(whole.drop_first() =~= s.drop_first() + rest);
        lemma_find_after(s.drop_first(), rest, pattern);
    }
}

/// A pattern that does not begin to occur before its place is found there.
pub proof fn lemma_find_at(s: Seq<char>, pattern: Seq<char>, rest: Seq<char>)
    requires
        pattern.len() > 0,
        find(s + pattern.drop_last(), pattern) is None,
    ensures
        find(s + pattern + rest, pattern) == Some(s.len() as int),
    decreases s.len(),
{
    let whole = s + pattern + rest;
    if s.len() == 0 {
        assert(whole.subrange(0, pattern.len() as int) =~= pattern);
    } else {
        let front = s + pattern.drop_last();
        assert(!pattern.is_prefix_of(whole)) by {
            if pattern.is_prefix_of(whole) {
                assert(front.subrange(0, pattern.len() as int) =~= whole.subrange(
                    0,
                    pattern.len() as int,
                ));
            }
        }
        assert(front.drop_first() =~= s.drop_first() + pattern.drop_last());
        lemma_find_at(s.drop_first(), pattern, rest);
        assert(whole.drop_first() =~= s.drop_first() + pattern + rest);
    }
}

/// The pattern itself, standing in front, ends an empty first piece.
pub proof fn lemma_split_at_front(rest: Seq<char>, pattern: Seq<char>)
    requires
        pattern.len() > 0,
    ensures
        split(pattern + rest, pattern) == seq![Seq::<char>::empty()] + split(rest, pattern),
{
    let whole = pattern + rest;
    assert(whole.subrange(0, pattern.len() as int) =~= pattern);
    assert(find(whole, pattern) == Some(0int));
    assert(whole.take(0) =~= Seq::<char>::empty());
    assert(whole.skip(pattern.len() as int) =~= rest);
}

/// Two texts that are equal, each with a separator behind a part that does not
/// hold its first character, are equal before and behind the separator.
pub proof fn lemma_equal_up_to(
    separator: Seq<char>,
    a: Seq<char>,
    a_rest: Seq<char>,
    b: Seq<char>,
    b_rest: Seq<char>,
)
    requires
        separator.len() > 0,
        is_free_of(a, separator[0]),
        is_free_of(b, separator[0]),
        a + separator + a_rest == b + separator + b_rest,
    ensures
        a == b,
        a_rest == b_rest,
{
    let whole = a + separator + a_rest;
    assert(whole[a.len() as int] == separator[0]);
    assert(whole[b.len() as int] == separator[0]);
    if a.len() < b.len() {
        assert(whole[a.len() as int] == b[a.len() as int]);
    }
    if b.len() < a.len() {
        assert(whole[b.len() as int] == a[b.len() as int]);
    }
    let end = a.len() as int + separator.len();
    assert(a =~= whole.take(a.len() as int));
    assert(b =~= whole.take(a.len() as int));
    assert(a_rest =~= whole.skip(end));
    assert(b_rest =~= whole.skip(end));
}

/// The characters of a string.
pub fn chars_of(s: &str) -> (chars: Vec<char>)
    ensures
        chars@ == s@,
{
    let mut chars: Vec<char> = Vec::new();
    for c in it: s.chars()
        invariant
            it.seq() == s@,
            chars@ == it.seq().take(it.index() as int),
    {
        chars.push(c);
        assert(it.seq().take(it.index() + 1) =~= it.seq().take(it.index() as int).push(c));
    }
    assert(s@.take(s@.len() as int) =~= s@);
    chars
}

/// Whether two strings hold the same characters.
pub fn same_text(a: &str, b: &str) -> (same: bool)
    ensures
        same == (a@ == b@),
{
    a.to_owned() == b.to_owned()
}

fn white_space(c: char) -> (yes: bool)
    ensures
        yes == is_white_space(c),
{
    ('\u{9}' <= c && c <= '\u{d}') || c == '\u{20}' || c == '\u{85}' || c == '\u{a0}' || c
        == '\u{1680}' || ('\u{2000}' <= c && c <= '\u{200a}') || c == '\u{2028}' || c == '\u{2029}'
        || c == '\u{202f}' || c == '\u{205f}' || c == '\u{3000}'
}

/// `s` without its leading and trailing white space.
pub fn trim(s: &str) -> (r: String)
    ensures
        r@ == trimmed(s@),
{
    let chars = chars_of(s);
    let mut from: usize = 0;
    assert(s@.skip(0) =~= s@);
    while from < chars.len() && white_space(chars[from])
        invariant
            chars@ == s@,
            from <= chars@.len(),
            trimmed_start(s@) == trimmed_start(s@.skip(from as int)),
        decreases chars.len() - from,
    {
        assert(s@.skip(from as int).drop_first() =~= s@.skip(from + 1));
        from += 1;
    }
    let ghost rest = s@.skip(from as int);
    assert(trimmed_start(s@) == rest);
    let mut to: usize = chars.len();
    assert(s@.subrange(from as int, to as int) =~= rest);
    while from < to && white_space(chars[to - 1])
        invariant
            chars@ == s@,
            from <= to <= chars@.len(),
            trimmed_end(rest) == trimmed_end(s@.subrange(from as int, to as int)),
        decreases to,
    {
        assert(s@.subrange(from as int, to as int).drop_last() =~= s@.subrange(
            from as int,
            to - 1,
        ));
        to -= 1;
    }
    s.substring_char(from, to).to_owned()
}

/// `s` without the run of `c` at its end.
pub fn strip_trailing(s: &str, c: char) -> (r: String)
    ensures
        r@ == without_trailing(s@, c),
{
    let chars = chars_of(s);
    let mut to: usize = chars.len();
    assert(s@.subrange(0, to as int) =~= s@);
    while 0 < to && chars[to - 1] == c
        invariant
            chars@ == s@,
            to <= chars@.len(),
            without_trailing(s@, c) == without_trailing(s@.subrange(0, to as int), c),
        decreases to,
    {
        assert(s@.subrange(0, to as int).drop_last() =~= s@.subrange(0, to - 1));
        to -= 1;
    }
    s.substring_char(0, to).to_owned()
}

/// Whether `pattern` stands in `chars` at `at`.
fn occurs_at(chars: &Vec<char>, pattern: &Vec<char>, at: usize) -> (yes: bool)
    requires
        at <= chars@.len(),
    ensures
        yes == pattern@.is_prefix_of(chars@.skip(at as int)),
{
    if pattern.len() > chars.len() - at {
        return false;
    }
    let ghost rest = chars@.skip(at as int);
    let mut i: usize = 0;
    while i < pattern.len()
        invariant
            i <= pattern@.len(),
            at + pattern.len() <= chars.len(),
            rest == chars@.skip(at as int),
            pattern@.take(i as int) =~= rest.take(i as int),
        decreases pattern.len() - i,
    {
        if chars[at + i] != pattern[i] {
            assert(rest[i as int] != pattern@[i as int]);
            assert(rest.take(pattern@.len() as int)[i as int] == rest[i as int]);
            return false;
        }
        assert(pattern@.take(i + 1) =~= pattern@.take(i as int).push(pattern@[i as int]));
        assert(rest.take(i + 1) =~= rest.take(i as int).push(rest[i as int]));
        i += 1;
    }
    assert(pattern@.take(pattern@.len() as int) =~= pattern@);
    assert(rest.take(pattern@.len() as int) =~= rest.subrange(0, pattern@.len() as int));
    true
}

/// Where `pattern` first occurs in `chars` at or after `from`, counted from `from`.
fn find_from(chars: &Vec<char>, pattern: &Vec<char>, from: usize) -> (r: Option<usize>)
    requires
        from <= chars@.len(),
        pattern@.len() > 0,
    ensures
        match r {
            Some(i) => find(chars@.skip(from as int), pattern@) == Some(i as int),
            None => find(chars@.skip(from as int), pattern@) is None,
        },
{
    let ghost rest = chars@.skip(from as int);
    let mut at: usize = from;
    while at < chars.len()
        invariant
            from <= at <= chars@.len(),
            rest == chars@.skip(from as int),
            pattern@.len() > 0,
            forall|k: int| 0 <= k < at - from ==> !pattern@.is_prefix_of(#[trigger] rest.skip(k)),
        decreases chars.len() - at,
    {
        assert(rest.skip(at - from) =~= chars@.skip(at as int));
        if occurs_at(chars, pattern, at) {
            proof {
                lemma_find_is_first(rest, pattern@, at - from);
            }
            return Some(at - from);
        }
        at += 1;
    }
    proof {
        assert forall|k: int| 0 <= k <= rest.len() implies !pattern@.is_prefix_of(
            #[trigger] rest.skip(k),
        ) by {
            if k == rest.len() {
                assert(rest.skip(k).len() == 0);
            }
        }
        lemma_find_is_none(rest, pattern@);
    }
    None
}

/// Whether `s` begins with `prefix`.
pub fn starts_with(s: &str, prefix: &str) -> (yes: bool)
    ensures
        yes == prefix@.is_prefix_of(s@),
{
    let chars = chars_of(s);
    let pattern = chars_of(prefix);
    assert(chars@.skip(0) =~= chars@);
    occurs_at(&chars, &pattern, 0)
}

/// Splits `s` at the first occurrence of `pattern`.
pub fn cut(s: &str, pattern: &str) -> (r: Option<(String, String)>)
    requires
        pattern@.len() > 0,
    ensures
        match r {
            Some((before, after)) => split_once(s@, pattern@) == Some((before@, after@)),
            None => split_once(s@, pattern@) is None,
        },
{
    let chars = chars_of(s);
    let wanted = chars_of(pattern);
    assert(chars@.skip(0) =~= chars@);
    proof {
        lemma_find_bounds(s@, pattern@);
    }
    match find_from(&chars, &wanted, 0) {
        None => None,
        Some(i) => {
            let end: usize = chars.len();
            let before = s.substring_char(0, i).to_owned();
            let after = s.substring_char(i + wanted.len(), end).to_owned();
            assert(s@.subrange(0, i as int) =~= s@.take(i as int));
            assert(s@.subrange(i + pattern@.len(), s@.len() as int) =~= s@.skip(
                i + pattern@.len(),
            ));
            Some((before, after))
        },
    }
}

/// Splits `s` at every occurrence of `pattern`.
pub fn pieces(s: &str, pattern: &str) -> (r: Vec<String>)
    requires
        pattern@.len() > 0,
    ensures
        views(r@) == split(s@, pattern@),
        r@.len() > 0,
{
    let chars = chars_of(s);
    let wanted = chars_of(pattern);
    let end: usize = chars.len();
    let mut r: Vec<String> = Vec::new();
    let mut from: usize = 0;
    assert(s@.skip(0) =~= s@);
    assert(views(r@) + split(s@, pattern@) =~= split(s@, pattern@));
    loop
        invariant
            chars@ == s@,
            wanted@ == pattern@,
            pattern@.len() > 0,
            from <= end == chars@.len(),
            views(r@) + split(s@.skip(from as int), pattern@) == split(s@, pattern@),
        decreases end - from,
    {
        let ghost rest = s@.skip(from as int);
        let ghost done = views(r@);
        proof {
            lemma_find_bounds(rest, pattern@);
        }
        match find_from(&chars, &wanted, from) {
            None => {
                let last = s.substring_char(from, end).to_owned();
                assert(last@ =~= rest);
                r.push(last);
                assert(views(r@) =~= done + seq![rest]);
                return r;
            },
            Some(i) => {
                let piece = s.substring_char(from, from + i).to_owned();
                assert(piece@ =~= rest.take(i as int));
                r.push(piece);
                let next: usize = from + i + wanted.len();
                assert(rest.skip(i + pattern@.len()) =~= s@.skip(next as int));
                assert(views(r@) =~= done + seq![rest.take(i as int)]);
                assert(views(r@) + split(s@.skip(next as int), pattern@) =~= done + (seq![
                    rest.take(i as int),
                ] + split(s@.skip(next as int), pattern@)));
                from = next;
            },
        }
    }
}

/// The code of `c` with the letters A to Z taken as a to z.
pub open spec fn folded(c: char) -> u32 {
    if 'A' <= c <= 'Z' {
        (c as u32 + 32) as u32
    } else {
        c as u32
    }
}

/// Whether `a` and `b` are equal but for the case of the letters A to Z.
pub open spec fn equal_but_for_case(a: Seq<char>, b: Seq<char>) -> bool {
    &&& a.len() == b.len()
    &&& forall|i: int| 0 <= i < a.len() ==> folded(#[trigger] a[i]) == folded(b[i])
}

fn fold(c: char) -> (r: u32)
    ensures
        r == folded(c),
{
    if 'A' <= c && c <= 'Z' {
        c as u32 + 32
    } else {
        c as u32
    }
}

/// Compares two strings without regard to the case of the letters A to Z.
pub fn same_but_for_case(a: &str, b: &str) -> (same: bool)
    ensures
        same == equal_but_for_case(a@, b@),
{
    let left = chars_of(a);
    let right = chars_of(b);
    if left.len() != right.len() {
        return false;
    }
    let mut i: usize = 0;
    while i < left.len()
        invariant
            left@ == a@,
            right@ == b@,
            left@.len() == right@.len(),
            i <= left@.len(),
            forall|k: int| 0 <= k < i ==> folded(#[trigger] left@[k]) == folded(right@[k]),
        decreases left.len() - i,
    {
        if fold(left[i]) != fold(right[i]) {
            return false;
        }
        i += 1;
    }
    true
}

} // verus!
