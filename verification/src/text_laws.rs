//! What always holds of searching, trimming and writing numbers.

use vstd::prelude::*;
use crate::text;

verus! {

/// Whether `s` begins with all of `head`.
pub open spec fn begins(s: Seq<char>, head: Seq<char>) -> bool {
    head.len() <= s.len() && s.subrange(0, head.len() as int) == head
}

/// Whether `s` ends with all of `tail`.
pub open spec fn ends(s: Seq<char>, tail: Seq<char>) -> bool {
    tail.len() <= s.len() && s.subrange(s.len() - tail.len(), s.len() as int) == tail
}

/// A pattern stands at a place exactly where all its characters do, one after another.
pub proof fn a_pattern_stands_where_its_characters_do(s: Seq<char>, pattern: Seq<char>, i: int)
    ensures
        text::stands_at(s, pattern, i) <==> 0 <= i && i + pattern.len() <= s.len() && forall|k: int|
            0 <= k < pattern.len() ==> s[i + k] == #[trigger] pattern[k],
{
    if 0 <= i && i + pattern.len() <= s.len() {
        let there = s.subrange(i, i + pattern.len());
        if there == pattern {
            assert forall|k: int| 0 <= k < pattern.len() implies s[i + k] == #[trigger] pattern[k] by {
                assert(there[k] == s[i + k]);
            }
        }
        if forall|k: int| 0 <= k < pattern.len() ==> s[i + k] == #[trigger] pattern[k] {
            assert(there =~= pattern);
        }
    }
}

/// White space is the characters that Unicode calls so, none of them a letter, a digit or a
/// mark of the template.
pub proof fn white_space_is_no_ink(c: char)
    ensures
        text::white_space(c) <==> (9 <= c as u32 <= 13 || c as u32 == 32 || c as u32 == 133
            || c as u32 == 160 || c as u32 == 5760 || 8192 <= c as u32 <= 8202 || c as u32 == 8232
            || c as u32 == 8233 || c as u32 == 8239 || c as u32 == 8287 || c as u32 == 12288),
{
}

/// Whether the text between `i` and `j` of `s` is nothing but white space.
pub open spec fn blank(s: Seq<char>, i: int, j: int) -> bool {
    forall|k: int| i <= k < j ==> text::white_space(#[trigger] s[k])
}

/// Whether `t` is `s[i..j]` trimmed: what is cut off at the two ends is white space, and what
/// is left neither begins nor ends with any.
pub open spec fn is_trimmed(s: Seq<char>, i: int, j: int, t: Seq<char>) -> bool {
    &&& exists|a: int, b: int|
        i <= a <= b <= j && blank(s, i, a) && blank(s, b, j) && t == #[trigger] s.subrange(a, b)
    &&& t.len() > 0 ==> !text::white_space(t[0]) && !text::white_space(t[t.len() - 1])
}

/// Trimming cuts off white space at the two ends, all of it and nothing else.
pub proof fn trimming_cuts_white_space_only(s: Seq<char>, i: int, j: int)
    requires
        0 <= i <= j <= s.len(),
    ensures
        is_trimmed(s, i, j, text::trim_range(s, i, j)),
{
    lemma_inked_from(s, i, j);
    let a = text::inked_from(s, i, j);
    lemma_inked_to(s, a, j);
    let b = text::inked_to(s, a, j);
    assert(text::trim_range(s, i, j) == s.subrange(a, b));
    assert(blank(s, i, a) && blank(s, b, j));
}

proof fn lemma_inked_from(s: Seq<char>, i: int, j: int)
    requires
        0 <= i <= j <= s.len(),
    ensures
        i <= text::inked_from(s, i, j) <= j,
        blank(s, i, text::inked_from(s, i, j)),
        text::inked_from(s, i, j) < j ==> !text::white_space(s[text::inked_from(s, i, j)]),
    decreases j - i,
{
    if i < j && text::white_space(s[i]) {
        lemma_inked_from(s, i + 1, j);
    }
}

proof fn lemma_inked_to(s: Seq<char>, i: int, j: int)
    requires
        0 <= i <= j <= s.len(),
    ensures
        i <= text::inked_to(s, i, j) <= j,
        blank(s, text::inked_to(s, i, j), j),
        i < text::inked_to(s, i, j) ==> !text::white_space(s[text::inked_to(s, i, j) - 1]),
    decreases j - i,
{
    if i < j && text::white_space(s[j - 1]) {
        lemma_inked_to(s, i, j - 1);
    }
}

/// There is one way to trim a text.
pub proof fn trimming_has_one_answer(s: Seq<char>, i: int, j: int, t: Seq<char>)
    requires
        0 <= i <= j <= s.len(),
        is_trimmed(s, i, j, t),
    ensures
        t == text::trim_range(s, i, j),
{
    trimming_cuts_white_space_only(s, i, j);
    let r = text::trim_range(s, i, j);
    let (a, b) = choose|a: int, b: int|
        i <= a <= b <= j && blank(s, i, a) && blank(s, b, j) && t == #[trigger] s.subrange(a, b);
    let (c, d) = choose|c: int, d: int|
        i <= c <= d <= j && blank(s, i, c) && blank(s, d, j) && r == #[trigger] s.subrange(c, d);
    if t.len() > 0 {
        assert(t[0] == s[a] && t[t.len() - 1] == s[b - 1]);
        if r.len() > 0 {
            assert(r[0] == s[c] && r[r.len() - 1] == s[d - 1]);
            assert(a == c && b == d);
        } else {
            assert(c == d);
            assert(text::white_space(s[a]));
        }
    } else if r.len() > 0 {
        assert(r[0] == s[c]);
        assert(a == b);
        assert(text::white_space(s[c]));
    }
    assert(t =~= r);
}

/// The number that decimal digits stand for.
pub open spec fn value(digits: Seq<char>) -> int
    decreases digits.len(),
{
    if digits.len() == 0 {
        0
    } else {
        value(digits.drop_last()) * 10 + (digits.last() as u32 - 48)
    }
}

/// A number in decimal reads back as the number: it is digits, it stands for the number, and
/// it begins with a nought only where it is nought.
pub proof fn a_number_reads_back(n: nat)
    ensures
        text::decimal(n).len() > 0,
        value(text::decimal(n)) == n,
        forall|i: int|
            0 <= i < text::decimal(n).len() ==> '0' <= #[trigger] text::decimal(n)[i] <= '9',
        text::decimal(n)[0] == '0' ==> n == 0 && text::decimal(n).len() == 1,
    decreases n,
{
    let d = text::decimal(n);
    if n < 10 {
        assert(d.drop_last() =~= Seq::<char>::empty());
        assert(value(d.drop_last()) == 0);
    } else {
        a_number_reads_back(n / 10);
        let head = text::decimal(n / 10);
        assert(d.drop_last() =~= head);
        assert(d[0] == head[0]);
        assert forall|i: int| 0 <= i < d.len() implies '0' <= #[trigger] d[i] <= '9' by {
            if i < head.len() {
                assert(d[i] == head[i]);
            }
        }
    }
}

} // verus!
