//! Characters and strings: searching, trimming, and writing numbers.

use vstd::prelude::*;
use vstd::string::*;

verus! {

/// `String::push`: the character is appended to the end of the string.
pub assume_specification[ String::push ](s: &mut String, c: char)
    ensures
        final(s)@ == old(s)@.push(c),
;

/// Unicode's `White_Space` property.
pub open spec fn white_space(c: char) -> bool {
    let u = c as u32;
    ||| 0x9 <= u <= 0xd
    ||| u == 0x20
    ||| u == 0x85
    ||| u == 0xa0
    ||| u == 0x1680
    ||| 0x2000 <= u <= 0x200a
    ||| u == 0x2028
    ||| u == 0x2029
    ||| u == 0x202f
    ||| u == 0x205f
    ||| u == 0x3000
}

/// Whether `c` has Unicode's `White_Space` property.
pub fn is_white_space(c: char) -> (r: bool)
    ensures
        r == white_space(c),
{
    let u: u32 = c as u32;
    (0x9 <= u && u <= 0xd) || u == 0x20 || u == 0x85 || u == 0xa0 || u == 0x1680 || (0x2000 <= u
        && u <= 0x200a) || u == 0x2028 || u == 0x2029 || u == 0x202f || u == 0x205f || u == 0x3000
}

/// The characters of `s`, in order.
pub fn chars_of(s: &str) -> (r: Vec<char>)
    ensures
        r@ == s@,
{
    let mut r: Vec<char> = Vec::new();
    for c in it: s.chars()
        invariant
            r@ == it.seq().take(it.index() as int),
            it.seq() == s@,
    {
        r.push(c);
    }
    r
}

/// The characters `from..to` of `s`, as a string.
pub fn string_of(s: &Vec<char>, from: usize, to: usize) -> (r: String)
    requires
        from <= to <= s@.len(),
    ensures
        r@ == s@.subrange(from as int, to as int),
{
    let mut r = String::new();
    let mut i: usize = from;
    while i < to
        invariant
            from <= i <= to <= s@.len(),
            r@ == s@.subrange(from as int, i as int),
        decreases to - i,
    {
        r.push(s[i]);
        i += 1;
    }
    r
}

// ------------------------------------------------------------------- search

/// Whether `pattern` stands in `s` at position `i`.
pub open spec fn stands_at(s: Seq<char>, pattern: Seq<char>, i: int) -> bool {
    &&& 0 <= i
    &&& i + pattern.len() <= s.len()
    &&& s.subrange(i, i + pattern.len()) == pattern
}

/// The first position at or after `i` at which `pattern` stands in `s`.
pub open spec fn find_from(s: Seq<char>, pattern: Seq<char>, i: int) -> Option<int>
    decreases s.len() + 1 - i,
{
    if i < 0 || i + pattern.len() > s.len() {
        None
    } else if stands_at(s, pattern, i) {
        Some(i)
    } else {
        find_from(s, pattern, i + 1)
    }
}

/// The first position at or after `i` that holds one of `stops`.
pub open spec fn stop_from(s: Seq<char>, stops: Seq<char>, i: int) -> Option<int>
    decreases s.len() - i,
{
    if i < 0 || i >= s.len() {
        None
    } else if stops.contains(s[i]) {
        Some(i)
    } else {
        stop_from(s, stops, i + 1)
    }
}

/// What `find_from` answers: an occurrence at or after `i` with none before it, or, with
/// no answer, no occurrence at all.
pub proof fn lemma_find_is_first(s: Seq<char>, pattern: Seq<char>, i: int)
    requires
        0 <= i,
    ensures
        match find_from(s, pattern, i) {
            Some(at) => {
                &&& i <= at
                &&& stands_at(s, pattern, at)
                &&& forall|j: int| i <= j < at ==> !stands_at(s, pattern, j)
            },
            None => forall|j: int| i <= j ==> !stands_at(s, pattern, j),
        },
    decreases s.len() + 1 - i,
{
    if i + pattern.len() <= s.len() && !stands_at(s, pattern, i) {
        lemma_find_is_first(s, pattern, i + 1);
    }
}

/// What `stop_from` answers: the first position at or after `i` with a stop.
pub proof fn lemma_stop_is_first(s: Seq<char>, stops: Seq<char>, i: int)
    requires
        0 <= i,
    ensures
        match stop_from(s, stops, i) {
            Some(at) => {
                &&& i <= at < s.len()
                &&& stops.contains(s[at])
                &&& forall|j: int| i <= j < at ==> !stops.contains(#[trigger] s[j])
            },
            None => forall|j: int| i <= j < s.len() ==> !stops.contains(#[trigger] s[j]),
        },
    decreases s.len() - i,
{
    if i < s.len() && !stops.contains(s[i]) {
        lemma_stop_is_first(s, stops, i + 1);
    }
}

/// Whether `pattern` stands in `s` at `i`.
fn stands(s: &Vec<char>, pattern: &Vec<char>, i: usize) -> (r: bool)
    requires
        i + pattern@.len() <= s@.len(),
    ensures
        r == stands_at(s@, pattern@, i as int),
{
    let n = s.len();
    let mut k: usize = 0;
    while k < pattern.len()
        invariant
            i + pattern@.len() <= s@.len() == n,
            k <= pattern@.len(),
            forall|j: int| 0 <= j < k ==> s@[i + j] == #[trigger] pattern@[j],
        decreases pattern@.len() - k,
    {
        if s[i + k] != pattern[k] {
            assert(s@.subrange(i as int, i + pattern@.len())[k as int] != pattern@[k as int]);
            return false;
        }
        k += 1;
    }
    assert(s@.subrange(i as int, i + pattern@.len()) =~= pattern@);
    true
}

/// The first position at or after `from` at which `pattern` stands in `s`.
pub fn find(s: &Vec<char>, pattern: &Vec<char>, from: usize) -> (r: Option<usize>)
    ensures
        match r {
            Some(at) => find_from(s@, pattern@, from as int) == Some(at as int),
            None => find_from(s@, pattern@, from as int) is None,
        },
{
    let n = s.len();
    let m = pattern.len();
    if m > n {
        return None;
    }
    let mut i: usize = from;
    while i <= n - m
        invariant
            n == s@.len(),
            m == pattern@.len(),
            m <= n,
            from <= i,
            find_from(s@, pattern@, from as int) == find_from(s@, pattern@, i as int),
        decreases n + 1 - i,
    {
        if stands(s, pattern, i) {
            return Some(i);
        }
        if i == n - m {
            assert(find_from(s@, pattern@, i + 1) is None);
            return None;
        }
        i += 1;
    }
    None
}

/// The first position at or after `from` of `s` that holds one of `stops`.
pub fn find_stop(s: &Vec<char>, stops: &Vec<char>, from: usize) -> (r: Option<usize>)
    ensures
        match r {
            Some(at) => stop_from(s@, stops@, from as int) == Some(at as int),
            None => stop_from(s@, stops@, from as int) is None,
        },
{
    let mut i: usize = from;
    while i < s.len()
        invariant
            from <= i,
            stop_from(s@, stops@, from as int) == stop_from(s@, stops@, i as int),
        decreases s@.len() - i,
    {
        let mut k: usize = 0;
        while k < stops.len()
            invariant
                i < s@.len(),
                from <= i,
                k <= stops@.len(),
                stop_from(s@, stops@, from as int) == stop_from(s@, stops@, i as int),
                forall|j: int| 0 <= j < k ==> stops@[j] != s@[i as int],
            decreases stops@.len() - k,
        {
            if stops[k] == s[i] {
                assert(stops@.contains(s@[i as int]));
                return Some(i);
            }
            k += 1;
        }
        assert(!stops@.contains(s@[i as int]));
        i += 1;
    }
    None
}

// --------------------------------------------------------------------- trim

/// The first position of `s` in `i..j` that is not white space, or `j`.
pub open spec fn inked_from(s: Seq<char>, i: int, j: int) -> int
    decreases j - i,
{
    if i < j && white_space(s[i]) {
        inked_from(s, i + 1, j)
    } else {
        i
    }
}

/// One past the last position of `s` in `i..j` that is not white space, or `i`.
pub open spec fn inked_to(s: Seq<char>, i: int, j: int) -> int
    decreases j - i,
{
    if i < j && white_space(s[j - 1]) {
        inked_to(s, i, j - 1)
    } else {
        j
    }
}

/// `s[i..j]` without the white space at its two ends.
pub open spec fn trim_range(s: Seq<char>, i: int, j: int) -> Seq<char> {
    let a = inked_from(s, i, j);
    s.subrange(a, inked_to(s, a, j))
}

/// `s[from..to]` without the white space at its two ends.
pub fn trimmed(s: &Vec<char>, from: usize, to: usize) -> (r: String)
    requires
        from <= to <= s@.len(),
    ensures
        r@ == trim_range(s@, from as int, to as int),
{
    let mut a: usize = from;
    while a < to && is_white_space(s[a])
        invariant
            from <= a <= to <= s@.len(),
            inked_from(s@, from as int, to as int) == inked_from(s@, a as int, to as int),
        decreases to - a,
    {
        a += 1;
    }
    let mut b: usize = to;
    while a < b && is_white_space(s[b - 1])
        invariant
            a <= b <= to <= s@.len(),
            inked_to(s@, a as int, to as int) == inked_to(s@, a as int, b as int),
        decreases b - a,
    {
        b -= 1;
    }
    string_of(s, a, b)
}

// ------------------------------------------------------------------ numbers

/// The decimal digit `d`.
pub open spec fn digit(d: nat) -> char {
    if d == 0 { '0' } else if d == 1 { '1' } else if d == 2 { '2' } else if d == 3 { '3' }
    else if d == 4 { '4' } else if d == 5 { '5' } else if d == 6 { '6' } else if d == 7 { '7' }
    else if d == 8 { '8' } else { '9' }
}

/// `n` in decimal, without leading zeros.
pub open spec fn decimal(n: nat) -> Seq<char>
    decreases n,
{
    if n < 10 {
        seq![digit(n)]
    } else {
        decimal(n / 10).push(digit(n % 10))
    }
}

fn digit_char(d: u64) -> (r: char)
    requires
        d < 10,
    ensures
        r == digit(d as nat),
{
    match d {
        0 => '0', 1 => '1', 2 => '2', 3 => '3', 4 => '4',
        5 => '5', 6 => '6', 7 => '7', 8 => '8', _ => '9',
    }
}

/// Append `n` in decimal.
pub fn push_decimal(out: &mut String, n: u64)
    ensures
        final(out)@ == old(out)@ + decimal(n as nat),
    decreases n,
{
    if n >= 10 {
        push_decimal(out, n / 10);
        let c: char = digit_char(n % 10);
        out.push(c);
    } else {
        let c: char = digit_char(n);
        out.push(c);
    }
}

} // verus!
