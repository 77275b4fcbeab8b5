//! Shortening a line until it fits.
//!
//! How wide a line is only the painter can say. What is tried, in what order, and what is
//! left when nothing fits, is decided here. What is drawn always fits.

use vstd::prelude::*;
use vstd::string::*;
use crate::text;

verus! {

/// How many shortened lines are tried.
pub const TRIES: usize = 4;

/// Which end of a line gives way.
#[derive(Clone, Copy, Debug, PartialEq, Eq, Structural)]
pub enum Keep {
    /// The beginning stays.
    Head,
    /// The end stays. For a path that is the half that says which file it is.
    Tail,
}

/// `line` with `kept` of its characters left, and an ellipsis for the rest.
pub open spec fn cut(line: Seq<char>, kept: nat, keep: Keep) -> Seq<char> {
    match keep {
        Keep::Head => line.take(kept as int).push('…'),
        Keep::Tail => seq!['…'] + line.skip(line.len() - kept),
    }
}

/// The lesser of `kept` and one less than there are.
pub open spec fn fewer(kept: nat, len: nat) -> nat {
    if len == 0 {
        0
    } else if kept < len {
        kept
    } else {
        (len - 1) as nat
    }
}

/// How many characters the `i`th try keeps: the guess, and then four fifths of the last one
/// each time.
pub open spec fn kept_at(len: nat, guess: nat, i: nat) -> nat
    decreases i,
{
    if i == 0 {
        fewer(guess, len)
    } else {
        fewer(kept_at(len, guess, (i - 1) as nat) * 4 / 5, len)
    }
}

/// Whether `fits` was asked about `line` and gave this answer.
pub open spec fn asked<F: Fn(&str) -> bool>(fits: F, line: Seq<char>, answer: bool) -> bool {
    exists|s: &str| s@ == line && #[trigger] call_ensures(fits, (s,), answer)
}

/// Whether the tries before the `i`th kept something and did not fit.
pub open spec fn failed_before<F: Fn(&str) -> bool>(
    fits: F,
    line: Seq<char>,
    keep: Keep,
    guess: nat,
    i: nat,
) -> bool {
    forall|j: nat|
        j < i ==> #[trigger] kept_at(line.len(), guess, j) > 0 && asked(
            fits,
            cut(line, kept_at(line.len(), guess, j), keep),
            false,
        )
}

/// Whether `r` is `line` shortened: the first try that fits, or a bare ellipsis where none
/// does or nothing would be left, or nothing where even that does not fit.
pub open spec fn shortened<F: Fn(&str) -> bool>(
    fits: F,
    line: Seq<char>,
    keep: Keep,
    guess: nat,
    r: Seq<char>,
) -> bool {
    exists|i: nat|
        i <= TRIES && #[trigger] failed_before(fits, line, keep, guess, i) && (if i < TRIES
            && kept_at(line.len(), guess, i) > 0 {
            &&& r == cut(line, kept_at(line.len(), guess, i), keep)
            &&& asked(fits, r, true)
        } else {
            ||| r == seq!['…'] && asked(fits, r, true)
            ||| r.len() == 0 && asked(fits, seq!['…'], false)
        })
}

/// What is drawn of a line: nothing in a `sliver`, the line itself where it fits, and
/// otherwise what is left of it.
pub open spec fn fitted<F: Fn(&str) -> bool>(
    fits: F,
    line: Seq<char>,
    keep: Keep,
    sliver: bool,
    guess: nat,
    r: Seq<char>,
) -> bool {
    if sliver {
        r.len() == 0
    } else {
        ||| asked(fits, line, true) && r == line
        ||| asked(fits, line, false) && shortened(fits, line, keep, guess, r)
    }
}

/// Whether `r` holds nothing but one end of `line`, and an ellipsis where it is cut.
pub open spec fn is_end_of(line: Seq<char>, keep: Keep, r: Seq<char>) -> bool {
    ||| r.len() == 0
    ||| r == line
    ||| r == seq!['…']
    ||| exists|kept: nat| kept < line.len() && r == #[trigger] cut(line, kept, keep)
}

/// Four fifths.
fn four_fifths(n: usize) -> (r: usize)
    ensures
        r == n * 4 / 5,
{
    n / 5 * 4 + n % 5 * 4 / 5
}

/// The line with `kept` of its characters left.
fn cut_line(chars: &Vec<char>, kept: usize, keep: Keep) -> (r: String)
    requires
        kept <= chars@.len(),
    ensures
        r@ == cut(chars@, kept as nat, keep),
{
    match keep {
        Keep::Head => {
            let mut r = text::string_of(chars, 0, kept);
            r.push('…');
            assert(r@ =~= cut(chars@, kept as nat, keep));
            r
        },
        Keep::Tail => {
            let mut r = String::new();
            r.push('…');
            let end = text::string_of(chars, chars.len() - kept, chars.len());
            r.append(end.as_str());
            assert(r@ =~= cut(chars@, kept as nat, keep));
            r
        },
    }
}

/// A bare ellipsis, or nothing where it does not fit.
fn ellipsis<F: Fn(&str) -> bool>(fits: &F) -> (r: String)
    requires
        forall|s: &str| call_requires(*fits, (s,)),
    ensures
        (r@ == seq!['…'] && asked(*fits, r@, true)) || (r@.len() == 0 && asked(
            *fits,
            seq!['…'],
            false,
        )),
{
    let mut r = String::new();
    r.push('…');
    assert(r@ =~= seq!['…']);
    let shown: &str = r.as_str();
    let answer = fits(shown);
    assert(asked(*fits, seq!['…'], answer)) by {
        assert(call_ensures(*fits, (shown,), answer));
    }
    if answer {
        r
    } else {
        String::new()
    }
}

/// `line`, shortened at one end until it `fits`. The first guess at how many characters to
/// keep comes from the caller, which knows how wide the whole line is, so that hardly ever
/// more than one try is made: a map draws hundreds of labels a frame.
fn fit<F: Fn(&str) -> bool>(line: &str, keep: Keep, sliver: bool, guess: usize, fits: F) -> (r:
    String)
    requires
        forall|s: &str| call_requires(fits, (s,)),
    ensures
        fitted(fits, line@, keep, sliver, guess as nat, r@),
        is_end_of(line@, keep, r@),
        r@.len() > 0 ==> asked(fits, r@, true),
{
    if sliver {
        return String::new();
    }
    if fits(line) {
        assert(asked(fits, line@, true));
        return line.to_owned();
    }
    assert(asked(fits, line@, false));
    let chars: Vec<char> = text::chars_of(line);
    let n = chars.len();
    let most: usize = if n == 0 { 0 } else { n - 1 };
    let mut kept: usize = if guess < most { guess } else { most };
    let mut i: usize = 0;
    while i < TRIES
        invariant
            forall|s: &str| call_requires(fits, (s,)),
            !sliver,
            chars@ == line@,
            n == line@.len(),
            most == (if n == 0 { 0 } else { n - 1 }),
            i <= TRIES,
            kept == kept_at(n as nat, guess as nat, i as nat),
            kept <= most,
            asked(fits, line@, false),
            failed_before(fits, line@, keep, guess as nat, i as nat),
        decreases TRIES - i,
    {
        if kept == 0 {
            return ellipsis(&fits);
        }
        let candidate = cut_line(&chars, kept, keep);
        let shown: &str = candidate.as_str();
        let answer = fits(shown);
        assert(asked(fits, candidate@, answer)) by {
            assert(call_ensures(fits, (shown,), answer));
        }
        if answer {
            return candidate;
        }
        let fifths: usize = four_fifths(kept);
        kept = if fifths < most { fifths } else { most };
        i += 1;
    }
    ellipsis(&fits)
}

/// `line`, shortened with an ellipsis at its end until it fits.
pub fn fit_text<F: Fn(&str) -> bool>(line: &str, sliver: bool, guess: usize, fits: F) -> (r: String)
    requires
        forall|s: &str| call_requires(fits, (s,)),
    ensures
        fitted(fits, line@, Keep::Head, sliver, guess as nat, r@),
        is_end_of(line@, Keep::Head, r@),
        r@.len() > 0 ==> asked(fits, r@, true),
{
    fit(line, Keep::Head, sliver, guess, fits)
}

/// `line`, shortened from its front until it fits. For a path that is the right end to cut:
/// its end still says which file it is.
pub fn fit_tail<F: Fn(&str) -> bool>(line: &str, sliver: bool, guess: usize, fits: F) -> (r: String)
    requires
        forall|s: &str| call_requires(fits, (s,)),
    ensures
        fitted(fits, line@, Keep::Tail, sliver, guess as nat, r@),
        is_end_of(line@, Keep::Tail, r@),
        r@.len() > 0 ==> asked(fits, r@, true),
{
    fit(line, Keep::Tail, sliver, guess, fits)
}

} // verus!
