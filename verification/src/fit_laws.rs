//! What always holds of a line that was shortened.

use vstd::prelude::*;
use crate::fit;
use crate::fit::Keep;

verus! {

/// A cut line is one end of the line and an ellipsis: as many characters as are kept, in their
/// order, and the ellipsis where the line was cut.
pub proof fn a_cut_line_is_one_end(line: Seq<char>, kept: nat)
    requires
        kept <= line.len(),
    ensures
        ({
            let head = fit::cut(line, kept, Keep::Head);
            let tail = fit::cut(line, kept, Keep::Tail);
            &&& head.len() == kept + 1
            &&& tail.len() == kept + 1
            &&& head[kept as int] == '…'
            &&& tail[0] == '…'
            &&& forall|i: int| 0 <= i < kept ==> #[trigger] head[i] == line[i]
            &&& forall|i: int|
                0 <= i < kept ==> tail[i + 1] == #[trigger] line[line.len() - kept + i]
        }),
{
    let tail = fit::cut(line, kept, Keep::Tail);
    assert forall|i: int| 0 <= i < kept implies tail[i + 1] == #[trigger] line[line.len() - kept
        + i] by {
        assert(line.skip(line.len() - kept)[i] == line[line.len() - kept + i]);
    }
}

/// The first try keeps as many characters as were guessed, but never all of them; each further
/// one keeps four fifths of what the one before it kept, rounded down.
pub proof fn each_try_keeps_less(len: nat, guess: nat, i: nat)
    ensures
        fit::kept_at(len, guess, 0) == (if len == 0 {
            0
        } else if guess < len {
            guess
        } else {
            (len - 1) as nat
        }),
        ({
            let now = fit::kept_at(len, guess, i);
            let then = fit::kept_at(len, guess, i + 1);
            &&& 5 * then <= 4 * now < 5 * (then + 1)
            &&& len > 0 ==> now < len
            &&& len == 0 ==> now == 0
        }),
    decreases i,
{
    if i > 0 {
        each_try_keeps_less(len, guess, (i - 1) as nat);
    }
}

/// A line that fits is drawn as it is, one in a sliver not at all, and one that does not fit is
/// not drawn whole: it is the first of at most four tries that fits, or else a bare ellipsis, or
/// nothing. This holds whatever answers are given, as long as each question has one.
pub proof fn a_line_is_drawn_as_it_fits<F: Fn(&str) -> bool>(
    fits: F,
    width: spec_fn(Seq<char>) -> bool,
    line: Seq<char>,
    keep: Keep,
    sliver: bool,
    guess: nat,
    r: Seq<char>,
    i: nat,
)
    requires
        fit::fitted(fits, line, keep, sliver, guess, r),
        forall|s: &str, answer: bool|
            #[trigger] call_ensures(fits, (s,), answer) ==> answer == width(s@),
    ensures
        sliver ==> r.len() == 0,
        !sliver && width(line) ==> r == line,
        !sliver && r.len() > 0 ==> width(r),
        !sliver && !width(line) && i < 4 && fit::kept_at(line.len(), guess, i) > 0 && width(
            fit::cut(line, fit::kept_at(line.len(), guess, i), keep),
        ) && (forall|j: nat|
            j < i ==> #[trigger] fit::kept_at(line.len(), guess, j) > 0 && !width(
                fit::cut(line, fit::kept_at(line.len(), guess, j), keep),
            )) ==> r == fit::cut(line, fit::kept_at(line.len(), guess, i), keep),
        !sliver && !width(line) && (forall|j: nat|
            j < 4 ==> #[trigger] fit::kept_at(line.len(), guess, j) > 0 ==> !width(
                fit::cut(line, fit::kept_at(line.len(), guess, j), keep),
            )) ==> r == (if width(seq!['…']) {
            seq!['…']
        } else {
            seq![]
        }),
{
    if !sliver && !width(line) {
        assert(fit::shortened(fits, line, keep, guess, r));
        let n = choose|n: nat|
            n <= fit::TRIES && #[trigger] fit::failed_before(fits, line, keep, guess, n) && (if n
                < fit::TRIES && fit::kept_at(line.len(), guess, n) > 0 {
                &&& r == fit::cut(line, fit::kept_at(line.len(), guess, n), keep)
                &&& fit::asked(fits, r, true)
            } else {
                ||| r == seq!['…'] && fit::asked(fits, r, true)
                ||| r.len() == 0 && fit::asked(fits, seq!['…'], false)
            });
        assert forall|j: nat| j < n implies #[trigger] fit::kept_at(line.len(), guess, j) > 0
            && !width(fit::cut(line, fit::kept_at(line.len(), guess, j), keep)) by {
            assert(fit::asked(
                fits,
                fit::cut(line, fit::kept_at(line.len(), guess, j), keep),
                false,
            ));
        }
        if i < 4 && fit::kept_at(line.len(), guess, i) > 0 && width(
            fit::cut(line, fit::kept_at(line.len(), guess, i), keep),
        ) && (forall|j: nat|
            j < i ==> #[trigger] fit::kept_at(line.len(), guess, j) > 0 && !width(
                fit::cut(line, fit::kept_at(line.len(), guess, j), keep),
            )) {
            assert(n == i) by {
                if n < i {
                    assert(fit::kept_at(line.len(), guess, n) > 0);
                }
                if i < n {
                    assert(!width(fit::cut(line, fit::kept_at(line.len(), guess, i), keep)));
                }
            }
        }
        if (forall|j: nat|
            j < 4 ==> #[trigger] fit::kept_at(line.len(), guess, j) > 0 ==> !width(
                fit::cut(line, fit::kept_at(line.len(), guess, j), keep),
            )) {
            if n < 4 && fit::kept_at(line.len(), guess, n) > 0 {
                assert(!width(fit::cut(line, fit::kept_at(line.len(), guess, n), keep)));
            }
            if r.len() == 0 {
                assert(r =~= seq![]);
            }
        }
    }
}

} // verus!
