//! Consistency of a candidate word with one feedback record.
//!
//! From positional feedback alone the matcher reconstructs what the
//! evaluator's duplicate handling implies about letter counts: `Correct`
//! positions pin letters exactly, every `Correct` or `WrongPlace` occurrence
//! of a letter raises that letter's minimum count in the solution, and a
//! `WrongPlace` position excludes its letter there. A `Missing` mark on a
//! letter's sole occurrence excludes the letter everywhere; on a repeated
//! letter it only says there are no copies beyond the marked ones, so it
//! excludes the letter just at the guess's own positions for that letter
//! that are not proven `Correct`. That keeps the true solution consistent
//! with its own feedback on every input.

use vstd::prelude::*;

use crate::feedback::GuessResult;
use crate::feedback::GuessState;
use crate::feedback::count_char;
use crate::feedback::count_upto;
use crate::feedback::evaluate_spec;
use crate::feedback::lemma_count_pos;
use crate::feedback::lemma_evaluate_counts;
use crate::feedback::lemma_evaluate_shape;
use crate::feedback::lemma_marked_bounds;
use crate::feedback::lemma_marked_pos;
use crate::feedback::marked_upto;
use crate::feedback::required_count;

verus! {

/// Whether the record with guess `g` and feedback `r` forbids the letter
/// `c` at position `j` of a candidate word: either `c` was tried exactly
/// there and came back `WrongPlace`; or some occurrence of `c` in the
/// guess is `Missing`, and either that was `c`'s only occurrence (then `c`
/// is absent and forbidden everywhere) or position `j` is an occurrence of
/// `c` in the guess not proven `Correct` (a repeated letter's `Missing`
/// mark caps its copies without excluding it elsewhere).
pub open spec fn excluded(g: Seq<char>, r: Seq<GuessState>, j: int, c: char) -> bool {
    ||| (g[j] == c && r[j] == GuessState::WrongPlace)
    ||| ((exists|p: int|
        0 <= p < g.len() && #[trigger] g[p] == c && r[p] == GuessState::Missing) && (count_char(
        g,
        c,
    ) == 1 || (g[j] == c && r[j] != GuessState::Correct)))
}

/// Whether the candidate word `w` could still be the hidden solution given
/// the record with guess `g` and feedback `r`: `Correct` positions match,
/// no position of `w` holds an excluded letter, and `w` carries at least
/// the minimum count of every letter that the record proves present.
pub open spec fn is_consistent_spec(w: Seq<char>, g: Seq<char>, r: Seq<GuessState>) -> bool {
    &&& (forall|i: int|
        0 <= i < r.len() && #[trigger] r[i] == GuessState::Correct ==> w[i] == g[i])
    &&& (forall|i: int| 0 <= i < w.len() ==> !excluded(g, r, i, #[trigger] w[i]))
    &&& (forall|c: char| #[trigger] count_char(w, c) >= required_count(g, r, c))
}

/// The true solution is always consistent with the feedback its own
/// guesses earn: no mark a guess receives against a solution can exclude
/// that solution.
pub proof fn lemma_solution_consistent(s: Seq<char>, g: Seq<char>)
    requires
        s.len() == g.len(),
    ensures
        is_consistent_spec(s, g, evaluate_spec(s, g)),
{
    let r = evaluate_spec(s, g);
    lemma_evaluate_shape(s, g);
    lemma_evaluate_counts(s, g);
    assert forall|i: int| 0 <= i < s.len() implies !excluded(g, r, i, #[trigger] s[i]) by {
        let c = s[i];
        if g[i] == c && r[i] == GuessState::WrongPlace {
            assert(r[i] == GuessState::Correct);
            assert(false);
        }
        if exists|p: int|
            0 <= p < g.len() && #[trigger] g[p] == c && r[p] == GuessState::Missing {
            let p = choose|p: int|
                0 <= p < g.len() && #[trigger] g[p] == c && r[p] == GuessState::Missing;
            lemma_marked_bounds(g, r, c, g.len() as int);
            assert(required_count(g, r, c) < count_char(g, c));
            if count_char(g, c) == 1 {
                // the letter's only occurrence is Missing, so the feedback
                // proves no copy at all -- yet the solution shows one
                assert(required_count(g, r, c) == 0);
                assert(required_count(g, evaluate_spec(s, g), c) == if count_char(g, c)
                    <= count_char(s, c) {
                    count_char(g, c)
                } else {
                    count_char(s, c)
                });
                lemma_count_pos(s, c, i);
                assert(false);
            }
            if g[i] == c && r[i] != GuessState::Correct {
                // an occurrence of the letter at a position where the
                // solution holds it too is an exact match
                assert(r[i] == GuessState::Correct);
                assert(false);
            }
        }
        assert(!excluded(g, r, i, c));
    }
    assert forall|c: char| #[trigger] count_char(s, c) >= required_count(g, r, c) by {
        assert(required_count(g, evaluate_spec(s, g), c) == if count_char(g, c) <= count_char(
            s,
            c,
        ) {
            count_char(g, c)
        } else {
            count_char(s, c)
        });
    }
    assert(is_consistent_spec(s, g, r));
}

/// Whether some occurrence of `c` in the guess of `state` is marked
/// `Missing`.
fn has_missing(state: &GuessResult, c: char) -> (b: bool)
    requires
        state.wf(),
    ensures
        b == exists|p: int|
            0 <= p < state.guess@.len() && #[trigger] state.guess@[p] == c && state.result@[p]
                == GuessState::Missing,
{
    let mut p: usize = 0;
    while p < 5
        invariant
            state.wf(),
            p <= 5,
            forall|q: int|
                0 <= q < p ==> !(#[trigger] state.guess@[q] == c && state.result@[q]
                    == GuessState::Missing),
        decreases 5 - p,
    {
        if state.guess.as_str().get_char(p) == c && state.result[p] == GuessState::Missing {
            return true;
        }
        p += 1;
    }
    false
}

/// Counts the occurrences of `c` in `word`.
fn count_char_exec(word: &str, c: char) -> (n: usize)
    ensures
        n as nat == count_char(word@, c),
{
    let len = word.unicode_len();
    let mut i: usize = 0;
    let mut n: usize = 0;
    while i < len
        invariant
            i <= len,
            len == word@.len(),
            n as nat == count_upto(word@, c, i as int),
            n <= i,
        decreases len - i,
    {
        if word.get_char(i) == c {
            n += 1;
        }
        i += 1;
        proof {
            assert(count_upto(word@, c, i as int) == count_upto(word@, c, i as int - 1) + (
            if word@[i as int - 1] == c {
                1nat
            } else {
                0nat
            }));
        }
    }
    n
}

/// Counts the positions of the guess of `state` that hold `c` and are
/// marked `Correct` or `WrongPlace`.
fn required_count_exec(state: &GuessResult, c: char) -> (n: usize)
    requires
        state.wf(),
    ensures
        n as nat == required_count(state.guess@, state.result@, c),
{
    let mut p: usize = 0;
    let mut n: usize = 0;
    while p < 5
        invariant
            state.wf(),
            p <= 5,
            n as nat == marked_upto(state.guess@, state.result@, c, p as int),
            n <= p,
        decreases 5 - p,
    {
        if state.guess.as_str().get_char(p) == c && !(state.result[p] == GuessState::Missing) {
            n += 1;
        }
        p += 1;
        proof {
            assert(marked_upto(state.guess@, state.result@, c, p as int) == marked_upto(
                state.guess@,
                state.result@,
                c,
                p as int - 1,
            ) + (if state.guess@[p as int - 1] == c && state.result@[p as int - 1]
                != GuessState::Missing {
                1nat
            } else {
                0nat
            }));
        }
    }
    n
}

/// Decides whether `word` could still be the hidden solution given one
/// feedback record `state`.
pub fn word_matches_state(word: &str, state: &GuessResult) -> (r: bool)
    requires
        word@.len() == 5,
        state.wf(),
    ensures
        r == is_consistent_spec(word@, state.guess@, state.result@),
{
    let mut i: usize = 0;
    while i < 5
        invariant
            word@.len() == 5,
            state.wf(),
            i <= 5,
            forall|k: int|
                0 <= k < i && #[trigger] state.result@[k] == GuessState::Correct ==> word@[k]
                    == state.guess@[k],
        decreases 5 - i,
    {
        if state.result[i] == GuessState::Correct && state.guess.as_str().get_char(i)
            != word.get_char(i) {
            proof {
                assert(!is_consistent_spec(word@, state.guess@, state.result@));
            }
            return false;
        }
        i += 1;
    }

    let mut i: usize = 0;
    while i < 5
        invariant
            word@.len() == 5,
            state.wf(),
            i <= 5,
            forall|k: int| 0 <= k < i ==> !excluded(state.guess@, state.result@, k, #[trigger] word@[k]),
            forall|k: int|
                0 <= k < 5 && #[trigger] state.result@[k] == GuessState::Correct ==> word@[k]
                    == state.guess@[k],
        decreases 5 - i,
    {
        let wc = word.get_char(i);
        let gi = state.guess.as_str().get_char(i);
        if gi == wc && state.result[i] == GuessState::WrongPlace {
            proof {
                assert(excluded(state.guess@, state.result@, i as int, wc));
                assert(!is_consistent_spec(word@, state.guess@, state.result@));
            }
            return false;
        }
        if has_missing(state, wc) {
            if count_char_exec(state.guess.as_str(), wc) == 1 {
                proof {
                    assert(excluded(state.guess@, state.result@, i as int, wc));
                    assert(!is_consistent_spec(word@, state.guess@, state.result@));
                }
                return false;
            }
            if gi == wc && !(state.result[i] == GuessState::Correct) {
                proof {
                    assert(excluded(state.guess@, state.result@, i as int, wc));
                    assert(!is_consistent_spec(word@, state.guess@, state.result@));
                }
                return false;
            }
        }
        proof {
            assert(!excluded(state.guess@, state.result@, i as int, wc));
        }
        i += 1;
    }

    let mut p: usize = 0;
    while p < 5
        invariant
            word@.len() == 5,
            state.wf(),
            p <= 5,
            forall|q: int|
                0 <= q < p ==> count_char(word@, #[trigger] state.guess@[q]) >= required_count(
                    state.guess@,
                    state.result@,
                    state.guess@[q],
                ),
            forall|k: int| 0 <= k < 5 ==> !excluded(state.guess@, state.result@, k, #[trigger] word@[k]),
            forall|k: int|
                0 <= k < 5 && #[trigger] state.result@[k] == GuessState::Correct ==> word@[k]
                    == state.guess@[k],
        decreases 5 - p,
    {
        let c = state.guess.as_str().get_char(p);
        let have = count_char_exec(word, c);
        let need = required_count_exec(state, c);
        if have < need {
            proof {
                assert(count_char(word@, c) < required_count(state.guess@, state.result@, c));
                assert(!is_consistent_spec(word@, state.guess@, state.result@));
            }
            return false;
        }
        p += 1;
    }

    proof {
        assert forall|c: char| #[trigger]
            count_char(word@, c) >= required_count(state.guess@, state.result@, c) by {
            if required_count(state.guess@, state.result@, c) > 0 {
                lemma_marked_pos(state.guess@, state.result@, c, 5);
                let p = choose|p: int|
                    0 <= p < 5 && #[trigger] state.guess@[p] == c && state.result@[p]
                        != GuessState::Missing;
                assert(count_char(word@, state.guess@[p]) >= required_count(
                    state.guess@,
                    state.result@,
                    state.guess@[p],
                ));
            }
        }
        assert(is_consistent_spec(word@, state.guess@, state.result@));
    }
    true
}

} // verus!
