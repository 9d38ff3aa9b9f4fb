//! Per-position feedback for a guess against a hidden solution.
//!
//! `evaluate_guess` compares a guess word against a solution word and marks
//! every position `Correct`, `WrongPlace` or `Missing`, following the
//! standard two-pass rule that handles duplicate letters: exact matches
//! consume their solution position first, and only then is each remaining
//! guess letter matched against the leftmost unconsumed occurrence in the
//! solution.

use vstd::prelude::*;

verus! {

/// The outcome recorded for one letter position of a guess.
#[derive(Copy, Clone, Debug, PartialEq, Eq, Structural)]
pub enum GuessState {
    /// The letter is absent, or every occurrence of it in the solution is
    /// already accounted for by other positions of the guess.
    Missing,
    /// The letter occurs in the solution, but not at this position.
    WrongPlace,
    /// The letter occurs in the solution at exactly this position.
    Correct,
}

/// One submitted guess together with the feedback its five positions earned.
#[derive(Debug)]
pub struct GuessResult {
    pub result: [GuessState; 5],
    pub guess: String,
}

impl GuessResult {
    /// A record is meaningful only for a five-letter guess.
    pub open spec fn wf(self) -> bool {
        self.guess@.len() == 5
    }
}

/// How many of the first `n` characters of `w` equal `c`.
pub open spec fn count_upto(w: Seq<char>, c: char, n: int) -> nat
    decreases n,
{
    if n <= 0 || n > w.len() {
        0
    } else {
        count_upto(w, c, n - 1) + (if w[n - 1] == c {
            1nat
        } else {
            0nat
        })
    }
}

/// How many occurrences of `c` the word `w` contains.
pub open spec fn count_char(w: Seq<char>, c: char) -> nat {
    count_upto(w, c, w.len() as int)
}

/// Counting the first `n` characters sees every occurrence below `n`.
proof fn lemma_count_pos_upto(w: Seq<char>, c: char, i: int, n: int)
    requires
        0 <= i < n <= w.len(),
        w[i] == c,
    ensures
        count_upto(w, c, n) > 0,
    decreases n,
{
    if i < n - 1 {
        lemma_count_pos_upto(w, c, i, n - 1);
    }
}

/// A word contains every letter it shows: an occurrence makes the count
/// positive.
pub proof fn lemma_count_pos(w: Seq<char>, c: char, i: int)
    requires
        0 <= i < w.len(),
        w[i] == c,
    ensures
        count_char(w, c) > 0,
{
    lemma_count_pos_upto(w, c, i, w.len() as int);
}

/// How many of the first `n` positions of the guess `g` hold the letter `c`
/// and are marked other than `Missing` in `r`.
pub open spec fn marked_upto(g: Seq<char>, r: Seq<GuessState>, c: char, n: int) -> nat
    decreases n,
{
    if n <= 0 || n > g.len() || n > r.len() {
        0
    } else {
        marked_upto(g, r, c, n - 1) + (if g[n - 1] == c && r[n - 1] != GuessState::Missing {
            1nat
        } else {
            0nat
        })
    }
}

/// How many positions of the guess `g` hold the letter `c` and are marked
/// `Correct` or `WrongPlace` in `r`: the number of copies of `c` that the
/// feedback proves present in the solution.
pub open spec fn required_count(g: Seq<char>, r: Seq<GuessState>, c: char) -> nat {
    marked_upto(g, r, c, g.len() as int)
}

/// How many of the first `n` positions of the solution `s` hold the letter
/// `c` and are already consumed according to `seen`.
spec fn seen_upto(s: Seq<char>, seen: Seq<bool>, c: char, n: int) -> nat
    decreases n,
{
    if n <= 0 || n > s.len() || n > seen.len() {
        0
    } else {
        seen_upto(s, seen, c, n - 1) + (if s[n - 1] == c && seen[n - 1] {
            1nat
        } else {
            0nat
        })
    }
}

/// How many occurrences of `c` in the solution `s` are consumed according
/// to `seen`.
spec fn seen_count(s: Seq<char>, seen: Seq<bool>, c: char) -> nat {
    seen_upto(s, seen, c, s.len() as int)
}

/// Consumed occurrences of a letter never outnumber its occurrences; they
/// reach that number exactly when every occurrence is consumed.
proof fn lemma_seen_bounds(s: Seq<char>, seen: Seq<bool>, c: char, n: int)
    requires
        seen.len() == s.len(),
        n <= s.len(),
    ensures
        seen_upto(s, seen, c, n) <= count_upto(s, c, n),
        (forall|j: int| 0 <= j < n ==> (#[trigger] s[j] == c ==> seen[j])) ==> seen_upto(
            s,
            seen,
            c,
            n,
        ) == count_upto(s, c, n),
        seen_upto(s, seen, c, n) == count_upto(s, c, n) ==> (forall|j: int|
            0 <= j < n ==> (#[trigger] s[j] == c ==> seen[j])),
    decreases n,
{
    if n > 0 {
        lemma_seen_bounds(s, seen, c, n - 1);
    }
}

/// Consuming one more position raises the consumed count of its letter by
/// one and leaves every other letter's count unchanged.
proof fn lemma_seen_update(s: Seq<char>, seen: Seq<bool>, c: char, j: int, n: int)
    requires
        seen.len() == s.len(),
        0 <= j < s.len(),
        n <= s.len(),
    ensures
        seen_upto(s, seen.update(j, true), c, n) == seen_upto(s, seen, c, n) + (if j < n && s[j]
            == c && !seen[j] {
            1nat
        } else {
            0nat
        }),
    decreases n,
{
    if n > 0 {
        lemma_seen_update(s, seen, c, j, n - 1);
    }
}

/// Turning one position's mark into `WrongPlace` raises the minimum count
/// of its letter by one when the mark was `Missing`, and changes no other
/// letter's count.
proof fn lemma_marked_update(g: Seq<char>, r: Seq<GuessState>, c: char, i: int, n: int)
    requires
        r.len() == g.len(),
        0 <= i < g.len(),
        n <= g.len(),
    ensures
        marked_upto(g, r.update(i, GuessState::WrongPlace), c, n) == marked_upto(g, r, c, n) + (
        if i < n && g[i] == c && r[i] == GuessState::Missing {
            1nat
        } else {
            0nat
        }),
    decreases n,
{
    if n > 0 {
        lemma_marked_update(g, r, c, i, n - 1);
    }
}

/// Marked occurrences of a letter never outnumber its occurrences in the
/// guess; they reach that number exactly when no occurrence is `Missing`.
pub proof fn lemma_marked_bounds(g: Seq<char>, r: Seq<GuessState>, c: char, n: int)
    requires
        r.len() == g.len(),
        n <= g.len(),
    ensures
        marked_upto(g, r, c, n) <= count_upto(g, c, n),
        (forall|p: int| 0 <= p < n ==> (#[trigger] g[p] == c ==> r[p] != GuessState::Missing))
            ==> marked_upto(g, r, c, n) == count_upto(g, c, n),
        (exists|p: int| 0 <= p < n && #[trigger] g[p] == c && r[p] == GuessState::Missing)
            ==> marked_upto(g, r, c, n) < count_upto(g, c, n),
    decreases n,
{
    if n > 0 {
        lemma_marked_bounds(g, r, c, n - 1);
        if exists|p: int| 0 <= p < n && #[trigger] g[p] == c && r[p] == GuessState::Missing {
            let p = choose|p: int|
                0 <= p < n && #[trigger] g[p] == c && r[p] == GuessState::Missing;
            if p < n - 1 {
                assert(marked_upto(g, r, c, n - 1) < count_upto(g, c, n - 1));
            }
        }
    }
}

/// After the first pass, the consumed occurrences and the marked
/// occurrences of every letter agree: both count the exact matches.
proof fn lemma_pass1_counts(s: Seq<char>, g: Seq<char>, c: char, n: int)
    requires
        s.len() == g.len(),
        n <= s.len(),
    ensures
        seen_upto(s, pass1_seen(s, g), c, n) == marked_upto(g, pass1_result(s, g), c, n),
    decreases n,
{
    if n > 0 {
        lemma_pass1_counts(s, g, c, n - 1);
    }
}

/// What the leftmost-unconsumed search returns: a position of the letter
/// that is not consumed, or the length when every occurrence from `k` on is
/// consumed.
proof fn lemma_first_unseen_props(s: Seq<char>, seen: Seq<bool>, c: char, k: int)
    requires
        seen.len() == s.len(),
        0 <= k,
    ensures
        first_unseen_from(s, seen, c, k) <= s.len(),
        first_unseen_from(s, seen, c, k) == s.len() ==> (forall|m: int|
            k <= m < s.len() ==> (#[trigger] s[m] == c ==> seen[m])),
        first_unseen_from(s, seen, c, k) < s.len() ==> {
            let j = first_unseen_from(s, seen, c, k);
            k <= j && s[j] == c && !seen[j]
        },
    decreases s.len() - k,
{
    if k < s.len() {
        if !(s[k] == c && !seen[k]) {
            lemma_first_unseen_props(s, seen, c, k + 1);
        }
    }
}

/// A positive minimum count for a letter can only come from a position of
/// the guess that holds that letter and is marked.
pub proof fn lemma_marked_pos(g: Seq<char>, r: Seq<GuessState>, c: char, n: int)
    ensures
        marked_upto(g, r, c, n) > 0 ==> exists|p: int|
            0 <= p < n && #[trigger] g[p] == c && r[p] != GuessState::Missing,
    decreases n,
{
    if marked_upto(g, r, c, n) > 0 {
        if g[n - 1] == c && r[n - 1] != GuessState::Missing {
            assert(0 <= n - 1 < n && g[n - 1] == c && r[n - 1] != GuessState::Missing);
        } else {
            lemma_marked_pos(g, r, c, n - 1);
        }
    }
}

/// The feedback of the first pass alone: `Correct` exactly where guess and
/// solution agree, `Missing` everywhere else.
pub open spec fn pass1_result(s: Seq<char>, g: Seq<char>) -> Seq<GuessState> {
    Seq::new(g.len(), |i: int| if s[i] == g[i] {
        GuessState::Correct
    } else {
        GuessState::Missing
    })
}

/// Which solution positions the first pass consumes: exactly the exact
/// matches.
pub open spec fn pass1_seen(s: Seq<char>, g: Seq<char>) -> Seq<bool> {
    Seq::new(s.len(), |j: int| s[j] == g[j])
}

/// The leftmost position `j >= k` of `s` that holds `c` and is not yet
/// consumed, or `s.len()` if there is none.
pub open spec fn first_unseen_from(s: Seq<char>, seen: Seq<bool>, c: char, k: int) -> int
    decreases s.len() - k,
{
    if k < 0 || k >= s.len() {
        s.len() as int
    } else if s[k] == c && !seen[k] {
        k
    } else {
        first_unseen_from(s, seen, c, k + 1)
    }
}

/// The second pass from position `i` on: each position not already
/// `Correct` whose letter still has an unconsumed occurrence in the
/// solution is marked `WrongPlace` and consumes the leftmost such
/// occurrence; the rest stay `Missing`.
pub open spec fn pass2(
    s: Seq<char>,
    g: Seq<char>,
    res: Seq<GuessState>,
    seen: Seq<bool>,
    i: int,
) -> (Seq<GuessState>, Seq<bool>)
    decreases g.len() - i,
{
    if i < 0 || i >= g.len() {
        (res, seen)
    } else {
        let j = first_unseen_from(s, seen, g[i], 0);
        if res[i] != GuessState::Correct && j < s.len() {
            pass2(s, g, res.update(i, GuessState::WrongPlace), seen.update(j, true), i + 1)
        } else {
            pass2(s, g, res, seen, i + 1)
        }
    }
}

/// The feedback that comparing `g` against the solution `s` earns, by the
/// two-pass duplicate-aware rule.
pub open spec fn evaluate_spec(s: Seq<char>, g: Seq<char>) -> Seq<GuessState> {
    pass2(s, g, pass1_result(s, g), pass1_seen(s, g), 0).0
}

/// The invariant that the second pass maintains from position `i` on, and
/// therefore leaves true of its final state: every letter's consumed count
/// matches its marked count, a processed `Missing` mark means its letter is
/// fully consumed, `Correct` marks are exactly the exact matches, and the
/// positions not yet processed still carry first-pass marks.
proof fn lemma_pass2_main(
    s: Seq<char>,
    g: Seq<char>,
    res: Seq<GuessState>,
    seen: Seq<bool>,
    i: int,
)
    requires
        s.len() == g.len(),
        res.len() == g.len(),
        seen.len() == s.len(),
        0 <= i <= g.len(),
        forall|c: char| seen_count(s, seen, c) == #[trigger] required_count(g, res, c),
        forall|p: int|
            0 <= p < i && #[trigger] res[p] == GuessState::Missing ==> seen_count(s, seen, g[p])
                == count_char(s, g[p]),
        forall|p: int|
            0 <= p < g.len() ==> ((#[trigger] res[p]) == GuessState::Correct <==> s[p] == g[p]),
        forall|p: int|
            i <= p < g.len() ==> (#[trigger] res[p]) == GuessState::Correct || res[p]
                == GuessState::Missing,
    ensures
        pass2(s, g, res, seen, i).0.len() == g.len(),
        pass2(s, g, res, seen, i).1.len() == s.len(),
        forall|c: char|
            seen_count(s, pass2(s, g, res, seen, i).1, c) == #[trigger] required_count(
                g,
                pass2(s, g, res, seen, i).0,
                c,
            ),
        forall|p: int|
            0 <= p < g.len() && #[trigger] pass2(s, g, res, seen, i).0[p] == GuessState::Missing
                ==> seen_count(s, pass2(s, g, res, seen, i).1, g[p]) == count_char(s, g[p]),
        forall|p: int|
            0 <= p < g.len() ==> ((#[trigger] pass2(s, g, res, seen, i).0[p])
                == GuessState::Correct <==> s[p] == g[p]),
    decreases g.len() - i,
{
    if i < g.len() {
        let c0 = g[i];
        let j = first_unseen_from(s, seen, c0, 0);
        lemma_first_unseen_props(s, seen, c0, 0);
        if res[i] != GuessState::Correct && j < s.len() {
            let res2 = res.update(i, GuessState::WrongPlace);
            let seen2 = seen.update(j, true);
            assert(s[j] == c0 && !seen[j]);
            assert(res[i] == GuessState::Missing);
            assert forall|c: char| seen_count(s, seen2, c) == #[trigger] required_count(
                g,
                res2,
                c,
            ) by {
                lemma_seen_update(s, seen, c, j, s.len() as int);
                lemma_marked_update(g, res, c, i, g.len() as int);
                assert(seen_count(s, seen, c) == required_count(g, res, c));
            }
            assert forall|p: int|
                0 <= p < i + 1 && #[trigger] res2[p] == GuessState::Missing implies seen_count(
                s,
                seen2,
                g[p],
            ) == count_char(s, g[p]) by {
                assert(p < i);
                assert(res[p] == GuessState::Missing);
                assert(seen_count(s, seen, g[p]) == count_char(s, g[p]));
                if g[p] == c0 {
                    lemma_seen_bounds(s, seen, c0, s.len() as int);
                    assert(seen[j]);
                    assert(false);
                } else {
                    lemma_seen_update(s, seen, g[p], j, s.len() as int);
                }
            }
            assert forall|p: int| 0 <= p < g.len() implies ((#[trigger] res2[p])
                == GuessState::Correct <==> s[p] == g[p]) by {
                if p != i {
                    assert(res2[p] == res[p]);
                }
            }
            lemma_pass2_main(s, g, res2, seen2, i + 1);
            assert(pass2(s, g, res, seen, i) == pass2(s, g, res2, seen2, i + 1));
        } else {
            if res[i] != GuessState::Correct {
                assert(res[i] == GuessState::Missing);
                assert(j == s.len());
                lemma_seen_bounds(s, seen, c0, s.len() as int);
                assert(seen_count(s, seen, c0) == count_char(s, c0));
            }
            lemma_pass2_main(s, g, res, seen, i + 1);
            assert(pass2(s, g, res, seen, i) == pass2(s, g, res, seen, i + 1));
        }
    }
}

/// The two passes start from a state that satisfies the second pass's
/// invariant.
proof fn lemma_pass1_state(s: Seq<char>, g: Seq<char>)
    requires
        s.len() == g.len(),
    ensures
        forall|c: char|
            seen_count(s, pass1_seen(s, g), c) == #[trigger] required_count(
                g,
                pass1_result(s, g),
                c,
            ),
        forall|p: int|
            0 <= p < g.len() ==> ((#[trigger] pass1_result(s, g)[p]) == GuessState::Correct
                <==> s[p] == g[p]),
        forall|p: int|
            0 <= p < g.len() ==> (#[trigger] pass1_result(s, g)[p]) == GuessState::Correct
                || pass1_result(s, g)[p] == GuessState::Missing,
        pass1_result(s, g).len() == g.len(),
        pass1_seen(s, g).len() == s.len(),
{
    assert forall|c: char|
        seen_count(s, pass1_seen(s, g), c) == #[trigger] required_count(
            g,
            pass1_result(s, g),
            c,
        ) by {
        lemma_pass1_counts(s, g, c, s.len() as int);
    }
}

/// A position of the feedback is `Correct` exactly where guess and
/// solution hold the same letter.
pub proof fn lemma_evaluate_shape(s: Seq<char>, g: Seq<char>)
    requires
        s.len() == g.len(),
    ensures
        evaluate_spec(s, g).len() == g.len(),
        forall|p: int|
            0 <= p < g.len() ==> ((#[trigger] evaluate_spec(s, g)[p]) == GuessState::Correct
                <==> s[p] == g[p]),
{
    lemma_pass1_state(s, g);
    lemma_pass2_main(s, g, pass1_result(s, g), pass1_seen(s, g), 0);
}

/// For every letter, the feedback marks exactly as many positions
/// `Correct` or `WrongPlace` as the letter occurs in both words: the
/// smaller of its counts in the guess and in the solution.
pub proof fn lemma_evaluate_counts(s: Seq<char>, g: Seq<char>)
    requires
        s.len() == g.len(),
    ensures
        forall|c: char|
            #[trigger] required_count(g, evaluate_spec(s, g), c) == if count_char(g, c)
                <= count_char(s, c) {
                count_char(g, c)
            } else {
                count_char(s, c)
            },
{
    lemma_pass1_state(s, g);
    lemma_pass2_main(s, g, pass1_result(s, g), pass1_seen(s, g), 0);
    let fin = pass2(s, g, pass1_result(s, g), pass1_seen(s, g), 0);
    assert forall|c: char|
        #[trigger] required_count(g, evaluate_spec(s, g), c) == if count_char(g, c)
            <= count_char(s, c) {
            count_char(g, c)
        } else {
            count_char(s, c)
        } by {
        let req = required_count(g, fin.0, c);
        lemma_marked_bounds(g, fin.0, c, g.len() as int);
        lemma_seen_bounds(s, fin.1, c, s.len() as int);
        assert(seen_count(s, fin.1, c) == req);
        assert(req <= count_char(s, c));
        assert(req <= count_char(g, c));
        if req < count_char(g, c) {
            // some occurrence of c in the guess is Missing, so every
            // occurrence of c in the solution is consumed
            assert(!(forall|p: int|
                0 <= p < g.len() ==> (#[trigger] g[p] == c ==> fin.0[p]
                    != GuessState::Missing)));
            let p = choose|p: int|
                0 <= p < g.len() && #[trigger] g[p] == c && fin.0[p] == GuessState::Missing;
            assert(seen_count(s, fin.1, g[p]) == count_char(s, g[p]));
            assert(req == count_char(s, c));
        }
    }
}

/// A word compared against itself earns `Correct` at every position.
pub proof fn lemma_self_feedback(s: Seq<char>)
    ensures
        evaluate_spec(s, s).len() == s.len(),
        forall|p: int| 0 <= p < s.len() ==> (#[trigger] evaluate_spec(s, s)[p]) == GuessState::Correct,
{
    lemma_evaluate_shape(s, s);
}

/// Compares `guess` against the hidden `solution` and returns the feedback
/// record for the guess, marking each position by the two-pass rule: exact
/// matches first, then each remaining letter against the leftmost occurrence
/// in the solution not yet accounted for.
pub fn evaluate_guess(solution: &str, guess: &str) -> (res: GuessResult)
    requires
        solution@.len() == 5,
        guess@.len() == 5,
    ensures
        res.guess@ == guess@,
        res.wf(),
        res.result@ == evaluate_spec(solution@, guess@),
{
    let mut result: [GuessState; 5] = [GuessState::Missing; 5];
    let mut seen: [bool; 5] = [false; 5];

    let mut i: usize = 0;
    while i < 5
        invariant
            solution@.len() == 5,
            guess@.len() == 5,
            i <= 5,
            forall|j: int| 0 <= j < i ==> result@[j] == pass1_result(solution@, guess@)[j],
            forall|j: int| 0 <= j < i ==> seen@[j] == pass1_seen(solution@, guess@)[j],
            forall|j: int|
                i <= j < 5 ==> result@[j] == GuessState::Missing && seen@[j] == false,
        decreases 5 - i,
    {
        if solution.get_char(i) == guess.get_char(i) {
            result[i] = GuessState::Correct;
            seen[i] = true;
        }
        i += 1;
    }
    proof {
        assert(result@ =~= pass1_result(solution@, guess@));
        assert(seen@ =~= pass1_seen(solution@, guess@));
    }

    let ghost res0: Seq<GuessState> = result@;
    let ghost seen0: Seq<bool> = seen@;

    let mut i: usize = 0;
    while i < 5
        invariant
            solution@.len() == 5,
            guess@.len() == 5,
            i <= 5,
            pass2(solution@, guess@, result@, seen@, i as int) == pass2(
                solution@,
                guess@,
                res0,
                seen0,
                0,
            ),
        decreases 5 - i,
    {
        let ghost res_entry: Seq<GuessState> = result@;
        let ghost seen_entry: Seq<bool> = seen@;
        let c = guess.get_char(i);
        if result[i] != GuessState::Correct {
            let mut j: usize = 0;
            let mut found: bool = false;
            while !found && j < 5
                invariant
                    solution@.len() == 5,
                    seen@ == seen_entry,
                    j <= 5,
                    found ==> j < 5 && solution@[j as int] == c && !seen@[j as int]
                        && first_unseen_from(solution@, seen@, c, 0) == j as int,
                    !found ==> first_unseen_from(solution@, seen@, c, j as int)
                        == first_unseen_from(solution@, seen@, c, 0),
                decreases 5 - j + (if found {
                    0int
                } else {
                    1int
                }),
            {
                if solution.get_char(j) == c && !seen[j] {
                    found = true;
                    proof {
                        assert(first_unseen_from(solution@, seen@, c, j as int) == j as int);
                    }
                } else {
                    proof {
                        assert(first_unseen_from(solution@, seen@, c, j as int)
                            == first_unseen_from(solution@, seen@, c, j as int + 1));
                    }
                    j += 1;
                }
            }
            if found {
                result[i] = GuessState::WrongPlace;
                seen[j] = true;
                proof {
                    assert(result@ == res_entry.update(i as int, GuessState::WrongPlace));
                    assert(seen@ == seen_entry.update(j as int, true));
                    assert(pass2(solution@, guess@, res_entry, seen_entry, i as int) == pass2(
                        solution@,
                        guess@,
                        result@,
                        seen@,
                        i as int + 1,
                    ));
                }
            } else {
                proof {
                    assert(first_unseen_from(solution@, seen@, c, 0) == 5);
                    assert(pass2(solution@, guess@, result@, seen@, i as int) == pass2(
                        solution@,
                        guess@,
                        result@,
                        seen@,
                        i as int + 1,
                    ));
                }
            }
        } else {
            proof {
                assert(pass2(solution@, guess@, result@, seen@, i as int) == pass2(
                    solution@,
                    guess@,
                    result@,
                    seen@,
                    i as int + 1,
                ));
            }
        }
        i += 1;
    }
    proof {
        assert(pass2(solution@, guess@, result@, seen@, 5) == (result@, seen@));
    }

    GuessResult { result, guess: guess.to_owned() }
}

} // verus!
