//! Scoring a prospective guess by how much it narrows the candidate set.
//!
//! For every word that could still be the hidden solution, the scorer
//! simulates the feedback the guess would earn against it and counts how
//! many words of the candidate pool that feedback would eliminate. The sum
//! of those counts, divided by the number of possible solutions, is the
//! expected number of candidates eliminated -- the score by which guesses
//! are ranked. The division is left to the caller: over a fixed solution
//! space the totals rank guesses exactly as the averages do.

use vstd::prelude::*;

use crate::feedback::GuessState;
use crate::feedback::evaluate_guess;
use crate::feedback::evaluate_spec;
use crate::filter::word_views;
use crate::matcher::is_consistent_spec;
use crate::matcher::word_matches_state;

verus! {

/// How many of the first `n` words of `pool` the record with guess `g` and
/// feedback `r` eliminates.
pub open spec fn eliminated_upto(
    pool: Seq<Seq<char>>,
    g: Seq<char>,
    r: Seq<GuessState>,
    n: int,
) -> nat
    decreases n,
{
    if n <= 0 || n > pool.len() {
        0
    } else {
        eliminated_upto(pool, g, r, n - 1) + (if !is_consistent_spec(pool[n - 1], g, r) {
            1nat
        } else {
            0nat
        })
    }
}

/// How many words of `pool` the record with guess `g` and feedback `r`
/// eliminates.
pub open spec fn eliminated(pool: Seq<Seq<char>>, g: Seq<char>, r: Seq<GuessState>) -> nat {
    eliminated_upto(pool, g, r, pool.len() as int)
}

/// The total of eliminated-candidate counts for the guess `g` over the
/// first `n` possible solutions: for each solution, the number of words of
/// `pool` that the feedback `g` would earn against it eliminates.
pub open spec fn score_total_upto(
    g: Seq<char>,
    pool: Seq<Seq<char>>,
    sols: Seq<Seq<char>>,
    n: int,
) -> nat
    decreases n,
{
    if n <= 0 || n > sols.len() {
        0
    } else {
        score_total_upto(g, pool, sols, n - 1) + eliminated(pool, g, evaluate_spec(sols[n - 1], g))
    }
}

/// The total of eliminated-candidate counts for the guess `g` over every
/// possible solution in `sols`.
pub open spec fn score_total(g: Seq<char>, pool: Seq<Seq<char>>, sols: Seq<Seq<char>>) -> nat {
    score_total_upto(g, pool, sols, sols.len() as int)
}

/// Counts how many words of `pool` the record `rec` eliminates.
fn count_eliminated(pool: &Vec<String>, rec: &crate::feedback::GuessResult) -> (n: usize)
    requires
        rec.wf(),
        forall|k: int| 0 <= k < pool@.len() ==> (#[trigger] pool@[k])@.len() == 5,
    ensures
        n as nat == eliminated(word_views(pool@), rec.guess@, rec.result@),
        n <= pool@.len(),
{
    let mut n: usize = 0;
    let mut j: usize = 0;
    while j < pool.len()
        invariant
            rec.wf(),
            j <= pool@.len(),
            forall|k: int| 0 <= k < pool@.len() ==> (#[trigger] pool@[k])@.len() == 5,
            n as nat == eliminated_upto(word_views(pool@), rec.guess@, rec.result@, j as int),
            n <= j,
        decreases pool@.len() - j,
    {
        if !word_matches_state(pool[j].as_str(), rec) {
            n += 1;
        }
        j += 1;
        proof {
            let vs = word_views(pool@);
            assert(vs[j as int - 1] == pool@[j as int - 1]@);
            assert(eliminated_upto(vs, rec.guess@, rec.result@, j as int) == eliminated_upto(
                vs,
                rec.guess@,
                rec.result@,
                j as int - 1,
            ) + (if !is_consistent_spec(vs[j as int - 1], rec.guess@, rec.result@) {
                1nat
            } else {
                0nat
            }));
        }
    }
    n
}

/// The expected-elimination score of a prospective guess, as a total: for
/// each word of `solutions` that could be the hidden answer, the feedback
/// `guess` would earn against it is simulated, and the words of `pool`
/// that feedback eliminates are counted. Dividing the total by the number
/// of solutions gives the average; a higher total means a more informative
/// guess.
pub fn entropy_score(guess: &str, pool: &Vec<String>, solutions: &Vec<String>) -> (total: u64)
    requires
        guess@.len() == 5,
        forall|k: int| 0 <= k < pool@.len() ==> (#[trigger] pool@[k])@.len() == 5,
        forall|k: int| 0 <= k < solutions@.len() ==> (#[trigger] solutions@[k])@.len() == 5,
        solutions@.len() * pool@.len() <= u64::MAX,
    ensures
        total as nat == score_total(guess@, word_views(pool@), word_views(solutions@)),
{
    let mut total: u64 = 0;
    let mut i: usize = 0;
    while i < solutions.len()
        invariant
            guess@.len() == 5,
            i <= solutions@.len(),
            forall|k: int| 0 <= k < pool@.len() ==> (#[trigger] pool@[k])@.len() == 5,
            forall|k: int| 0 <= k < solutions@.len() ==> (#[trigger] solutions@[k])@.len() == 5,
            solutions@.len() * pool@.len() <= u64::MAX,
            total as nat == score_total_upto(
                guess@,
                word_views(pool@),
                word_views(solutions@),
                i as int,
            ),
            total <= i * pool@.len(),
        decreases solutions@.len() - i,
    {
        let rec = evaluate_guess(solutions[i].as_str(), guess);
        let n = count_eliminated(pool, &rec);
        proof {
            assert((i + 1) * pool@.len() == i * pool@.len() + pool@.len()) by (nonlinear_arith);
            assert((i + 1) * pool@.len() <= solutions@.len() * pool@.len()) by (nonlinear_arith)
                requires
                    i + 1 <= solutions@.len(),
                    pool@.len() >= 0,
            ;
        }
        total = total + (n as u64);
        i += 1;
        proof {
            let vs = word_views(solutions@);
            assert(vs[i as int - 1] == solutions@[i as int - 1]@);
            assert(score_total_upto(guess@, word_views(pool@), vs, i as int) == score_total_upto(
                guess@,
                word_views(pool@),
                vs,
                i as int - 1,
            ) + eliminated(word_views(pool@), guess@, evaluate_spec(vs[i as int - 1], guess@)));
        }
    }
    total
}

} // verus!
