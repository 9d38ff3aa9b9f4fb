//! Narrowing a candidate set by accumulated feedback.
//!
//! One record at a time, the filter keeps exactly the candidates that the
//! matcher accepts; folding it over a whole feedback history keeps exactly
//! the candidates consistent with every record. An empty survivor set is a
//! valid outcome, not an error: it means the feedback history is
//! contradictory or the true solution lies outside the candidate set.

use vstd::prelude::*;

use crate::feedback::GuessResult;
use crate::feedback::GuessState;
use crate::matcher::is_consistent_spec;
use crate::matcher::word_matches_state;

verus! {

/// The words of `ws`, each as its sequence of characters.
pub open spec fn word_views(ws: Seq<String>) -> Seq<Seq<char>> {
    ws.map_values(|w: String| w@)
}

/// The subsequence of `words` consistent with the record whose guess is `g`
/// and whose feedback is `r`, in the order given.
pub open spec fn filter_spec(words: Seq<Seq<char>>, g: Seq<char>, r: Seq<GuessState>) -> Seq<
    Seq<char>,
>
    decreases words.len(),
{
    if words.len() == 0 {
        words
    } else {
        let rest = filter_spec(words.drop_last(), g, r);
        if is_consistent_spec(words.last(), g, r) {
            rest.push(words.last())
        } else {
            rest
        }
    }
}

/// The subsequence of `words` that survives every record of `records` in
/// turn, applied first to last.
pub open spec fn surviving(words: Seq<Seq<char>>, records: Seq<GuessResult>) -> Seq<Seq<char>>
    decreases records.len(),
{
    if records.len() == 0 {
        words
    } else {
        surviving(
            filter_spec(words, records[0].guess@, records[0].result@),
            records.skip(1),
        )
    }
}

/// Whether the word `w` is consistent with every record of `records`.
pub open spec fn consistent_with_all(w: Seq<char>, records: Seq<GuessResult>) -> bool {
    forall|k: int|
        0 <= k < records.len() ==> is_consistent_spec(
            w,
            (#[trigger] records[k]).guess@,
            records[k].result@,
        )
}

/// Every word kept by one filtering step is consistent with the record and
/// was among the words given.
proof fn lemma_filter_elements(words: Seq<Seq<char>>, g: Seq<char>, r: Seq<GuessState>)
    ensures
        forall|i: int|
            0 <= i < filter_spec(words, g, r).len() ==> is_consistent_spec(
                #[trigger] filter_spec(words, g, r)[i],
                g,
                r,
            ) && words.contains(filter_spec(words, g, r)[i]),
    decreases words.len(),
{
    let out = filter_spec(words, g, r);
    if words.len() > 0 {
        lemma_filter_elements(words.drop_last(), g, r);
        let rest = filter_spec(words.drop_last(), g, r);
        assert forall|i: int| 0 <= i < out.len() implies is_consistent_spec(out[i], g, r)
            && words.contains(out[i]) by {
            if i < rest.len() {
                assert(out[i] == rest[i]);
                let j = choose|j: int|
                    0 <= j < words.drop_last().len() && words.drop_last()[j] == rest[i];
                assert(words[j] == rest[i]);
            } else {
                assert(out[i] == words.last());
                assert(words[words.len() - 1] == words.last());
            }
        }
    }
}

/// Filtering a set whose words are all consistent with the record keeps it
/// unchanged.
proof fn lemma_filter_all_consistent(words: Seq<Seq<char>>, g: Seq<char>, r: Seq<GuessState>)
    requires
        forall|i: int| 0 <= i < words.len() ==> is_consistent_spec(#[trigger] words[i], g, r),
    ensures
        filter_spec(words, g, r) == words,
    decreases words.len(),
{
    if words.len() > 0 {
        assert(words[words.len() - 1] == words.last());
        lemma_filter_all_consistent(words.drop_last(), g, r);
        assert(filter_spec(words, g, r) =~= words);
    }
}

/// Every word that survives a whole history is consistent with every record
/// of that history.
proof fn lemma_surviving_elements(words: Seq<Seq<char>>, records: Seq<GuessResult>)
    ensures
        forall|i: int|
            0 <= i < surviving(words, records).len() ==> consistent_with_all(
                #[trigger] surviving(words, records)[i],
                records,
            ),
    decreases records.len(),
{
    if records.len() > 0 {
        let narrowed = filter_spec(words, records[0].guess@, records[0].result@);
        lemma_filter_elements(words, records[0].guess@, records[0].result@);
        lemma_surviving_elements(narrowed, records.skip(1));
        let out = surviving(words, records);
        assert(out == surviving(narrowed, records.skip(1)));
        lemma_surviving_subset(narrowed, records.skip(1));
        assert forall|i: int| 0 <= i < out.len() implies consistent_with_all(
            out[i],
            records,
        ) by {
            assert(consistent_with_all(out[i], records.skip(1)));
            let j = choose|j: int| 0 <= j < narrowed.len() && narrowed[j] == out[i];
            assert(is_consistent_spec(out[i], records[0].guess@, records[0].result@));
            assert forall|k: int| 0 <= k < records.len() implies is_consistent_spec(
                out[i],
                (#[trigger] records[k]).guess@,
                records[k].result@,
            ) by {
                if k > 0 {
                    assert(records.skip(1)[k - 1] == records[k]);
                }
            }
        }
    }
}

/// Every survivor of a history was among the words given.
proof fn lemma_surviving_subset(words: Seq<Seq<char>>, records: Seq<GuessResult>)
    ensures
        forall|i: int|
            0 <= i < surviving(words, records).len() ==> words.contains(
                #[trigger] surviving(words, records)[i],
            ),
    decreases records.len(),
{
    if records.len() > 0 {
        let narrowed = filter_spec(words, records[0].guess@, records[0].result@);
        lemma_filter_elements(words, records[0].guess@, records[0].result@);
        lemma_surviving_subset(narrowed, records.skip(1));
        let out = surviving(words, records);
        assert(out == surviving(narrowed, records.skip(1)));
        assert forall|i: int| 0 <= i < out.len() implies words.contains(out[i]) by {
            assert(narrowed.contains(out[i]));
            let j = choose|j: int| 0 <= j < narrowed.len() && narrowed[j] == out[i];
            assert(words.contains(narrowed[j]));
        }
    }
}

/// A history leaves a set unchanged when every word of the set is already
/// consistent with every record of the history.
proof fn lemma_surviving_all_consistent(words: Seq<Seq<char>>, records: Seq<GuessResult>)
    requires
        forall|i: int|
            0 <= i < words.len() ==> consistent_with_all(#[trigger] words[i], records),
    ensures
        surviving(words, records) == words,
    decreases records.len(),
{
    if records.len() > 0 {
        assert forall|i: int| 0 <= i < words.len() implies is_consistent_spec(
            #[trigger] words[i],
            records[0].guess@,
            records[0].result@,
        ) by {
            assert(consistent_with_all(words[i], records));
        }
        lemma_filter_all_consistent(words, records[0].guess@, records[0].result@);
        assert forall|i: int| 0 <= i < words.len() implies consistent_with_all(
            #[trigger] words[i],
            records.skip(1),
        ) by {
            assert forall|k: int| 0 <= k < records.skip(1).len() implies is_consistent_spec(
                words[i],
                (#[trigger] records.skip(1)[k]).guess@,
                records.skip(1)[k].result@,
            ) by {
                assert(records.skip(1)[k] == records[k + 1]);
                assert(consistent_with_all(words[i], records));
            }
        }
        lemma_surviving_all_consistent(words, records.skip(1));
    }
}

/// Filtering is associative: narrowing by one feedback history and then by
/// another gives exactly what narrowing by the two histories joined end to
/// end gives.
pub proof fn lemma_filter_associative(
    words: Seq<Seq<char>>,
    first: Seq<GuessResult>,
    second: Seq<GuessResult>,
)
    ensures
        surviving(surviving(words, first), second) == surviving(words, first + second),
    decreases first.len(),
{
    if first.len() == 0 {
        assert(first + second =~= second);
    } else {
        let narrowed = filter_spec(words, first[0].guess@, first[0].result@);
        assert((first + second)[0] == first[0]);
        assert((first + second).skip(1) =~= first.skip(1) + second);
        lemma_filter_associative(narrowed, first.skip(1), second);
    }
}

/// Filtering one record at a time equals filtering by the pair of records
/// as one history.
pub proof fn lemma_filter_pair(words: Seq<Seq<char>>, r1: GuessResult, r2: GuessResult)
    ensures
        surviving(surviving(words, seq![r1]), seq![r2]) == surviving(words, seq![r1, r2]),
{
    lemma_filter_associative(words, seq![r1], seq![r2]);
    assert(seq![r1] + seq![r2] =~= seq![r1, r2]);
}

/// Filtering is idempotent: applying the same feedback history to its own
/// survivors returns them unchanged.
pub proof fn lemma_filter_idempotent(words: Seq<Seq<char>>, records: Seq<GuessResult>)
    ensures
        surviving(surviving(words, records), records) == surviving(words, records),
{
    lemma_surviving_elements(words, records);
    lemma_surviving_all_consistent(surviving(words, records), records);
}

/// Keeps exactly the candidate words consistent with one feedback record,
/// in their given order.
pub fn filter_solutions(possible_solutions: Vec<String>, result: &GuessResult) -> (out: Vec<
    String,
>)
    requires
        result.wf(),
        forall|k: int|
            0 <= k < possible_solutions@.len() ==> (#[trigger] possible_solutions@[k])@.len()
                == 5,
    ensures
        word_views(out@) == filter_spec(
            word_views(possible_solutions@),
            result.guess@,
            result.result@,
        ),
        forall|k: int| 0 <= k < out@.len() ==> (#[trigger] out@[k])@.len() == 5,
{
    let mut out: Vec<String> = Vec::new();
    let mut i: usize = 0;
    while i < possible_solutions.len()
        invariant
            result.wf(),
            i <= possible_solutions@.len(),
            forall|k: int|
                0 <= k < possible_solutions@.len() ==> (#[trigger] possible_solutions@[k])@.len()
                    == 5,
            forall|k: int| 0 <= k < out@.len() ==> (#[trigger] out@[k])@.len() == 5,
            word_views(out@) == filter_spec(
                word_views(possible_solutions@).take(i as int),
                result.guess@,
                result.result@,
            ),
        decreases possible_solutions@.len() - i,
    {
        let ghost pre = out@;
        let ghost vs = word_views(possible_solutions@);
        let w = &possible_solutions[i];
        if word_matches_state(w.as_str(), result) {
            out.push(w.clone());
        }
        proof {
            assert(vs.take(i as int + 1).drop_last() =~= vs.take(i as int));
            assert(vs.take(i as int + 1).last() == possible_solutions@[i as int]@);
            if is_consistent_spec(possible_solutions@[i as int]@, result.guess@, result.result@) {
                assert(word_views(out@) =~= word_views(pre).push(possible_solutions@[i as int]@));
            } else {
                assert(out@ == pre);
            }
        }
        i += 1;
    }
    proof {
        assert(word_views(possible_solutions@).take(possible_solutions@.len() as int)
            =~= word_views(possible_solutions@));
    }
    out
}

/// Folds `filter_solutions` over a whole feedback history: keeps exactly
/// the candidate words that survive every record in turn.
pub fn filter_words(words: Vec<String>, records: &Vec<GuessResult>) -> (out: Vec<String>)
    requires
        forall|k: int| 0 <= k < words@.len() ==> (#[trigger] words@[k])@.len() == 5,
        forall|k: int| 0 <= k < records@.len() ==> (#[trigger] records@[k]).wf(),
    ensures
        word_views(out@) == surviving(word_views(words@), records@),
        forall|k: int| 0 <= k < out@.len() ==> (#[trigger] out@[k])@.len() == 5,
{
    let mut cur = words;
    let ghost all = cur@;
    proof {
        assert(records@.skip(0) =~= records@);
    }
    let mut k: usize = 0;
    while k < records.len()
        invariant
            k <= records@.len(),
            forall|j: int| 0 <= j < cur@.len() ==> (#[trigger] cur@[j])@.len() == 5,
            forall|j: int| 0 <= j < records@.len() ==> (#[trigger] records@[j]).wf(),
            surviving(word_views(cur@), records@.skip(k as int)) == surviving(
                word_views(all),
                records@,
            ),
        decreases records@.len() - k,
    {
        let ghost pre = cur@;
        cur = filter_solutions(cur, &records[k]);
        proof {
            let rest = records@.skip(k as int);
            assert(rest[0] == records@[k as int]);
            assert(rest.skip(1) =~= records@.skip(k as int + 1));
            assert(surviving(word_views(pre), rest) == surviving(
                word_views(cur@),
                records@.skip(k as int + 1),
            ));
        }
        k += 1;
    }
    proof {
        assert(records@.skip(records@.len() as int) =~= Seq::<GuessResult>::empty());
    }
    cur
}

} // verus!
