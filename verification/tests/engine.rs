use wordle_core::entropy::entropy_score;
use wordle_core::feedback::evaluate_guess;
use wordle_core::feedback::GuessResult;
use wordle_core::feedback::GuessState;
use wordle_core::feedback::GuessState::Correct;
use wordle_core::feedback::GuessState::Missing;
use wordle_core::feedback::GuessState::WrongPlace;
use wordle_core::filter::filter_solutions;
use wordle_core::filter::filter_words;
use wordle_core::matcher::word_matches_state;
use wordle_core::rank::rank_order;

#[test]
fn test_evaluate_guess() {
    let solution = "water";
    let guess = "enter";

    let result = evaluate_guess(solution, guess);

    let expected = [Missing, Missing, Correct, Correct, Correct];

    assert_eq!(result.result[0], expected[0]);
    assert_eq!(result.result[1], expected[1]);
    assert_eq!(result.result[2], expected[2]);
    assert_eq!(result.result[3], expected[3]);
    assert_eq!(result.result[4], expected[4]);

    // test 2
    let solution = "water";
    let guess = "axaer";

    let result = evaluate_guess(solution, guess);

    let expected = [WrongPlace, Missing, Missing, Correct, Correct];

    assert_eq!(result.result[0], expected[0]);
    assert_eq!(result.result[1], expected[1]);
    assert_eq!(result.result[2], expected[2]);
    assert_eq!(result.result[3], expected[3]);
    assert_eq!(result.result[4], expected[4]);

    // test 3
    let solution = "attic";
    let guess = "matah";

    let result = evaluate_guess(solution, guess);

    let expected = [Missing, WrongPlace, Correct, Missing, Missing];

    assert_eq!(result.result[0], expected[0]);
    assert_eq!(result.result[1], expected[1]);
    assert_eq!(result.result[2], expected[2]);
    assert_eq!(result.result[3], expected[3]);
    assert_eq!(result.result[4], expected[4]);
}

#[test]
fn test_word_matches_state() {
    let solution = "water";
    let guess = "enter";

    let result = evaluate_guess(solution, guess);

    let is_match = word_matches_state("eater", &result);
    // we know there is only 1 e
    assert_eq!(is_match, false);

    let is_match = word_matches_state("pater", &result);
    assert_eq!(is_match, true);

    // Case 2
    let solution = "apple";
    let guess = "maker";

    let result = evaluate_guess(solution, guess);
    let is_match = word_matches_state("twues", &result);
    // we know it must contain a
    assert_eq!(is_match, false);

    // Case 3
    let solution = "enter";
    let guess = "leech";

    let result = evaluate_guess(solution, guess);

    let is_match = word_matches_state("maker", &result);
    // we know there must be 2 e's
    assert_eq!(is_match, false);

    // Case 4
    let result = GuessResult {
        guess: "enter".to_string(),
        result: [WrongPlace, Missing, Missing, Correct, Missing],
    };

    let is_match = word_matches_state("asked", &result);
    // we know there must be 2 e's
    assert_eq!(is_match, false);

    // Case 5
    let result = GuessResult {
        guess: "enter".to_string(),
        result: [Missing, Missing, Correct, Missing, Missing],
    };

    let is_match = word_matches_state("total", &result);
    // entirely possible for 2 t's
    assert_eq!(is_match, true);

    // Case 5
    let result = GuessResult {
        guess: "enter".to_string(),
        result: [WrongPlace, Missing, WrongPlace, Missing, Missing],
    };

    let is_match = word_matches_state("elate", &result);
    // cannot be 2 e's
    assert_eq!(is_match, false);
}

fn marked_for(result: &GuessResult, c: char) -> usize {
    result
        .guess
        .chars()
        .zip(result.result.iter())
        .filter(|(g, r)| *g == c && **r != GuessState::Missing)
        .count()
}

#[test]
fn duplicate_letters_marked_at_most_solution_count() {
    // the guess has two a's, the solution one: exactly one a is marked
    let result = evaluate_guess("water", "axaer");
    assert_eq!(marked_for(&result, 'a'), 1);

    // the guess has two t's, the solution two: both are marked
    let result = evaluate_guess("tatty", "total");
    assert_eq!(marked_for(&result, 't'), 2);

    // the guess has three s's, the solution one: exactly one is marked
    let result = evaluate_guess("shead", "sassy");
    assert_eq!(marked_for(&result, 's'), 1);
}

#[test]
fn guessing_the_solution_is_all_correct() {
    let result = evaluate_guess("water", "water");
    assert_eq!(result.result, [Correct, Correct, Correct, Correct, Correct]);

    let result = evaluate_guess("llama", "llama");
    assert_eq!(result.result, [Correct, Correct, Correct, Correct, Correct]);
}

#[test]
fn solution_matches_its_own_feedback() {
    let result = evaluate_guess("water", "enter");
    assert!(word_matches_state("water", &result));

    let result = evaluate_guess("tatty", "total");
    assert!(word_matches_state("tatty", &result));

    // a guess letter with a WrongPlace copy and a surplus Missing copy
    // must not exclude the solution's own copy elsewhere
    let result = evaluate_guess("azzzz", "bacad");
    assert_eq!(
        result.result,
        [Missing, WrongPlace, Missing, Missing, Missing]
    );
    assert!(word_matches_state("azzzz", &result));

    let result = evaluate_guess("stale", "enter");
    assert_eq!(
        result.result,
        [WrongPlace, Missing, WrongPlace, Missing, Missing]
    );
    assert!(word_matches_state("stale", &result));
}

#[test]
fn missing_mark_of_repeated_letter_only_caps_its_copies() {
    // one e is Correct, the other Missing: further e's are ruled out only
    // at the guess's own e positions that are not Correct
    let record = GuessResult {
        guess: "enter".to_string(),
        result: [Correct, Missing, Missing, Missing, Missing],
    };

    // e at positions the guess never tried e at stays allowed
    assert!(word_matches_state("evoke", &record));

    // e exactly at the guess's Missing e position is ruled out
    assert!(!word_matches_state("emcee", &record));
}

#[test]
fn filter_keeps_exactly_the_consistent_words() {
    let words = vec![
        "eater".to_string(),
        "pater".to_string(),
        "water".to_string(),
        "total".to_string(),
    ];
    let record = evaluate_guess("water", "enter");
    let out = filter_solutions(words, &record);
    assert_eq!(out, vec!["pater".to_string(), "water".to_string()]);
}

#[test]
fn filter_can_leave_nothing() {
    // contradictory feedback is a valid outcome: the survivor set is empty
    let record = GuessResult {
        guess: "enter".to_string(),
        result: [WrongPlace, Missing, WrongPlace, Missing, Missing],
    };
    let words = vec!["elate".to_string()];
    let out = filter_solutions(words, &record);
    assert!(out.is_empty());
}

#[test]
fn filtering_stepwise_equals_filtering_the_history() {
    let words = vec![
        "eater".to_string(),
        "pater".to_string(),
        "water".to_string(),
        "cater".to_string(),
        "total".to_string(),
    ];
    let r1 = evaluate_guess("water", "enter");
    let r2 = evaluate_guess("water", "cater");

    let stepwise = filter_solutions(filter_solutions(words.clone(), &r1), &r2);
    let history = filter_words(words, &vec![r1, r2]);
    assert_eq!(stepwise, history);
    assert_eq!(stepwise, vec!["pater".to_string(), "water".to_string()]);
}

#[test]
fn filtering_twice_changes_nothing() {
    let words = vec![
        "eater".to_string(),
        "pater".to_string(),
        "water".to_string(),
        "total".to_string(),
    ];
    let records = vec![evaluate_guess("water", "enter"), evaluate_guess("water", "pater")];
    let once = filter_words(words, &records);
    let twice = filter_words(once.clone(), &records);
    assert_eq!(once, twice);
}

#[test]
fn empty_history_keeps_every_word() {
    let words = vec!["water".to_string(), "total".to_string()];
    let out = filter_words(words.clone(), &Vec::new());
    assert_eq!(out, words);
}

#[test]
fn entropy_score_totals_eliminations_over_solutions() {
    let pool = vec![
        "eater".to_string(),
        "pater".to_string(),
        "water".to_string(),
        "total".to_string(),
    ];
    let solutions = vec!["water".to_string(), "pater".to_string()];
    // against either possible solution, "enter" earns the same feedback,
    // which eliminates "eater" and "total": 2 + 2
    assert_eq!(entropy_score("enter", &pool, &solutions), 4);

    let pool = vec!["water".to_string(), "total".to_string()];
    let solutions = vec!["water".to_string()];
    assert_eq!(entropy_score("water", &pool, &solutions), 1);

    let none: Vec<String> = Vec::new();
    assert_eq!(entropy_score("water", &pool, &none), 0);
}

#[test]
fn rank_orders_by_score_descending() {
    let scores = vec![5u64, 9, 7];
    assert_eq!(rank_order(&scores), vec![1usize, 2, 0]);
}

#[test]
fn rank_keeps_ties_in_given_order() {
    let scores = vec![5u64, 9, 5];
    assert_eq!(rank_order(&scores), vec![1usize, 0, 2]);

    let scores = vec![3u64, 3, 3];
    assert_eq!(rank_order(&scores), vec![0usize, 1, 2]);
}

#[test]
fn rank_of_nothing_is_empty() {
    let scores: Vec<u64> = Vec::new();
    assert!(rank_order(&scores).is_empty());
}
