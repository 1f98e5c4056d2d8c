use ulang::entry::{Entry, GramClass};
use ulang::grade::grade;

fn entry(t0: &str, t1: &str, class: GramClass) -> Entry {
    Entry::new(t0.to_string(), t1.to_string(), class)
}

#[test]
fn expected_term_scores_full() {
    let e = entry("yes", "oui", GramClass::Adverb);
    assert_eq!(grade(&e, "yes", 0), 100);
    assert_eq!(grade(&e, "oui", 1), 100);
    let n = entry("the work", "le travail", GramClass::Noun);
    assert_eq!(grade(&n, "the work", 0), 100);
    assert_eq!(grade(&n, "le travail", 1), 100);
}

#[test]
fn empty_answer_scores_zero() {
    let e = entry("yes", "oui", GramClass::Adverb);
    assert_eq!(grade(&e, "", 0), 0);
    assert_eq!(grade(&e, "", 1), 0);
    let n = entry("the work", "le travail", GramClass::Noun);
    assert_eq!(grade(&n, "", 0), 0);
    assert_eq!(grade(&n, "", 1), 0);
    let v = entry("to rise", "s'élever", GramClass::Verb);
    assert_eq!(grade(&v, "", 0), 0);
}

#[test]
fn case_is_folded() {
    let e = entry("yes", "oui", GramClass::Adverb);
    assert_eq!(grade(&e, "YES", 0), 100);
    assert_eq!(grade(&e, "Yes", 0), 100);
    let n = entry("The Work", "Le Travail", GramClass::Noun);
    assert_eq!(grade(&n, "the work", 0), 100);
}

#[test]
fn surrounding_whitespace_is_never_penalized() {
    let e = entry("yes", "oui", GramClass::Adverb);
    assert_eq!(grade(&e, "  yes\t", 0), 100);
    assert_eq!(grade(&e, "\n yes \r\n", 0), 100);
}

#[test]
fn internal_whitespace_is_compared_as_typed() {
    let n = entry("the work", "le travail", GramClass::Noun);
    // Doubling the interior space is not an exact match any more, though
    // the structural parts still line up.
    assert!(grade(&n, "the  work", 0) < 100);
}

#[test]
fn missing_article_scores_strictly_between() {
    let n = entry("the work", "le travail", GramClass::Noun);
    let s = grade(&n, "travail", 1);
    assert!(s > 0);
    assert!(s < 100);
    let s0 = grade(&n, "work", 0);
    assert!(s0 > 0);
    assert!(s0 < 100);
}

#[test]
fn missing_infinitive_marker_scores_strictly_between() {
    let v = entry("to rise", "s'élever", GramClass::Verb);
    let s = grade(&v, "rise", 0);
    assert!(s > 0);
    assert!(s < 100);
    let s1 = grade(&v, "élever", 1);
    assert!(s1 > 0);
    assert!(s1 < 100);
}

#[test]
fn case_folding_covers_accented_letters() {
    let n = entry("the summer", "l'été", GramClass::Noun);
    assert_eq!(grade(&n, "L'ÉTÉ", 1), 100);
    assert_eq!(grade(&n, "l'Été", 1), 100);
    let v = entry("to rise", "s'élever", GramClass::Verb);
    assert_eq!(grade(&v, "S'ÉLEVER", 1), 100);
    assert_eq!(grade(&v, "ÉLEVER", 1), 50);
}

#[test]
fn trimming_covers_unicode_whitespace() {
    let e = entry("yes", "oui", GramClass::Adverb);
    assert_eq!(grade(&e, "\u{a0}yes\u{2009}", 0), 100);
    assert_eq!(grade(&e, "\u{3000}oui\u{a0}", 1), 100);
}

#[test]
fn right_marker_wrong_stem_scores_below_missing_marker() {
    let n = entry("the work", "le travail", GramClass::Noun);
    let missing = grade(&n, "travail", 1);
    let wrong_stem = grade(&n, "le banane", 1);
    assert!(wrong_stem > 0);
    assert!(wrong_stem < missing);
}

#[test]
fn wrong_marker_right_stem_scores_below_missing_marker() {
    let n = entry("the work", "le travail", GramClass::Noun);
    let missing = grade(&n, "travail", 1);
    let wrong_marker = grade(&n, "la travail", 1);
    assert!(wrong_marker > 0);
    assert!(wrong_marker < missing);
}

#[test]
fn plain_mismatch_scores_zero() {
    let e = entry("yes", "oui", GramClass::Adverb);
    assert_eq!(grade(&e, "no", 0), 0);
    let n = entry("the work", "le travail", GramClass::Noun);
    assert_eq!(grade(&n, "banane", 1), 0);
    assert_eq!(grade(&n, "une banane", 1), 0);
}

#[test]
fn adverbs_get_no_structural_tolerance() {
    // Adverbs are graded on plain normalized equality even when the term
    // happens to contain a space.
    let e = entry("of course", "bien sur", GramClass::Adverb);
    assert_eq!(grade(&e, "course", 0), 0);
    assert_eq!(grade(&e, "of course", 0), 100);
}

#[test]
fn grading_is_deterministic() {
    let n = entry("the work", "le travail", GramClass::Noun);
    let first = grade(&n, "Travail ", 1);
    for _ in 0..10 {
        assert_eq!(grade(&n, "Travail ", 1), first);
    }
}
