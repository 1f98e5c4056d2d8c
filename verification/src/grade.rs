//! The answer grader. A free-text answer is compared against the expected
//! term of an entry after trimming and Unicode case folding; the score is
//! an integer number of hundredths in `0 ..= 100`, so that partial credit
//! for class-specific structure (a missing article, a missing infinitive
//! marker) can sit strictly between a miss and a full match.
//!
//! The class-specific marker is recognized structurally — a first word
//! set off by a space, or a prefix ending in an apostrophe — so the same
//! rule serves every language and no language label enters the grading.
//! The three-tier ordering is the contract: an exact match beats an
//! answer missing only the marker, which beats one that gets only the
//! marker or only the stem right, which beats a plain miss.

use vstd::prelude::*;
use crate::entry::{Entry, EntryV, GramClass, spec_term};
use crate::text::{normalize, normalize_str, chars_eq, trim_front, is_unicode_ws, lemma_trim_front_is_subrange, is_unicode_ws_char};

verus! {

/// A full match, in hundredths.
pub const SCORE_FULL: u32 = 100;

/// The credit for an answer that misses only the class-specific marker.
pub const SCORE_MISSING_MARKER: u32 = 50;

/// The credit for an answer that gets only the marker or only the stem right.
pub const SCORE_PARTIAL_STRUCTURE: u32 = 25;

/// A character that separates a leading marker from the stem of a term:
/// either a space (`"the work"`, `"le travail"`, `"to rise"`) or an
/// apostrophe that stays attached to the marker (`"s'élever"`).
pub open spec fn is_sep(c: char) -> bool {
    c == ' ' || c == '\''
}

/// The length of the longest separator-free prefix of `s`; equals
/// `s.len()` when `s` holds no separator.
pub open spec fn first_sep(s: Seq<char>) -> int
    decreases s.len(),
{
    if s.len() == 0 {
        0
    } else if is_sep(s[0]) {
        0
    } else {
        1 + first_sep(s.drop_first())
    }
}

/// The leading marker of `s`, given that a separator occurs: up to the
/// first separator, which an apostrophe joins and a space does not.
pub open spec fn marker_of(s: Seq<char>) -> Seq<char> {
    let i = first_sep(s);
    if s[i] == '\'' {
        s.subrange(0, i + 1)
    } else {
        s.subrange(0, i)
    }
}

/// The stem of `s` after its leading marker, with the whitespace that
/// followed a space separator dropped.
pub open spec fn stem_of(s: Seq<char>) -> Seq<char> {
    let i = first_sep(s);
    if s[i] == '\'' {
        s.subrange(i + 1, s.len() as int)
    } else {
        trim_front(s.subrange(i + 1, s.len() as int))
    }
}

/// Whether `s` splits into a non-empty marker followed by a non-empty stem.
pub open spec fn splittable(s: Seq<char>) -> bool {
    &&& first_sep(s) < s.len()
    &&& marker_of(s).len() > 0
    &&& stem_of(s).len() > 0
}

/// Whether class-specific structure applies: nouns and verbs may carry a
/// leading marker; adverbs are graded on plain equality.
pub open spec fn has_marker(class: GramClass, expected: Seq<char>) -> bool {
    &&& (class is Noun || class is Verb)
    &&& splittable(expected)
}

/// The score, in hundredths, of `answer` against the expected term of `e`
/// in language slot `slot`. Both sides are normalized first. An exact
/// match is full credit; where the expected term carries a class-specific
/// marker, an answer equal to the bare stem earns half credit, and an
/// answer that gets only the marker or only the stem right earns a
/// quarter; anything else earns nothing.
pub open spec fn spec_grade(e: EntryV, answer: Seq<char>, slot: int) -> int {
    let expected = normalize(spec_term(e, slot));
    let ans = normalize(answer);
    if ans == expected {
        SCORE_FULL as int
    } else if has_marker(e.class, expected) {
        if ans == stem_of(expected) {
            SCORE_MISSING_MARKER as int
        } else if splittable(ans) && (marker_of(ans) == marker_of(expected) || stem_of(ans)
            == stem_of(expected)) {
            SCORE_PARTIAL_STRUCTURE as int
        } else {
            0
        }
    } else {
        0
    }
}

proof fn lemma_first_sep_at(s: Seq<char>, k: int)
    requires
        0 <= k <= s.len(),
        forall|j: int| 0 <= j < k ==> !is_sep(s[j]),
        k == s.len() || is_sep(s[k]),
    ensures
        first_sep(s) == k,
    decreases k,
{
    if s.len() == 0 {
    } else if k == 0 {
    } else {
        lemma_first_sep_at(s.drop_first(), k - 1);
    }
}

/// Copies `v[lo .. hi]` into a fresh vector.
fn sub_vec(v: &Vec<char>, lo: usize, hi: usize) -> (r: Vec<char>)
    requires
        lo <= hi <= v@.len(),
    ensures
        r@ == v@.subrange(lo as int, hi as int),
{
    let mut r: Vec<char> = Vec::new();
    let mut i: usize = lo;
    while i < hi
        invariant
            lo <= i <= hi <= v@.len(),
            r@ == v@.subrange(lo as int, i as int),
        decreases hi - i,
    {
        r.push(v[i]);
        proof {
            assert(r@ =~= v@.subrange(lo as int, i + 1 as int));
        }
        i = i + 1;
    }
    r
}

/// Splits `v` into its leading marker and its stem, or reports that no
/// such split exists.
fn split_parts(v: &Vec<char>) -> (r: Option<(Vec<char>, Vec<char>)>)
    ensures
        r is Some <==> splittable(v@),
        r matches Some((m, st)) ==> m@ == marker_of(v@) && st@ == stem_of(v@),
{
    let n = v.len();
    let mut k: usize = 0;
    while k < n && !(v[k] == ' ' || v[k] == '\'')
        invariant
            n == v@.len(),
            k <= n,
            forall|j: int| 0 <= j < k ==> !is_sep(v@[j]),
        decreases n - k,
    {
        k = k + 1;
    }
    proof {
        lemma_first_sep_at(v@, k as int);
    }
    if k == n {
        return None;
    }
    if v[k] == '\'' {
        let marker = sub_vec(v, 0, k + 1);
        let stem = sub_vec(v, k + 1, n);
        if stem.len() == 0 {
            return None;
        }
        Some((marker, stem))
    } else {
        if k == 0 {
            proof {
                assert(marker_of(v@).len() == 0);
            }
            return None;
        }
        let marker = sub_vec(v, 0, k);
        let mut j: usize = k + 1;
        while j < n && is_unicode_ws_char(v[j])
            invariant
                n == v@.len(),
                k + 1 <= j <= n,
                forall|i: int| k + 1 <= i < j ==> is_unicode_ws(v@[i]),
            decreases n - j,
        {
            j = j + 1;
        }
        proof {
            let rest = v@.subrange(k + 1, n as int);
            assert(forall|i: int| 0 <= i < j - (k + 1) ==> is_unicode_ws(rest[i]));
            lemma_trim_front_is_subrange(rest, j - (k + 1));
            assert(rest.subrange(j - (k + 1), rest.len() as int) =~= v@.subrange(
                j as int,
                n as int,
            ));
        }
        if j == n {
            return None;
        }
        let stem = sub_vec(v, j, n);
        Some((marker, stem))
    }
}

/// Grades `answer` against the expected term of `entry` in language slot
/// `slot`, in hundredths. Pure: the score depends only on the arguments.
pub fn grade(entry: &Entry, answer: &str, slot: usize) -> (r: u32)
    requires
        slot < 2,
    ensures
        r == spec_grade(entry@, answer@, slot as int),
        r <= 100,
{
    let expected_raw = entry.get(slot);
    let expected = normalize_str(expected_raw.as_str());
    let ans = normalize_str(answer);
    if chars_eq(&ans, &expected) {
        return SCORE_FULL;
    }
    let structural = match entry.class {
        GramClass::Noun => true,
        GramClass::Verb => true,
        GramClass::Adverb => false,
    };
    if !structural {
        return 0;
    }
    match split_parts(&expected) {
        None => 0,
        Some((marker, stem)) => {
            if chars_eq(&ans, &stem) {
                SCORE_MISSING_MARKER
            } else {
                match split_parts(&ans) {
                    None => 0,
                    Some((ans_marker, ans_stem)) => {
                        if chars_eq(&ans_marker, &marker) || chars_eq(&ans_stem, &stem) {
                            SCORE_PARTIAL_STRUCTURE
                        } else {
                            0
                        }
                    },
                }
            }
        },
    }
}

/// Surrounding whitespace never changes a score: two answers that agree
/// once trimmed grade identically against every entry.
pub proof fn lemma_grade_ignores_surrounding_ws(
    e: EntryV,
    a1: Seq<char>,
    a2: Seq<char>,
    slot: int,
)
    requires
        crate::text::trim(a1) == crate::text::trim(a2),
    ensures
        spec_grade(e, a1, slot) == spec_grade(e, a2, slot),
{
}

/// Every answer resolves to a score between nothing and full credit.
pub proof fn lemma_grade_range(e: EntryV, answer: Seq<char>, slot: int)
    ensures
        0 <= spec_grade(e, answer, slot) <= 100,
{
}

/// An answer that repeats the expected term earns full credit: the same
/// normalization is applied to both sides, so they compare equal.
pub proof fn lemma_grade_expected_term(e: EntryV, slot: int)
    requires
        0 <= slot < 2,
    ensures
        spec_grade(e, spec_term(e, slot), slot) == 100,
{
}

/// An empty answer earns nothing against any well-formed entry.
pub proof fn lemma_grade_empty(e: EntryV, slot: int)
    requires
        e.wf(),
        0 <= slot < 2,
    ensures
        spec_grade(e, Seq::<char>::empty(), slot) == 0,
{
    let expected = normalize(spec_term(e, slot));
    let ans = normalize(Seq::<char>::empty());
    assert(ans =~= Seq::<char>::empty());
    assert(expected.len() > 0);
    assert(ans != expected);
    if has_marker(e.class, expected) {
        assert(stem_of(expected).len() > 0);
        assert(ans != stem_of(expected));
        assert(first_sep(Seq::<char>::empty()) == 0);
        assert(!splittable(ans));
    }
}

} // verus!
