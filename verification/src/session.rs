//! The quiz session: a shuffled deck, a cursor, the answer buffer, the
//! last and running scores, and the state machine that moves between
//! awaiting an answer, showing the correction, and the finished state.
//!
//! Transitions never fail: a transition requested in the wrong state is a
//! no-op, and a failed deck load only records an error tag, leaving the
//! active quiz untouched.

use vstd::prelude::*;
use rand::seq::SliceRandom;
use crate::deck::{Deck, parse, spec_parse};
use crate::entry::{Entry, EntryV, GramClass};
use crate::grade::{grade, spec_grade};

verus! {

/// The three states of a running session.
#[derive(Clone, Copy, PartialEq, Eq, Structural, Debug)]
pub enum SessionState {
    /// A term is shown and the answer buffer is open.
    AwaitingAnswer,
    /// The answer has been graded; the correction is on display.
    Correcting,
    /// The deck is exhausted; only a restart leaves this state.
    Finished,
}

/// The error tags a deck-load attempt can end with. `DialogClosed` is a
/// cancellation, not a failure: it is swallowed and never stored.
#[derive(Clone, Copy, PartialEq, Eq, Structural, Debug)]
pub enum LoadError {
    IoError,
    DialogClosed,
    ParseError,
}

/// The views of a sequence of entries.
pub open spec fn entry_views(s: Seq<Entry>) -> Seq<EntryV> {
    s.map_values(|e: Entry| e@)
}

/// The sum of a sequence of recorded scores.
pub open spec fn sum_scores(s: Seq<int>) -> int
    decreases s.len(),
{
    if s.len() == 0 {
        0
    } else {
        sum_scores(s.drop_last()) + s.last()
    }
}

/// The live quiz state over one deck.
pub struct Session {
    /// The label of language slot 0 — the slot answers are graded against.
    pub lang0: String,
    /// The label of language slot 1 — the slot shown as the prompt.
    pub lang1: String,
    /// The active deck, in shuffled order.
    pub entries: Vec<Entry>,
    /// The cursor; `None` exactly in the finished state.
    pub current: Option<usize>,
    /// The in-progress answer buffer.
    pub answer: String,
    /// The score of the last submitted answer, in hundredths.
    pub last_score: u32,
    /// The running total of submitted scores, in hundredths.
    pub total_sum: u128,
    /// The deck size the running total is out of.
    pub count: usize,
    /// The state machine's position.
    pub state: SessionState,
    /// The error tag of the last failed load, if any.
    pub error: Option<LoadError>,
    /// The scores submitted this round, oldest first.
    pub history: Ghost<Seq<int>>,
}

impl Session {
    /// The session invariant: a non-empty deck of well-formed entries
    /// under two distinct labels; a cursor that matches the state; a
    /// history whose length matches the progress, whose sum is the
    /// running total, and whose last element is the last score.
    pub open spec fn wf(&self) -> bool {
        &&& self.entries@.len() >= 1
        &&& forall|i: int|
            0 <= i < self.entries@.len() ==> (#[trigger] self.entries@[i])@.wf()
        &&& self.lang0@.len() > 0
        &&& self.lang1@.len() > 0
        &&& self.lang0@ != self.lang1@
        &&& self.count == self.entries@.len()
        &&& (self.state is AwaitingAnswer ==> ({
            &&& self.current matches Some(i)
            &&& i < self.entries@.len()
            &&& self.history@.len() == i
        }))
        &&& (self.state is Correcting ==> ({
            &&& self.current matches Some(i)
            &&& i < self.entries@.len()
            &&& self.history@.len() == i + 1
        }))
        &&& (self.state is Finished ==> self.current is None && self.history@.len()
            == self.entries@.len())
        &&& self.total_sum == sum_scores(self.history@)
        &&& forall|k: int| 0 <= k < self.history@.len() ==> 0 <= #[trigger] self.history@[k] <= 100
        &&& (self.history@.len() > 0 ==> self.last_score == self.history@.last())
        &&& (self.history@.len() == 0 ==> self.last_score == 0)
        &&& self.last_score <= 100
    }
}

/// Relies on rand's `SliceRandom::shuffle` with `thread_rng`: a
/// Fisher–Yates pass of in-place swaps, uniform over permutations. Every
/// outcome is a permutation, so the multiset of entries — and with it the
/// length — is unchanged; which permutation comes out is not stated.
#[verifier::external_body]
fn shuffle_entries(v: &mut Vec<Entry>)
    ensures
        final(v)@.to_multiset() == old(v)@.to_multiset(),
        final(v)@.len() == old(v)@.len(),
{
    v.shuffle(&mut rand::thread_rng());
}

proof fn lemma_sum_push(s: Seq<int>, x: int)
    ensures
        sum_scores(s.push(x)) == sum_scores(s) + x,
{
    assert(s.push(x).drop_last() =~= s);
}

proof fn lemma_sum_bounds(s: Seq<int>)
    requires
        forall|k: int| 0 <= k < s.len() ==> 0 <= #[trigger] s[k] <= 100,
    ensures
        0 <= sum_scores(s) <= 100 * s.len(),
    decreases s.len(),
{
    if s.len() > 0 {
        lemma_sum_bounds(s.drop_last());
    }
}

proof fn lemma_multiset_transfers_wf(a: Seq<Entry>, b: Seq<Entry>)
    requires
        a.to_multiset() == b.to_multiset(),
        forall|i: int| 0 <= i < a.len() ==> (#[trigger] a[i])@.wf(),
    ensures
        forall|i: int| 0 <= i < b.len() ==> (#[trigger] b[i])@.wf(),
{
    broadcast use vstd::seq_lib::group_to_multiset_ensures;

    assert forall|i: int| 0 <= i < b.len() implies (#[trigger] b[i])@.wf() by {
        assert(b.contains(b[i]));
        assert(b.to_multiset().count(b[i]) > 0);
        assert(a.contains(b[i]));
        let j = choose|j: int| 0 <= j < a.len() && a[j] == b[i];
        assert(a[j]@.wf());
    }
}

proof fn lemma_view_multiset(a: Seq<Entry>, b: Seq<Entry>)
    requires
        a.to_multiset() == b.to_multiset(),
    ensures
        entry_views(a).to_multiset() == entry_views(b).to_multiset(),
    decreases a.len(),
{
    broadcast use vstd::seq_lib::group_to_multiset_ensures;

    if a.len() == 0 {
        assert(a.to_multiset().len() == 0);
        assert(b.len() == 0);
        assert(entry_views(a) =~= Seq::<EntryV>::empty());
        assert(entry_views(b) =~= Seq::<EntryV>::empty());
    } else {
        let n = a.len() as int;
        let x = a[n - 1];
        assert(a.contains(x));
        assert(a.to_multiset().count(x) > 0);
        assert(b.contains(x));
        let j = choose|j: int| 0 <= j < b.len() && b[j] == x;
        let a2 = a.remove(n - 1);
        let b2 = b.remove(j);
        assert(a2.to_multiset() =~= a.to_multiset().remove(x));
        assert(b2.to_multiset() =~= b.to_multiset().remove(x));
        lemma_view_multiset(a2, b2);
        assert(entry_views(a).remove(n - 1) =~= entry_views(a2));
        assert(entry_views(b).remove(j) =~= entry_views(b2));
        assert(entry_views(a)[n - 1] == x@);
        assert(entry_views(b)[j] == x@);
        assert(entry_views(a).remove(n - 1).to_multiset() =~= entry_views(a).to_multiset().remove(
            x@,
        ));
        assert(entry_views(b).remove(j).to_multiset() =~= entry_views(b).to_multiset().remove(x@));
        assert(entry_views(a).to_multiset().contains(x@)) by {
            assert(entry_views(a).contains(x@));
        }
        assert(entry_views(b).to_multiset().contains(x@)) by {
            assert(entry_views(b).contains(x@));
        }
        assert(entry_views(a).to_multiset() =~= entry_views(a).to_multiset().remove(x@).insert(x@));
        assert(entry_views(b).to_multiset() =~= entry_views(b).to_multiset().remove(x@).insert(x@));
    }
}

/// The built-in fallback deck the session starts with.
pub open spec fn default_entries() -> Seq<EntryV> {
    seq![
        EntryV { term0: "yes"@, term1: "oui"@, class: GramClass::Adverb },
        EntryV { term0: "no"@, term1: "non"@, class: GramClass::Adverb },
        EntryV { term0: "the work"@, term1: "le travail"@, class: GramClass::Noun },
        EntryV { term0: "the rust"@, term1: "la rouille"@, class: GramClass::Noun },
        EntryV { term0: "the solution"@, term1: "la solution"@, class: GramClass::Noun },
        EntryV { term0: "to rise"@, term1: "s'élever"@, class: GramClass::Verb },
    ]
}

impl Session {
    /// Reshuffles the deck in place and rewinds every per-round field.
    fn reset_progress(&mut self)
        requires
            old(self).entries@.len() >= 1,
            forall|i: int|
                0 <= i < old(self).entries@.len() ==> (#[trigger] old(self).entries@[i])@.wf(),
            old(self).lang0@.len() > 0,
            old(self).lang1@.len() > 0,
            old(self).lang0@ != old(self).lang1@,
        ensures
            final(self).wf(),
            entry_views(final(self).entries@).to_multiset() == entry_views(
                old(self).entries@,
            ).to_multiset(),
            final(self).entries@.len() == old(self).entries@.len(),
            final(self).lang0 == old(self).lang0,
            final(self).lang1 == old(self).lang1,
            final(self).error == old(self).error,
            final(self).state is AwaitingAnswer,
            final(self).current matches Some(c) && c == 0,
            final(self).answer@ == Seq::<char>::empty(),
            final(self).last_score == 0,
            final(self).total_sum == 0,
            final(self).history@ == Seq::<int>::empty(),
            final(self).count == final(self).entries@.len(),
    {
        shuffle_entries(&mut self.entries);
        proof {
            lemma_multiset_transfers_wf(old(self).entries@, self.entries@);
            lemma_view_multiset(old(self).entries@, self.entries@);
        }
        self.current = Some(0);
        self.answer = String::new();
        self.last_score = 0;
        self.total_sum = 0;
        self.count = self.entries.len();
        self.state = SessionState::AwaitingAnswer;
        self.history = Ghost(Seq::empty());
    }

    /// A fresh session over the built-in deck, shuffled, with English in
    /// slot 0 and French in slot 1.
    pub fn new() -> (s: Session)
        ensures
            s.wf(),
            s.state is AwaitingAnswer,
            s.error is None,
            s.lang0@ == "English"@,
            s.lang1@ == "French"@,
            entry_views(s.entries@).to_multiset() == default_entries().to_multiset(),
            s.history@ == Seq::<int>::empty(),
            s.total_sum == 0,
            s.last_score == 0,
    {
        let mut entries: Vec<Entry> = Vec::new();
        entries.push(Entry::new("yes".to_owned(), "oui".to_owned(), GramClass::Adverb));
        entries.push(Entry::new("no".to_owned(), "non".to_owned(), GramClass::Adverb));
        entries.push(Entry::new("the work".to_owned(), "le travail".to_owned(), GramClass::Noun));
        entries.push(Entry::new("the rust".to_owned(), "la rouille".to_owned(), GramClass::Noun));
        entries.push(
            Entry::new("the solution".to_owned(), "la solution".to_owned(), GramClass::Noun),
        );
        entries.push(Entry::new("to rise".to_owned(), "s'élever".to_owned(), GramClass::Verb));
        proof {
            assert(entry_views(entries@) =~= default_entries());
            lemma_default_entries_wf();
        }
        let mut s = Session {
            lang0: "English".to_owned(),
            lang1: "French".to_owned(),
            entries,
            current: Some(0),
            answer: String::new(),
            last_score: 0,
            total_sum: 0,
            count: 0,
            state: SessionState::AwaitingAnswer,
            error: None,
            history: Ghost(Seq::empty()),
        };
        proof {
            reveal_strlit("English");
            reveal_strlit("French");
            assert(s.lang0@.len() == 7);
            assert(s.lang1@.len() == 6);
        }
        s.reset_progress();
        s
    }

    /// Installs a freshly parsed deck: replaces the language labels and
    /// the entries, clears any recorded load error, reshuffles, and
    /// rewinds the round.
    pub fn load_deck(&mut self, deck: Deck)
        requires
            deck@.valid(),
        ensures
            final(self).wf(),
            final(self).lang0 == deck.lang0,
            final(self).lang1 == deck.lang1,
            entry_views(final(self).entries@).to_multiset() == deck@.entries.to_multiset(),
            final(self).entries@.len() == deck@.entries.len(),
            final(self).error is None,
            final(self).state is AwaitingAnswer,
            final(self).current matches Some(c) && c == 0,
            final(self).answer@ == Seq::<char>::empty(),
            final(self).last_score == 0,
            final(self).total_sum == 0,
            final(self).history@ == Seq::<int>::empty(),
            final(self).count == final(self).entries@.len(),
    {
        let ghost dv = deck@;
        self.lang0 = deck.lang0;
        self.lang1 = deck.lang1;
        self.entries = deck.entries;
        self.error = None;
        proof {
            assert forall|i: int|
                0 <= i < self.entries@.len() implies (#[trigger] self.entries@[i])@.wf() by {
                assert(dv.entries[i] == self.entries@[i]@);
            }
        }
        self.reset_progress();
    }

    /// Reshuffles the deck it already owns and rewinds the round; the
    /// labels, the entries (as a multiset) and any recorded error stay.
    pub fn restart(&mut self)
        requires
            old(self).wf(),
        ensures
            final(self).wf(),
            entry_views(final(self).entries@).to_multiset() == entry_views(
                old(self).entries@,
            ).to_multiset(),
            final(self).entries@.len() == old(self).entries@.len(),
            final(self).lang0 == old(self).lang0,
            final(self).lang1 == old(self).lang1,
            final(self).error == old(self).error,
            final(self).state is AwaitingAnswer,
            final(self).current matches Some(c) && c == 0,
            final(self).answer@ == Seq::<char>::empty(),
            final(self).last_score == 0,
            final(self).total_sum == 0,
            final(self).history@ == Seq::<int>::empty(),
    {
        self.reset_progress();
    }

    /// Replaces the in-progress answer buffer; nothing else moves.
    pub fn set_answer(&mut self, text: String)
        requires
            old(self).wf(),
        ensures
            final(self).wf(),
            final(self).answer == text,
            final(self).lang0 == old(self).lang0,
            final(self).lang1 == old(self).lang1,
            final(self).entries == old(self).entries,
            final(self).current == old(self).current,
            final(self).last_score == old(self).last_score,
            final(self).total_sum == old(self).total_sum,
            final(self).count == old(self).count,
            final(self).state == old(self).state,
            final(self).error == old(self).error,
            final(self).history == old(self).history,
    {
        self.answer = text;
    }

    /// Grades the answer buffer against the current entry's slot-0 term,
    /// stores the score, adds it to the running total, and moves to the
    /// correction display. A no-op unless an answer is awaited.
    pub fn submit_answer(&mut self)
        requires
            old(self).wf(),
        ensures
            final(self).wf(),
            old(self).state is AwaitingAnswer ==> {
                &&& final(self).state is Correcting
                &&& final(self).last_score == spec_grade(
                    old(self).entries@[old(self).current->0 as int]@,
                    old(self).answer@,
                    0,
                )
                &&& final(self).total_sum == old(self).total_sum + final(self).last_score
                &&& final(self).history@ == old(self).history@.push(final(self).last_score as int)
                &&& final(self).current == old(self).current
                &&& final(self).answer == old(self).answer
                &&& final(self).entries == old(self).entries
                &&& final(self).lang0 == old(self).lang0
                &&& final(self).lang1 == old(self).lang1
                &&& final(self).error == old(self).error
                &&& final(self).count == old(self).count
            },
            !(old(self).state is AwaitingAnswer) ==> *final(self) == *old(self),
    {
        match self.state {
            SessionState::AwaitingAnswer => {},
            _ => {
                return ;
            },
        }
        let i = self.current.unwrap();
        let score = grade(&self.entries[i], self.answer.as_str(), 0);
        proof {
            lemma_sum_bounds(self.history@);
            lemma_sum_push(self.history@, score as int);
        }
        self.last_score = score;
        self.total_sum = self.total_sum + score as u128;
        self.history = Ghost(self.history@.push(score as int));
        self.state = SessionState::Correcting;
    }

    /// Leaves the correction display: moves the cursor to the next entry
    /// and awaits its answer, or, past the last entry, finishes the
    /// round. The answer buffer is cleared. A no-op outside correction.
    pub fn advance(&mut self)
        requires
            old(self).wf(),
        ensures
            final(self).wf(),
            old(self).state is Correcting ==> {
                &&& final(self).answer@ == Seq::<char>::empty()
                &&& (old(self).current->0 + 1 == old(self).entries@.len() ==> final(self).state
                    is Finished && final(self).current is None)
                &&& (old(self).current->0 + 1 < old(self).entries@.len() ==> ({
                    &&& final(self).state is AwaitingAnswer
                    &&& final(self).current matches Some(j)
                    &&& j as int == old(self).current->0 + 1
                }))
                &&& final(self).entries == old(self).entries
                &&& final(self).lang0 == old(self).lang0
                &&& final(self).lang1 == old(self).lang1
                &&& final(self).last_score == old(self).last_score
                &&& final(self).total_sum == old(self).total_sum
                &&& final(self).history == old(self).history
                &&& final(self).error == old(self).error
                &&& final(self).count == old(self).count
            },
            !(old(self).state is Correcting) ==> *final(self) == *old(self),
    {
        match self.state {
            SessionState::Correcting => {},
            _ => {
                return ;
            },
        }
        let i = self.current.unwrap();
        self.answer = String::new();
        if i + 1 == self.entries.len() {
            self.current = None;
            self.state = SessionState::Finished;
        } else {
            self.current = Some(i + 1);
            self.state = SessionState::AwaitingAnswer;
        }
    }

    /// Consumes the outcome of a load attempt. Content is parsed: a good
    /// document installs its deck and clears the error; a malformed one
    /// records `ParseError` and leaves the quiz untouched. A cancelled
    /// dialog changes nothing at all; an I/O failure records `IoError`.
    pub fn handle_load(&mut self, loaded: Result<String, LoadError>)
        requires
            old(self).wf(),
        ensures
            final(self).wf(),
            loaded matches Err(e) ==> (if e is DialogClosed {
                *final(self) == *old(self)
            } else {
                same_quiz(old(self), final(self)) && final(self).error == Some(e)
            }),
            loaded matches Ok(raw) ==> (match spec_parse(raw@) {
                Some(dv) => {
                    &&& final(self).lang0@ == dv.lang0
                    &&& final(self).lang1@ == dv.lang1
                    &&& entry_views(final(self).entries@).to_multiset() == dv.entries.to_multiset()
                    &&& final(self).error is None
                    &&& final(self).state is AwaitingAnswer
                    &&& final(self).current matches Some(c) && c == 0
                    &&& final(self).answer@ == Seq::<char>::empty()
                    &&& final(self).total_sum == 0
                    &&& final(self).history@ == Seq::<int>::empty()
                },
                None => same_quiz(old(self), final(self)) && final(self).error == Some(
                    LoadError::ParseError,
                ),
            }),
    {
        match loaded {
            Err(e) => {
                match e {
                    LoadError::DialogClosed => {},
                    _ => {
                        self.error = Some(e);
                    },
                }
            },
            Ok(raw) => {
                match parse(raw.as_str()) {
                    Ok(d) => {
                        self.load_deck(d);
                    },
                    Err(_) => {
                        self.error = Some(LoadError::ParseError);
                    },
                }
            },
        }
    }

    /// The entry under the cursor, while one is.
    pub fn current_entry(&self) -> (r: Option<&Entry>)
        requires
            self.wf(),
        ensures
            r matches Some(e) ==> self.current matches Some(i) && e == &self.entries@[i as int],
            r is Some <==> self.current is Some,
    {
        match self.current {
            Some(i) => Some(&self.entries[i]),
            None => None,
        }
    }
}

/// Everything of the quiz but the error tag is the same on both sides.
pub open spec fn same_quiz(a: &Session, b: &Session) -> bool {
    &&& b.lang0 == a.lang0
    &&& b.lang1 == a.lang1
    &&& b.entries == a.entries
    &&& b.current == a.current
    &&& b.answer == a.answer
    &&& b.last_score == a.last_score
    &&& b.total_sum == a.total_sum
    &&& b.count == a.count
    &&& b.state == a.state
    &&& b.history == a.history
}

proof fn lemma_default_entries_wf()
    ensures
        forall|i: int|
            0 <= i < default_entries().len() ==> (#[trigger] default_entries()[i]).wf(),
{
    reveal_strlit("yes");
    reveal_strlit("oui");
    reveal_strlit("no");
    reveal_strlit("non");
    reveal_strlit("the work");
    reveal_strlit("le travail");
    reveal_strlit("the rust");
    reveal_strlit("la rouille");
    reveal_strlit("the solution");
    reveal_strlit("la solution");
    reveal_strlit("to rise");
    reveal_strlit("s'élever");
    assert forall|i: int|
        0 <= i < default_entries().len() implies (#[trigger] default_entries()[i]).wf() by {
        assert(default_entries()[i].wf());
    }
}

/// The running total is exactly the sum of the scores submitted this
/// round, and its count is the deck size, however many answers are in.
pub proof fn lemma_running_total(s: &Session)
    requires
        s.wf(),
    ensures
        s.total_sum == sum_scores(s.history@),
        s.count == s.entries@.len(),
{
}

} // verus!
