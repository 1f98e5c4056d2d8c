//! The deck loader. A deck file is a small structured text document:
//!
//! ```text
//! { "languages": ["English", "French"],
//!   "entries": [
//!     { "term0": "yes", "term1": "oui", "class": "Adverb" },
//!     { "term0": "the work", "term1": "le travail", "class": "Noun" }
//!   ] }
//! ```
//!
//! The grammar is defined here as specification functions over the
//! character sequence; `parse` is proved to return `Ok` exactly on the
//! documents the grammar accepts whose deck is also valid (two distinct,
//! non-empty language labels; at least one entry; no blank term). Any
//! deviation — a missing field, an unknown class tag, malformed structure,
//! a blank term — is a parse failure; no partial deck is ever produced.

use vstd::prelude::*;
use crate::entry::{Entry, EntryV, GramClass};
use crate::text::{chars_of, chars_eq, normalize_str, string_from_chars};

verus! {

/// The whitespace the deck grammar accepts between tokens.
pub open spec fn is_ws(c: char) -> bool {
    c == ' ' || c == '\t' || c == '\n' || c == '\r'
}

fn is_ws_char(c: char) -> (r: bool)
    ensures
        r == is_ws(c),
{
    c == ' ' || c == '\t' || c == '\n' || c == '\r'
}

/// The single kind of failure the loader reports: the content does not
/// match the deck grammar or does not make a valid deck. Distinguishing
/// unreadable files from malformed content is the caller's business.
#[derive(Clone, Copy, PartialEq, Eq, Structural, Debug)]
pub struct ParseFailure;

/// A language-label pair and an ordered list of entries, as parsed.
pub struct Deck {
    pub lang0: String,
    pub lang1: String,
    pub entries: Vec<Entry>,
}

/// The mathematical value of a [`Deck`].
pub struct DeckV {
    pub lang0: Seq<char>,
    pub lang1: Seq<char>,
    pub entries: Seq<EntryV>,
}

impl View for Deck {
    type V = DeckV;

    open spec fn view(&self) -> DeckV {
        DeckV {
            lang0: self.lang0@,
            lang1: self.lang1@,
            entries: self.entries@.map_values(|e: Entry| e@),
        }
    }
}

impl DeckV {
    /// A valid deck names two distinct, non-empty languages and holds at
    /// least one well-formed entry.
    pub open spec fn valid(self) -> bool {
        &&& self.lang0.len() > 0
        &&& self.lang1.len() > 0
        &&& self.lang0 != self.lang1
        &&& self.entries.len() >= 1
        &&& forall|i: int| 0 <= i < self.entries.len() ==> (#[trigger] self.entries[i]).wf()
    }
}

// ---------------------------------------------------------------------
// The grammar, as specification functions. Each takes the document `s`
// and a position `i`, and yields the parsed value with the position just
// after it, or `None` when the text at `i` does not match.
// ---------------------------------------------------------------------

/// The position of the first non-whitespace character at or after `i`.
pub open spec fn skip_ws(s: Seq<char>, i: int) -> int
    decreases s.len() - i,
{
    if 0 <= i < s.len() && is_ws(s[i]) {
        skip_ws(s, i + 1)
    } else {
        i
    }
}

/// A single expected character.
pub open spec fn parse_char(s: Seq<char>, i: int, c: char) -> Option<int> {
    if 0 <= i < s.len() && s[i] == c {
        Some(i + 1)
    } else {
        None
    }
}

/// An expected literal word.
pub open spec fn parse_lit(s: Seq<char>, i: int, lit: Seq<char>) -> Option<int> {
    if 0 <= i && i + lit.len() <= s.len() && s.subrange(i, i + lit.len()) == lit {
        Some(i + lit.len())
    } else {
        None
    }
}

/// The escape codes accepted after a backslash inside a quoted string.
pub open spec fn is_escape_code(c: char) -> bool {
    c == '"' || c == '\\' || c == '/' || c == 'n' || c == 't' || c == 'r'
}

/// The character an escape code stands for.
pub open spec fn unescape(c: char) -> char {
    if c == 'n' {
        '\n'
    } else if c == 't' {
        '\t'
    } else if c == 'r' {
        '\r'
    } else {
        c
    }
}

/// The body of a quoted string, from just after the opening quote to just
/// after the closing one.
pub open spec fn parse_string_body(s: Seq<char>, i: int) -> Option<(Seq<char>, int)>
    decreases s.len() - i,
{
    if !(0 <= i < s.len()) {
        None
    } else if s[i] == '"' {
        Some((Seq::empty(), i + 1))
    } else if s[i] == '\\' {
        if i + 1 < s.len() && is_escape_code(s[i + 1]) {
            let rest = parse_string_body(s, i + 2);
            if rest is Some {
                Some((seq![unescape(s[i + 1])] + (rest->0).0, (rest->0).1))
            } else {
                None
            }
        } else {
            None
        }
    } else {
        let rest = parse_string_body(s, i + 1);
        if rest is Some {
            Some((seq![s[i]] + (rest->0).0, (rest->0).1))
        } else {
            None
        }
    }
}

/// A quoted string.
pub open spec fn parse_string(s: Seq<char>, i: int) -> Option<(Seq<char>, int)> {
    let q = parse_char(s, i, '"');
    if q is Some {
        parse_string_body(s, q->0)
    } else {
        None
    }
}

/// The grammatical class a tag names.
pub open spec fn parse_class(tag: Seq<char>) -> Option<GramClass> {
    if tag == "Adverb"@ {
        Some(GramClass::Adverb)
    } else if tag == "Noun"@ {
        Some(GramClass::Noun)
    } else if tag == "Verb"@ {
        Some(GramClass::Verb)
    } else {
        None
    }
}

/// A quoted key followed by a colon and a quoted string value.
pub open spec fn parse_key_string(s: Seq<char>, i: int, key: Seq<char>) -> Option<(Seq<char>, int)> {
    let k = parse_lit(s, i, key);
    let c = if k is Some {
        parse_char(s, skip_ws(s, k->0), ':')
    } else {
        None
    };
    if c is Some {
        parse_string(s, skip_ws(s, c->0))
    } else {
        None
    }
}

/// One entry record: its two terms and its class tag, in that order.
pub open spec fn parse_entry(s: Seq<char>, i: int) -> Option<(EntryV, int)> {
    let h = parse_char(s, i, '{');
    let r0 = if h is Some {
        parse_key_string(s, skip_ws(s, h->0), "\"term0\""@)
    } else {
        None
    };
    let c1 = if r0 is Some {
        parse_char(s, skip_ws(s, (r0->0).1), ',')
    } else {
        None
    };
    let r1 = if c1 is Some {
        parse_key_string(s, skip_ws(s, c1->0), "\"term1\""@)
    } else {
        None
    };
    let c2 = if r1 is Some {
        parse_char(s, skip_ws(s, (r1->0).1), ',')
    } else {
        None
    };
    let rc = if c2 is Some {
        parse_key_string(s, skip_ws(s, c2->0), "\"class\""@)
    } else {
        None
    };
    let cb = if rc is Some {
        parse_char(s, skip_ws(s, (rc->0).1), '}')
    } else {
        None
    };
    if cb is Some && parse_class((rc->0).0) is Some {
        let class = parse_class((rc->0).0)->0;
        Some((EntryV { term0: (r0->0).0, term1: (r1->0).0, class }, cb->0))
    } else {
        None
    }
}

/// The language-label pair: a bracketed pair of quoted strings.
pub open spec fn parse_langs(s: Seq<char>, i: int) -> Option<((Seq<char>, Seq<char>), int)> {
    let h = parse_char(s, i, '[');
    let l0 = if h is Some {
        parse_string(s, skip_ws(s, h->0))
    } else {
        None
    };
    let c = if l0 is Some {
        parse_char(s, skip_ws(s, (l0->0).1), ',')
    } else {
        None
    };
    let l1 = if c is Some {
        parse_string(s, skip_ws(s, c->0))
    } else {
        None
    };
    let t = if l1 is Some {
        parse_char(s, skip_ws(s, (l1->0).1), ']')
    } else {
        None
    };
    if t is Some {
        Some((((l0->0).0, (l1->0).0), t->0))
    } else {
        None
    }
}

/// The entries after the first one: either the closing bracket, or a
/// comma and a further entry, repeatedly.
pub open spec fn parse_entries_rest(s: Seq<char>, i: int) -> Option<(Seq<EntryV>, int)>
    decreases s.len() - i,
    via parse_entries_rest_decreases
{
    let j = skip_ws(s, i);
    if parse_char(s, j, ']') is Some {
        Some((Seq::empty(), parse_char(s, j, ']')->0))
    } else {
        let c = parse_char(s, j, ',');
        let e = if c is Some {
            parse_entry(s, skip_ws(s, c->0))
        } else {
            None
        };
        if e is Some {
            let rest = parse_entries_rest(s, (e->0).1);
            if rest is Some {
                Some((seq![(e->0).0] + (rest->0).0, (rest->0).1))
            } else {
                None
            }
        } else {
            None
        }
    }
}

/// The bracketed entry list.
pub open spec fn parse_entries(s: Seq<char>, i: int) -> Option<(Seq<EntryV>, int)> {
    let h = parse_char(s, i, '[');
    if h is None {
        None
    } else {
        let j = skip_ws(s, h->0);
        if parse_char(s, j, ']') is Some {
            Some((Seq::empty(), parse_char(s, j, ']')->0))
        } else {
            let e = parse_entry(s, j);
            let rest = if e is Some {
                parse_entries_rest(s, (e->0).1)
            } else {
                None
            };
            if rest is Some {
                Some((seq![(e->0).0] + (rest->0).0, (rest->0).1))
            } else {
                None
            }
        }
    }
}

/// A whole document: the language pair, then the entry list, between
/// braces, with nothing but whitespace around them.
pub open spec fn parse_document(s: Seq<char>) -> Option<DeckV> {
    let h = parse_char(s, skip_ws(s, 0), '{');
    let kl = if h is Some {
        parse_lit(s, skip_ws(s, h->0), "\"languages\""@)
    } else {
        None
    };
    let cl = if kl is Some {
        parse_char(s, skip_ws(s, kl->0), ':')
    } else {
        None
    };
    let ls = if cl is Some {
        parse_langs(s, skip_ws(s, cl->0))
    } else {
        None
    };
    let cm = if ls is Some {
        parse_char(s, skip_ws(s, (ls->0).1), ',')
    } else {
        None
    };
    let ke = if cm is Some {
        parse_lit(s, skip_ws(s, cm->0), "\"entries\""@)
    } else {
        None
    };
    let ce = if ke is Some {
        parse_char(s, skip_ws(s, ke->0), ':')
    } else {
        None
    };
    let es = if ce is Some {
        parse_entries(s, skip_ws(s, ce->0))
    } else {
        None
    };
    let tb = if es is Some {
        parse_char(s, skip_ws(s, (es->0).1), '}')
    } else {
        None
    };
    if tb is Some && skip_ws(s, tb->0) == s.len() {
        Some(
            DeckV {
                lang0: ((ls->0).0).0,
                lang1: ((ls->0).0).1,
                entries: (es->0).0,
            },
        )
    } else {
        None
    }
}

/// What `parse` returns on a given document: the deck the grammar yields,
/// provided it is valid; otherwise nothing.
pub open spec fn spec_parse(s: Seq<char>) -> Option<DeckV> {
    let d = parse_document(s);
    if d is Some && d->0.valid() {
        d
    } else {
        None
    }
}

// ---------------------------------------------------------------------
// Position bounds of the grammar functions, needed for termination of
// the entry-list recursion.
// ---------------------------------------------------------------------

proof fn lemma_skip_ws_bounds(s: Seq<char>, i: int)
    requires
        0 <= i <= s.len(),
    ensures
        i <= skip_ws(s, i) <= s.len(),
    decreases s.len() - i,
{
    if i < s.len() && is_ws(s[i]) {
        lemma_skip_ws_bounds(s, i + 1);
    }
}

proof fn lemma_parse_string_body_bounds(s: Seq<char>, i: int)
    ensures
        parse_string_body(s, i) matches Some(r) ==> i < r.1 <= s.len(),
    decreases s.len() - i,
{
    if 0 <= i < s.len() {
        if s[i] == '"' {
        } else if s[i] == '\\' {
            if i + 1 < s.len() && is_escape_code(s[i + 1]) {
                lemma_parse_string_body_bounds(s, i + 2);
            }
        } else {
            lemma_parse_string_body_bounds(s, i + 1);
        }
    }
}

proof fn lemma_parse_string_bounds(s: Seq<char>, i: int)
    ensures
        parse_string(s, i) matches Some(r) ==> 0 <= i < r.1 <= s.len(),
{
    let q = parse_char(s, i, '"');
    if q is Some {
        lemma_parse_string_body_bounds(s, q->0);
    }
}

proof fn lemma_parse_key_string_bounds(s: Seq<char>, i: int, key: Seq<char>)
    ensures
        parse_key_string(s, i, key) matches Some(r) ==> i < r.1 <= s.len(),
{
    let k = parse_lit(s, i, key);
    if k is Some {
        lemma_skip_ws_bounds(s, k->0);
        let c = parse_char(s, skip_ws(s, k->0), ':');
        if c is Some {
            lemma_skip_ws_bounds(s, c->0);
            lemma_parse_string_bounds(s, skip_ws(s, c->0));
        }
    }
}

proof fn lemma_parse_entry_bounds(s: Seq<char>, i: int)
    ensures
        parse_entry(s, i) matches Some(r) ==> i < r.1 <= s.len(),
{
    let h = parse_char(s, i, '{');
    if h is Some {
        lemma_skip_ws_bounds(s, h->0);
        lemma_parse_key_string_bounds(s, skip_ws(s, h->0), "\"term0\""@);
        let r0 = parse_key_string(s, skip_ws(s, h->0), "\"term0\""@);
        if r0 is Some {
            lemma_skip_ws_bounds(s, (r0->0).1);
            let c1 = parse_char(s, skip_ws(s, (r0->0).1), ',');
            if c1 is Some {
                lemma_skip_ws_bounds(s, c1->0);
                lemma_parse_key_string_bounds(s, skip_ws(s, c1->0), "\"term1\""@);
                let r1 = parse_key_string(s, skip_ws(s, c1->0), "\"term1\""@);
                if r1 is Some {
                    lemma_parse_entry_bounds_tail(s, (r1->0).1);
                }
            }
        }
    }
}

proof fn lemma_parse_entry_bounds_tail(s: Seq<char>, i: int)
    requires
        0 <= i <= s.len(),
    ensures
        ({
            let c2 = parse_char(s, skip_ws(s, i), ',');
            let rc = if c2 is Some {
                parse_key_string(s, skip_ws(s, c2->0), "\"class\""@)
            } else {
                None
            };
            let cb = if rc is Some {
                parse_char(s, skip_ws(s, (rc->0).1), '}')
            } else {
                None
            };
            cb matches Some(j) ==> i < j <= s.len()
        }),
{
    lemma_skip_ws_bounds(s, i);
    let c2 = parse_char(s, skip_ws(s, i), ',');
    if c2 is Some {
        lemma_skip_ws_bounds(s, c2->0);
        lemma_parse_key_string_bounds(s, skip_ws(s, c2->0), "\"class\""@);
        let rc = parse_key_string(s, skip_ws(s, c2->0), "\"class\""@);
        if rc is Some {
            lemma_skip_ws_bounds(s, (rc->0).1);
        }
    }
}

// ---------------------------------------------------------------------
// The executable parser, one function per grammar function, each proved
// to return exactly what its grammar function says.
// ---------------------------------------------------------------------

fn skip_ws_x(v: &Vec<char>, i: usize) -> (r: usize)
    requires
        i <= v@.len(),
    ensures
        r as int == skip_ws(v@, i as int),
        i <= r <= v@.len(),
{
    let n = v.len();
    let mut r = i;
    while r < n && is_ws_char(v[r])
        invariant
            i <= r <= n,
            n == v@.len(),
            skip_ws(v@, i as int) == skip_ws(v@, r as int),
        decreases n - r,
    {
        r = r + 1;
    }
    r
}

fn expect_char(v: &Vec<char>, i: usize, c: char) -> (r: Option<usize>)
    ensures
        r is Some <==> parse_char(v@, i as int, c) is Some,
        r matches Some(j) ==> parse_char(v@, i as int, c) == Some(j as int) && j <= v@.len(),
{
    if i < v.len() && v[i] == c {
        Some(i + 1)
    } else {
        None
    }
}

fn expect_lit(v: &Vec<char>, i: usize, lit: &str) -> (r: Option<usize>)
    requires
        i <= v@.len(),
    ensures
        r is Some <==> parse_lit(v@, i as int, lit@) is Some,
        r matches Some(j) ==> parse_lit(v@, i as int, lit@) == Some(j as int) && j <= v@.len(),
{
    let n = v.len();
    let len = lit.unicode_len();
    if len > n - i {
        return None;
    }
    let mut k: usize = 0;
    while k < len
        invariant
            i + len <= n,
            n == v@.len(),
            len == lit@.len(),
            k <= len,
            forall|m: int| 0 <= m < k ==> v@[i + m] == lit@[m],
        decreases len - k,
    {
        if v[i + k] != lit.get_char(k) {
            proof {
                assert(v@.subrange(i as int, i + lit@.len())[k as int] != lit@[k as int]);
            }
            return None;
        }
        k = k + 1;
    }
    proof {
        assert(v@.subrange(i as int, i + lit@.len()) =~= lit@);
    }
    Some(i + len)
}

/// Whole-sequence comparison against a literal word.
fn eq_lit(v: &Vec<char>, lit: &str) -> (r: bool)
    ensures
        r == (v@ == lit@),
{
    let n = v.len();
    let len = lit.unicode_len();
    if n != len {
        proof {
            assert(v@ != lit@);
        }
        return false;
    }
    let mut k: usize = 0;
    while k < len
        invariant
            n == len == v@.len() == lit@.len(),
            k <= len,
            forall|m: int| 0 <= m < k ==> v@[m] == lit@[m],
        decreases len - k,
    {
        if v[k] != lit.get_char(k) {
            return false;
        }
        k = k + 1;
    }
    proof {
        assert(v@ =~= lit@);
    }
    true
}

fn is_escape_code_x(c: char) -> (r: bool)
    ensures
        r == is_escape_code(c),
{
    c == '"' || c == '\\' || c == '/' || c == 'n' || c == 't' || c == 'r'
}

fn unescape_x(c: char) -> (r: char)
    ensures
        r == unescape(c),
{
    if c == 'n' {
        '\n'
    } else if c == 't' {
        '\t'
    } else if c == 'r' {
        '\r'
    } else {
        c
    }
}

fn parse_string_body_x(v: &Vec<char>, i: usize) -> (r: Option<(Vec<char>, usize)>)
    ensures
        r is Some <==> parse_string_body(v@, i as int) is Some,
        r matches Some(p) ==> parse_string_body(v@, i as int) == Some((p.0@, p.1 as int)) && p.1
            <= v@.len(),
    decreases v@.len() - i,
{
    let n = v.len();
    if i >= n {
        return None;
    }
    let c = v[i];
    if c == '"' {
        let t: Vec<char> = Vec::new();
        proof {
            assert(t@ =~= Seq::<char>::empty());
        }
        Some((t, i + 1))
    } else if c == '\\' {
        if i + 1 < n && is_escape_code_x(v[i + 1]) {
            let u = unescape_x(v[i + 1]);
            match parse_string_body_x(v, i + 2) {
                None => None,
                Some((mut t, j)) => {
                    t.insert(0, u);
                    proof {
                        let spec_rest = parse_string_body(v@, i + 2)->0;
                        assert(t@ =~= seq![unescape(v@[i + 1])] + spec_rest.0);
                    }
                    Some((t, j))
                },
            }
        } else {
            None
        }
    } else {
        match parse_string_body_x(v, i + 1) {
            None => None,
            Some((mut t, j)) => {
                t.insert(0, c);
                proof {
                    let spec_rest = parse_string_body(v@, i + 1)->0;
                    assert(t@ =~= seq![v@[i as int]] + spec_rest.0);
                }
                Some((t, j))
            },
        }
    }
}

fn parse_string_x(v: &Vec<char>, i: usize) -> (r: Option<(Vec<char>, usize)>)
    ensures
        r is Some <==> parse_string(v@, i as int) is Some,
        r matches Some(p) ==> parse_string(v@, i as int) == Some((p.0@, p.1 as int)) && p.1
            <= v@.len(),
{
    match expect_char(v, i, '"') {
        None => None,
        Some(a) => parse_string_body_x(v, a),
    }
}

fn class_of(tag: &Vec<char>) -> (r: Option<GramClass>)
    ensures
        r == parse_class(tag@),
{
    if eq_lit(tag, "Adverb") {
        Some(GramClass::Adverb)
    } else if eq_lit(tag, "Noun") {
        Some(GramClass::Noun)
    } else if eq_lit(tag, "Verb") {
        Some(GramClass::Verb)
    } else {
        None
    }
}

fn parse_key_string_x(v: &Vec<char>, i: usize, key: &str) -> (r: Option<(Vec<char>, usize)>)
    requires
        i <= v@.len(),
    ensures
        r is Some <==> parse_key_string(v@, i as int, key@) is Some,
        r matches Some(p) ==> parse_key_string(v@, i as int, key@) == Some((p.0@, p.1 as int))
            && p.1 <= v@.len(),
{
    let a = match expect_lit(v, i, key) {
        None => {
            return None;
        },
        Some(a) => a,
    };
    let b = match expect_char(v, skip_ws_x(v, a), ':') {
        None => {
            return None;
        },
        Some(b) => b,
    };
    parse_string_x(v, skip_ws_x(v, b))
}

fn parse_entry_x(v: &Vec<char>, i: usize) -> (r: Option<(Entry, usize)>)
    requires
        i <= v@.len(),
    ensures
        r is Some <==> parse_entry(v@, i as int) is Some,
        r matches Some(p) ==> parse_entry(v@, i as int) == Some((p.0@, p.1 as int)) && p.1
            <= v@.len(),
{
    let h = match expect_char(v, i, '{') {
        None => {
            return None;
        },
        Some(h) => h,
    };
    let (t0, b) = match parse_key_string_x(v, skip_ws_x(v, h), "\"term0\"") {
        None => {
            return None;
        },
        Some(p) => p,
    };
    let c1 = match expect_char(v, skip_ws_x(v, b), ',') {
        None => {
            return None;
        },
        Some(c1) => c1,
    };
    let (t1, d) = match parse_key_string_x(v, skip_ws_x(v, c1), "\"term1\"") {
        None => {
            return None;
        },
        Some(p) => p,
    };
    let c2 = match expect_char(v, skip_ws_x(v, d), ',') {
        None => {
            return None;
        },
        Some(c2) => c2,
    };
    let (tag, f) = match parse_key_string_x(v, skip_ws_x(v, c2), "\"class\"") {
        None => {
            return None;
        },
        Some(p) => p,
    };
    let g = match expect_char(v, skip_ws_x(v, f), '}') {
        None => {
            return None;
        },
        Some(g) => g,
    };
    let class = match class_of(&tag) {
        None => {
            return None;
        },
        Some(class) => class,
    };
    let entry = Entry::new(string_from_chars(&t0), string_from_chars(&t1), class);
    Some((entry, g))
}

fn parse_langs_x(v: &Vec<char>, i: usize) -> (r: Option<(Vec<char>, Vec<char>, usize)>)
    requires
        i <= v@.len(),
    ensures
        r is Some <==> parse_langs(v@, i as int) is Some,
        r matches Some(p) ==> parse_langs(v@, i as int) == Some(((p.0@, p.1@), p.2 as int)) && p.2
            <= v@.len(),
{
    let h = match expect_char(v, i, '[') {
        None => {
            return None;
        },
        Some(h) => h,
    };
    let (l0, b) = match parse_string_x(v, skip_ws_x(v, h)) {
        None => {
            return None;
        },
        Some(p) => p,
    };
    let c = match expect_char(v, skip_ws_x(v, b), ',') {
        None => {
            return None;
        },
        Some(c) => c,
    };
    let (l1, d) = match parse_string_x(v, skip_ws_x(v, c)) {
        None => {
            return None;
        },
        Some(p) => p,
    };
    let t = match expect_char(v, skip_ws_x(v, d), ']') {
        None => {
            return None;
        },
        Some(t) => t,
    };
    Some((l0, l1, t))
}

fn parse_entries_rest_x(v: &Vec<char>, i: usize) -> (r: Option<(Vec<Entry>, usize)>)
    requires
        i <= v@.len(),
    ensures
        r is Some <==> parse_entries_rest(v@, i as int) is Some,
        r matches Some(p) ==> parse_entries_rest(v@, i as int) == Some(
            (p.0@.map_values(|e: Entry| e@), p.1 as int),
        ) && p.1 <= v@.len(),
    decreases v@.len() - i,
{
    let j = skip_ws_x(v, i);
    if let Some(end) = expect_char(v, j, ']') {
        let es: Vec<Entry> = Vec::new();
        proof {
            assert(es@.map_values(|e: Entry| e@) =~= Seq::<EntryV>::empty());
        }
        return Some((es, end));
    }
    let a = match expect_char(v, j, ',') {
        None => {
            return None;
        },
        Some(a) => a,
    };
    let k0 = skip_ws_x(v, a);
    let (e, k) = match parse_entry_x(v, k0) {
        None => {
            return None;
        },
        Some(p) => p,
    };
    proof {
        lemma_parse_entry_bounds(v@, k0 as int);
    }
    match parse_entries_rest_x(v, k) {
        None => None,
        Some((mut es, end)) => {
            es.insert(0, e);
            proof {
                let spec_rest = parse_entries_rest(v@, k as int)->0;
                assert(es@.map_values(|q: Entry| q@) =~= seq![e@] + spec_rest.0);
            }
            Some((es, end))
        },
    }
}

fn parse_entries_x(v: &Vec<char>, i: usize) -> (r: Option<(Vec<Entry>, usize)>)
    requires
        i <= v@.len(),
    ensures
        r is Some <==> parse_entries(v@, i as int) is Some,
        r matches Some(p) ==> parse_entries(v@, i as int) == Some(
            (p.0@.map_values(|e: Entry| e@), p.1 as int),
        ) && p.1 <= v@.len(),
{
    let h = match expect_char(v, i, '[') {
        None => {
            return None;
        },
        Some(h) => h,
    };
    let j = skip_ws_x(v, h);
    if let Some(end) = expect_char(v, j, ']') {
        let es: Vec<Entry> = Vec::new();
        proof {
            assert(es@.map_values(|e: Entry| e@) =~= Seq::<EntryV>::empty());
        }
        return Some((es, end));
    }
    let (e, k) = match parse_entry_x(v, j) {
        None => {
            return None;
        },
        Some(p) => p,
    };
    match parse_entries_rest_x(v, k) {
        None => None,
        Some((mut es, end)) => {
            es.insert(0, e);
            proof {
                let spec_rest = parse_entries_rest(v@, k as int)->0;
                assert(es@.map_values(|q: Entry| q@) =~= seq![e@] + spec_rest.0);
            }
            Some((es, end))
        },
    }
}

fn parse_document_x(v: &Vec<char>) -> (r: Option<Deck>)
    ensures
        r is Some <==> parse_document(v@) is Some,
        r matches Some(d) ==> parse_document(v@) == Some(d@),
{
    let h = match expect_char(v, skip_ws_x(v, 0), '{') {
        None => {
            return None;
        },
        Some(h) => h,
    };
    let kl = match expect_lit(v, skip_ws_x(v, h), "\"languages\"") {
        None => {
            return None;
        },
        Some(kl) => kl,
    };
    let cl = match expect_char(v, skip_ws_x(v, kl), ':') {
        None => {
            return None;
        },
        Some(cl) => cl,
    };
    let (l0, l1, d) = match parse_langs_x(v, skip_ws_x(v, cl)) {
        None => {
            return None;
        },
        Some(p) => p,
    };
    let cm = match expect_char(v, skip_ws_x(v, d), ',') {
        None => {
            return None;
        },
        Some(cm) => cm,
    };
    let ke = match expect_lit(v, skip_ws_x(v, cm), "\"entries\"") {
        None => {
            return None;
        },
        Some(ke) => ke,
    };
    let ce = match expect_char(v, skip_ws_x(v, ke), ':') {
        None => {
            return None;
        },
        Some(ce) => ce,
    };
    let (es, hh) = match parse_entries_x(v, skip_ws_x(v, ce)) {
        None => {
            return None;
        },
        Some(p) => p,
    };
    let tb = match expect_char(v, skip_ws_x(v, hh), '}') {
        None => {
            return None;
        },
        Some(tb) => tb,
    };
    if skip_ws_x(v, tb) != v.len() {
        return None;
    }
    Some(Deck { lang0: string_from_chars(&l0), lang1: string_from_chars(&l1), entries: es })
}

/// Decides [`DeckV::valid`] for a parsed deck.
fn check_valid(d: &Deck) -> (r: bool)
    ensures
        r == d@.valid(),
{
    if d.lang0.as_str().unicode_len() == 0 {
        return false;
    }
    if d.lang1.as_str().unicode_len() == 0 {
        return false;
    }
    let v0 = chars_of(d.lang0.as_str());
    let v1 = chars_of(d.lang1.as_str());
    if chars_eq(&v0, &v1) {
        return false;
    }
    let n = d.entries.len();
    if n == 0 {
        return false;
    }
    let mut i: usize = 0;
    while i < n
        invariant
            n == d.entries@.len(),
            i <= n,
            forall|j: int| 0 <= j < i ==> (#[trigger] d@.entries[j]).wf(),
            d@.entries.len() == n,
        decreases n - i,
    {
        let e = &d.entries[i];
        proof {
            assert(d@.entries[i as int] == d.entries@[i as int]@);
        }
        if normalize_str(e.term0.as_str()).len() == 0 {
            return false;
        }
        if normalize_str(e.term1.as_str()).len() == 0 {
            return false;
        }
        i = i + 1;
    }
    true
}

/// Parses raw text into a validated deck, or reports failure. Returns
/// `Ok` exactly when the text matches the deck grammar and the deck it
/// describes is valid; nothing is ever partially applied.
pub fn parse(raw: &str) -> (r: Result<Deck, ParseFailure>)
    ensures
        r is Ok <==> spec_parse(raw@) is Some,
        r matches Ok(d) ==> spec_parse(raw@) == Some(d@) && d@.valid(),
{
    let v = chars_of(raw);
    match parse_document_x(&v) {
        None => Err(ParseFailure),
        Some(d) => {
            if check_valid(&d) {
                Ok(d)
            } else {
                Err(ParseFailure)
            }
        },
    }
}

#[via_fn]
proof fn parse_entries_rest_decreases(s: Seq<char>, i: int) {
    let j = skip_ws(s, i);
    if parse_char(s, j, ']') is None {
        let c = parse_char(s, j, ',');
        if c is Some {
            assert(j >= i) by {
                if 0 <= i <= s.len() {
                    lemma_skip_ws_bounds(s, i);
                }
            }
            lemma_skip_ws_bounds(s, c->0);
            lemma_parse_entry_bounds(s, skip_ws(s, c->0));
        }
    }
}

} // verus!
