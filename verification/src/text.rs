//! Character-level helpers shared by the grader and the deck parser:
//! whitespace trimming and case folding over sequences of characters.
//!
//! Trimming is specified against the Unicode White_Space list, written
//! out below, and is implemented here. Case folding is the full Unicode
//! lowercase mapping, which only `str::to_lowercase` can compute: its
//! result carries the name [`lower_of`], and the one fact the contracts
//! add on top of that name is structural — the (impossible) empty fold
//! of a non-empty string falls back to the identity, so that a non-blank
//! term stays non-blank through normalization.

use vstd::prelude::*;

verus! {

/// The characters with the Unicode White_Space property — what
/// `str::trim` removes at either end of a string.
pub open spec fn is_unicode_ws(c: char) -> bool {
    let u = c as u32;
    ||| 0x09 <= u <= 0x0D
    ||| u == 0x20
    ||| u == 0x85
    ||| u == 0xA0
    ||| u == 0x1680
    ||| 0x2000 <= u <= 0x200A
    ||| u == 0x2028
    ||| u == 0x2029
    ||| u == 0x202F
    ||| u == 0x205F
    ||| u == 0x3000
}

/// Whitespace test, usable from executable code.
pub fn is_unicode_ws_char(c: char) -> (r: bool)
    ensures
        r == is_unicode_ws(c),
{
    let u = c as u32;
    (0x09 <= u && u <= 0x0D) || u == 0x20 || u == 0x85 || u == 0xA0 || u == 0x1680 || (0x2000 <= u
        && u <= 0x200A) || u == 0x2028 || u == 0x2029 || u == 0x202F || u == 0x205F || u == 0x3000
}

/// Drops leading whitespace.
pub open spec fn trim_front(s: Seq<char>) -> Seq<char>
    decreases s.len(),
{
    if s.len() > 0 && is_unicode_ws(s[0]) {
        trim_front(s.drop_first())
    } else {
        s
    }
}

/// Drops trailing whitespace.
pub open spec fn trim_back(s: Seq<char>) -> Seq<char>
    decreases s.len(),
{
    if s.len() > 0 && is_unicode_ws(s[s.len() - 1]) {
        trim_back(s.drop_last())
    } else {
        s
    }
}

/// Drops whitespace at both ends; the interior is left as typed.
pub open spec fn trim(s: Seq<char>) -> Seq<char> {
    trim_back(trim_front(s))
}

/// The Unicode lowercase of a sequence of characters, as
/// `str::to_lowercase` computes it: a function of the characters alone.
pub uninterp spec fn lower_of(s: Seq<char>) -> Seq<char>;

/// Relies on `str::to_lowercase`: the Unicode lowercase of the string,
/// depending on its characters alone.
#[verifier::external_body]
fn lowercase_str(s: &str) -> (r: String)
    ensures
        r@ == lower_of(s@),
{
    s.to_lowercase()
}

/// The case-folded form of `s`: its Unicode lowercase. Lowercasing never
/// maps a non-empty string to an empty one; the identity fallback makes
/// that structural, so non-blankness survives folding without claiming
/// more of the outside call.
pub open spec fn fold_case(s: Seq<char>) -> Seq<char> {
    if s.len() > 0 && lower_of(s).len() > 0 {
        lower_of(s)
    } else {
        s
    }
}

/// The comparison form of a free-text answer or an expected term:
/// surrounding whitespace removed, case folded.
pub open spec fn normalize(s: Seq<char>) -> Seq<char> {
    fold_case(trim(s))
}

/// The characters of a string slice, gathered into a vector.
pub fn chars_of(s: &str) -> (v: Vec<char>)
    ensures
        v@ == s@,
{
    let n = s.unicode_len();
    let mut v: Vec<char> = Vec::new();
    let mut i: usize = 0;
    while i < n
        invariant
            n == s@.len(),
            i <= n,
            v@ == s@.subrange(0, i as int),
        decreases n - i,
    {
        v.push(s.get_char(i));
        proof {
            assert(v@ =~= s@.subrange(0, i + 1 as int));
        }
        i = i + 1;
    }
    proof {
        assert(v@ =~= s@);
    }
    v
}

/// `trim_front` keeps exactly the part after the whitespace prefix.
pub proof fn lemma_trim_front_is_subrange(s: Seq<char>, k: int)
    requires
        0 <= k <= s.len(),
        forall|j: int| 0 <= j < k ==> is_unicode_ws(s[j]),
        k == s.len() || !is_unicode_ws(s[k]),
    ensures
        trim_front(s) == s.subrange(k, s.len() as int),
    decreases k,
{
    if k == 0 {
        assert(s.subrange(0, s.len() as int) =~= s);
    } else {
        assert(is_unicode_ws(s[0]));
        lemma_trim_front_is_subrange(s.drop_first(), k - 1);
        assert(s.drop_first().subrange(k - 1, s.drop_first().len() as int) =~= s.subrange(
            k,
            s.len() as int,
        ));
    }
}

proof fn lemma_trim_back_is_subrange(s: Seq<char>, k: int)
    requires
        0 <= k <= s.len(),
        forall|j: int| k <= j < s.len() ==> is_unicode_ws(s[j]),
        k == 0 || !is_unicode_ws(s[k - 1]),
    ensures
        trim_back(s) == s.subrange(0, k),
    decreases s.len() - k,
{
    if k == s.len() {
        assert(s.subrange(0, k) =~= s);
    } else {
        assert(is_unicode_ws(s[s.len() - 1]));
        lemma_trim_back_is_subrange(s.drop_last(), k);
        assert(s.drop_last().subrange(0, k) =~= s.subrange(0, k));
    }
}

/// Trims both ends of `v`, matching `trim`.
fn trim_chars(v: &Vec<char>) -> (r: Vec<char>)
    ensures
        r@ == trim(v@),
{
    let n = v.len();
    let mut lo: usize = 0;
    while lo < n && is_unicode_ws_char(v[lo])
        invariant
            n == v@.len(),
            lo <= n,
            forall|j: int| 0 <= j < lo ==> is_unicode_ws(v@[j]),
        decreases n - lo,
    {
        lo = lo + 1;
    }
    proof {
        lemma_trim_front_is_subrange(v@, lo as int);
    }
    let ghost front = v@.subrange(lo as int, n as int);
    if lo == n {
        proof {
            assert(trim(v@) =~= Seq::<char>::empty());
        }
        let r: Vec<char> = Vec::new();
        return r;
    }
    let mut hi: usize = n;
    while hi > lo && is_unicode_ws_char(v[hi - 1])
        invariant
            n == v@.len(),
            lo <= hi <= n,
            forall|j: int| hi <= j < n ==> is_unicode_ws(v@[j]),
        decreases hi,
    {
        hi = hi - 1;
    }
    proof {
        assert(forall|j: int| hi - lo <= j < front.len() ==> is_unicode_ws(front[j]));
        lemma_trim_back_is_subrange(front, hi - lo);
        assert(trim(v@) =~= v@.subrange(lo as int, hi as int));
    }
    let mut r: Vec<char> = Vec::new();
    let mut i: usize = lo;
    while i < hi
        invariant
            n == v@.len(),
            lo <= i <= hi <= n,
            trim(v@) == v@.subrange(lo as int, hi as int),
            r@ == v@.subrange(lo as int, i as int),
        decreases hi - i,
    {
        r.push(v[i]);
        proof {
            assert(r@ =~= v@.subrange(lo as int, i + 1 as int));
        }
        i = i + 1;
    }
    proof {
        assert(r@ =~= trim(v@));
    }
    r
}

/// Normalizes a string slice: trims it, then folds its case.
pub fn normalize_str(s: &str) -> (r: Vec<char>)
    ensures
        r@ == normalize(s@),
{
    let v = chars_of(s);
    let trimmed = trim_chars(&v);
    if trimmed.len() == 0 {
        return trimmed;
    }
    let folded = chars_of(lowercase_str(string_from_chars(&trimmed).as_str()).as_str());
    if folded.len() > 0 {
        folded
    } else {
        trimmed
    }
}

/// Relies on `String`'s `FromIterator<char>`: collecting characters
/// yields the string of exactly those characters, in order.
#[verifier::external_body]
pub fn string_from_chars(v: &Vec<char>) -> (s: String)
    ensures
        s@ == v@,
{
    v.iter().collect()
}

/// Equality of two character vectors, decided characterwise.
pub fn chars_eq(a: &Vec<char>, b: &Vec<char>) -> (r: bool)
    ensures
        r == (a@ == b@),
{
    if a.len() != b.len() {
        proof {
            assert(a@ != b@);
        }
        return false;
    }
    let n = a.len();
    let mut i: usize = 0;
    while i < n
        invariant
            n == a@.len() == b@.len(),
            i <= n,
            forall|j: int| 0 <= j < i ==> a@[j] == b@[j],
        decreases n - i,
    {
        if a[i] != b[i] {
            return false;
        }
        i = i + 1;
    }
    proof {
        assert(a@ =~= b@);
    }
    true
}

} // verus!
