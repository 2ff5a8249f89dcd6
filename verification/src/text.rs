//! Text as sequences of characters.
//!
//! The library works on `Vec<char>`, whose view is the `Seq<char>` that the
//! contracts speak of. The functions here move between that form and
//! `&str` / `String`.
use vstd::prelude::*;

verus! {

/// The characters of `s`, in order.
pub fn to_chars(s: &str) -> (out: Vec<char>)
    ensures
        out@ == s@,
{
    let mut out: Vec<char> = Vec::new();
    for c in iter: s.chars()
        invariant
            iter.seq() == s@,
            out@ == s@.subrange(0, iter.index() as int),
    {
        out.push(c);
    }
    assert(out@ == s@);
    out
}

/// `String::push`: appends one character to the end of the string.
#[verifier::external_body]
fn push_char(s: &mut String, c: char)
    ensures
        final(s)@ == old(s)@.push(c),
{
    s.push(c)
}

/// The string made of the characters of `chars`, in order.
pub fn to_text(chars: &Vec<char>) -> (out: String)
    ensures
        out@ == chars@,
{
    let mut out: String = String::new();
    let mut i: usize = 0;
    while i < chars.len()
        invariant
            i <= chars.len(),
            out@ == chars@.subrange(0, i as int),
        decreases chars.len() - i,
    {
        push_char(&mut out, chars[i]);
        i = i + 1;
    }
    out
}

/// Whether two texts hold the same characters.
pub fn same_text(a: &Vec<char>, b: &Vec<char>) -> (r: bool)
    ensures
        r == (a@ == b@),
{
    if a.len() != b.len() {
        return false;
    }
    let mut i: usize = 0;
    while i < a.len()
        invariant
            a.len() == b.len(),
            i <= a.len(),
            a@.subrange(0, i as int) == b@.subrange(0, i as int),
        decreases a.len() - i,
    {
        if a[i] != b[i] {
            return false;
        }
        assert(a@.subrange(0, i + 1) == a@.subrange(0, i as int).push(a@[i as int]));
        assert(b@.subrange(0, i + 1) == b@.subrange(0, i as int).push(b@[i as int]));
        i = i + 1;
    }
    assert(a@ == a@.subrange(0, a.len() as int));
    assert(b@ == b@.subrange(0, b.len() as int));
    true
}

/// A copy of `a`.
pub fn copy_text(a: &Vec<char>) -> (out: Vec<char>)
    ensures
        out@ == a@,
{
    let mut out: Vec<char> = Vec::new();
    let mut i: usize = 0;
    while i < a.len()
        invariant
            i <= a.len(),
            out@ == a@.subrange(0, i as int),
        decreases a.len() - i,
    {
        out.push(a[i]);
        i = i + 1;
    }
    assert(a@ == a@.subrange(0, a.len() as int));
    out
}

/// The lower-case form of a text, as `str::to_lowercase` gives it.
pub uninterp spec fn lowercase_of(text: Seq<char>) -> Seq<char>;

/// `str::to_lowercase`: the lower-case equivalent of the text, as a new
/// string. Nothing is proved of it; the contract only gives the result its
/// name, `lowercase_of`, which says that it depends on the text alone.
#[verifier::external_body]
fn lowercase(text: &str) -> (out: String)
    ensures
        out@ == lowercase_of(text@),
{
    text.to_lowercase()
}

/// The lower-case form of `text`.
pub fn fold(text: &Vec<char>) -> (out: Vec<char>)
    ensures
        out@ == lowercase_of(text@),
{
    let written = to_text(text);
    let lowered = lowercase(written.as_str());
    to_chars(lowered.as_str())
}

/// The first offset at or after `from` at which `a` and `b` differ, or at
/// which one of them ends.
pub open spec fn mismatch(a: Seq<char>, b: Seq<char>, from: int) -> int
    decreases a.len() - from,
{
    if 0 <= from < a.len() && from < b.len() && a[from] == b[from] {
        mismatch(a, b, from + 1)
    } else {
        from
    }
}

/// Lexicographic order by code point: at the first difference `a` has the
/// smaller character, or `a` ends there and `b` goes on.
pub open spec fn comes_first(a: Seq<char>, b: Seq<char>) -> bool {
    let k = mismatch(a, b, 0);
    if k < a.len() && k < b.len() {
        a[k] < b[k]
    } else {
        a.len() < b.len()
    }
}

/// Whether `a` and `b` are the same text: as they stand, or, where
/// `folded`, in their lower-case forms.
pub open spec fn alike(a: Seq<char>, b: Seq<char>, folded: bool) -> bool {
    if folded {
        lowercase_of(a) == lowercase_of(b)
    } else {
        a == b
    }
}

/// Lexicographic order of `a` and `b`: as they stand, or, where `folded`,
/// of their lower-case forms.
pub open spec fn lex_less(a: Seq<char>, b: Seq<char>, folded: bool) -> bool {
    if folded {
        comes_first(lowercase_of(a), lowercase_of(b))
    } else {
        comes_first(a, b)
    }
}

/// `mismatch` from `from` is the one offset `k` up to which the texts
/// agree and at which they differ or one ends.
pub proof fn lemma_mismatch_is(a: Seq<char>, b: Seq<char>, from: int, k: int)
    requires
        0 <= from <= k,
        k <= a.len(),
        k <= b.len(),
        forall|i: int| from <= i < k ==> #[trigger] a[i] == b[i],
        k == a.len() || k == b.len() || a[k] != b[k],
    ensures
        mismatch(a, b, from) == k,
    decreases k - from,
{
    if from < k {
        lemma_mismatch_is(a, b, from + 1, k);
    }
}

/// What `mismatch` returns: the texts agree before it, and at it they
/// differ or one ends.
pub proof fn lemma_mismatch_bounds(a: Seq<char>, b: Seq<char>, from: int)
    requires
        0 <= from <= a.len(),
        from <= b.len(),
    ensures
        ({
            let k = mismatch(a, b, from);
            &&& from <= k <= a.len()
            &&& k <= b.len()
            &&& forall|i: int| from <= i < k ==> #[trigger] a[i] == b[i]
            &&& (k == a.len() || k == b.len() || a[k] != b[k])
        }),
    decreases a.len() - from,
{
    if from < a.len() && from < b.len() && a[from] == b[from] {
        lemma_mismatch_bounds(a, b, from + 1);
    }
}

/// `comes_first` is a strict total order on texts.
pub proof fn lemma_comes_first_order(a: Seq<char>, b: Seq<char>, c: Seq<char>)
    ensures
        !comes_first(a, a),
        a == b || comes_first(a, b) || comes_first(b, a),
        comes_first(a, b) ==> !comes_first(b, a),
        comes_first(a, b) && comes_first(b, c) ==> comes_first(a, c),
{
    lemma_mismatch_bounds(a, b, 0);
    lemma_mismatch_bounds(b, a, 0);
    lemma_mismatch_bounds(b, c, 0);
    lemma_mismatch_bounds(a, c, 0);
    lemma_mismatch_bounds(a, a, 0);
    let kab = mismatch(a, b, 0);
    let kbc = mismatch(b, c, 0);
    lemma_mismatch_is(b, a, 0, kab);
    if kab == a.len() && kab == b.len() {
        assert(a =~= b);
    }
    let k = if kab <= kbc { kab } else { kbc };
    if comes_first(a, b) && comes_first(b, c) {
        assert forall|i: int| 0 <= i < k implies #[trigger] a[i] == c[i] by {
            assert(a[i] == b[i]);
            assert(b[i] == c[i]);
        }
        lemma_mismatch_is(a, c, 0, k);
    }
}

/// Texts that are alike as they stand are the same text.
pub proof fn lemma_alike_exact(a: Seq<char>, b: Seq<char>)
    ensures
        alike(a, b, false) <==> a == b,
{
}

/// Being alike is an equivalence, and `lex_less` is a strict total order on
/// the classes of it.
pub proof fn lemma_lex_order(a: Seq<char>, b: Seq<char>, c: Seq<char>, folded: bool)
    ensures
        alike(a, a, folded),
        alike(a, b, folded) ==> alike(b, a, folded),
        alike(a, b, folded) && alike(b, c, folded) ==> alike(a, c, folded),
        !lex_less(a, a, folded),
        alike(a, b, folded) ==> !lex_less(a, b, folded),
        alike(a, b, folded) || lex_less(a, b, folded) || lex_less(b, a, folded),
        lex_less(a, b, folded) ==> !lex_less(b, a, folded),
        lex_less(a, b, folded) && lex_less(b, c, folded) ==> lex_less(a, c, folded),
        lex_less(a, b, folded) && alike(b, c, folded) ==> lex_less(a, c, folded),
        alike(a, b, folded) && lex_less(b, c, folded) ==> lex_less(a, c, folded),
{
    if folded {
        lemma_comes_first_order(lowercase_of(a), lowercase_of(b), lowercase_of(c));
    } else {
        lemma_comes_first_order(a, b, c);
    }
}

fn first_mismatch(a: &Vec<char>, b: &Vec<char>) -> (k: usize)
    ensures
        k == mismatch(a@, b@, 0),
        k <= a.len(),
        k <= b.len(),
{
    let mut k: usize = 0;
    while k < a.len() && k < b.len() && a[k] == b[k]
        invariant
            k <= a.len(),
            k <= b.len(),
            forall|i: int| 0 <= i < k ==> #[trigger] a@[i] == b@[i],
        decreases a.len() - k,
    {
        k = k + 1;
    }
    proof {
        lemma_mismatch_is(a@, b@, 0, k as int);
    }
    k
}

fn precedes_exactly(a: &Vec<char>, b: &Vec<char>) -> (r: bool)
    ensures
        r == comes_first(a@, b@),
{
    let k: usize = first_mismatch(a, b);
    if k < a.len() && k < b.len() {
        a[k] < b[k]
    } else {
        a.len() < b.len()
    }
}

/// Whether `a` comes before `b` in lexicographic order: as they stand, or,
/// where `folded`, in their lower-case forms.
pub fn text_precedes(a: &Vec<char>, b: &Vec<char>, folded: bool) -> (r: bool)
    ensures
        r == lex_less(a@, b@, folded),
{
    if folded {
        precedes_exactly(&fold(a), &fold(b))
    } else {
        precedes_exactly(a, b)
    }
}

/// Whether `a` and `b` are the same text: as they stand, or, where
/// `folded`, in their lower-case forms.
pub fn text_alike(a: &Vec<char>, b: &Vec<char>, folded: bool) -> (r: bool)
    ensures
        r == alike(a@, b@, folded),
{
    if folded {
        same_text(&fold(a), &fold(b))
    } else {
        same_text(a, b)
    }
}

/// Whether the lower-case form of `text` starts with that of `typed`.
pub open spec fn starts_alike(text: Seq<char>, typed: Seq<char>) -> bool {
    let whole = lowercase_of(text);
    let start = lowercase_of(typed);
    start.len() <= whole.len() && whole.subrange(0, start.len() as int) == start
}

/// Whether `typed` is the start of `text`, without regard to case.
pub fn text_starts_alike(text: &Vec<char>, typed: &Vec<char>) -> (r: bool)
    ensures
        r == starts_alike(text@, typed@),
{
    let whole = fold(text);
    let start = fold(typed);
    if start.len() > whole.len() {
        return false;
    }
    let ghost head = whole@.subrange(0, start.len() as int);
    let mut i: usize = 0;
    while i < start.len()
        invariant
            i <= start.len() <= whole.len(),
            whole@ == lowercase_of(text@),
            start@ == lowercase_of(typed@),
            head == whole@.subrange(0, start.len() as int),
            forall|k: int| 0 <= k < i ==> whole@[k] == #[trigger] start@[k],
        decreases start.len() - i,
    {
        if whole[i] != start[i] {
            assert(head[i as int] != start@[i as int]);
            return false;
        }
        i = i + 1;
    }
    assert(head =~= start@);
    true
}

} // verus!
