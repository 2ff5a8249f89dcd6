//! Candidate completions: each replaces a range of the input with a text.
//!
//! A [`Suggestions`] value holds its entries in one fixed order, without
//! two entries of the same range and text: ordered by text without regard
//! to case, then by text with regard to case, then by range.
use vstd::prelude::*;
use crate::exceptions::{BuiltInExceptions, CommandSyntaxException, ExceptionView};
use crate::text::{
    alike,
    copy_text,
    lemma_alike_exact,
    lemma_lex_order,
    lex_less,
    same_text,
    text_alike,
    text_precedes,
    to_chars,
    to_text,
};

verus! {

/// A range of offsets into an input, from `start` up to `end`.
#[derive(Clone, Copy, Debug, PartialEq, Eq, Structural)]
pub struct StringRange {
    pub start: usize,
    pub end: usize,
}

impl StringRange {
    pub fn new(start: usize, end: usize) -> (r: Self)
        ensures
            r == (StringRange { start, end }),
    {
        StringRange { start, end }
    }

    pub fn at(pos: usize) -> (r: Self)
        ensures
            r == (StringRange { start: pos, end: pos }),
    {
        StringRange { start: pos, end: pos }
    }

    pub fn is_empty(&self) -> (r: bool)
        ensures
            r == (self.start == self.end),
    {
        self.start == self.end
    }

    /// The smallest range that holds both `a` and `b`.
    pub fn encompassing(a: &StringRange, b: &StringRange) -> (r: Self)
        ensures
            r.start == (if a.start <= b.start { a.start } else { b.start }),
            r.end == (if a.end >= b.end { a.end } else { b.end }),
    {
        StringRange {
            start: if a.start <= b.start { a.start } else { b.start },
            end: if a.end >= b.end { a.end } else { b.end },
        }
    }
}

/// One candidate: replace `range` of the input with `text`.
#[derive(Debug)]
pub struct Suggestion {
    pub range: StringRange,
    pub text: Vec<char>,
    pub tooltip: Option<Vec<char>>,
}

/// A candidate, as plain values.
pub struct SuggestionView {
    pub range: StringRange,
    pub text: Seq<char>,
    pub tooltip: Option<Seq<char>>,
}

impl View for Suggestion {
    type V = SuggestionView;

    open spec fn view(&self) -> SuggestionView {
        SuggestionView {
            range: self.range,
            text: self.text@,
            tooltip: match self.tooltip {
                Some(t) => Some(t@),
                None => None,
            },
        }
    }
}

/// Whether two candidates have the same range and text.
pub open spec fn same_key(a: SuggestionView, b: SuggestionView) -> bool {
    a.range == b.range && a.text == b.text
}

/// The order of candidates: by text without regard to case, then by text,
/// then by the start and the end of the range.
pub open spec fn precedes(a: SuggestionView, b: SuggestionView) -> bool {
    if !alike(a.text, b.text, true) {
        lex_less(a.text, b.text, true)
    } else if !alike(a.text, b.text, false) {
        lex_less(a.text, b.text, false)
    } else if a.range.start != b.range.start {
        a.range.start < b.range.start
    } else {
        a.range.end < b.range.end
    }
}

/// `precedes` is a strict total order on candidates up to `same_key`.
pub proof fn lemma_precedes_order(a: SuggestionView, b: SuggestionView, c: SuggestionView)
    ensures
        !precedes(a, a),
        same_key(a, b) ==> !precedes(a, b) && !precedes(b, a),
        same_key(a, b) || precedes(a, b) || precedes(b, a),
        precedes(a, b) ==> !precedes(b, a),
        precedes(a, b) && precedes(b, c) ==> precedes(a, c),
{
    lemma_lex_order(a.text, b.text, c.text, true);
    lemma_lex_order(a.text, b.text, c.text, false);
    lemma_lex_order(b.text, a.text, c.text, true);
    lemma_lex_order(b.text, a.text, c.text, false);
    lemma_lex_order(a.text, c.text, b.text, true);
    lemma_lex_order(a.text, c.text, b.text, false);
    lemma_lex_order(b.text, c.text, a.text, true);
    lemma_lex_order(b.text, c.text, a.text, false);
    lemma_alike_exact(a.text, b.text);
    lemma_alike_exact(b.text, c.text);
    lemma_alike_exact(a.text, c.text);
    lemma_alike_exact(a.text, a.text);
}

impl Suggestion {
    pub fn new(range: StringRange, text: &str) -> (s: Self)
        ensures
            s@ == (SuggestionView { range, text: text@, tooltip: None }),
    {
        Suggestion { range, text: to_chars(text), tooltip: None }
    }

    pub fn with_tooltip(range: StringRange, text: &str, tooltip: &str) -> (s: Self)
        ensures
            s@ == (SuggestionView { range, text: text@, tooltip: Some(tooltip@) }),
    {
        Suggestion { range, text: to_chars(text), tooltip: Some(to_chars(tooltip)) }
    }

    pub fn get_range(&self) -> (r: StringRange)
        ensures
            r == self@.range,
    {
        self.range
    }

    pub fn get_text(&self) -> (t: String)
        ensures
            t@ == self@.text,
    {
        to_text(&self.text)
    }

    pub fn get_tooltip(&self) -> (t: Option<String>)
        ensures
            match t {
                Some(s) => self@.tooltip == Some(s@),
                None => self@.tooltip is None,
            },
    {
        match &self.tooltip {
            Some(t) => Some(to_text(t)),
            None => None,
        }
    }

    /// A copy of this candidate.
    pub fn duplicate(&self) -> (s: Self)
        ensures
            s@ == self@,
    {
        Suggestion {
            range: self.range,
            text: copy_text(&self.text),
            tooltip: match &self.tooltip {
                Some(t) => Some(copy_text(t)),
                None => None,
            },
        }
    }

    /// Whether this candidate and `other` have the same range and text.
    pub fn same_key_as(&self, other: &Suggestion) -> (r: bool)
        ensures
            r == same_key(self@, other@),
    {
        self.range.start == other.range.start && self.range.end == other.range.end && same_text(
            &self.text,
            &other.text,
        )
    }

    /// Whether this candidate is ordered before `other`.
    pub fn comes_before(&self, other: &Suggestion) -> (r: bool)
        ensures
            r == precedes(self@, other@),
    {
        if !text_alike(&self.text, &other.text, true) {
            text_precedes(&self.text, &other.text, true)
        } else if !text_alike(&self.text, &other.text, false) {
            text_precedes(&self.text, &other.text, false)
        } else if self.range.start != other.range.start {
            self.range.start < other.range.start
        } else {
            self.range.end < other.range.end
        }
    }

    /// The input with this candidate's range replaced by its text.
    pub fn apply(&self, input: &str) -> (out: String)
        requires
            self@.range.start <= self@.range.end <= input@.len(),
        ensures
            out@ == input@.subrange(0, self@.range.start as int) + self@.text + input@.subrange(
                self@.range.end as int,
                input@.len() as int,
            ),
    {
        let chars = to_chars(input);
        let mut out: Vec<char> = Vec::new();
        let mut i: usize = 0;
        while i < self.range.start
            invariant
                i <= self.range.start <= chars.len(),
                out@ == chars@.subrange(0, i as int),
            decreases self.range.start - i,
        {
            out.push(chars[i]);
            i = i + 1;
        }
        let mut j: usize = 0;
        while j < self.text.len()
            invariant
                j <= self.text.len(),
                out@ == chars@.subrange(0, self.range.start as int) + self.text@.subrange(0, j as int),
            decreases self.text.len() - j,
        {
            out.push(self.text[j]);
            j = j + 1;
        }
        assert(self.text@.subrange(0, self.text.len() as int) == self.text@);
        let mut k: usize = self.range.end;
        while k < chars.len()
            invariant
                self.range.end <= k <= chars.len(),
                out@ == chars@.subrange(0, self.range.start as int) + self.text@ + chars@.subrange(
                    self.range.end as int,
                    k as int,
                ),
            decreases chars.len() - k,
        {
            out.push(chars[k]);
            k = k + 1;
        }
        to_text(&out)
    }
}

/// The candidates of a list, as plain values.
pub open spec fn views(list: Seq<Suggestion>) -> Seq<SuggestionView> {
    Seq::new(list.len(), |i: int| list[i]@)
}

/// Each entry comes before every later one.
pub open spec fn strictly_sorted(entries: Seq<SuggestionView>) -> bool {
    forall|i: int, j: int| 0 <= i < j < entries.len() ==> precedes(entries[i], entries[j])
}

/// No earlier candidate has the range and text of the one at `i`.
pub open spec fn first_of_key(candidates: Seq<SuggestionView>, i: int) -> bool {
    &&& 0 <= i < candidates.len()
    &&& forall|k: int| 0 <= k < i ==> !same_key(#[trigger] candidates[k], candidates[i])
}

/// The smallest range that holds the ranges of all candidates; empty at
/// offset 0 when there are none.
pub open spec fn covering(candidates: Seq<SuggestionView>) -> StringRange
    decreases candidates.len(),
{
    if candidates.len() == 0 {
        StringRange { start: 0, end: 0 }
    } else if candidates.len() == 1 {
        candidates[0].range
    } else {
        let rest = covering(candidates.drop_last());
        let last = candidates.last().range;
        StringRange {
            start: if rest.start <= last.start { rest.start } else { last.start },
            end: if rest.end >= last.end { rest.end } else { last.end },
        }
    }
}

/// A set of suggestions, as plain values.
pub struct SuggestionsView {
    pub range: StringRange,
    pub entries: Seq<SuggestionView>,
}

/// One of `entries` has the range and text of `key`.
pub open spec fn holds_key(entries: Seq<SuggestionView>, key: SuggestionView) -> bool {
    exists|j: int| 0 <= j < entries.len() && same_key(#[trigger] entries[j], key)
}

/// `entry` is the first of `candidates` with its range and text.
pub open spec fn first_among(candidates: Seq<SuggestionView>, entry: SuggestionView) -> bool {
    exists|i: int| first_of_key(candidates, i) && entry == #[trigger] candidates[i]
}

/// `out` is `candidates` put in order: sorted, each range and text once
/// (the first candidate that has them), and with the range that covers all
/// candidates.
pub open spec fn arranged(out: SuggestionsView, candidates: Seq<SuggestionView>) -> bool {
    &&& strictly_sorted(out.entries)
    &&& forall|i: int|
        0 <= i < candidates.len() ==> #[trigger] holds_key(out.entries, candidates[i])
    &&& forall|j: int|
        0 <= j < out.entries.len() ==> #[trigger] first_among(candidates, out.entries[j])
    &&& out.range == covering(candidates)
}

/// The entries of several sets of suggestions, one set after the other.
pub open spec fn flatten(parts: Seq<SuggestionsView>) -> Seq<SuggestionView>
    decreases parts.len(),
{
    if parts.len() == 0 {
        Seq::<SuggestionView>::empty()
    } else {
        flatten(parts.drop_last()) + parts.last().entries
    }
}

/// An ordered set of candidates.
#[derive(Debug)]
pub struct Suggestions {
    range: StringRange,
    list: Vec<Suggestion>,
}

impl View for Suggestions {
    type V = SuggestionsView;

    closed spec fn view(&self) -> SuggestionsView {
        SuggestionsView { range: self.range, entries: views(self.list@) }
    }
}

/// The sets of a list, as plain values.
pub open spec fn parts_of(parts: Seq<Suggestions>) -> Seq<SuggestionsView> {
    Seq::new(parts.len(), |i: int| parts[i]@)
}

impl Suggestions {
    /// The entries are in order, none twice. This holds of every value of
    /// the type.
    #[verifier::type_invariant]
    pub open spec fn wf(&self) -> bool {
        strictly_sorted(self@.entries)
    }

    /// No suggestions.
    pub fn empty() -> (out: Self)
        ensures
            out.wf(),
            out@.entries.len() == 0,
            out@.range == (StringRange { start: 0, end: 0 }),
    {
        Suggestions { range: StringRange { start: 0, end: 0 }, list: Vec::new() }
    }

    pub fn is_empty(&self) -> (r: bool)
        ensures
            r == (self@.entries.len() == 0),
    {
        self.list.len() == 0
    }

    pub fn len(&self) -> (n: usize)
        ensures
            n == self@.entries.len(),
    {
        self.list.len()
    }

    pub fn get_range(&self) -> (r: StringRange)
        ensures
            r == self@.range,
    {
        self.range
    }

    pub fn get(&self, i: usize) -> (s: &Suggestion)
        requires
            i < self@.entries.len(),
        ensures
            s@ == self@.entries[i as int],
    {
        &self.list[i]
    }

    /// The texts of the entries, in order.
    pub fn get_texts(&self) -> (out: Vec<String>)
        ensures
            out@.len() == self@.entries.len(),
            forall|i: int| 0 <= i < out@.len() ==> (#[trigger] out@[i])@ == self@.entries[i].text,
    {
        let mut out: Vec<String> = Vec::new();
        let mut i: usize = 0;
        while i < self.list.len()
            invariant
                i <= self.list.len(),
                out@.len() == i,
                forall|k: int| 0 <= k < i ==> (#[trigger] out@[k])@ == self.list@[k]@.text,
            decreases self.list.len() - i,
        {
            out.push(to_text(&self.list[i].text));
            i = i + 1;
        }
        out
    }

    /// A copy of these suggestions.
    pub fn duplicate(&self) -> (out: Self)
        ensures
            out@ == self@,
    {
        let mut list: Vec<Suggestion> = Vec::new();
        let mut i: usize = 0;
        while i < self.list.len()
            invariant
                i <= self.list.len(),
                views(list@) == views(self.list@).subrange(0, i as int),
            decreases self.list.len() - i,
        {
            let ghost before = list@;
            list.push(self.list[i].duplicate());
            assert(views(list@) =~= views(before).push(self.list@[i as int]@));
            assert(views(list@) =~= views(self.list@).subrange(0, i + 1));
            i = i + 1;
        }
        assert(views(list@) =~= views(self.list@));
        proof {
            use_type_invariant(self);
        }
        Suggestions { range: self.range, list }
    }

    /// Puts `candidates` in order and drops those whose range and text an
    /// earlier one has.
    pub fn create(candidates: &Vec<Suggestion>) -> (out: Self)
        ensures
            out.wf(),
            arranged(out@, views(candidates@)),
    {
        let ghost cands = views(candidates@);
        let mut list: Vec<Suggestion> = Vec::new();
        let mut range = StringRange { start: 0, end: 0 };
        let ghost mut origin: Seq<int> = Seq::empty();
        let mut n: usize = 0;
        while n < candidates.len()
            invariant
                n <= candidates.len(),
                cands == views(candidates@),
                strictly_sorted(views(list@)),
                origin.len() == list.len(),
                forall|j: int|
                    0 <= j < list.len() ==> 0 <= #[trigger] origin[j] < n && list@[j]@
                        == cands[origin[j]] && first_of_key(cands, origin[j]),
                forall|i: int|
                    0 <= i < n ==> exists|j: int|
                        0 <= j < list.len() && same_key(list@[j]@, #[trigger] cands[i]),
                range == covering(cands.subrange(0, n as int)),
            decreases candidates.len() - n,
        {
            let e = &candidates[n];
            assert(e@ == cands[n as int]);
            let mut p: usize = 0;
            while p < list.len() && list[p].comes_before(e)
                invariant
                    p <= list.len(),
                    forall|q: int| 0 <= q < p ==> precedes(#[trigger] list@[q]@, e@),
                decreases list.len() - p,
            {
                p = p + 1;
            }
            let ghost before = list@;
            let ghost before_origin = origin;
            let present: bool = p < list.len() && list[p].same_key_as(e);
            if !present {
                proof {
                    assert forall|q: int| #![auto] p <= q < before.len() implies precedes(
                        e@,
                        before[q]@,
                    ) by {
                        lemma_precedes_order(e@, before[p as int]@, before[q]@);
                        if q > p {
                            assert(precedes(views(before)[p as int], views(before)[q]));
                        }
                    }
                    assert forall|k: int| 0 <= k < n implies !same_key(
                        #[trigger] cands[k],
                        cands[n as int],
                    ) by {
                        let j = choose|j: int| 0 <= j < before.len() && same_key(before[j]@, cands[k]);
                        lemma_precedes_order(before[j]@, e@, cands[k]);
                        lemma_precedes_order(e@, before[j]@, cands[k]);
                        if j < p {
                            assert(precedes(before[j]@, e@));
                        } else {
                            assert(precedes(e@, before[j]@));
                        }
                    }
                }
                list.insert(p, e.duplicate());
                proof {
                    origin = before_origin.insert(p as int, n as int);
                    assert forall|i: int, j: int| 0 <= i < j < list.len() implies precedes(
                        views(list@)[i],
                        views(list@)[j],
                    ) by {
                        let a = if i < p { i } else { i - 1 };
                        let b = if j < p { j } else { j - 1 };
                        if i != p && j != p {
                            assert(precedes(views(before)[a], views(before)[b]));
                        } else if i == p {
                            assert(list@[j] == before[j - 1]);
                        } else {
                            assert(list@[i] == before[i]);
                        }
                    }
                    assert forall|i: int| 0 <= i < n + 1 implies exists|j: int|
                        0 <= j < list.len() && same_key(list@[j]@, #[trigger] cands[i]) by {
                        if i < n {
                            let j0 = choose|j: int|
                                0 <= j < before.len() && same_key(before[j]@, cands[i]);
                            let j1 = if j0 < p { j0 } else { j0 + 1 };
                            assert(list@[j1] == before[j0]);
                            assert(same_key(list@[j1]@, cands[i]));
                        } else {
                            assert(same_key(list@[p as int]@, cands[i]));
                        }
                    }
                    assert forall|j: int| 0 <= j < list.len() implies 0 <= #[trigger] origin[j] < n
                        + 1 && list@[j]@ == cands[origin[j]] && first_of_key(cands, origin[j]) by {
                        if j < p {
                            assert(list@[j] == before[j]);
                            assert(origin[j] == before_origin[j]);
                        } else if j > p {
                            assert(list@[j] == before[j - 1]);
                            assert(origin[j] == before_origin[j - 1]);
                        }
                    }
                }
            } else {
                proof {
                    assert forall|i: int| 0 <= i < n + 1 implies exists|j: int|
                        0 <= j < list.len() && same_key(list@[j]@, #[trigger] cands[i]) by {
                        if i == n {
                            assert(same_key(list@[p as int]@, cands[i]));
                        }
                    }
                }
            }
            proof {
                let upto = cands.subrange(0, n + 1);
                assert(upto.drop_last() == cands.subrange(0, n as int));
                assert(upto.last() == e@);
            }
            range = if n == 0 { e.range } else { StringRange::encompassing(&range, &e.range) };
            n = n + 1;
        }
        assert(cands.subrange(0, n as int) == cands);
        let out = Suggestions { range, list };
        proof {
            assert forall|j: int| 0 <= j < out@.entries.len() implies #[trigger] first_among(
                cands,
                out@.entries[j],
            ) by {
                assert(first_of_key(cands, origin[j]) && out@.entries[j] == cands[origin[j]]);
            }
            assert forall|i: int| 0 <= i < cands.len() implies #[trigger] holds_key(
                out@.entries,
                cands[i],
            ) by {
                let j = choose|j: int| 0 <= j < list.len() && same_key(list@[j]@, cands[i]);
                assert(same_key(out@.entries[j], cands[i]));
            }
        }
        out
    }

    /// The union of several sets of suggestions, put in order again.
    pub fn merge(parts: &Vec<Suggestions>) -> (out: Self)
        ensures
            out.wf(),
            arranged(out@, flatten(parts_of(parts@))),
    {
        let mut all: Vec<Suggestion> = Vec::new();
        let mut n: usize = 0;
        while n < parts.len()
            invariant
                n <= parts.len(),
                views(all@) == flatten(parts_of(parts@).subrange(0, n as int)),
            decreases parts.len() - n,
        {
            let part = &parts[n];
            let ghost start = views(all@);
            let mut i: usize = 0;
            while i < part.list.len()
                invariant
                    i <= part.list.len(),
                    views(all@) == start + part@.entries.subrange(0, i as int),
                decreases part.list.len() - i,
            {
                let ghost before = all@;
                all.push(part.list[i].duplicate());
                assert(views(all@) =~= views(before).push(part@.entries[i as int]));
                assert(views(all@) =~= start + part@.entries.subrange(0, i + 1));
                i = i + 1;
            }
            proof {
                let upto = parts_of(parts@).subrange(0, n + 1);
                assert(upto.drop_last() == parts_of(parts@).subrange(0, n as int));
                assert(upto.last() == part@);
                assert(part@.entries.subrange(0, i as int) == part@.entries);
            }
            n = n + 1;
        }
        assert(parts_of(parts@).subrange(0, n as int) == parts_of(parts@));
        Suggestions::create(&all)
    }
}

/// The state of a builder, as plain values.
pub struct BuilderView {
    pub input: Seq<char>,
    pub start: int,
    pub pending: Seq<SuggestionView>,
}

/// What has been typed of the token to complete.
pub open spec fn typed_of(b: BuilderView) -> Seq<char> {
    b.input.subrange(b.start, b.input.len() as int)
}

/// A builder after `text` was suggested: as it was when `text` is what
/// has been typed already, else with one more candidate, for the range
/// from the start offset to the end of the input.
pub open spec fn candidate_added(b: BuilderView, text: Seq<char>, tooltip: Option<Seq<char>>) -> BuilderView {
    if text == typed_of(b) {
        b
    } else {
        BuilderView {
            pending: b.pending.push(SuggestionView { range: range_of(b), text, tooltip }),
            ..b
        }
    }
}

/// A text to suggest, with its tooltip if it has one.
pub type Candidate = (Seq<char>, Option<Seq<char>>);

/// The candidates that replace `range` with each of `texts`.
pub open spec fn ranged(texts: Seq<Candidate>, range: StringRange) -> Seq<SuggestionView> {
    Seq::new(texts.len(), |i: int| SuggestionView { range, text: texts[i].0, tooltip: texts[i].1 })
}

/// The range that a builder's candidates replace: from its start offset to
/// the end of its input.
pub open spec fn range_of(b: BuilderView) -> StringRange {
    StringRange { start: b.start as usize, end: b.input.len() as usize }
}

/// An input and the offset in it at which the text to complete starts.
struct Anchor {
    input: Vec<char>,
    start: usize,
}

impl Anchor {
    #[verifier::type_invariant]
    spec fn within(&self) -> bool {
        self.start <= self.input@.len()
    }
}

/// What listing suggestions from a source states, given what the source
/// is to give: its candidates are added to the builder, for the builder's
/// range, and the result is all that the builder then holds, put in order;
/// or, where the source fails, the failure is returned, for the builder's
/// input at its start offset, and the builder is as it was.
pub open spec fn suggested(
    candidates: Result<Seq<Candidate>, BuiltInExceptions>,
    before: BuilderView,
    after: BuilderView,
    r: Result<Suggestions, CommandSyntaxException>,
) -> bool {
    match candidates {
        Ok(texts) => {
            &&& after == (BuilderView {
                pending: before.pending + ranged(texts, range_of(before)),
                ..before
            })
            &&& r matches Ok(out)
            &&& arranged(out@, after.pending)
        },
        Err(kind) => {
            &&& after == before
            &&& r matches Err(e)
            &&& e@ == (ExceptionView { kind, input: before.input, cursor: before.start })
        },
    }
}

/// Collects candidates that replace the input from a start offset to its
/// end.
pub struct SuggestionsBuilder {
    anchor: Anchor,
    pending: Vec<Suggestion>,
}

impl View for SuggestionsBuilder {
    type V = BuilderView;

    closed spec fn view(&self) -> BuilderView {
        BuilderView {
            input: self.anchor.input@,
            start: self.anchor.start as int,
            pending: views(self.pending@),
        }
    }
}

impl SuggestionsBuilder {
    /// The start offset lies within the input or just past its end. This
    /// holds of every builder.
    pub open spec fn wf(&self) -> bool {
        0 <= self@.start <= self@.input.len()
    }

    /// What has been typed of the token to complete.
    pub open spec fn spec_remaining(&self) -> Seq<char> {
        typed_of(self@)
    }

    /// What `suggest` does with `text`: see `candidate_added`.
    pub open spec fn with_candidate(self, text: Seq<char>, tooltip: Option<Seq<char>>) -> BuilderView {
        candidate_added(self@, text, tooltip)
    }

    pub fn new(input: &str, start: usize) -> (b: Self)
        requires
            start <= input@.len(),
        ensures
            b.wf(),
            b@ == (BuilderView { input: input@, start: start as int, pending: Seq::empty() }),
    {
        let b = SuggestionsBuilder { anchor: Anchor { input: to_chars(input), start }, pending: Vec::new() };
        assert(views(b.pending@) =~= Seq::empty());
        b
    }

    pub fn from_chars(input: &Vec<char>, start: usize) -> (b: Self)
        requires
            start <= input@.len(),
        ensures
            b.wf(),
            b@ == (BuilderView { input: input@, start: start as int, pending: Seq::empty() }),
    {
        let b = SuggestionsBuilder {
            anchor: Anchor { input: copy_text(input), start },
            pending: Vec::new(),
        };
        assert(views(b.pending@) =~= Seq::empty());
        b
    }

    /// A copy of this builder, with the candidates it holds.
    pub fn duplicate(&self) -> (b: Self)
        ensures
            b@ == self@,
    {
        proof {
            use_type_invariant(&self.anchor);
        }
        let mut pending: Vec<Suggestion> = Vec::new();
        let mut i: usize = 0;
        while i < self.pending.len()
            invariant
                i <= self.pending.len(),
                views(pending@) == views(self.pending@).subrange(0, i as int),
            decreases self.pending.len() - i,
        {
            let ghost before = pending@;
            pending.push(self.pending[i].duplicate());
            assert(views(pending@) =~= views(before).push(self.pending@[i as int]@));
            assert(views(pending@) =~= views(self.pending@).subrange(0, i + 1));
            i = i + 1;
        }
        assert(views(pending@) =~= views(self.pending@));
        SuggestionsBuilder {
            anchor: Anchor { input: copy_text(&self.anchor.input), start: self.anchor.start },
            pending,
        }
    }

    pub fn get_input(&self) -> (s: String)
        ensures
            s@ == self@.input,
    {
        to_text(&self.anchor.input)
    }

    pub fn get_start(&self) -> (n: usize)
        ensures
            n == self@.start,
    {
        self.anchor.start
    }

    pub fn get_remaining(&self) -> (s: String)
        ensures
            s@ == self.spec_remaining(),
    {
        to_text(&self.remaining())
    }

    /// What has been typed of the token to complete, as characters.
    pub fn remaining(&self) -> (out: Vec<char>)
        ensures
            out@ == self.spec_remaining(),
    {
        proof {
            use_type_invariant(&self.anchor);
        }
        let mut out: Vec<char> = Vec::new();
        let mut i: usize = self.anchor.start;
        while i < self.anchor.input.len()
            invariant
                self.anchor.start <= i <= self.anchor.input.len(),
                out@ == self.anchor.input@.subrange(self.anchor.start as int, i as int),
            decreases self.anchor.input.len() - i,
        {
            out.push(self.anchor.input[i]);
            i = i + 1;
        }
        out
    }

    fn add(&mut self, text: Vec<char>, tooltip: Option<Vec<char>>)
        ensures
            final(self).wf(),
            final(self)@ == old(self).with_candidate(
                text@,
                match tooltip {
                    Some(t) => Some(t@),
                    None => None,
                },
            ),
    {
        proof {
            use_type_invariant(&self.anchor);
        }
        let typed = self.remaining();
        if same_text(&text, &typed) {
            return ;
        }
        let ghost before = views(self.pending@);
        let entry = Suggestion {
            range: StringRange { start: self.anchor.start, end: self.anchor.input.len() },
            text,
            tooltip,
        };
        self.pending.push(entry);
        assert(views(self.pending@) =~= before.push(entry@));
    }

    /// Adds `text` as a candidate, unless it is what has been typed already.
    pub fn suggest(&mut self, text: &str)
        ensures
            final(self).wf(),
            final(self)@ == old(self).with_candidate(text@, None),
    {
        self.add(to_chars(text), None);
    }

    /// Adds `text` as a candidate with a tooltip, unless it is what has
    /// been typed already.
    pub fn suggest_with_tooltip(&mut self, text: &str, tooltip: &str)
        ensures
            final(self).wf(),
            final(self)@ == old(self).with_candidate(text@, Some(tooltip@)),
    {
        self.add(to_chars(text), Some(to_chars(tooltip)));
    }

    /// Adds `text`, given as characters, as a candidate.
    pub fn suggest_chars(&mut self, text: &Vec<char>)
        ensures
            final(self).wf(),
            final(self)@ == old(self).with_candidate(text@, None),
    {
        self.add(copy_text(text), None);
    }

    /// The candidates collected so far, put in order.
    pub fn build(&self) -> (out: Suggestions)
        ensures
            out.wf(),
            arranged(out@, self@.pending),
    {
        Suggestions::create(&self.pending)
    }
}

} // verus!
