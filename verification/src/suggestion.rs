//! Rewrite suggestions: a set of text edits that do not overlap, kept in
//! source order, with a declared level of confidence.

use vstd::prelude::*;
use crate::span::Span;

verus! {

broadcast use Span::lemma_parts;

/// How far a tool may trust a suggestion.
#[derive(Clone, Copy, Debug, PartialEq, Eq, Hash, Structural)]
pub enum Applicability {
    /// The rewrite is what the user wants and may be applied mechanically.
    MachineApplicable,
    /// The rewrite compiles, but may not mean what the user intended.
    MaybeIncorrect,
    /// The rewrite holds placeholder text that a person has to fill in.
    HasPlaceholders,
    /// Nothing is known of the rewrite.
    Unspecified,
}

/// One edit: the text of `span` is replaced by `text`.
#[derive(Debug)]
pub struct Edit {
    pub span: Span,
    pub text: String,
}

/// The mathematical value of an [`Edit`].
pub struct EditView {
    pub span: Span,
    pub text: Seq<char>,
}

impl View for Edit {
    type V = EditView;

    open spec fn view(&self) -> EditView {
        EditView { span: self.span, text: self.text@ }
    }
}

/// The views of a sequence of edits.
pub open spec fn edit_views(edits: Seq<Edit>) -> Seq<EditView> {
    Seq::new(edits.len(), |i: int| edits[i]@)
}

/// The order in which edits are kept and applied: by file, then by start,
/// then by end.
pub open spec fn comes_before(a: Span, b: Span) -> bool {
    ||| a.spec_file() < b.spec_file()
    ||| (a.spec_file() == b.spec_file() && a.spec_lo() < b.spec_lo())
    ||| (a.spec_file() == b.spec_file() && a.spec_lo() == b.spec_lo() && a.spec_hi()
        < b.spec_hi())
}

/// No edit comes before an earlier one.
pub open spec fn ascending(edits: Seq<EditView>) -> bool {
    forall|i: int, j: int|
        0 <= i < j < edits.len() ==> !comes_before(#[trigger] edits[j].span, #[trigger] edits[i].span)
}

/// No two edits overlap.
pub open spec fn disjoint(edits: Seq<EditView>) -> bool {
    forall|i: int, j: int|
        0 <= i < j < edits.len() ==> !(#[trigger] edits[i].span).spec_overlaps(
            #[trigger] edits[j].span,
        )
}

/// Every span is well formed.
pub open spec fn spans_wf(edits: Seq<EditView>) -> bool {
    forall|i: int| 0 <= i < edits.len() ==> (#[trigger] edits[i]).span.wf()
}

/// What a suggestion under construction and a finished one both maintain.
pub open spec fn well_formed(edits: Seq<EditView>) -> bool {
    &&& spans_wf(edits)
    &&& ascending(edits)
    &&& disjoint(edits)
}

/// The index of the first edit that overlaps `span`, or the number of edits
/// where none does.
pub open spec fn first_overlap(edits: Seq<EditView>, span: Span) -> int
    decreases edits.len(),
{
    if edits.len() == 0 {
        0
    } else if edits[0].span.spec_overlaps(span) {
        0
    } else {
        1 + first_overlap(edits.drop_first(), span)
    }
}

/// The place at which an edit of `span` is inserted: behind every edit that
/// does not come after it.
pub open spec fn insertion_point(edits: Seq<EditView>, span: Span) -> int
    decreases edits.len(),
{
    if edits.len() == 0 {
        0
    } else if comes_before(span, edits[0].span) {
        0
    } else {
        1 + insertion_point(edits.drop_first(), span)
    }
}

/// `first_overlap` is within bounds, points at an overlapping edit where it
/// is an index, and nothing before it overlaps.
pub proof fn lemma_first_overlap(edits: Seq<EditView>, span: Span)
    ensures
        0 <= first_overlap(edits, span) <= edits.len(),
        first_overlap(edits, span) < edits.len() ==> edits[first_overlap(edits, span)].span.spec_overlaps(
            span,
        ),
        forall|i: int|
            0 <= i < first_overlap(edits, span) ==> !(#[trigger] edits[i]).span.spec_overlaps(span),
    decreases edits.len(),
{
    if edits.len() > 0 && !edits[0].span.spec_overlaps(span) {
        let rest = edits.drop_first();
        lemma_first_overlap(rest, span);
        assert forall|i: int| 0 <= i < first_overlap(edits, span) implies !(#[trigger] edits[i]).span.spec_overlaps(
            span,
        ) by {
            if i > 0 {
                assert(edits[i] == rest[i - 1]);
            }
        }
    }
}

/// `insertion_point` is within bounds; no edit before it comes after `span`,
/// and, in an ascending sequence, every edit from it on does.
pub proof fn lemma_insertion_point(edits: Seq<EditView>, span: Span)
    ensures
        0 <= insertion_point(edits, span) <= edits.len(),
        forall|i: int|
            0 <= i < insertion_point(edits, span) ==> !comes_before(span, (#[trigger] edits[i]).span),
        insertion_point(edits, span) < edits.len() ==> comes_before(
            span,
            edits[insertion_point(edits, span)].span,
        ),
    decreases edits.len(),
{
    if edits.len() > 0 && !comes_before(span, edits[0].span) {
        let rest = edits.drop_first();
        lemma_insertion_point(rest, span);
        assert forall|i: int| 0 <= i < insertion_point(edits, span) implies !comes_before(
            span,
            (#[trigger] edits[i]).span,
        ) by {
            if i > 0 {
                assert(edits[i] == rest[i - 1]);
            }
        }
    }
}

/// Inserting an edit that overlaps none, at its insertion point, keeps the
/// sequence well formed.
pub proof fn lemma_insert_keeps_well_formed(edits: Seq<EditView>, e: EditView)
    requires
        well_formed(edits),
        e.span.wf(),
        first_overlap(edits, e.span) == edits.len(),
    ensures
        well_formed(edits.insert(insertion_point(edits, e.span), e)),
{
    let p = insertion_point(edits, e.span);
    let out = edits.insert(p, e);
    lemma_insertion_point(edits, e.span);
    lemma_first_overlap(edits, e.span);
    assert forall|i: int, j: int| 0 <= i < j < out.len() implies !comes_before(
        #[trigger] out[j].span,
        #[trigger] out[i].span,
    ) by {
        if j == p {
            assert(out[i] == edits[i]);
        } else if i == p {
            assert(out[j] == edits[j - 1]);
            assert(!comes_before(edits[j - 1].span, edits[p].span)) by {
                if j - 1 > p {
                }
            }
        } else {
            let a = if i < p { i } else { i - 1 };
            let b = if j < p { j } else { j - 1 };
            assert(out[i] == edits[a]);
            assert(out[j] == edits[b]);
        }
    }
    assert forall|i: int, j: int| 0 <= i < j < out.len() implies !(#[trigger] out[i].span).spec_overlaps(
        #[trigger] out[j].span,
    ) by {
        let a = if i < p { i } else { i - 1 };
        let b = if j < p { j } else { j - 1 };
        if i == p {
            assert(out[j] == edits[b]);
        } else if j == p {
            assert(out[i] == edits[a]);
        } else {
            assert(out[i] == edits[a]);
            assert(out[j] == edits[b]);
        }
    }
    assert forall|i: int| 0 <= i < out.len() implies (#[trigger] out[i]).span.wf() by {
        if i != p {
            let a = if i < p { i } else { i - 1 };
            assert(out[i] == edits[a]);
        }
    }
}

/// In a well-formed sequence, an edit in the same file as a later one ends
/// where the later one starts, or before.
pub proof fn lemma_well_formed_is_chained(edits: Seq<EditView>, i: int, j: int)
    requires
        well_formed(edits),
        0 <= i < j < edits.len(),
        edits[i].span.spec_file() == edits[j].span.spec_file(),
    ensures
        edits[i].span.spec_hi() <= edits[j].span.spec_lo(),
{
    let a = edits[i].span;
    let b = edits[j].span;
    assert(!comes_before(b, a));
    assert(!a.spec_overlaps(b));
    assert(a.wf() && b.wf());
}

/// The bytes that an edit puts in place of its span.
pub open spec fn edit_bytes(e: EditView) -> Seq<u8> {
    vstd::utf8::encode_utf8(e.text)
}

/// Every edit lies in `file`, inside a text of `len` bytes.
pub open spec fn fits(edits: Seq<EditView>, file: u32, len: nat) -> bool {
    forall|i: int|
        0 <= i < edits.len() ==> (#[trigger] edits[i]).span.spec_file() == file
            && edits[i].span.spec_hi() <= len
}

/// The text from `cursor` on, with the edits from index `k` on carried out,
/// every span read against the unedited text.
pub open spec fn patched_from(text: Seq<u8>, edits: Seq<EditView>, k: int, cursor: int) -> Seq<u8>
    decreases edits.len() - k,
{
    if k < 0 || k >= edits.len() {
        text.subrange(cursor, text.len() as int)
    } else {
        text.subrange(cursor, edits[k].span.spec_lo() as int) + edit_bytes(edits[k])
            + patched_from(text, edits, k + 1, edits[k].span.spec_hi() as int)
    }
}

/// The text with all edits carried out, every span read against the
/// unedited text.
pub open spec fn patched(text: Seq<u8>, edits: Seq<EditView>) -> Seq<u8> {
    patched_from(text, edits, 0, 0)
}

/// The text with the bytes `lo..hi` replaced by `with`.
pub open spec fn splice(text: Seq<u8>, lo: int, hi: int, with: Seq<u8>) -> Seq<u8> {
    text.subrange(0, lo) + with + text.subrange(hi, text.len() as int)
}

/// The text after the edits from index `k` on were carried out one after the
/// other, each on the text that the one before left, with its span moved by
/// `shift`: the bytes that the edits so far added less those they removed.
pub open spec fn applied_in_turn(text: Seq<u8>, edits: Seq<EditView>, k: int, shift: int) -> Seq<u8>
    decreases edits.len() - k,
{
    if k < 0 || k >= edits.len() {
        text
    } else {
        let lo = edits[k].span.spec_lo() as int;
        let hi = edits[k].span.spec_hi() as int;
        let with = edit_bytes(edits[k]);
        applied_in_turn(splice(text, lo + shift, hi + shift, with), edits, k + 1, shift + with.len() - (hi - lo))
    }
}

proof fn lemma_applied_in_turn(
    text: Seq<u8>,
    edits: Seq<EditView>,
    file: u32,
    k: int,
    cursor: int,
    done: Seq<u8>,
)
    requires
        well_formed(edits),
        fits(edits, file, text.len()),
        0 <= k <= edits.len(),
        0 <= cursor <= text.len(),
        k > 0 ==> cursor == edits[k - 1].span.spec_hi(),
        k == 0 ==> cursor == 0,
    ensures
        applied_in_turn(done + text.subrange(cursor, text.len() as int), edits, k, done.len() - cursor)
            == done + patched_from(text, edits, k, cursor),
    decreases edits.len() - k,
{
    let n = text.len() as int;
    if k < edits.len() {
        let lo = edits[k].span.spec_lo() as int;
        let hi = edits[k].span.spec_hi() as int;
        let with = edit_bytes(edits[k]);
        let shift = done.len() - cursor;
        assert(edits[k].span.wf());
        if k > 0 {
            lemma_well_formed_is_chained(edits, k - 1, k);
        }
        let now = done + text.subrange(cursor, n);
        let next = splice(now, lo + shift, hi + shift, with);
        let done_next = done + text.subrange(cursor, lo) + with;
        assert(now.subrange(0, lo + shift) =~= done + text.subrange(cursor, lo));
        assert(now.subrange(hi + shift, now.len() as int) =~= text.subrange(hi, n));
        assert(next =~= done_next + text.subrange(hi, n));
        lemma_applied_in_turn(text, edits, file, k + 1, hi, done_next);
        assert(done_next + patched_from(text, edits, k + 1, hi) =~= done + patched_from(
            text,
            edits,
            k,
            cursor,
        ));
    }
}

/// Carrying the edits of a well-formed sequence out from left to right, each
/// on the text that the one before left, needs no more than the running
/// difference in length to place each edit: the result is the text with all
/// edits carried out against the unedited text.
pub proof fn lemma_left_to_right(text: Seq<u8>, edits: Seq<EditView>, file: u32)
    requires
        well_formed(edits),
        fits(edits, file, text.len()),
    ensures
        applied_in_turn(text, edits, 0, 0) == patched(text, edits),
{
    let done = Seq::<u8>::empty();
    lemma_applied_in_turn(text, edits, file, 0, 0, done);
    assert(done + text.subrange(0, text.len() as int) =~= text);
    assert(done + patched_from(text, edits, 0, 0) =~= patched_from(text, edits, 0, 0));
}

/// An edit is refused exactly when it overlaps an edit that is there.
pub proof fn lemma_refused_iff_overlap(edits: Seq<EditView>, span: Span)
    ensures
        first_overlap(edits, span) < edits.len() <==> exists|i: int|
            0 <= i < edits.len() && (#[trigger] edits[i]).span.spec_overlaps(span),
{
    lemma_first_overlap(edits, span);
    if first_overlap(edits, span) < edits.len() {
        assert(edits[first_overlap(edits, span)].span.spec_overlaps(span));
    }
}

/// The edits of a suggestion made of `a` and `b`, in source order, unless
/// the two overlap.
pub open spec fn pair_edits(a: EditView, b: EditView) -> Option<Seq<EditView>> {
    if a.span.spec_overlaps(b.span) {
        None
    } else {
        Some(seq![a].insert(insertion_point(seq![a], b.span), b))
    }
}

/// Why an edit was refused.
#[derive(Clone, Copy, Debug, PartialEq, Eq, Structural)]
pub enum EditError {
    /// The edit overlaps the edit at this index of the suggestion.
    Overlap { existing: usize },
}

/// A suggestion under construction.
#[derive(Debug)]
pub struct SuggestionBuilder {
    edits: Vec<Edit>,
}

impl View for SuggestionBuilder {
    type V = Seq<EditView>;

    closed spec fn view(&self) -> Seq<EditView> {
        edit_views(self.edits@)
    }
}

impl SuggestionBuilder {
    #[verifier::type_invariant]
    closed spec fn inv(self) -> bool {
        well_formed(edit_views(self.edits@))
    }

    /// A suggestion without edits.
    pub fn new() -> (b: SuggestionBuilder)
        ensures
            b@ == Seq::<EditView>::empty(),
    {
        let b = SuggestionBuilder { edits: Vec::new() };
        assert(edit_views(b.edits@) =~= Seq::<EditView>::empty());
        b
    }

    /// The number of edits added so far.
    pub fn len(&self) -> (n: usize)
        ensures
            n == self@.len(),
            well_formed(self@),
    {
        proof {
            use_type_invariant(self);
        }
        self.edits.len()
    }

    /// Adds the edit that replaces the text of `span` by `text`. An edit that
    /// overlaps one added before is refused, and the suggestion stays as it
    /// was; otherwise the edit takes its place in source order.
    pub fn add_edit(&mut self, span: Span, text: String) -> (r: Result<(), EditError>)
        ensures
            well_formed(old(self)@),
            well_formed(final(self)@),
            match r {
                Ok(()) => {
                    &&& first_overlap(old(self)@, span) == old(self)@.len()
                    &&& final(self)@ == old(self)@.insert(
                        insertion_point(old(self)@, span),
                        EditView { span, text: text@ },
                    )
                },
                Err(EditError::Overlap { existing }) => {
                    &&& existing == first_overlap(old(self)@, span)
                    &&& existing < old(self)@.len()
                    &&& final(self)@ == old(self)@
                },
            },
    {
        proof {
            use_type_invariant(&*self);
        }
        let ghost before = self@;
        let n: usize = self.edits.len();
        let mut i: usize = 0;
        let mut place: usize = n;
        let _ = span.lo();
        assert(before.skip(0) =~= before);
        while i < n
            invariant
                n == self.edits.len(),
                before == edit_views(self.edits@),
                before == old(self)@,
                *self == *old(self),
                well_formed(before),
                0 <= i <= n,
                first_overlap(before, span) == i + first_overlap(before.skip(i as int), span),
                place <= n,
                place == n ==> insertion_point(before, span) == i + insertion_point(
                    before.skip(i as int),
                    span,
                ),
                place < n ==> place == insertion_point(before, span),
            decreases n - i,
        {
            let here: Span = self.edits[i].span;
            assert(before.skip(i as int)[0] == before[i as int]);
            assert(before.skip(i as int).drop_first() =~= before.skip(i + 1));
            if here.overlaps(span) {
                return Err(EditError::Overlap { existing: i });
            }
            if place == n && Self::earlier(span, here) {
                place = i;
            }
            i = i + 1;
        }
        assert(before.skip(n as int) =~= Seq::<EditView>::empty());
        let ghost e = EditView { span, text: text@ };
        proof {
            lemma_insert_keeps_well_formed(before, e);
            lemma_insertion_point(before, span);
        }
        let mut taken = SuggestionBuilder::new();
        core::mem::swap(self, &mut taken);
        let SuggestionBuilder { edits } = taken;
        let mut edits = edits;
        edits.insert(place, Edit { span, text });
        assert(edit_views(edits@) =~= before.insert(place as int, e));
        *self = SuggestionBuilder { edits };
        Ok(())
    }

    fn earlier(a: Span, b: Span) -> (r: bool)
        ensures
            r == comes_before(a, b),
    {
        a.file() < b.file() || (a.file() == b.file() && (a.lo() < b.lo() || (a.lo() == b.lo()
            && a.hi() < b.hi())))
    }

    /// Freezes the suggestion with the given level of confidence.
    pub fn finalize(self, applicability: Applicability) -> (s: Suggestion)
        ensures
            s@.edits == self@,
            s@.applicability == applicability,
            well_formed(self@),
    {
        proof {
            use_type_invariant(&self);
        }
        Suggestion { edits: self.edits, applicability }
    }
}

/// A finished suggestion: its edits are in source order and do not overlap.
#[derive(Debug)]
pub struct Suggestion {
    edits: Vec<Edit>,
    applicability: Applicability,
}

/// The mathematical value of a [`Suggestion`].
pub struct SuggestionView {
    pub edits: Seq<EditView>,
    pub applicability: Applicability,
}

impl View for Suggestion {
    type V = SuggestionView;

    closed spec fn view(&self) -> SuggestionView {
        SuggestionView { edits: edit_views(self.edits@), applicability: self.applicability }
    }
}

impl Suggestion {
    #[verifier::type_invariant]
    closed spec fn inv(self) -> bool {
        well_formed(edit_views(self.edits@))
    }

    /// The suggestion that replaces the text of one span.
    pub fn single(span: Span, text: String, applicability: Applicability) -> (s: Suggestion)
        ensures
            s@ == (SuggestionView { edits: seq![EditView { span, text: text@ }], applicability }),
    {
        let _ = span.lo();
        let ghost e = EditView { span, text: text@ };
        let mut edits: Vec<Edit> = Vec::new();
        edits.push(Edit { span, text });
        assert(edit_views(edits@) =~= seq![e]);
        Suggestion { edits, applicability }
    }

    /// The suggestion made of two edits, unless they overlap.
    pub fn pair(
        a_span: Span,
        a_text: String,
        b_span: Span,
        b_text: String,
        applicability: Applicability,
    ) -> (r: Option<Suggestion>)
        ensures
            match r {
                Some(s) => pair_edits(
                    EditView { span: a_span, text: a_text@ },
                    EditView { span: b_span, text: b_text@ },
                ) == Some(s@.edits) && s@.applicability == applicability,
                None => pair_edits(
                    EditView { span: a_span, text: a_text@ },
                    EditView { span: b_span, text: b_text@ },
                ) is None,
            },
    {
        let ghost a = EditView { span: a_span, text: a_text@ };
        let mut builder = SuggestionBuilder::new();
        assert(first_overlap(Seq::<EditView>::empty(), a_span) == 0);
        assert(insertion_point(Seq::<EditView>::empty(), a_span) == 0);
        let first = builder.add_edit(a_span, a_text);
        assert(first is Ok);
        assert(builder@ =~= seq![a]);
        let ghost one = seq![a];
        assert(one.drop_first() =~= Seq::<EditView>::empty());
        assert(first_overlap(one.drop_first(), b_span) == 0);
        assert(first_overlap(one, b_span) == (if a.span.spec_overlaps(b_span) {
            0int
        } else {
            1int
        }));
        match builder.add_edit(b_span, b_text) {
            Ok(()) => Some(builder.finalize(applicability)),
            Err(_) => None,
        }
    }

    /// The level of confidence the suggestion was finished with.
    pub fn applicability(&self) -> (a: Applicability)
        ensures
            a == self@.applicability,
    {
        self.applicability
    }

    /// The number of edits.
    pub fn len(&self) -> (n: usize)
        ensures
            n == self@.edits.len(),
            well_formed(self@.edits),
    {
        proof {
            use_type_invariant(self);
        }
        self.edits.len()
    }

    /// Carries the edits out on `text`, the content of the file `file`.
    /// Returns nothing where an edit lies in another file or reaches beyond
    /// the end of the text.
    pub fn apply(&self, file: u32, text: &Vec<u8>) -> (r: Option<Vec<u8>>)
        ensures
            r.is_some() == fits(self@.edits, file, text@.len()),
            r matches Some(out) ==> out@ == patched(text@, self@.edits),
    {
        proof {
            use_type_invariant(self);
        }
        let ghost edits = self@.edits;
        let n: usize = self.edits.len();
        let mut k: usize = 0;
        while k < n
            invariant
                n == self.edits.len(),
                edits == edit_views(self.edits@),
                0 <= k <= n,
                forall|i: int|
                    0 <= i < k ==> (#[trigger] edits[i]).span.spec_file() == file
                        && edits[i].span.spec_hi() <= text@.len(),
            decreases n - k,
        {
            let span: Span = self.edits[k].span;
            assert(edits[k as int].span == span);
            if span.file() != file || span.hi() as usize > text.len() {
                return None;
            }
            k = k + 1;
        }
        let mut out: Vec<u8> = Vec::new();
        let mut cursor: usize = 0;
        k = 0;
        assert(out@ + patched_from(text@, edits, 0, 0) =~= patched(text@, edits));
        while k < n
            invariant
                n == self.edits.len(),
                edits == edit_views(self.edits@),
                well_formed(edits),
                fits(edits, file, text@.len()),
                0 <= k <= n,
                cursor <= text.len(),
                k > 0 ==> cursor == edits[k - 1].span.spec_hi(),
                k == 0 ==> cursor == 0,
                out@ + patched_from(text@, edits, k as int, cursor as int) == patched(text@, edits),
            decreases n - k,
        {
            let edit: &Edit = &self.edits[k];
            assert(edits[k as int] == edit@);
            let lo: usize = edit.span.lo() as usize;
            let hi: usize = edit.span.hi() as usize;
            proof {
                if k > 0 {
                    lemma_well_formed_is_chained(edits, k - 1, k as int);
                }
            }
            let ghost so_far = out@;
            push_range(&mut out, text, cursor, lo);
            push_slice(&mut out, edit.text.as_str().as_bytes());
            assert(out@ + patched_from(text@, edits, k + 1, hi as int) =~= so_far + patched_from(
                text@,
                edits,
                k as int,
                cursor as int,
            ));
            cursor = hi;
            k = k + 1;
        }
        push_range(&mut out, text, cursor, text.len());
        Some(out)
    }

    /// The edit at `index`, in source order.
    pub fn edit(&self, index: usize) -> (e: &Edit)
        requires
            index < self@.edits.len(),
        ensures
            e@ == self@.edits[index as int],
    {
        &self.edits[index]
    }
}

/// Appends the bytes `from..to` of `text` to `out`.
fn push_range(out: &mut Vec<u8>, text: &Vec<u8>, from: usize, to: usize)
    requires
        from <= to <= text@.len(),
    ensures
        final(out)@ == old(out)@ + text@.subrange(from as int, to as int),
{
    let mut i: usize = from;
    while i < to
        invariant
            from <= i <= to <= text@.len(),
            out@ == old(out)@ + text@.subrange(from as int, i as int),
        decreases to - i,
    {
        out.push(text[i]);
        assert(text@.subrange(from as int, i + 1) =~= text@.subrange(from as int, i as int).push(
            text@[i as int],
        ));
        i = i + 1;
    }
}

/// Appends `bytes` to `out`.
fn push_slice(out: &mut Vec<u8>, bytes: &[u8])
    ensures
        final(out)@ == old(out)@ + bytes@,
{
    let mut i: usize = 0;
    while i < bytes.len()
        invariant
            0 <= i <= bytes@.len(),
            out@ == old(out)@ + bytes@.subrange(0, i as int),
        decreases bytes@.len() - i,
    {
        out.push(bytes[i]);
        assert(bytes@.subrange(0, i + 1) =~= bytes@.subrange(0, i as int).push(bytes@[i as int]));
        i = i + 1;
    }
    assert(bytes@.subrange(0, bytes@.len() as int) =~= bytes@);
}

} // verus!
