//! Source spans: a half-open byte range inside one source file, tagged with
//! the syntax context it was produced in.

use vstd::prelude::*;

verus! {

/// The syntax context of text written by the user, as opposed to text that a
/// macro expansion produced.
pub const ROOT_CTXT: u32 = 0;

/// A half-open byte range `lo..hi` of the file `file`, in syntax context
/// `ctxt`. The range is never inverted.
#[derive(Clone, Copy, Debug, PartialEq, Eq, Hash, Structural)]
pub struct Span {
    file: u32,
    lo: u32,
    hi: u32,
    ctxt: u32,
}

impl Span {
    #[verifier::type_invariant]
    pub closed spec fn ordered(self) -> bool {
        self.lo <= self.hi
    }

    /// The file the span lies in.
    pub closed spec fn spec_file(&self) -> u32 {
        self.file
    }

    /// The first byte of the span.
    pub closed spec fn spec_lo(&self) -> u32 {
        self.lo
    }

    /// The byte after the last byte of the span.
    pub closed spec fn spec_hi(&self) -> u32 {
        self.hi
    }

    /// The syntax context of the span.
    pub closed spec fn spec_ctxt(&self) -> u32 {
        self.ctxt
    }

    /// The span of `file` between `a` and `b`, whichever order they come in.
    pub open spec fn spec_make(file: u32, a: u32, b: u32, ctxt: u32) -> Span {
        if a <= b {
            Span::spec_raw(file, a, b, ctxt)
        } else {
            Span::spec_raw(file, b, a, ctxt)
        }
    }

    /// The span with exactly these four parts.
    pub closed spec fn spec_raw(file: u32, lo: u32, hi: u32, ctxt: u32) -> Span {
        Span { file, lo, hi, ctxt }
    }

    /// A span is determined by its four parts.
    pub broadcast proof fn lemma_parts(file: u32, lo: u32, hi: u32, ctxt: u32)
        ensures
            (#[trigger] Span::spec_raw(file, lo, hi, ctxt)).spec_file() == file,
            Span::spec_raw(file, lo, hi, ctxt).spec_lo() == lo,
            Span::spec_raw(file, lo, hi, ctxt).spec_hi() == hi,
            Span::spec_raw(file, lo, hi, ctxt).spec_ctxt() == ctxt,
    {
    }

    /// Two spans with the same four parts are the same span.
    pub proof fn lemma_extensional(a: Span, b: Span)
        requires
            a.spec_file() == b.spec_file(),
            a.spec_lo() == b.spec_lo(),
            a.spec_hi() == b.spec_hi(),
            a.spec_ctxt() == b.spec_ctxt(),
        ensures
            a == b,
    {
    }

    /// Whether the bounds of the span are in order; this holds of every span
    /// that executable code can hold.
    pub open spec fn wf(&self) -> bool {
        self.spec_lo() <= self.spec_hi()
    }

    /// A span of user-written text. Bounds given in the wrong order are
    /// exchanged.
    pub fn new(file: u32, a: u32, b: u32) -> (s: Span)
        ensures
            s == Span::spec_make(file, a, b, ROOT_CTXT),
            s.wf(),
    {
        Span::with_ctxt(file, a, b, ROOT_CTXT)
    }

    /// A span in the given syntax context. Bounds given in the wrong order
    /// are exchanged.
    pub fn with_ctxt(file: u32, a: u32, b: u32, ctxt: u32) -> (s: Span)
        ensures
            s == Span::spec_make(file, a, b, ctxt),
            s.wf(),
    {
        if a <= b {
            Span { file, lo: a, hi: b, ctxt }
        } else {
            Span { file, lo: b, hi: a, ctxt }
        }
    }

    #[verifier::when_used_as_spec(spec_file)]
    pub fn file(&self) -> (r: u32)
        ensures
            r == self.spec_file(),
    {
        self.file
    }

    #[verifier::when_used_as_spec(spec_lo)]
    pub fn lo(&self) -> (r: u32)
        ensures
            r == self.spec_lo(),
            self.wf(),
    {
        proof {
            use_type_invariant(self);
        }
        self.lo
    }

    #[verifier::when_used_as_spec(spec_hi)]
    pub fn hi(&self) -> (r: u32)
        ensures
            r == self.spec_hi(),
            self.wf(),
    {
        proof {
            use_type_invariant(self);
        }
        self.hi
    }

    #[verifier::when_used_as_spec(spec_ctxt)]
    pub fn ctxt(&self) -> (r: u32)
        ensures
            r == self.spec_ctxt(),
    {
        self.ctxt
    }

    /// Whether a macro expansion produced the text of the span.
    pub open spec fn spec_from_expansion(&self) -> bool {
        self.spec_ctxt() != ROOT_CTXT
    }

    #[verifier::when_used_as_spec(spec_from_expansion)]
    pub fn from_expansion(&self) -> (r: bool)
        ensures
            r == self.spec_from_expansion(),
    {
        self.ctxt != ROOT_CTXT
    }

    /// Whether both spans were produced in the same syntax context.
    pub open spec fn spec_eq_ctxt(&self, other: Span) -> bool {
        self.spec_ctxt() == other.spec_ctxt()
    }

    #[verifier::when_used_as_spec(spec_eq_ctxt)]
    pub fn eq_ctxt(&self, other: Span) -> (r: bool)
        ensures
            r == self.spec_eq_ctxt(other),
    {
        self.ctxt == other.ctxt
    }

    /// Whether both spans lie in the same source file.
    pub open spec fn spec_same_file(&self, other: Span) -> bool {
        self.spec_file() == other.spec_file()
    }

    #[verifier::when_used_as_spec(spec_same_file)]
    pub fn same_file(&self, other: Span) -> (r: bool)
        ensures
            r == self.spec_same_file(other),
    {
        self.file == other.file
    }

    /// The source order of spans: by start, then by end, then by context.
    pub open spec fn spec_precedes(&self, other: Span) -> bool {
        ||| self.spec_lo() < other.spec_lo()
        ||| (self.spec_lo() == other.spec_lo() && self.spec_hi() < other.spec_hi())
        ||| (self.spec_lo() == other.spec_lo() && self.spec_hi() == other.spec_hi()
            && self.spec_ctxt() < other.spec_ctxt())
    }

    #[verifier::when_used_as_spec(spec_precedes)]
    pub fn precedes(&self, other: Span) -> (r: bool)
        ensures
            r == self.spec_precedes(other),
    {
        self.lo < other.lo || (self.lo == other.lo && (self.hi < other.hi || (self.hi == other.hi
            && self.ctxt < other.ctxt)))
    }

    /// Whether the two spans share at least one byte of one file.
    pub open spec fn spec_overlaps(&self, other: Span) -> bool {
        &&& self.spec_file() == other.spec_file()
        &&& self.spec_lo() < other.spec_hi()
        &&& other.spec_lo() < self.spec_hi()
    }

    #[verifier::when_used_as_spec(spec_overlaps)]
    pub fn overlaps(&self, other: Span) -> (r: bool)
        ensures
            r == self.spec_overlaps(other),
    {
        self.file == other.file && self.lo < other.hi && other.lo < self.hi
    }

    /// The span with its start moved to `lo`.
    pub open spec fn spec_with_lo(&self, lo: u32) -> Span {
        Span::spec_make(self.spec_file(), lo, self.spec_hi(), self.spec_ctxt())
    }

    #[verifier::when_used_as_spec(spec_with_lo)]
    pub fn with_lo(&self, lo: u32) -> (s: Span)
        ensures
            s == self.spec_with_lo(lo),
    {
        Span::with_ctxt(self.file, lo, self.hi, self.ctxt)
    }

    /// The span with its end moved to `hi`.
    pub open spec fn spec_with_hi(&self, hi: u32) -> Span {
        Span::spec_make(self.spec_file(), self.spec_lo(), hi, self.spec_ctxt())
    }

    #[verifier::when_used_as_spec(spec_with_hi)]
    pub fn with_hi(&self, hi: u32) -> (s: Span)
        ensures
            s == self.spec_with_hi(hi),
    {
        Span::with_ctxt(self.file, self.lo, hi, self.ctxt)
    }

    /// The empty span at the start of this one.
    pub open spec fn spec_shrink_to_lo(&self) -> Span {
        Span::spec_make(self.spec_file(), self.spec_lo(), self.spec_lo(), self.spec_ctxt())
    }

    #[verifier::when_used_as_spec(spec_shrink_to_lo)]
    pub fn shrink_to_lo(&self) -> (s: Span)
        ensures
            s == self.spec_shrink_to_lo(),
    {
        Span::with_ctxt(self.file, self.lo, self.lo, self.ctxt)
    }

    /// The context of a span that joins `self` with `end`: that of `self`,
    /// unless `end` is user-written text.
    pub open spec fn spec_joined_ctxt(&self, end: Span) -> u32 {
        if end.spec_ctxt() == ROOT_CTXT {
            ROOT_CTXT
        } else {
            self.spec_ctxt()
        }
    }

    /// The span from the start of this one to the start of `end`.
    pub open spec fn spec_until(&self, end: Span) -> Span {
        Span::spec_make(self.spec_file(), self.spec_lo(), end.spec_lo(), self.spec_joined_ctxt(end))
    }

    #[verifier::when_used_as_spec(spec_until)]
    pub fn until(&self, end: Span) -> (s: Span)
        ensures
            s == self.spec_until(end),
    {
        let ctxt: u32 = if end.ctxt == ROOT_CTXT {
            ROOT_CTXT
        } else {
            self.ctxt
        };
        Span::with_ctxt(self.file, self.lo, end.lo, ctxt)
    }

    /// The span from the end of this one to the start of `end`.
    pub open spec fn spec_between(&self, end: Span) -> Span {
        Span::spec_make(self.spec_file(), self.spec_hi(), end.spec_lo(), self.spec_joined_ctxt(end))
    }

    #[verifier::when_used_as_spec(spec_between)]
    pub fn between(&self, end: Span) -> (s: Span)
        ensures
            s == self.spec_between(end),
    {
        let ctxt: u32 = if end.ctxt == ROOT_CTXT {
            ROOT_CTXT
        } else {
            self.ctxt
        };
        Span::with_ctxt(self.file, self.hi, end.lo, ctxt)
    }
}

} // verus!
