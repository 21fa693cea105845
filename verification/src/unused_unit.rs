//! Unit expressions and unit return types that can be left out.

use ra_ap_rustc_lexer::{FrontmatterAllowed, TokenKind, tokenize};
use vstd::prelude::*;
use vstd::string::StringExecFns;
use vstd::string::StringSliceAdditionalSpecFns;
use crate::conf::{Conf, Msrv, spec_unit_never_type_fallback, unit_never_type_fallback};
use crate::finding::{Finding, FindingView, Lint, Message, Proposal, ProposalView};
use crate::span::Span;
use crate::suggestion::{Applicability, EditView, Suggestion, SuggestionView};
use crate::sym;
use crate::tree::{NodeKind, NodeView, Tree};

verus! {

/// A token of source text, as far as this pass tells tokens apart.
#[derive(Clone, Copy, Debug, PartialEq, Eq, Hash, Structural)]
pub enum Lexeme {
    OpenParen,
    LineComment,
    BlockComment,
    Whitespace,
    InvalidIdent,
    UnknownPrefix,
    UnknownPrefixLifetime,
    Unknown,
    Eof,
    /// Any other token.
    Other,
}

/// The tokens that the lexer of the compiler splits a text into.
pub uninterp spec fn lexemes(text: Seq<char>) -> Seq<Lexeme>;

/// Splits a text into tokens with `ra_ap_rustc_lexer::tokenize`, which is
/// told that the text is a piece of a file, not a whole one. The result is
/// the sequence of tokens that the lexer yields for this text, each reduced
/// to the kinds that this pass tells apart; nothing else is claimed of it.
#[verifier::external_body]
fn lex(text: &str) -> (tokens: Vec<Lexeme>)
    ensures
        tokens@ == lexemes(text@),
{
    tokenize(text, FrontmatterAllowed::No).map(|token| match token.kind {
        TokenKind::OpenParen => Lexeme::OpenParen,
        TokenKind::LineComment { .. } => Lexeme::LineComment,
        TokenKind::BlockComment { .. } => Lexeme::BlockComment,
        TokenKind::Whitespace => Lexeme::Whitespace,
        TokenKind::InvalidIdent => Lexeme::InvalidIdent,
        TokenKind::UnknownPrefix => Lexeme::UnknownPrefix,
        TokenKind::UnknownPrefixLifetime => Lexeme::UnknownPrefixLifetime,
        TokenKind::Unknown => Lexeme::Unknown,
        TokenKind::Eof => Lexeme::Eof,
        _ => Lexeme::Other,
    }).collect()
}

/// The number of opening parentheses among the first `n` tokens.
pub open spec fn open_parens(tokens: Seq<Lexeme>, n: int) -> int
    decreases n,
{
    if n <= 0 {
        0
    } else if tokens[n - 1] == Lexeme::OpenParen {
        open_parens(tokens, n - 1) + 1
    } else {
        open_parens(tokens, n - 1)
    }
}

/// Whether a token carries no meaning: a comment, whitespace, or something
/// that the lexer could not make sense of.
pub open spec fn is_trivia(token: Lexeme) -> bool {
    token != Lexeme::OpenParen && token != Lexeme::Other
}

/// Whether every token is trivia.
pub open spec fn all_trivia(tokens: Seq<Lexeme>) -> bool {
    forall|i: int| 0 <= i < tokens.len() ==> is_trivia(#[trigger] tokens[i])
}

/// Whether the tokens of a unit expression and of the text in front of it
/// show a unit written out by itself: at most one opening parenthesis in
/// the expression, and nothing but trivia in front of it.
pub open spec fn unit_alone(expr_tokens: Seq<Lexeme>, before_tokens: Seq<Lexeme>) -> bool {
    open_parens(expr_tokens, expr_tokens.len() as int) <= 1 && all_trivia(before_tokens)
}

/// Whether the tokens hold more than one opening parenthesis.
pub fn has_nested_paren(tokens: &Vec<Lexeme>) -> (r: bool)
    ensures
        r == (open_parens(tokens@, tokens@.len() as int) > 1),
{
    let mut seen: bool = false;
    let mut i: usize = 0;
    while i < tokens.len()
        invariant
            0 <= i <= tokens@.len(),
            open_parens(tokens@, i as int) == (if seen {
                1int
            } else {
                0int
            }),
        decreases tokens@.len() - i,
    {
        if tokens[i] == Lexeme::OpenParen {
            if seen {
                proof {
                    lemma_open_parens_grow(tokens@, i + 1, tokens@.len() as int);
                }
                return true;
            }
            seen = true;
        }
        i = i + 1;
    }
    false
}

proof fn lemma_open_parens_grow(tokens: Seq<Lexeme>, m: int, n: int)
    requires
        0 <= m <= n,
    ensures
        open_parens(tokens, m) <= open_parens(tokens, n),
    decreases n - m,
{
    if m < n {
        lemma_open_parens_grow(tokens, m, n - 1);
    }
}

/// Whether every token is trivia.
pub fn only_trivia(tokens: &Vec<Lexeme>) -> (r: bool)
    ensures
        r == all_trivia(tokens@),
{
    let mut i: usize = 0;
    while i < tokens.len()
        invariant
            0 <= i <= tokens@.len(),
            forall|k: int| 0 <= k < i ==> is_trivia(#[trigger] tokens@[k]),
        decreases tokens@.len() - i,
    {
        match tokens[i] {
            Lexeme::OpenParen | Lexeme::Other => {
                return false;
            },
            _ => {},
        }
        i = i + 1;
    }
    true
}

/// Whether the tokens of a unit expression and of the text in front of it
/// show a unit written out by itself.
pub fn unit_by_tokens(expr_tokens: &Vec<Lexeme>, before_tokens: &Vec<Lexeme>) -> (r: bool)
    ensures
        r == unit_alone(expr_tokens@, before_tokens@),
{
    !has_nested_paren(expr_tokens) && only_trivia(before_tokens)
}

/// The final expression of block `b`, where `b` is a block with one.
pub open spec fn block_tail(t: Seq<NodeView>, b: int) -> Option<usize> {
    if 0 <= b < t.len() && (t[b].kind matches NodeKind::Block { has_tail, .. } && has_tail)
        && t[b].children.len() >= 1 {
        Some(t[b].children.last())
    } else {
        None
    }
}

/// The final expression of block `b`, where `b` is a block with one.
pub fn tail_of(tree: &Tree, b: usize) -> (r: Option<usize>)
    ensures
        r == block_tail(tree@, b as int),
        r matches Some(e) ==> e < b && b < tree@.len(),
{
    if b >= tree.len() {
        return None;
    }
    match tree.kind(b) {
        NodeKind::Block { has_tail, .. } => {
            let n: usize = tree.child_count(b);
            if has_tail && n >= 1 {
                Some(tree.child(b, n - 1))
            } else {
                None
            }
        },
        _ => None,
    }
}

/// The span in front of the final expression of block `b`: from the end of
/// the last statement, or else from behind the opening brace, up to the
/// expression.
pub open spec fn spec_before_span(t: Seq<NodeView>, b: int) -> Span {
    let e = t[b].children.last() as int;
    if t[b].children.len() >= 2 {
        t[t[b].children[t[b].children.len() - 2] as int].span.spec_between(t[e].span)
    } else {
        let lo = t[b].span.spec_lo();
        t[b].span.spec_with_lo(
            if lo < u32::MAX {
                (lo + 1) as u32
            } else {
                lo
            },
        ).spec_until(t[e].span)
    }
}

/// The span in front of the final expression of block `b`.
pub fn before_span(tree: &Tree, b: usize) -> (s: Span)
    requires
        block_tail(tree@, b as int) is Some,
    ensures
        s == spec_before_span(tree@, b as int),
{
    let n: usize = tree.child_count(b);
    let e: usize = tree.child(b, n - 1);
    if n >= 2 {
        let stmt: usize = tree.child(b, n - 2);
        tree.span(stmt).between(tree.span(e))
    } else {
        let block: Span = tree.span(b);
        let lo: u32 = block.lo();
        let from: u32 = if lo < u32::MAX {
            lo + 1
        } else {
            lo
        };
        block.with_lo(from).until(tree.span(e))
    }
}

/// Whether expression `e` is the unit value written as an empty tuple.
pub open spec fn is_empty_tuple(t: Seq<NodeView>, e: int) -> bool {
    t[e].kind is Tup && t[e].children.len() == 0
}

/// Whether expression `e` is the unit value: an empty tuple, or a block
/// that holds nothing.
pub open spec fn spec_is_unit_expr(t: Seq<NodeView>, e: int) -> bool {
    is_empty_tuple(t, e) || (t[e].kind is Block && t[e].children.len() == 0)
}

/// Whether expression `e` is the unit value.
pub fn is_unit_expr(tree: &Tree, e: usize) -> (r: bool)
    requires
        e < tree@.len(),
    ensures
        r == spec_is_unit_expr(tree@, e as int),
{
    match tree.kind(e) {
        NodeKind::Tup => tree.child_count(e) == 0,
        NodeKind::Block { .. } => tree.child_count(e) == 0,
        _ => false,
    }
}

/// Whether the final expression of block `b` is a unit written out by
/// itself, given the tokens of the expression and of the text in front of
/// it, where the texts can be had.
pub open spec fn block_expr_unit(
    t: Seq<NodeView>,
    b: int,
    expr_tokens: Option<Seq<Lexeme>>,
    before_tokens: Option<Seq<Lexeme>>,
) -> bool {
    &&& block_tail(t, b) matches Some(e)
    &&& is_empty_tuple(t, e as int)
    &&& expr_tokens matches Some(x)
    &&& open_parens(x, x.len() as int) <= 1
    &&& before_tokens matches Some(y)
    &&& all_trivia(y)
}

/// The tokens of an optional text.
pub open spec fn tokens_of(text: Option<&str>) -> Option<Seq<Lexeme>> {
    match text {
        Some(s) => Some(lexemes(s@)),
        None => None,
    }
}

/// Whether the final expression of block `b` is a unit written out by
/// itself and not the result of anything else. `expr_text` is the source
/// text of the expression, `before_text` that of the span in front of it,
/// where they can be had.
pub fn is_block_expr_unit(
    tree: &Tree,
    b: usize,
    expr_text: Option<&str>,
    before_text: Option<&str>,
) -> (r: bool)
    ensures
        r == block_expr_unit(tree@, b as int, tokens_of(expr_text), tokens_of(before_text)),
{
    let e: usize = match tail_of(tree, b) {
        Some(e) => e,
        None => {
            return false;
        },
    };
    match tree.kind(e) {
        NodeKind::Tup => {},
        _ => {
            return false;
        },
    }
    if tree.child_count(e) != 0 {
        return false;
    }
    let text: &str = match expr_text {
        Some(s) => s,
        None => {
            return false;
        },
    };
    if has_nested_paren(&lex(text)) {
        return false;
    }
    let before: &str = match before_text {
        Some(s) => s,
        None => {
            return false;
        },
    };
    only_trivia(&lex(before))
}

/// The finding that proposes to remove the text of `span`.
pub open spec fn removal(span: Span, message: Message, help: Message, applicability: Applicability) -> FindingView {
    FindingView {
        lint: Lint::UnusedUnit,
        span,
        message,
        note: None,
        help: None,
        proposal: Some(
            ProposalView {
                help,
                suggestion: SuggestionView {
                    edits: seq![EditView { span, text: Seq::<char>::empty() }],
                    applicability,
                },
            },
        ),
    }
}

fn remove(span: Span, message: Message, help: Message, applicability: Applicability) -> (f: Finding)
    ensures
        f@ == removal(span, message, help, applicability),
{
    let text: String = String::new();
    Finding {
        lint: Lint::UnusedUnit,
        span,
        message,
        note: None,
        help: None,
        proposal: Some(Proposal { help, suggestion: Suggestion::single(span, text, applicability) }),
    }
}

/// Whether the byte is whitespace.
pub open spec fn is_space(b: u8) -> bool {
    b == 32 || (9 <= b <= 13)
}

/// Whether the arrow `->` stands at position `i` of the text.
pub open spec fn arrow_at(s: Seq<u8>, i: int) -> bool {
    0 <= i && i + 1 < s.len() && s[i] == 45 && s[i + 1] == 62
}

/// The position of the last arrow in front of position `n`.
pub open spec fn last_arrow(s: Seq<u8>, n: int) -> Option<int>
    decreases n,
{
    if n <= 0 {
        None
    } else if arrow_at(s, n - 1) {
        Some(n - 1)
    } else {
        last_arrow(s, n - 1)
    }
}

/// The position `r` moved back over the whitespace in front of it, but not
/// beyond position 1.
pub open spec fn skip_space_back(s: Seq<u8>, r: int) -> int
    decreases r,
{
    if r > 1 && r <= s.len() && is_space(s[r - 1]) {
        skip_space_back(s, r - 1)
    } else {
        r
    }
}

/// The position in front of the last arrow of the text and of the
/// whitespace before the arrow.
pub open spec fn arrow_position(s: Seq<u8>) -> Option<int> {
    match last_arrow(s, s.len() as int) {
        Some(i) => Some(skip_space_back(s, i)),
        None => None,
    }
}

/// The arrow only moves back over whitespace and stays inside the text.
pub proof fn lemma_skip_space_back(s: Seq<u8>, r: int)
    requires
        0 <= r <= s.len(),
    ensures
        0 <= skip_space_back(s, r) <= r,
        forall|k: int| skip_space_back(s, r) <= k < r ==> is_space(#[trigger] s[k]),
    decreases r,
{
    if r > 1 && is_space(s[r - 1]) {
        lemma_skip_space_back(s, r - 1);
    }
}

/// The position in front of the last arrow of the text and of the
/// whitespace before the arrow.
pub fn position_before_rarrow(text: &str) -> (r: Option<usize>)
    ensures
        match r {
            Some(p) => arrow_position(text.spec_bytes()) == Some(p as int),
            None => arrow_position(text.spec_bytes()) is None,
        },
{
    let bytes: &[u8] = text.as_bytes();
    let ghost s = text.spec_bytes();
    let mut at: usize = match find_last_arrow(bytes) {
        Some(i) => i,
        None => {
            return None;
        },
    };
    let ghost start = at;
    while at > 1 && is_space_byte(bytes[at - 1])
        invariant
            s == bytes@,
            0 <= at <= start < s.len(),
            skip_space_back(s, start as int) == skip_space_back(s, at as int),
        decreases at,
    {
        at = at - 1;
    }
    Some(at)
}

fn find_last_arrow(bytes: &[u8]) -> (r: Option<usize>)
    ensures
        match r {
            Some(i) => last_arrow(bytes@, bytes@.len() as int) == Some(i as int) && i < bytes@.len(),
            None => last_arrow(bytes@, bytes@.len() as int) is None,
        },
{
    let mut n: usize = bytes.len();
    while n > 0
        invariant
            0 <= n <= bytes@.len(),
            last_arrow(bytes@, bytes@.len() as int) == last_arrow(bytes@, n as int),
        decreases n,
    {
        if n < bytes.len() && bytes[n - 1] == 45 && bytes[n] == 62 {
            return Some(n - 1);
        }
        n = n - 1;
    }
    None
}

fn is_space_byte(b: u8) -> (r: bool)
    ensures
        r == is_space(b),
{
    b == 32 || (9 <= b && b <= 13)
}

/// The expansion that a span comes from, by the place where its macro is
/// defined; nothing for text that the user wrote.
pub open spec fn spec_get_def(span: Span, def_site: Span) -> Option<Span> {
    if span.spec_from_expansion() {
        Some(def_site)
    } else {
        None
    }
}

/// The expansion that a span comes from. `def_site` is the place where the
/// macro of the span is defined.
pub fn get_def(span: Span, def_site: Span) -> (r: Option<Span>)
    ensures
        r == spec_get_def(span, def_site),
{
    if span.from_expansion() {
        Some(def_site)
    } else {
        None
    }
}

/// The finding on a unit return type at `ty_span` of a signature at `span`.
/// Where the source text from the start of the signature to the end of the
/// type can be had and holds an arrow, the text from in front of the arrow
/// on is removed; else the type alone, with less confidence.
pub open spec fn unit_return_finding(ty_span: Span, span: Span, src: Option<Seq<u8>>) -> FindingView {
    match arrow_offset(span, src) {
        Some(lo) => removal(
            ty_span.spec_with_lo(lo),
            Message::UnneededUnitReturn,
            Message::RemoveUnitReturn,
            Applicability::MachineApplicable,
        ),
        None => removal(
            ty_span,
            Message::UnneededUnitReturn,
            Message::RemoveUnitReturn,
            Applicability::MaybeIncorrect,
        ),
    }
}

/// The offset in the file of the position in front of the arrow, where the
/// text can be had, holds an arrow, and the offset fits.
pub open spec fn arrow_offset(span: Span, src: Option<Seq<u8>>) -> Option<u32> {
    match src {
        Some(s) => match arrow_position(s) {
            Some(p) => if span.spec_lo() + p <= u32::MAX {
                Some((span.spec_lo() + p) as u32)
            } else {
                None
            },
            None => None,
        },
        None => None,
    }
}

/// The bytes of an optional text.
pub open spec fn bytes_of(text: Option<&str>) -> Option<Seq<u8>> {
    match text {
        Some(s) => Some(s.spec_bytes()),
        None => None,
    }
}

/// The finding on a unit return type at `ty_span` of a signature at `span`.
/// `src` is the source text from the start of `span` to the end of
/// `ty_span`, where it can be had.
pub fn lint_unneeded_unit_return(ty_span: Span, span: Span, src: Option<&str>) -> (f: Finding)
    ensures
        f@ == unit_return_finding(ty_span, span, bytes_of(src)),
{
    if let Some(text) = src {
        if let Some(p) = position_before_rarrow(text) {
            if p <= u32::MAX as usize - span.lo() as usize {
                let lo: u32 = span.lo() + p as u32;
                return remove(
                    ty_span.with_lo(lo),
                    Message::UnneededUnitReturn,
                    Message::RemoveUnitReturn,
                    Applicability::MachineApplicable,
                );
            }
        }
    }
    remove(
        ty_span,
        Message::UnneededUnitReturn,
        Message::RemoveUnitReturn,
        Applicability::MaybeIncorrect,
    )
}

/// The return type that a signature declares.
#[derive(Clone, Copy, Debug, PartialEq, Eq, Structural)]
pub struct ReturnType {
    /// Whether the type is written as the empty tuple.
    pub unit: bool,
    pub span: Span,
    /// The place where the macro of `span` is defined.
    pub def_site: Span,
}

/// What the pass reads of a function or a closure.
#[derive(Clone, Copy, Debug, PartialEq, Eq, Structural)]
pub struct FnDecl {
    pub span: Span,
    /// The place where the macro of `span` is defined.
    pub def_site: Span,
    /// The declared return type, where one is written.
    pub output: Option<ReturnType>,
    /// The node of the closure expression, for a closure.
    pub closure: Option<usize>,
    /// The node of the body.
    pub body: usize,
}

/// The type that an associated type is set equal to.
#[derive(Clone, Copy, Debug, PartialEq, Eq, Structural)]
pub struct BoundType {
    pub span: Span,
    /// Whether the type is the unit type.
    pub unit: bool,
}

/// A constraint on an associated type, such as `Output = ()`.
#[derive(Clone, Copy, Debug, PartialEq, Eq, Structural)]
pub struct Constraint {
    pub name: u32,
    /// The type that the associated type is set equal to, where the
    /// constraint is an equality with a type.
    pub ty: Option<BoundType>,
}

/// The generic arguments of the first segment of a trait path.
#[derive(Clone, Copy, Debug, PartialEq, Eq, Structural)]
pub struct BoundArgs {
    /// Whether the arguments are written in parentheses, as in `Fn(u8) -> u8`.
    pub paren_sugar: bool,
    /// The number of constraints.
    pub constraints: usize,
    /// The first constraint.
    pub first: Option<Constraint>,
}

/// What the pass reads of a trait bound.
#[derive(Clone, Copy, Debug, PartialEq, Eq, Structural)]
pub struct PolyTraitRef {
    pub span: Span,
    /// The number of segments of the trait path.
    pub segments: usize,
    /// The name of the first segment.
    pub name: u32,
    /// The generic arguments of the first segment.
    pub args: Option<BoundArgs>,
}

/// The unit return type of a bound on a function trait, where the bound
/// has one that the user wrote.
pub open spec fn bound_unit_return(poly: PolyTraitRef) -> Option<Span> {
    if poly.segments == 1 && (poly.name == sym::FN || poly.name == sym::FN_MUT || poly.name
        == sym::FN_ONCE) && (poly.args matches Some(args) && args.paren_sugar && args.constraints
        == 1 && (args.first matches Some(c) && c.name == sym::OUTPUT && (c.ty matches Some(ty)
        && ty.span != poly.span && !ty.span.spec_from_expansion() && ty.unit))) {
        Some(poly.args->0.first->0.ty->0.span)
    } else {
        None
    }
}

/// The value of body `b`, where `b` is a body.
pub open spec fn body_value(t: Seq<NodeView>, b: int) -> Option<usize> {
    if 0 <= b < t.len() && t[b].kind is Body && t[b].children.len() >= 1 {
        Some(t[b].children.last())
    } else {
        None
    }
}

/// Whether body `b` is a block whose final expression never yields a value.
pub open spec fn ends_in_never(t: Seq<NodeView>, b: int) -> bool {
    &&& body_value(t, b) matches Some(v)
    &&& block_tail(t, v as int) matches Some(e)
    &&& t[e as int].facts.never
}

/// Whether the closure of a declaration binds generic parameters.
pub open spec fn has_binder(t: Seq<NodeView>, decl: FnDecl) -> bool {
    &&& decl.closure matches Some(c)
    &&& c < t.len()
    &&& t[c as int].kind matches NodeKind::Closure(info)
    &&& info.bound_generic_params > 0
}

/// The unit return type of a declaration that can be left out.
pub open spec fn fn_unit_return(t: Seq<NodeView>, msrv: Msrv, decl: FnDecl) -> Option<Span> {
    if (decl.output matches Some(ty) && ty.unit && !ty.span.spec_from_expansion() && spec_get_def(
        decl.span,
        decl.def_site,
    ) == spec_get_def(ty.span, ty.def_site)) && !has_binder(t, decl) && !(msrv.spec_meets(
        spec_unit_never_type_fallback(),
    ) && ends_in_never(t, decl.body as int)) {
        Some(decl.output->0.span)
    } else {
        None
    }
}

/// The pass that reports needless unit expressions and return types.
#[derive(Clone, Copy, Debug)]
pub struct UnusedUnit {
    msrv: Msrv,
}

impl UnusedUnit {
    /// The oldest release that the pass was configured with.
    pub closed spec fn spec_msrv(&self) -> Msrv {
        self.msrv
    }

    /// The pass, with the oldest release that the settings name.
    pub fn new(conf: &Conf) -> (pass: UnusedUnit)
        ensures
            pass.spec_msrv() == conf.msrv,
    {
        UnusedUnit { msrv: conf.msrv }
    }

    /// The finding on the return type of a function or closure: a return
    /// type written as `()` by the user is reported, unless the closure
    /// binds generic parameters, or the body ends in an expression that
    /// never yields a value and the code may rely on the release from which
    /// such an expression no longer falls back to the unit type. `src` is
    /// the source text from the start of the declaration to the end of the
    /// return type, where it can be had.
    pub fn check_fn(&self, tree: &Tree, decl: &FnDecl, src: Option<&str>) -> (r: Option<Finding>)
        ensures
            match r {
                Some(f) => fn_unit_return(tree@, self.spec_msrv(), *decl) matches Some(ty_span)
                    && f@ == unit_return_finding(ty_span, decl.span, bytes_of(src)),
                None => fn_unit_return(tree@, self.spec_msrv(), *decl) is None,
            },
    {
        let ty: ReturnType = match decl.output {
            Some(ty) => ty,
            None => {
                return None;
            },
        };
        if !ty.unit || ty.span.from_expansion() || get_def(decl.span, decl.def_site) != get_def(
            ty.span,
            ty.def_site,
        ) {
            return None;
        }
        if let Some(c) = decl.closure {
            if c < tree.len() {
                if let NodeKind::Closure(info) = tree.kind(c) {
                    if info.bound_generic_params > 0 {
                        return None;
                    }
                }
            }
        }
        if self.msrv.meets(unit_never_type_fallback()) && never_at_end(tree, decl.body) {
            return None;
        }
        Some(lint_unneeded_unit_return(ty.span, decl.span, src))
    }

    /// The finding on the final expression of block `b`: a unit that the
    /// user wrote out by itself, without attributes, can be removed.
    pub fn check_block(
        &self,
        tree: &Tree,
        b: usize,
        expr_text: Option<&str>,
        before_text: Option<&str>,
    ) -> (r: Option<Finding>)
        ensures
            match r {
                Some(f) => block_unit(tree@, b as int, tokens_of(expr_text), tokens_of(before_text))
                    && f@ == removal(
                    tree@[block_tail(tree@, b as int)->0 as int].span,
                    Message::UnneededUnitExpression,
                    Message::RemoveFinalUnit,
                    Applicability::MachineApplicable,
                ),
                None => !block_unit(tree@, b as int, tokens_of(expr_text), tokens_of(before_text)),
            },
    {
        let e: usize = match tail_of(tree, b) {
            Some(e) => e,
            None => {
                return None;
            },
        };
        if tree.span(e).from_expansion() || tree.facts(e).has_attrs {
            return None;
        }
        if !is_block_expr_unit(tree, b, expr_text, before_text) {
            return None;
        }
        Some(
            remove(
                tree.span(e),
                Message::UnneededUnitExpression,
                Message::RemoveFinalUnit,
                Applicability::MachineApplicable,
            ),
        )
    }

    /// The finding on expression `e`: the unit value of a `return` or a
    /// `break`, written by the user, can be removed.
    pub fn check_expr(&self, tree: &Tree, e: usize) -> (r: Option<Finding>)
        ensures
            match r {
                Some(f) => jump_unit(tree@, e as int) matches Some(v) && f@ == removal(
                    tree@[v as int].span,
                    Message::UnneededUnit,
                    Message::RemoveUnit,
                    Applicability::MachineApplicable,
                ),
                None => jump_unit(tree@, e as int) is None,
            },
    {
        if e >= tree.len() {
            return None;
        }
        match tree.kind(e) {
            NodeKind::Ret | NodeKind::Break => {},
            _ => {
                return None;
            },
        }
        if tree.child_count(e) != 1 {
            return None;
        }
        let v: usize = tree.child(e, 0);
        if !is_unit_expr(tree, v) || tree.span(v).from_expansion() {
            return None;
        }
        Some(
            remove(
                tree.span(v),
                Message::UnneededUnit,
                Message::RemoveUnit,
                Applicability::MachineApplicable,
            ),
        )
    }

    /// The finding on a trait bound: the unit return type of a bound on a
    /// function trait, written as `-> ()` by the user, can be removed.
    /// `src` is the source text from the start of the bound to the end of
    /// the return type, where it can be had.
    pub fn check_poly_trait_ref(&self, poly: &PolyTraitRef, src: Option<&str>) -> (r: Option<Finding>)
        ensures
            match r {
                Some(f) => bound_unit_return(*poly) matches Some(ty_span) && f@
                    == unit_return_finding(ty_span, poly.span, bytes_of(src)),
                None => bound_unit_return(*poly) is None,
            },
    {
        if poly.segments != 1 || !(poly.name == sym::FN || poly.name == sym::FN_MUT || poly.name
            == sym::FN_ONCE) {
            return None;
        }
        let args: BoundArgs = match poly.args {
            Some(a) => a,
            None => {
                return None;
            },
        };
        if !args.paren_sugar || args.constraints != 1 {
            return None;
        }
        let c: Constraint = match args.first {
            Some(c) => c,
            None => {
                return None;
            },
        };
        if c.name != sym::OUTPUT {
            return None;
        }
        let ty: BoundType = match c.ty {
            Some(ty) => ty,
            None => {
                return None;
            },
        };
        if ty.span == poly.span || ty.span.from_expansion() || !ty.unit {
            return None;
        }
        Some(lint_unneeded_unit_return(ty.span, poly.span, src))
    }
}

/// The unit value of the `return` or `break` expression `e` that can be
/// removed.
pub open spec fn jump_unit(t: Seq<NodeView>, e: int) -> Option<usize> {
    if 0 <= e < t.len() && (t[e].kind is Ret || t[e].kind is Break) && t[e].children.len() == 1
        && spec_is_unit_expr(t, t[e].children[0] as int) && !t[t[e].children[0] as int].span.spec_from_expansion() {
        Some(t[e].children[0])
    } else {
        None
    }
}

/// Whether the final expression of block `b` is reported.
pub open spec fn block_unit(
    t: Seq<NodeView>,
    b: int,
    expr_tokens: Option<Seq<Lexeme>>,
    before_tokens: Option<Seq<Lexeme>>,
) -> bool {
    &&& block_tail(t, b) matches Some(e)
    &&& !t[e as int].span.spec_from_expansion()
    &&& !t[e as int].facts.has_attrs
    &&& block_expr_unit(t, b, expr_tokens, before_tokens)
}

fn never_at_end(tree: &Tree, body: usize) -> (r: bool)
    ensures
        r == ends_in_never(tree@, body as int),
{
    if body >= tree.len() {
        return false;
    }
    match tree.kind(body) {
        NodeKind::Body => {},
        _ => {
            return false;
        },
    }
    let n: usize = tree.child_count(body);
    let v: usize = tree.child(body, n - 1);
    match tail_of(tree, v) {
        Some(e) => tree.facts(e).never,
        None => false,
    }
}

} // verus!
