//! Lexical analysis: query text to a sequence of tokens with spans.
use vstd::prelude::*;

use crate::diagnostic::{DiagnosticView, GQLError};
use crate::text::{chars_of, text_equal};

verus! {

#[derive(Clone, Copy, Debug, PartialEq, Eq, Structural)]
pub enum TokenKind {
    Select,
    From,
    Where,
    Limit,
    Offset,
    Order,
    By,
    Equal,
    Or,
    And,
    Symbol,
    Number,
    String,
    Star,
    Comma,
}

/// A span of character offsets into the query text.
#[derive(Clone, Copy, Debug, PartialEq, Eq, Structural)]
pub struct Location {
    pub start: usize,
    pub end: usize,
}

#[derive(Debug)]
pub struct Token {
    pub location: Location,
    pub kind: TokenKind,
    pub literal: String,
}

/// A token as a mathematical value.
pub struct TokenView {
    pub location: Location,
    pub kind: TokenKind,
    pub literal: Seq<char>,
}

impl View for Token {
    type V = TokenView;

    open spec fn view(&self) -> TokenView {
        TokenView { location: self.location, kind: self.kind, literal: self.literal@ }
    }
}

pub open spec fn tokens_view(t: Seq<Token>) -> Seq<TokenView> {
    t.map_values(|x: Token| x@)
}

pub open spec fn outcome_view(r: Result<Vec<Token>, GQLError>) -> Result<
    Seq<TokenView>,
    DiagnosticView,
> {
    match r {
        Ok(t) => Ok(tokens_view(t@)),
        Err(e) => Err(e@),
    }
}

/// Whether `c` has the Unicode Alphabetic property.
pub uninterp spec fn alphabetic(c: char) -> bool;

/// Whether `c` is in one of Unicode's numeric general categories.
pub uninterp spec fn numeric(c: char) -> bool;

/// Relies on `char::is_alphabetic`, which tests the Unicode Alphabetic property.
#[verifier::external_body]
fn is_alphabetic(c: char) -> (r: bool)
    ensures
        r == alphabetic(c),
{
    c.is_alphabetic()
}

/// Relies on `char::is_numeric`, which tests the Unicode Nd, Nl and No categories.
#[verifier::external_body]
fn is_numeric(c: char) -> (r: bool)
    ensures
        r == numeric(c),
{
    c.is_numeric()
}

/// The classes of characters that make up runs.
pub enum CharClass {
    Letter,
    Digit,
    NotQuote,
}

pub open spec fn in_class(c: char, class: CharClass) -> bool {
    match class {
        CharClass::Letter => alphabetic(c),
        CharClass::Digit => numeric(c),
        CharClass::NotQuote => c != '"',
    }
}

/// The end of the maximal run of characters of `class` that starts at `i`.
pub open spec fn run_end(s: Seq<char>, i: int, class: CharClass) -> int
    decreases s.len() - i,
{
    if 0 <= i < s.len() && in_class(s[i], class) {
        run_end(s, i + 1, class)
    } else {
        i
    }
}

pub proof fn lemma_run_end_bounds(s: Seq<char>, i: int, class: CharClass)
    requires
        0 <= i,
    ensures
        i <= run_end(s, i, class),
        i <= s.len() ==> run_end(s, i, class) <= s.len(),
        forall|k: int| i <= k < run_end(s, i, class) ==> in_class(#[trigger] s[k], class),
        0 <= run_end(s, i, class) < s.len() ==> !in_class(s[run_end(s, i, class)], class),
    decreases s.len() - i,
{
    if 0 <= i < s.len() && in_class(s[i], class) {
        lemma_run_end_bounds(s, i + 1, class);
    }
}

/// The kind of a run of letters: a keyword when it is one exactly, else a symbol.
pub open spec fn keyword_kind(lit: Seq<char>) -> TokenKind {
    if lit == "select"@ {
        TokenKind::Select
    } else if lit == "from"@ {
        TokenKind::From
    } else if lit == "where"@ {
        TokenKind::Where
    } else if lit == "limit"@ {
        TokenKind::Limit
    } else if lit == "offset"@ {
        TokenKind::Offset
    } else if lit == "order"@ {
        TokenKind::Order
    } else if lit == "by"@ {
        TokenKind::By
    } else {
        TokenKind::Symbol
    }
}

/// The kind of a one-character punctuation token.
pub open spec fn punctuation_kind(c: char) -> Option<TokenKind> {
    if c == '*' {
        Some(TokenKind::Star)
    } else if c == '|' {
        Some(TokenKind::Or)
    } else if c == '&' {
        Some(TokenKind::And)
    } else if c == ',' {
        Some(TokenKind::Comma)
    } else if c == '=' {
        Some(TokenKind::Equal)
    } else {
        None
    }
}

pub open spec fn is_blank(c: char) -> bool {
    c == ' ' || c == '\n' || c == '\t'
}

pub open spec fn span(start: int, end: int) -> Location {
    Location { start: start as usize, end: end as usize }
}

pub open spec fn token_at(start: int, end: int, kind: TokenKind, literal: Seq<char>) -> TokenView {
    TokenView { location: span(start, end), kind, literal }
}

pub open spec fn prepend(head: Seq<TokenView>, rest: Result<Seq<TokenView>, DiagnosticView>) -> Result<
    Seq<TokenView>,
    DiagnosticView,
> {
    match rest {
        Ok(t) => Ok(head + t),
        Err(e) => Err(e),
    }
}

/// The tokens of `s` from offset `pos` on, or the first diagnostic.
pub open spec fn scan(s: Seq<char>, pos: int) -> Result<Seq<TokenView>, DiagnosticView>
    decreases s.len() - pos,
    via scan_decreases
{
    if pos < 0 || pos >= s.len() {
        Ok(Seq::empty())
    } else if alphabetic(s[pos]) {
        let e = run_end(s, pos, CharClass::Letter);
        let lit = s.subrange(pos, e);
        prepend(seq![token_at(pos, e, keyword_kind(lit), lit)], scan(s, e))
    } else if numeric(s[pos]) {
        let e = run_end(s, pos, CharClass::Digit);
        prepend(seq![token_at(pos, e, TokenKind::Number, s.subrange(pos, e))], scan(s, e))
    } else if s[pos] == '"' {
        let close = run_end(s, pos + 1, CharClass::NotQuote);
        if close >= s.len() {
            Err(
                DiagnosticView {
                    message: "Unterminated string"@,
                    location: span(pos, s.len() as int),
                },
            )
        } else {
            prepend(
                seq![token_at(pos, close + 1, TokenKind::String, s.subrange(pos + 1, close))],
                scan(s, close + 1),
            )
        }
    } else if punctuation_kind(s[pos]) is Some {
        prepend(
            seq![token_at(pos, pos, punctuation_kind(s[pos])->0, seq![s[pos]])],
            scan(s, pos + 1),
        )
    } else if is_blank(s[pos]) {
        scan(s, pos + 1)
    } else {
        Err(DiagnosticView { message: "Unexpected character"@, location: span(pos, pos) })
    }
}

#[via_fn]
proof fn scan_decreases(s: Seq<char>, pos: int) {
    if 0 <= pos < s.len() {
        lemma_run_end_bounds(s, pos + 1, CharClass::Letter);
        lemma_run_end_bounds(s, pos + 1, CharClass::Digit);
        lemma_run_end_bounds(s, pos + 1, CharClass::NotQuote);
    }
}

proof fn lemma_prepend_push(done: Seq<TokenView>, tok: TokenView, rest: Result<Seq<TokenView>, DiagnosticView>)
    ensures
        prepend(done, prepend(seq![tok], rest)) == prepend(done.push(tok), rest),
{
    if let Ok(t) = rest {
        assert(done + (seq![tok] + t) =~= done.push(tok) + t);
    }
}

proof fn lemma_tokens_view_push(t: Seq<Token>, x: Token)
    ensures
        tokens_view(t.push(x)) == tokens_view(t).push(x@),
{
    assert(tokens_view(t.push(x)) =~= tokens_view(t).push(x@));
}

/// The kind of a run of letters: the keyword it spells exactly, else `Symbol`.
pub fn resolve_symbol_kind(literal: String) -> (r: TokenKind)
    ensures
        r == keyword_kind(literal@),
{
    let s = literal.as_str();
    if text_equal(s, "select") {
        TokenKind::Select
    } else if text_equal(s, "from") {
        TokenKind::From
    } else if text_equal(s, "where") {
        TokenKind::Where
    } else if text_equal(s, "limit") {
        TokenKind::Limit
    } else if text_equal(s, "offset") {
        TokenKind::Offset
    } else if text_equal(s, "order") {
        TokenKind::Order
    } else if text_equal(s, "by") {
        TokenKind::By
    } else {
        TokenKind::Symbol
    }
}

fn punctuation(c: char) -> (r: Option<TokenKind>)
    ensures
        r == punctuation_kind(c),
{
    if c == '*' {
        Some(TokenKind::Star)
    } else if c == '|' {
        Some(TokenKind::Or)
    } else if c == '&' {
        Some(TokenKind::And)
    } else if c == ',' {
        Some(TokenKind::Comma)
    } else if c == '=' {
        Some(TokenKind::Equal)
    } else {
        None
    }
}

fn slice_text(s: &str, from: usize, to: usize) -> (r: String)
    requires
        from <= to <= s@.len(),
    ensures
        r@ == s@.subrange(from as int, to as int),
{
    String::from_str(s.substring_char(from, to))
}

/// Splits query text into tokens in source order, or reports the first
/// character that starts no token, or a string that is never closed.
pub fn tokenize(script: String) -> (r: Result<Vec<Token>, GQLError>)
    ensures
        outcome_view(r) == scan(script@, 0),
{
    let ghost s = script@;
    let chars = chars_of(script.as_str());
    let len = chars.len();
    let mut tokens: Vec<Token> = Vec::new();
    let mut position: usize = 0;
    assert(tokens_view(tokens@) =~= Seq::<TokenView>::empty());
    assert(Seq::<TokenView>::empty() + Seq::<TokenView>::empty() =~= Seq::<TokenView>::empty());
    while position < len
        invariant
            len == chars@.len(),
            chars@ == s,
            s == script@,
            position <= len,
            scan(s, 0) == prepend(tokens_view(tokens@), scan(s, position as int)),
        decreases len - position,
    {
        let column_start = position;
        let c = chars[position];
        let ghost done = tokens_view(tokens@);
        if is_alphabetic(c) {
            position += 1;
            while position < len && is_alphabetic(chars[position])
                invariant
                    len == chars@.len(),
                    chars@ == s,
                    column_start < position <= len,
                    run_end(s, column_start as int, CharClass::Letter) == run_end(
                        s,
                        position as int,
                        CharClass::Letter,
                    ),
                decreases len - position,
            {
                position += 1;
            }
            let literal = slice_text(script.as_str(), column_start, position);
            let kind = resolve_symbol_kind(literal.clone());
            let token = Token { location: Location { start: column_start, end: position }, kind, literal };
            proof {
                lemma_prepend_push(done, token@, scan(s, position as int));
                lemma_tokens_view_push(tokens@, token);
            }
            tokens.push(token);
        } else if is_numeric(c) {
            position += 1;
            while position < len && is_numeric(chars[position])
                invariant
                    len == chars@.len(),
                    chars@ == s,
                    column_start < position <= len,
                    run_end(s, column_start as int, CharClass::Digit) == run_end(
                        s,
                        position as int,
                        CharClass::Digit,
                    ),
                decreases len - position,
            {
                position += 1;
            }
            let literal = slice_text(script.as_str(), column_start, position);
            let token = Token {
                location: Location { start: column_start, end: position },
                kind: TokenKind::Number,
                literal,
            };
            proof {
                lemma_prepend_push(done, token@, scan(s, position as int));
                lemma_tokens_view_push(tokens@, token);
            }
            tokens.push(token);
        } else if c == '"' {
            position += 1;
            while position < len && chars[position] != '"'
                invariant
                    len == chars@.len(),
                    chars@ == s,
                    column_start < position <= len,
                    run_end(s, column_start + 1, CharClass::NotQuote) == run_end(
                        s,
                        position as int,
                        CharClass::NotQuote,
                    ),
                decreases len - position,
            {
                position += 1;
            }
            if position >= len {
                return Err(
                    GQLError {
                        message: String::from_str("Unterminated string"),
                        location: Location { start: column_start, end: len },
                    },
                );
            }
            let literal = slice_text(script.as_str(), column_start + 1, position);
            position += 1;
            let token = Token {
                location: Location { start: column_start, end: position },
                kind: TokenKind::String,
                literal,
            };
            proof {
                lemma_prepend_push(done, token@, scan(s, position as int));
                lemma_tokens_view_push(tokens@, token);
            }
            tokens.push(token);
        } else if let Some(kind) = punctuation(c) {
            let literal = slice_text(script.as_str(), column_start, column_start + 1);
            assert(literal@ =~= seq![c]);
            position += 1;
            let token = Token { location: Location { start: column_start, end: column_start }, kind, literal };
            proof {
                lemma_prepend_push(done, token@, scan(s, position as int));
                lemma_tokens_view_push(tokens@, token);
            }
            tokens.push(token);
        } else if c == ' ' || c == '\n' || c == '\t' {
            position += 1;
        } else {
            return Err(
                GQLError {
                    message: String::from_str("Unexpected character"),
                    location: Location { start: column_start, end: column_start },
                },
            );
        }
    }
    proof {
        if let Ok(t) = scan(s, 0) {
            assert(t =~= tokens_view(tokens@) + Seq::<TokenView>::empty());
        }
    }
    Ok(tokens)
}

/// Whether the span of `t` re-sliced from `s` gives back its literal: the
/// whole span for words and numbers, the span without its quotes for strings,
/// and the one character at `start` for punctuation, whose span is empty.
pub open spec fn reslices(s: Seq<char>, t: TokenView) -> bool {
    let a = t.location.start as int;
    let b = t.location.end as int;
    match t.kind {
        TokenKind::String => a + 2 <= b <= s.len() && s[a] == '"' && s[b - 1] == '"'
            && t.literal == s.subrange(a + 1, b - 1),
        TokenKind::Star | TokenKind::Or | TokenKind::And | TokenKind::Comma | TokenKind::Equal => a
            == b < s.len() && t.literal == seq![s[a]],
        _ => a < b <= s.len() && t.literal == s.subrange(a, b),
    }
}

/// Every token that tokenizing produces re-slices from the text to its literal.
pub proof fn lemma_scan_reslices(s: Seq<char>, pos: int)
    requires
        0 <= pos,
        s.len() <= usize::MAX,
    ensures
        scan(s, pos) is Ok ==> forall|i: int|
            0 <= i < scan(s, pos)->Ok_0.len() ==> reslices(s, #[trigger] scan(s, pos)->Ok_0[i]),
    decreases s.len() - pos,
{
    if pos < s.len() {
        let c = s[pos];
        let next = if alphabetic(c) {
            lemma_run_end_bounds(s, pos + 1, CharClass::Letter);
            assert(run_end(s, pos, CharClass::Letter) == run_end(s, pos + 1, CharClass::Letter));
            run_end(s, pos, CharClass::Letter)
        } else if numeric(c) {
            lemma_run_end_bounds(s, pos + 1, CharClass::Digit);
            assert(run_end(s, pos, CharClass::Digit) == run_end(s, pos + 1, CharClass::Digit));
            run_end(s, pos, CharClass::Digit)
        } else if c == '"' {
            lemma_run_end_bounds(s, pos + 1, CharClass::NotQuote);
            let close = run_end(s, pos + 1, CharClass::NotQuote);
            if close < s.len() {
                assert(!in_class(s[close], CharClass::NotQuote));
                close + 1
            } else {
                s.len() as int
            }
        } else {
            pos + 1
        };
        lemma_scan_reslices(s, next);
        if let Ok(all) = scan(s, pos) {
            if !is_blank(c) || alphabetic(c) || numeric(c) || c == '"' || punctuation_kind(c) is Some {
                let rest = scan(s, next)->Ok_0;
                assert(all.len() == rest.len() + 1);
                assert forall|i: int| 0 <= i < all.len() implies reslices(s, #[trigger] all[i]) by {
                    if i > 0 {
                        assert(all[i] == rest[i - 1]);
                    }
                }
            }
        }
    }
}

} // verus!
