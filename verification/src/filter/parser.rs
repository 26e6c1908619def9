//! The grammar of filter expressions, and the parser that follows it.

use vstd::prelude::*;
use vstd::string::StrSliceExecFns;

use super::lexer::{
    lex, lex_error_from, lex_spec, lexed_spec, lexed_tokens, pattern_fits, spans_within,
    tokens_model, Token, TokenKind, TokenModel,
};
use super::{Expr, ExprModel, Port, PortFilter};
use crate::pattern::{compile, regex_error_message, regex_is_valid};
use crate::text::chars_of;

verus! {

/// What kind of mistake a filter's text contains.
#[derive(Copy, Clone, Debug, PartialEq, Eq, Structural)]
pub enum ParseErrorKind {
    /// The text cannot be split into tokens.
    Token,
    /// The tokens do not form an expression.
    Grammar,
    /// A pattern is not a regular expression that the regex crate accepts.
    Regex,
}

/// A parse error: its kind, the span of characters it concerns, and a
/// human-readable reason.
#[derive(Debug)]
pub struct ParseError {
    pub kind: ParseErrorKind,
    pub start: usize,
    pub end: usize,
    pub reason: String,
}

/// The tree of a parsed expression whose patterns are not yet compiled; each
/// port filter keeps the span of its `/pattern/` part.
#[derive(Debug)]
pub enum Syntax {
    And(Box<Syntax>, Box<Syntax>),
    Or(Box<Syntax>, Box<Syntax>),
    Not(Box<Syntax>),
    Filter(Port, String, usize, usize),
}

impl View for Syntax {
    type V = ExprModel;

    open spec fn view(&self) -> ExprModel
        decreases self,
    {
        match self {
            Syntax::And(l, r) => ExprModel::And(Box::new((**l)@), Box::new((**r)@)),
            Syntax::Or(l, r) => ExprModel::Or(Box::new((**l)@), Box::new((**r)@)),
            Syntax::Not(x) => ExprModel::Not(Box::new((**x)@)),
            Syntax::Filter(port, pattern, _, _) => ExprModel::Match(*port, pattern@),
        }
    }
}

/// Whether every port filter's span in `e` lies within the first `n` characters.
pub open spec fn syntax_spans_within(e: Syntax, n: nat) -> bool
    decreases e,
{
    match e {
        Syntax::And(l, r) => syntax_spans_within(*l, n) && syntax_spans_within(*r, n),
        Syntax::Or(l, r) => syntax_spans_within(*l, n) && syntax_spans_within(*r, n),
        Syntax::Not(x) => syntax_spans_within(*x, n),
        Syntax::Filter(_, _, start, end) => start <= end <= n,
    }
}

// The grammar, over tokens, from the loosest operator to the tightest:
//
//   or_expr  := and_expr ("or" and_expr)*     left-associative
//   and_expr := unary ("and" unary)*           left-associative
//   unary    := "not" unary | atom
//   atom     := "input /re/" | "output /re/" | "(" or_expr ")"
//
// Each function parses from token position `i` and yields the tree and the
// position after it.

pub open spec fn parse_or(t: Seq<TokenModel>, i: int) -> Option<(ExprModel, int)>
    decreases t.len() - i, 3int,
{
    match parse_and(t, i) {
        Some((lhs, j)) => if i < j <= t.len() {
            parse_or_rest(t, lhs, j)
        } else {
            None
        },
        None => None,
    }
}

pub open spec fn parse_or_rest(t: Seq<TokenModel>, lhs: ExprModel, i: int) -> Option<
    (ExprModel, int),
>
    decreases t.len() - i, 0int,
{
    if 0 <= i < t.len() && t[i] is Or {
        match parse_and(t, i + 1) {
            Some((rhs, k)) => if i + 1 < k <= t.len() {
                parse_or_rest(t, ExprModel::Or(Box::new(lhs), Box::new(rhs)), k)
            } else {
                None
            },
            None => None,
        }
    } else {
        Some((lhs, i))
    }
}

pub open spec fn parse_and(t: Seq<TokenModel>, i: int) -> Option<(ExprModel, int)>
    decreases t.len() - i, 2int,
{
    match parse_unary(t, i) {
        Some((lhs, j)) => if i < j <= t.len() {
            parse_and_rest(t, lhs, j)
        } else {
            None
        },
        None => None,
    }
}

pub open spec fn parse_and_rest(t: Seq<TokenModel>, lhs: ExprModel, i: int) -> Option<
    (ExprModel, int),
>
    decreases t.len() - i, 0int,
{
    if 0 <= i < t.len() && t[i] is And {
        match parse_unary(t, i + 1) {
            Some((rhs, k)) => if i + 1 < k <= t.len() {
                parse_and_rest(t, ExprModel::And(Box::new(lhs), Box::new(rhs)), k)
            } else {
                None
            },
            None => None,
        }
    } else {
        Some((lhs, i))
    }
}

pub open spec fn parse_unary(t: Seq<TokenModel>, i: int) -> Option<(ExprModel, int)>
    decreases t.len() - i, 1int,
{
    if 0 <= i < t.len() && t[i] is Not {
        match parse_unary(t, i + 1) {
            Some((x, k)) => Some((ExprModel::Not(Box::new(x)), k)),
            None => None,
        }
    } else {
        parse_atom(t, i)
    }
}

pub open spec fn parse_atom(t: Seq<TokenModel>, i: int) -> Option<(ExprModel, int)>
    decreases t.len() - i, 0int,
{
    if 0 <= i < t.len() {
        match t[i] {
            TokenModel::Filter(port, pattern) => Some((ExprModel::Match(port, pattern), i + 1)),
            TokenModel::Open => match parse_or(t, i + 1) {
                Some((e, k)) => if 0 <= k < t.len() && t[k] is Close {
                    Some((e, k + 1))
                } else {
                    None
                },
                None => None,
            },
            _ => None,
        }
    } else {
        None
    }
}

/// The expression that the whole token sequence forms, if it forms one.
pub open spec fn parse_tokens(t: Seq<TokenModel>) -> Option<ExprModel> {
    match parse_or(t, 0) {
        Some((e, k)) => if k == t.len() {
            Some(e)
        } else {
            None
        },
        None => None,
    }
}

/// The expression that the text `s` denotes, if it denotes one.
pub open spec fn parse_spec(s: Seq<char>) -> Option<ExprModel> {
    match lex_spec(s) {
        Some(t) => parse_tokens(t),
        None => None,
    }
}

/// Whether the regex crate accepts every pattern in `e`.
pub open spec fn patterns_valid(e: ExprModel) -> bool
    decreases e,
{
    match e {
        ExprModel::And(l, r) => patterns_valid(*l) && patterns_valid(*r),
        ExprModel::Or(l, r) => patterns_valid(*l) && patterns_valid(*r),
        ExprModel::Not(x) => patterns_valid(*x),
        ExprModel::Match(_, pattern) => regex_is_valid(pattern),
    }
}

/// The first pattern of `e`, from left to right, that the regex crate rejects.
pub open spec fn first_invalid(e: ExprModel) -> Option<Seq<char>>
    decreases e,
{
    match e {
        ExprModel::And(l, r) => match first_invalid(*l) {
            Some(p) => Some(p),
            None => first_invalid(*r),
        },
        ExprModel::Or(l, r) => match first_invalid(*l) {
            Some(p) => Some(p),
            None => first_invalid(*r),
        },
        ExprModel::Not(x) => first_invalid(*x),
        ExprModel::Match(_, pattern) => if regex_is_valid(pattern) {
            None
        } else {
            Some(pattern)
        },
    }
}

proof fn lemma_first_invalid(e: ExprModel)
    ensures
        patterns_valid(e) <==> first_invalid(e) is None,
    decreases e,
{
    match e {
        ExprModel::And(l, r) => {
            lemma_first_invalid(*l);
            lemma_first_invalid(*r);
        },
        ExprModel::Or(l, r) => {
            lemma_first_invalid(*l);
            lemma_first_invalid(*r);
        },
        ExprModel::Not(x) => {
            lemma_first_invalid(*x);
        },
        ExprModel::Match(_, _) => {},
    }
}

pub open spec fn reason_end_operand() -> Seq<char> {
    "unexpected end of input: expected a filter, 'not' or '('"@
}

pub open spec fn reason_operand() -> Seq<char> {
    "expected a filter, 'not' or '('"@
}

pub open spec fn reason_close() -> Seq<char> {
    "expected ')'"@
}

pub open spec fn reason_trailing() -> Seq<char> {
    "expected 'and', 'or' or the end of the filter"@
}

// Where the grammar fails: for each parsing function, the index of the token
// at which it gives up (the number of tokens when it runs out of them) and
// the reason. Each is meant for the positions where its function fails.

pub open spec fn or_error(t: Seq<TokenModel>, i: int) -> (int, Seq<char>)
    decreases t.len() - i, 3int,
{
    match parse_and(t, i) {
        None => and_error(t, i),
        Some((_, j)) => if i < j <= t.len() {
            or_rest_error(t, j)
        } else {
            (0, seq![])
        },
    }
}

pub open spec fn or_rest_error(t: Seq<TokenModel>, i: int) -> (int, Seq<char>)
    decreases t.len() - i, 0int,
{
    if 0 <= i < t.len() && t[i] is Or {
        match parse_and(t, i + 1) {
            None => and_error(t, i + 1),
            Some((_, k)) => if i + 1 < k <= t.len() {
                or_rest_error(t, k)
            } else {
                (0, seq![])
            },
        }
    } else {
        (0, seq![])
    }
}

pub open spec fn and_error(t: Seq<TokenModel>, i: int) -> (int, Seq<char>)
    decreases t.len() - i, 2int,
{
    match parse_unary(t, i) {
        None => unary_error(t, i),
        Some((_, j)) => if i < j <= t.len() {
            and_rest_error(t, j)
        } else {
            (0, seq![])
        },
    }
}

pub open spec fn and_rest_error(t: Seq<TokenModel>, i: int) -> (int, Seq<char>)
    decreases t.len() - i, 0int,
{
    if 0 <= i < t.len() && t[i] is And {
        match parse_unary(t, i + 1) {
            None => unary_error(t, i + 1),
            Some((_, k)) => if i + 1 < k <= t.len() {
                and_rest_error(t, k)
            } else {
                (0, seq![])
            },
        }
    } else {
        (0, seq![])
    }
}

pub open spec fn unary_error(t: Seq<TokenModel>, i: int) -> (int, Seq<char>)
    decreases t.len() - i, 1int,
{
    if 0 <= i < t.len() && t[i] is Not {
        unary_error(t, i + 1)
    } else {
        atom_error(t, i)
    }
}

pub open spec fn atom_error(t: Seq<TokenModel>, i: int) -> (int, Seq<char>)
    decreases t.len() - i, 0int,
{
    if 0 <= i < t.len() {
        match t[i] {
            TokenModel::Filter(_, _) => (0, seq![]),
            TokenModel::Open => match parse_or(t, i + 1) {
                None => or_error(t, i + 1),
                Some((_, k)) => (k, reason_close()),
            },
            _ => (i, reason_operand()),
        }
    } else {
        (i, reason_end_operand())
    }
}

/// Where a token sequence that forms no expression fails.
pub open spec fn tokens_error(t: Seq<TokenModel>) -> (int, Seq<char>) {
    match parse_or(t, 0) {
        None => or_error(t, 0),
        Some((_, k)) => (k, reason_trailing()),
    }
}

/// The span of token `i`, or the empty span at the end `n` of the text when
/// there is no such token.
pub open spec fn lexed_span(x: Seq<(TokenModel, int, int)>, i: int, n: int) -> (int, int) {
    if 0 <= i < x.len() {
        (x[i].1, x[i].2)
    } else {
        (n, n)
    }
}

/// Where the `/pattern/` part of a port filter token ending at `end` starts:
/// the pattern and its two slashes end the token.
pub open spec fn slash_start(end: int, pattern: Seq<char>) -> int {
    end - pattern.len() - 2
}

/// The first port filter token, in order, whose pattern the regex crate
/// rejects: the span of its `/pattern/` part, and the pattern.
pub open spec fn first_bad(x: Seq<(TokenModel, int, int)>) -> Option<(int, int, Seq<char>)>
    decreases x.len(),
{
    if x.len() == 0 {
        None
    } else {
        match x[0].0 {
            TokenModel::Filter(_, p) => if !regex_is_valid(p) {
                Some((slash_start(x[0].2, p), x[0].2, p))
            } else {
                first_bad(x.drop_first())
            },
            _ => first_bad(x.drop_first()),
        }
    }
}

/// The first port filter of a parsed tree, from left to right, whose pattern
/// the regex crate rejects: its span and pattern.
pub open spec fn first_bad_syntax(e: Syntax) -> Option<(int, int, Seq<char>)>
    decreases e,
{
    match e {
        Syntax::And(l, r) => match first_bad_syntax(*l) {
            Some(v) => Some(v),
            None => first_bad_syntax(*r),
        },
        Syntax::Or(l, r) => match first_bad_syntax(*l) {
            Some(v) => Some(v),
            None => first_bad_syntax(*r),
        },
        Syntax::Not(x) => first_bad_syntax(*x),
        Syntax::Filter(_, pattern, start, end) => if regex_is_valid(pattern@) {
            None
        } else {
            Some((start as int, end as int, pattern@))
        },
    }
}

/// The kind, span and reason of the error that parsing `s` reports, for a
/// text that does not parse into an expression with valid patterns.
pub open spec fn parse_error_spec(s: Seq<char>) -> (ParseErrorKind, int, int, Seq<char>) {
    let spans = match lexed_spec(s) {
        Some(x) => x,
        None => seq![],
    };
    match lex_spec(s) {
        None => {
            let (start, end, reason) = lex_error_from(s, 0);
            (ParseErrorKind::Token, start, end, reason)
        },
        Some(t) => match parse_tokens(t) {
            None => {
                let (i, reason) = tokens_error(t);
                let (start, end) = lexed_span(spans, i, s.len() as int);
                (ParseErrorKind::Grammar, start, end, reason)
            },
            Some(_) => match first_bad(spans) {
                Some((start, end, p)) => (ParseErrorKind::Regex, start, end, regex_error_message(p)),
                None => (ParseErrorKind::Regex, 0, 0, seq![]),
            },
        },
    }
}

proof fn lemma_first_bad_append(a: Seq<(TokenModel, int, int)>, b: Seq<(TokenModel, int, int)>)
    ensures
        first_bad(a + b) == match first_bad(a) {
            Some(v) => Some(v),
            None => first_bad(b),
        },
    decreases a.len(),
{
    if a.len() == 0 {
        assert(a + b =~= b);
    } else {
        assert((a + b)[0] == a[0]);
        assert((a + b).drop_first() =~= a.drop_first() + b);
        lemma_first_bad_append(a.drop_first(), b);
    }
}

/// Splitting the tokens `i..k` at a token `j` that is no port filter.
proof fn lemma_first_bad_split(x: Seq<(TokenModel, int, int)>, i: int, j: int, k: int)
    requires
        0 <= i <= j < k <= x.len(),
        !(x[j].0 is Filter),
    ensures
        first_bad(x.subrange(i, k)) == match first_bad(x.subrange(i, j)) {
            Some(v) => Some(v),
            None => first_bad(x.subrange(j + 1, k)),
        },
{
    let b = seq![x[j]] + x.subrange(j + 1, k);
    assert(x.subrange(i, k) =~= x.subrange(i, j) + b);
    lemma_first_bad_append(x.subrange(i, j), b);
    assert(b.drop_first() =~= x.subrange(j + 1, k));
}

proof fn lemma_first_bad_syntax(e: Syntax)
    ensures
        match first_bad_syntax(e) {
            Some((_, _, p)) => first_invalid(e@) == Some(p),
            None => first_invalid(e@) is None,
        },
    decreases e,
{
    match e {
        Syntax::And(l, r) => {
            lemma_first_bad_syntax(*l);
            lemma_first_bad_syntax(*r);
        },
        Syntax::Or(l, r) => {
            lemma_first_bad_syntax(*l);
            lemma_first_bad_syntax(*r);
        },
        Syntax::Not(x) => {
            lemma_first_bad_syntax(*x);
        },
        Syntax::Filter(_, _, _, _) => {},
    }
}

/// A grammar error at token `i` (or at the end of the text if there is no such token).
fn grammar_error(tokens: &Vec<Token>, i: usize, n: usize, reason: &str) -> (res: ParseError)
    requires
        spans_within(tokens@, n as nat),
    ensures
        res.kind == ParseErrorKind::Grammar,
        res.start <= res.end <= n,
        (res.start as int, res.end as int) == lexed_span(lexed_tokens(tokens@), i as int, n as int),
        res.reason@ == reason@,
{
    if i < tokens.len() {
        ParseError {
            kind: ParseErrorKind::Grammar,
            start: tokens[i].start,
            end: tokens[i].end,
            reason: reason.to_string(),
        }
    } else {
        ParseError { kind: ParseErrorKind::Grammar, start: n, end: n, reason: reason.to_string() }
    }
}

fn parse_or_exec(tokens: &Vec<Token>, i: usize, n: usize) -> (res: Result<
    (Syntax, usize),
    ParseError,
>)
    requires
        spans_within(tokens@, n as nat),
        i <= tokens@.len(),
    ensures
        res is Ok <==> parse_or(tokens_model(tokens@), i as int) is Some,
        res matches Ok((e, k)) ==> {
            &&& parse_or(tokens_model(tokens@), i as int) == Some((e@, k as int))
            &&& i < k <= tokens@.len()
            &&& syntax_spans_within(e, n as nat)
            &&& first_bad_syntax(e) == first_bad(lexed_tokens(tokens@).subrange(i as int, k as int))
        },
        res matches Err(err) ==> {
            &&& err.kind == ParseErrorKind::Grammar
            &&& err.start <= err.end <= n
            &&& (err.start as int, err.end as int) == lexed_span(
                lexed_tokens(tokens@),
                or_error(tokens_model(tokens@), i as int).0,
                n as int,
            )
            &&& err.reason@ == or_error(tokens_model(tokens@), i as int).1
        },
    decreases tokens@.len() - i, 3int,
{
    let ghost t = tokens_model(tokens@);
    let ghost x = lexed_tokens(tokens@);
    let (first, j0) = parse_and_exec(tokens, i, n)?;
    let mut lhs = first;
    let mut j = j0;
    loop
        invariant
            spans_within(tokens@, n as nat),
            t == tokens_model(tokens@),
            x == lexed_tokens(tokens@),
            i < j <= tokens@.len(),
            parse_or(t, i as int) == parse_or_rest(t, lhs@, j as int),
            or_error(t, i as int) == or_rest_error(t, j as int),
            syntax_spans_within(lhs, n as nat),
            first_bad_syntax(lhs) == first_bad(x.subrange(i as int, j as int)),
        decreases tokens@.len() - j,
    {
        if j < tokens.len() && matches!(tokens[j].kind, TokenKind::Or) {
            assert(t[j as int] == tokens@[j as int]@);
            let (rhs, k) = parse_and_exec(tokens, j + 1, n)?;
            proof {
                lemma_first_bad_split(x, i as int, j as int, k as int);
            }
            lhs = Syntax::Or(Box::new(lhs), Box::new(rhs));
            j = k;
        } else {
            return Ok((lhs, j));
        }
    }
}

fn parse_and_exec(tokens: &Vec<Token>, i: usize, n: usize) -> (res: Result<
    (Syntax, usize),
    ParseError,
>)
    requires
        spans_within(tokens@, n as nat),
        i <= tokens@.len(),
    ensures
        res is Ok <==> parse_and(tokens_model(tokens@), i as int) is Some,
        res matches Ok((e, k)) ==> {
            &&& parse_and(tokens_model(tokens@), i as int) == Some((e@, k as int))
            &&& i < k <= tokens@.len()
            &&& syntax_spans_within(e, n as nat)
            &&& first_bad_syntax(e) == first_bad(lexed_tokens(tokens@).subrange(i as int, k as int))
        },
        res matches Err(err) ==> {
            &&& err.kind == ParseErrorKind::Grammar
            &&& err.start <= err.end <= n
            &&& (err.start as int, err.end as int) == lexed_span(
                lexed_tokens(tokens@),
                and_error(tokens_model(tokens@), i as int).0,
                n as int,
            )
            &&& err.reason@ == and_error(tokens_model(tokens@), i as int).1
        },
    decreases tokens@.len() - i, 2int,
{
    let ghost t = tokens_model(tokens@);
    let ghost x = lexed_tokens(tokens@);
    let (first, j0) = parse_unary_exec(tokens, i, n)?;
    let mut lhs = first;
    let mut j = j0;
    loop
        invariant
            spans_within(tokens@, n as nat),
            t == tokens_model(tokens@),
            x == lexed_tokens(tokens@),
            i < j <= tokens@.len(),
            parse_and(t, i as int) == parse_and_rest(t, lhs@, j as int),
            and_error(t, i as int) == and_rest_error(t, j as int),
            syntax_spans_within(lhs, n as nat),
            first_bad_syntax(lhs) == first_bad(x.subrange(i as int, j as int)),
        decreases tokens@.len() - j,
    {
        if j < tokens.len() && matches!(tokens[j].kind, TokenKind::And) {
            assert(t[j as int] == tokens@[j as int]@);
            let (rhs, k) = parse_unary_exec(tokens, j + 1, n)?;
            proof {
                lemma_first_bad_split(x, i as int, j as int, k as int);
            }
            lhs = Syntax::And(Box::new(lhs), Box::new(rhs));
            j = k;
        } else {
            return Ok((lhs, j));
        }
    }
}

fn parse_unary_exec(tokens: &Vec<Token>, i: usize, n: usize) -> (res: Result<
    (Syntax, usize),
    ParseError,
>)
    requires
        spans_within(tokens@, n as nat),
        i <= tokens@.len(),
    ensures
        res is Ok <==> parse_unary(tokens_model(tokens@), i as int) is Some,
        res matches Ok((e, k)) ==> {
            &&& parse_unary(tokens_model(tokens@), i as int) == Some((e@, k as int))
            &&& i < k <= tokens@.len()
            &&& syntax_spans_within(e, n as nat)
            &&& first_bad_syntax(e) == first_bad(lexed_tokens(tokens@).subrange(i as int, k as int))
        },
        res matches Err(err) ==> {
            &&& err.kind == ParseErrorKind::Grammar
            &&& err.start <= err.end <= n
            &&& (err.start as int, err.end as int) == lexed_span(
                lexed_tokens(tokens@),
                unary_error(tokens_model(tokens@), i as int).0,
                n as int,
            )
            &&& err.reason@ == unary_error(tokens_model(tokens@), i as int).1
        },
    decreases tokens@.len() - i, 1int,
{
    if i < tokens.len() && matches!(tokens[i].kind, TokenKind::Not) {
        assert(tokens_model(tokens@)[i as int] == tokens@[i as int]@);
        let (x, k) = parse_unary_exec(tokens, i + 1, n)?;
        proof {
            lemma_first_bad_split(lexed_tokens(tokens@), i as int, i as int, k as int);
            assert(lexed_tokens(tokens@).subrange(i as int, i as int) =~= Seq::<
                (TokenModel, int, int),
            >::empty());
        }
        Ok((Syntax::Not(Box::new(x)), k))
    } else {
        parse_atom_exec(tokens, i, n)
    }
}

fn parse_atom_exec(tokens: &Vec<Token>, i: usize, n: usize) -> (res: Result<
    (Syntax, usize),
    ParseError,
>)
    requires
        spans_within(tokens@, n as nat),
        i <= tokens@.len(),
    ensures
        res is Ok <==> parse_atom(tokens_model(tokens@), i as int) is Some,
        res matches Ok((e, k)) ==> {
            &&& parse_atom(tokens_model(tokens@), i as int) == Some((e@, k as int))
            &&& i < k <= tokens@.len()
            &&& syntax_spans_within(e, n as nat)
            &&& first_bad_syntax(e) == first_bad(lexed_tokens(tokens@).subrange(i as int, k as int))
        },
        res matches Err(err) ==> {
            &&& err.kind == ParseErrorKind::Grammar
            &&& err.start <= err.end <= n
            &&& (err.start as int, err.end as int) == lexed_span(
                lexed_tokens(tokens@),
                atom_error(tokens_model(tokens@), i as int).0,
                n as int,
            )
            &&& err.reason@ == atom_error(tokens_model(tokens@), i as int).1
        },
    decreases tokens@.len() - i, 0int,
{
    let ghost x = lexed_tokens(tokens@);
    if i >= tokens.len() {
        return Err(
            grammar_error(tokens, i, n, "unexpected end of input: expected a filter, 'not' or '('"),
        );
    }
    let tok = &tokens[i];
    assert(tokens_model(tokens@)[i as int] == tok@);
    assert(x[i as int] == (tok@, tok.start as int, tok.end as int));
    match &tok.kind {
        TokenKind::Filter(port, pattern) => {
            let copy = pattern.clone();
            let width = pattern.as_str().unicode_len();
            assert(pattern_fits(tokens@[i as int]));
            let slash = tok.end - width - 2;
            proof {
                let one = x.subrange(i as int, i + 1);
                assert(one[0] == x[i as int]);
                assert(one.drop_first() =~= Seq::<(TokenModel, int, int)>::empty());
                assert(copy@ == pattern@);
                assert(tok@ == TokenModel::Filter(*port, pattern@));
                assert(first_bad(one.drop_first()) is None);
                assert(first_bad(one) == first_bad_syntax(
                    Syntax::Filter(*port, copy, slash, tok.end),
                ));
            }
            Ok((Syntax::Filter(*port, copy, slash, tok.end), i + 1))
        },
        TokenKind::Open => {
            let (e, k) = parse_or_exec(tokens, i + 1, n)?;
            if k < tokens.len() && matches!(tokens[k].kind, TokenKind::Close) {
                proof {
                    assert(tokens_model(tokens@)[k as int] == tokens@[k as int]@);
                    lemma_first_bad_split(x, i as int, i as int, k + 1);
                    lemma_first_bad_split(x, i + 1, k as int, k + 1);
                    assert(x.subrange(i as int, i as int) =~= Seq::<(TokenModel, int, int)>::empty());
                    assert(x.subrange(k + 1, k + 1) =~= Seq::<(TokenModel, int, int)>::empty());
                }
                Ok((e, k + 1))
            } else {
                proof {
                    if k < tokens.len() {
                        assert(tokens_model(tokens@)[k as int] == tokens@[k as int]@);
                    }
                }
                Err(grammar_error(tokens, k, n, "expected ')'"))
            }
        },
        _ => Err(grammar_error(tokens, i, n, "expected a filter, 'not' or '('")),
    }
}

/// Parses a whole token sequence of a text with `n` characters.
pub fn parse_tokens_exec(tokens: &Vec<Token>, n: usize) -> (res: Result<Syntax, ParseError>)
    requires
        spans_within(tokens@, n as nat),
    ensures
        res is Ok <==> parse_tokens(tokens_model(tokens@)) is Some,
        res matches Ok(e) ==> {
            &&& parse_tokens(tokens_model(tokens@)) == Some(e@)
            &&& syntax_spans_within(e, n as nat)
            &&& first_bad_syntax(e) == first_bad(lexed_tokens(tokens@))
        },
        res matches Err(err) ==> {
            &&& err.kind == ParseErrorKind::Grammar
            &&& err.start <= err.end <= n
            &&& (err.start as int, err.end as int) == lexed_span(
                lexed_tokens(tokens@),
                tokens_error(tokens_model(tokens@)).0,
                n as int,
            )
            &&& err.reason@ == tokens_error(tokens_model(tokens@)).1
        },
{
    let (e, k) = parse_or_exec(tokens, 0, n)?;
    if k == tokens.len() {
        assert(lexed_tokens(tokens@).subrange(0, k as int) =~= lexed_tokens(tokens@));
        Ok(e)
    } else {
        Err(grammar_error(tokens, k, n, "expected 'and', 'or' or the end of the filter"))
    }
}

/// Compiles every pattern of `syntax`, left to right, stopping at the first
/// one that the regex crate rejects.
pub fn compile_syntax(syntax: &Syntax, n: usize) -> (res: Result<Expr, ParseError>)
    requires
        syntax_spans_within(*syntax, n as nat),
    ensures
        res is Ok <==> patterns_valid(syntax@),
        res matches Ok(e) ==> e@ == syntax@,
        res matches Err(err) ==> {
            &&& err.kind == ParseErrorKind::Regex
            &&& err.start <= err.end <= n
            &&& first_invalid(syntax@) matches Some(p) && err.reason@ == regex_error_message(p)
            &&& first_bad_syntax(*syntax) == Some(
                (err.start as int, err.end as int, first_invalid(syntax@)->0),
            )
        },
    decreases syntax,
{
    proof {
        lemma_first_invalid(syntax@);
        lemma_first_bad_syntax(*syntax);
    }
    match syntax {
        Syntax::And(l, r) => {
            proof {
                lemma_first_invalid((**l)@);
                lemma_first_bad_syntax(**l);
            }
            let l = compile_syntax(l, n)?;
            let r = compile_syntax(r, n)?;
            Ok(Expr::And(Box::new(l), Box::new(r)))
        },
        Syntax::Or(l, r) => {
            proof {
                lemma_first_invalid((**l)@);
                lemma_first_bad_syntax(**l);
            }
            let l = compile_syntax(l, n)?;
            let r = compile_syntax(r, n)?;
            Ok(Expr::Or(Box::new(l), Box::new(r)))
        },
        Syntax::Not(x) => {
            let x = compile_syntax(x, n)?;
            Ok(Expr::Not(Box::new(x)))
        },
        Syntax::Filter(port, pattern, start, end) => match compile(pattern.as_str()) {
            Ok(regex) => Ok(Expr::PortFilter(PortFilter::new(*port, regex))),
            Err(message) => Err(
                ParseError { kind: ParseErrorKind::Regex, start: *start, end: *end, reason: message },
            ),
        },
    }
}

/// Parses the text of a filter expression.
///
/// Whitespace between tokens is ignored; keywords need no whitespace around
/// them. `not` binds tighter than `and`, which binds tighter than `or`; both
/// binary operators associate to the left. The text must hold exactly one
/// expression. On failure, the error is the first one met: where the text
/// cannot be split into tokens, else where the tokens stop forming an
/// expression, else at the `/pattern/` of the first port filter whose
/// pattern is rejected.
pub fn parse(text: &str) -> (res: Result<Expr, ParseError>)
    ensures
        res is Ok <==> (parse_spec(text@) matches Some(e) && patterns_valid(e)),
        res matches Ok(e) ==> parse_spec(text@) == Some(e@),
        res matches Err(err) ==> {
            &&& err.start <= err.end <= text@.len()
            &&& err.kind == ParseErrorKind::Token <==> lex_spec(text@) is None
            &&& err.kind == ParseErrorKind::Grammar <==> (lex_spec(text@) is Some
                && parse_spec(text@) is None)
            &&& err.kind == ParseErrorKind::Regex <==> (parse_spec(text@) matches Some(e)
                && !patterns_valid(e))
            &&& err.kind == ParseErrorKind::Regex ==> (parse_spec(text@) matches Some(e)
                && first_invalid(e) matches Some(p) && err.reason@ == regex_error_message(p))
            &&& (err.kind, err.start as int, err.end as int, err.reason@) == parse_error_spec(
                text@,
            )
        },
{
    let chars = chars_of(text);
    let tokens = lex(&chars)?;
    let syntax = parse_tokens_exec(&tokens, chars.len())?;
    let res = compile_syntax(&syntax, chars.len());
    proof {
        lemma_first_bad_syntax(syntax);
    }
    res
}

/// The tokens of `e` written out with every operand in parentheses:
/// `not (x)`, `(l) and (r)`, `(l) or (r)`.
pub open spec fn render_tokens(e: ExprModel) -> Seq<TokenModel>
    decreases e,
{
    match e {
        ExprModel::Match(port, pattern) => seq![TokenModel::Filter(port, pattern)],
        ExprModel::Not(x) => seq![TokenModel::Not, TokenModel::Open] + render_tokens(*x) + seq![
            TokenModel::Close,
        ],
        ExprModel::And(l, r) => seq![TokenModel::Open] + render_tokens(*l) + seq![
            TokenModel::Close,
            TokenModel::And,
            TokenModel::Open,
        ] + render_tokens(*r) + seq![TokenModel::Close],
        ExprModel::Or(l, r) => seq![TokenModel::Open] + render_tokens(*l) + seq![
            TokenModel::Close,
            TokenModel::Or,
            TokenModel::Open,
        ] + render_tokens(*r) + seq![TokenModel::Close],
    }
}

/// Whether `t` holds `part` at position `i`.
pub open spec fn holds_at(t: Seq<TokenModel>, i: int, part: Seq<TokenModel>) -> bool {
    0 <= i && i + part.len() <= t.len() && t.subrange(i, i + part.len()) == part
}

/// Whether position `k` of `t` is the end or a token other than `and` and `or`.
pub open spec fn ends_operand(t: Seq<TokenModel>, k: int) -> bool {
    k == t.len() || !(t[k] is And || t[k] is Or)
}

proof fn lemma_holds_sub(t: Seq<TokenModel>, i: int, whole: Seq<TokenModel>, off: int, part: Seq<TokenModel>)
    requires
        holds_at(t, i, whole),
        0 <= off,
        off + part.len() <= whole.len(),
        whole.subrange(off, off + part.len()) == part,
    ensures
        holds_at(t, i + off, part),
{
    assert forall|k: int| 0 <= k < part.len() implies t.subrange(i + off, i + off + part.len())[k]
        == part[k] by {
        assert(t.subrange(i, i + whole.len())[off + k] == whole[off + k]);
        assert(whole.subrange(off, off + part.len())[k] == whole[off + k]);
    }
    assert(t.subrange(i + off, i + off + part.len()) =~= part);
}

proof fn lemma_holds_index(t: Seq<TokenModel>, i: int, whole: Seq<TokenModel>, k: int)
    requires
        holds_at(t, i, whole),
        0 <= k < whole.len(),
    ensures
        t[i + k] == whole[k],
{
    assert(t.subrange(i, i + whole.len())[k] == whole[k]);
}

proof fn lemma_render_tokens_nonempty(e: ExprModel)
    ensures
        render_tokens(e).len() >= 1,
    decreases e,
{
}

/// Reading back a rendered expression, at any position of a longer token
/// sequence, where the rendering is not followed by `and` or `or`.
#[verifier::rlimit(100)]
#[verifier::spinoff_prover]
proof fn lemma_parse_rendered(t: Seq<TokenModel>, i: int, e: ExprModel)
    requires
        holds_at(t, i, render_tokens(e)),
        ends_operand(t, i + render_tokens(e).len()),
    ensures
        parse_or(t, i) == Some((e, i + render_tokens(e).len())),
    decreases e,
{
    let re = render_tokens(e);
    let n = re.len() as int;
    match e {
        ExprModel::Match(port, pattern) => {
            lemma_holds_index(t, i, re, 0);
            assert(parse_atom(t, i) == Some((e, i + 1)));
            assert(parse_unary(t, i) == Some((e, i + 1)));
            assert(parse_and_rest(t, e, i + 1) == Some((e, i + 1)));
            assert(parse_and(t, i) == Some((e, i + 1)));
            assert(parse_or_rest(t, e, i + 1) == Some((e, i + 1)));
        },
        ExprModel::Not(x) => {
            let rx = render_tokens(*x);
            lemma_render_tokens_nonempty(*x);
            assert(re[0] == TokenModel::Not);
            assert(re[1] == TokenModel::Open);
            assert(re[n - 1] == TokenModel::Close);
            assert(re.subrange(2, 2 + rx.len() as int) =~= rx);
            lemma_holds_index(t, i, re, 0);
            lemma_holds_index(t, i, re, 1);
            lemma_holds_index(t, i, re, n - 1);
            lemma_holds_sub(t, i, re, 2, rx);
            lemma_parse_rendered(t, i + 2, *x);
            assert(parse_atom(t, i + 1) == Some((*x, i + n)));
            assert(parse_unary(t, i + 1) == Some((*x, i + n)));
            assert(parse_unary(t, i) == Some((e, i + n)));
            assert(parse_and_rest(t, e, i + n) == Some((e, i + n)));
            assert(parse_and(t, i) == Some((e, i + n)));
            assert(parse_or_rest(t, e, i + n) == Some((e, i + n)));
        },
        ExprModel::And(l, r) => {
            let rl = render_tokens(*l);
            let rr = render_tokens(*r);
            lemma_render_tokens_nonempty(*l);
            lemma_render_tokens_nonempty(*r);
            let j: int = 1 + rl.len() as int;
            assert(re[0] == TokenModel::Open);
            assert(re[j] == TokenModel::Close);
            assert(re[j + 1] == TokenModel::And);
            assert(re[j + 2] == TokenModel::Open);
            assert(re[n - 1] == TokenModel::Close);
            assert(re.subrange(1, 1 + rl.len() as int) =~= rl);
            assert(re.subrange(j + 3, j + 3 + rr.len() as int) =~= rr);
            lemma_holds_index(t, i, re, 0);
            lemma_holds_index(t, i, re, j);
            lemma_holds_index(t, i, re, j + 1);
            lemma_holds_index(t, i, re, j + 2);
            lemma_holds_index(t, i, re, n - 1);
            lemma_holds_sub(t, i, re, 1, rl);
            lemma_holds_sub(t, i, re, j + 3, rr);
            lemma_parse_rendered(t, i + 1, *l);
            lemma_parse_rendered(t, i + j + 3, *r);
            assert(parse_atom(t, i) == Some((*l, i + j + 1)));
            assert(parse_unary(t, i) == Some((*l, i + j + 1)));
            assert(parse_atom(t, i + j + 2) == Some((*r, i + n)));
            assert(parse_unary(t, i + j + 2) == Some((*r, i + n)));
            assert(parse_and_rest(t, e, i + n) == Some((e, i + n)));
            assert(parse_and_rest(t, *l, i + j + 1) == Some((e, i + n)));
            assert(parse_and(t, i) == Some((e, i + n)));
            assert(parse_or_rest(t, e, i + n) == Some((e, i + n)));
        },
        ExprModel::Or(l, r) => {
            let rl = render_tokens(*l);
            let rr = render_tokens(*r);
            lemma_render_tokens_nonempty(*l);
            lemma_render_tokens_nonempty(*r);
            let j: int = 1 + rl.len() as int;
            assert(re[0] == TokenModel::Open);
            assert(re[j] == TokenModel::Close);
            assert(re[j + 1] == TokenModel::Or);
            assert(re[j + 2] == TokenModel::Open);
            assert(re[n - 1] == TokenModel::Close);
            assert(re.subrange(1, 1 + rl.len() as int) =~= rl);
            assert(re.subrange(j + 3, j + 3 + rr.len() as int) =~= rr);
            lemma_holds_index(t, i, re, 0);
            lemma_holds_index(t, i, re, j);
            lemma_holds_index(t, i, re, j + 1);
            lemma_holds_index(t, i, re, j + 2);
            lemma_holds_index(t, i, re, n - 1);
            lemma_holds_sub(t, i, re, 1, rl);
            lemma_holds_sub(t, i, re, j + 3, rr);
            lemma_parse_rendered(t, i + 1, *l);
            lemma_parse_rendered(t, i + j + 3, *r);
            assert(parse_atom(t, i) == Some((*l, i + j + 1)));
            assert(parse_unary(t, i) == Some((*l, i + j + 1)));
            assert(parse_and_rest(t, *l, i + j + 1) == Some((*l, i + j + 1)));
            assert(parse_and(t, i) == Some((*l, i + j + 1)));
            assert(parse_atom(t, i + j + 2) == Some((*r, i + n)));
            assert(parse_unary(t, i + j + 2) == Some((*r, i + n)));
            assert(parse_and_rest(t, *r, i + n) == Some((*r, i + n)));
            assert(parse_and(t, i + j + 2) == Some((*r, i + n)));
            assert(parse_or_rest(t, e, i + n) == Some((e, i + n)));
            assert(parse_or_rest(t, *l, i + j + 1) == Some((e, i + n)));
        },
    }
}

/// Every expression, written out as tokens with each operand in parentheses,
/// reads back as that same expression.
pub proof fn law_tokens_round_trip(e: ExprModel)
    ensures
        parse_tokens(render_tokens(e)) == Some(e),
{
    let t = render_tokens(e);
    assert(t.subrange(0, t.len() as int) =~= t);
    lemma_parse_rendered(t, 0, e);
}

} // verus!
