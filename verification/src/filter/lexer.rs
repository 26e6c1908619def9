//! Splitting the text of a filter into tokens.

use vstd::prelude::*;

use super::parser::{ParseError, ParseErrorKind};
use super::Port;
use crate::text::{char_is_whitespace, is_whitespace, string_from};

verus! {

/// A token of the filter language.
#[derive(Debug)]
pub enum TokenKind {
    Not,
    And,
    Or,
    Open,
    Close,
    /// `input /pattern/` or `output /pattern/`, with the pattern's text.
    Filter(Port, String),
}

/// A token and the span `start..end` of characters it was read from.
#[derive(Debug)]
pub struct Token {
    pub kind: TokenKind,
    pub start: usize,
    pub end: usize,
}

/// The model of a token: its kind, with a filter's pattern as characters.
pub enum TokenModel {
    Not,
    And,
    Or,
    Open,
    Close,
    Filter(Port, Seq<char>),
}

impl View for Token {
    type V = TokenModel;

    open spec fn view(&self) -> TokenModel {
        match &self.kind {
            TokenKind::Not => TokenModel::Not,
            TokenKind::And => TokenModel::And,
            TokenKind::Or => TokenModel::Or,
            TokenKind::Open => TokenModel::Open,
            TokenKind::Close => TokenModel::Close,
            TokenKind::Filter(port, pattern) => TokenModel::Filter(*port, pattern@),
        }
    }
}

/// The models of a sequence of tokens.
pub open spec fn tokens_model(tokens: Seq<Token>) -> Seq<TokenModel> {
    tokens.map_values(|t: Token| t@)
}

pub open spec fn word_not() -> Seq<char> {
    seq!['n', 'o', 't']
}

pub open spec fn word_and() -> Seq<char> {
    seq!['a', 'n', 'd']
}

pub open spec fn word_or() -> Seq<char> {
    seq!['o', 'r']
}

pub open spec fn word_input() -> Seq<char> {
    seq!['i', 'n', 'p', 'u', 't']
}

pub open spec fn word_output() -> Seq<char> {
    seq!['o', 'u', 't', 'p', 'u', 't']
}

/// Whether `word` occurs in `s` at position `i`.
pub open spec fn at_word(s: Seq<char>, i: int, word: Seq<char>) -> bool {
    0 <= i && i + word.len() <= s.len() && s.subrange(i, i + word.len()) == word
}

/// The first position at or after `i` that does not hold whitespace.
pub open spec fn skip_ws(s: Seq<char>, i: int) -> int
    decreases s.len() - i,
{
    if 0 <= i < s.len() && is_whitespace(s[i]) {
        skip_ws(s, i + 1)
    } else {
        i
    }
}

/// The first position at or after `i` that holds `/`, or the end of `s`.
pub open spec fn slash_from(s: Seq<char>, i: int) -> int
    decreases s.len() - i,
{
    if 0 <= i < s.len() && s[i] != '/' {
        slash_from(s, i + 1)
    } else {
        i
    }
}

/// After the keyword of a port filter, ending at `i`: optional whitespace,
/// then a pattern between slashes (which cannot itself contain a slash).
pub open spec fn filter_token(s: Seq<char>, i: int, port: Port) -> Option<(TokenModel, int)> {
    let open = skip_ws(s, i);
    if 0 <= open < s.len() && s[open] == '/' {
        let close = slash_from(s, open + 1);
        if close < s.len() {
            Some((TokenModel::Filter(port, s.subrange(open + 1, close)), close + 1))
        } else {
            None
        }
    } else {
        None
    }
}

/// The token that starts at position `i` and the position just after it.
/// Keywords need no separator: no keyword is a prefix of another.
pub open spec fn token_at(s: Seq<char>, i: int) -> Option<(TokenModel, int)> {
    if !(0 <= i < s.len()) {
        None
    } else if s[i] == '(' {
        Some((TokenModel::Open, i + 1))
    } else if s[i] == ')' {
        Some((TokenModel::Close, i + 1))
    } else if at_word(s, i, word_not()) {
        Some((TokenModel::Not, i + 3))
    } else if at_word(s, i, word_and()) {
        Some((TokenModel::And, i + 3))
    } else if at_word(s, i, word_or()) {
        Some((TokenModel::Or, i + 2))
    } else if at_word(s, i, word_input()) {
        filter_token(s, i + 5, Port::Input)
    } else if at_word(s, i, word_output()) {
        filter_token(s, i + 6, Port::Output)
    } else {
        None
    }
}

/// The tokens of `s` from position `i` on, with whitespace between them
/// skipped; `None` when some part of the text is not a token.
pub open spec fn lex_from(s: Seq<char>, i: int) -> Option<Seq<TokenModel>>
    decreases s.len() - i,
{
    let j = skip_ws(s, i);
    if j >= s.len() || j < i {
        Some(seq![])
    } else {
        match token_at(s, j) {
            Some((t, k)) => if i < k <= s.len() {
                match lex_from(s, k) {
                    Some(rest) => Some(seq![t] + rest),
                    None => None,
                }
            } else {
                None
            },
            None => None,
        }
    }
}

/// The tokens of the whole text `s`.
pub open spec fn lex_spec(s: Seq<char>) -> Option<Seq<TokenModel>> {
    lex_from(s, 0)
}

/// The tokens of `s` from position `i` on, as `lex_from` finds them, each
/// with the span `start..end` of characters it was read from.
pub open spec fn lexed_from(s: Seq<char>, i: int) -> Option<Seq<(TokenModel, int, int)>>
    decreases s.len() - i,
{
    let j = skip_ws(s, i);
    if j >= s.len() || j < i {
        Some(seq![])
    } else {
        match token_at(s, j) {
            Some((t, k)) => if i < k <= s.len() {
                match lexed_from(s, k) {
                    Some(rest) => Some(seq![(t, j, k)] + rest),
                    None => None,
                }
            } else {
                None
            },
            None => None,
        }
    }
}

/// The tokens of the whole text `s`, with their spans.
pub open spec fn lexed_spec(s: Seq<char>) -> Option<Seq<(TokenModel, int, int)>> {
    lexed_from(s, 0)
}

/// Tokens with their spans.
pub open spec fn lexed_tokens(tokens: Seq<Token>) -> Seq<(TokenModel, int, int)> {
    tokens.map_values(|t: Token| (t@, t.start as int, t.end as int))
}

pub open spec fn reason_unterminated() -> Seq<char> {
    "unterminated pattern: expected a closing '/'"@
}

pub open spec fn reason_no_pattern() -> Seq<char> {
    "expected a pattern between '/' characters"@
}

pub open spec fn reason_bad_char() -> Seq<char> {
    "unexpected character: expected 'input', 'output', 'not', 'and', 'or', '(' or ')'"@
}

/// The error when no pattern follows the keyword of a port filter ending at
/// `i`: its span and reason.
pub open spec fn filter_error(s: Seq<char>, i: int) -> (int, int, Seq<char>) {
    let open = skip_ws(s, i);
    if 0 <= open < s.len() && s[open] == '/' {
        (open, slash_from(s, open + 1), reason_unterminated())
    } else {
        (open, if open < s.len() {
            open + 1
        } else {
            open
        }, reason_no_pattern())
    }
}

/// The error when no token starts at position `i`.
pub open spec fn token_error(s: Seq<char>, i: int) -> (int, int, Seq<char>) {
    if at_word(s, i, word_input()) {
        filter_error(s, i + 5)
    } else if at_word(s, i, word_output()) {
        filter_error(s, i + 6)
    } else {
        (i, i + 1, reason_bad_char())
    }
}

/// The error of lexing `s` from position `i` on: that of the first place
/// where no token can be read.
pub open spec fn lex_error_from(s: Seq<char>, i: int) -> (int, int, Seq<char>)
    decreases s.len() - i,
{
    let j = skip_ws(s, i);
    if j >= s.len() || j < i {
        (0, 0, seq![])
    } else {
        match token_at(s, j) {
            Some((_, k)) => if i < k <= s.len() {
                lex_error_from(s, k)
            } else {
                (0, 0, seq![])
            },
            None => token_error(s, j),
        }
    }
}

pub(crate) proof fn lemma_skip_ws(s: Seq<char>, i: int)
    requires
        0 <= i,
    ensures
        i <= skip_ws(s, i),
        i <= s.len() ==> skip_ws(s, i) <= s.len(),
        0 <= skip_ws(s, i) < s.len() ==> !is_whitespace(s[skip_ws(s, i)]),
    decreases s.len() - i,
{
    if 0 <= i < s.len() && is_whitespace(s[i]) {
        lemma_skip_ws(s, i + 1);
    }
}

pub(crate) proof fn lemma_slash_from(s: Seq<char>, i: int)
    requires
        0 <= i,
    ensures
        i <= slash_from(s, i),
        i <= s.len() ==> slash_from(s, i) <= s.len(),
        0 <= slash_from(s, i) < s.len() ==> s[slash_from(s, i)] == '/',
    decreases s.len() - i,
{
    if 0 <= i < s.len() && s[i] != '/' {
        lemma_slash_from(s, i + 1);
    }
}

fn skip_whitespace(chars: &Vec<char>, i: usize) -> (res: usize)
    requires
        i <= chars@.len(),
    ensures
        res == skip_ws(chars@, i as int),
        i <= res <= chars@.len(),
{
    let mut j = i;
    while j < chars.len() && char_is_whitespace(chars[j])
        invariant
            i <= j <= chars@.len(),
            skip_ws(chars@, j as int) == skip_ws(chars@, i as int),
        decreases chars@.len() - j,
    {
        j = j + 1;
    }
    j
}

fn find_slash(chars: &Vec<char>, i: usize) -> (res: usize)
    requires
        i <= chars@.len(),
    ensures
        res == slash_from(chars@, i as int),
        i <= res <= chars@.len(),
{
    let mut j = i;
    while j < chars.len() && chars[j] != '/'
        invariant
            i <= j <= chars@.len(),
            slash_from(chars@, j as int) == slash_from(chars@, i as int),
        decreases chars@.len() - j,
    {
        j = j + 1;
    }
    j
}

/// Whether `word` occurs in `chars` at position `i`.
fn word_at(chars: &Vec<char>, i: usize, word: &[char]) -> (res: bool)
    requires
        i <= chars@.len(),
    ensures
        res == at_word(chars@, i as int, word@),
{
    let n = chars.len();
    if word.len() > n - i {
        return false;
    }
    let mut k: usize = 0;
    while k < word.len()
        invariant
            0 <= k <= word@.len(),
            n == chars@.len(),
            i + word@.len() <= chars@.len(),
            forall|m: int| 0 <= m < k ==> chars@[i + m] == word@[m],
        decreases word@.len() - k,
    {
        if chars[i + k] != word[k] {
            assert(chars@.subrange(i as int, i + word@.len())[k as int] != word@[k as int]);
            return false;
        }
        k = k + 1;
    }
    assert(chars@.subrange(i as int, i + word@.len()) =~= word@);
    true
}

fn lex_filter(chars: &Vec<char>, start: usize, i: usize, port: Port) -> (res: Result<
    (Token, usize),
    ParseError,
>)
    requires
        start <= i <= chars@.len(),
    ensures
        res is Ok <==> filter_token(chars@, i as int, port) is Some,
        res matches Ok((tok, k)) ==> {
            &&& filter_token(chars@, i as int, port) == Some((tok@, k as int))
            &&& tok.start == start
            &&& tok.end == k
            &&& i < k <= chars@.len()
            &&& pattern_fits(tok)
        },
        res matches Err(e) ==> {
            &&& e.kind == ParseErrorKind::Token
            &&& e.start <= e.end <= chars@.len()
            &&& (e.start as int, e.end as int, e.reason@) == filter_error(chars@, i as int)
        },
{
    let open = skip_whitespace(chars, i);
    if open < chars.len() && chars[open] == '/' {
        let close = find_slash(chars, open + 1);
        if close < chars.len() {
            let pattern = string_from(chars, open + 1, close);
            let tok = Token { kind: TokenKind::Filter(port, pattern), start, end: close + 1 };
            Ok((tok, close + 1))
        } else {
            Err(
                ParseError {
                    kind: ParseErrorKind::Token,
                    start: open,
                    end: close,
                    reason: "unterminated pattern: expected a closing '/'".to_string(),
                },
            )
        }
    } else {
        let end = if open < chars.len() {
            open + 1
        } else {
            open
        };
        Err(
            ParseError {
                kind: ParseErrorKind::Token,
                start: open,
                end,
                reason: "expected a pattern between '/' characters".to_string(),
            },
        )
    }
}

/// The token that starts at position `i`.
fn lex_token(chars: &Vec<char>, i: usize) -> (res: Result<(Token, usize), ParseError>)
    requires
        i < chars@.len(),
    ensures
        res is Ok <==> token_at(chars@, i as int) is Some,
        res matches Ok((tok, k)) ==> {
            &&& token_at(chars@, i as int) == Some((tok@, k as int))
            &&& tok.start == i
            &&& tok.end == k
            &&& i < k <= chars@.len()
            &&& pattern_fits(tok)
        },
        res matches Err(e) ==> {
            &&& e.kind == ParseErrorKind::Token
            &&& e.start <= e.end <= chars@.len()
            &&& (e.start as int, e.end as int, e.reason@) == token_error(chars@, i as int)
        },
{
    let n = chars.len();
    let c = chars[i];
    let w_not: [char; 3] = ['n', 'o', 't'];
    let w_and: [char; 3] = ['a', 'n', 'd'];
    let w_or: [char; 2] = ['o', 'r'];
    let w_input: [char; 5] = ['i', 'n', 'p', 'u', 't'];
    let w_output: [char; 6] = ['o', 'u', 't', 'p', 'u', 't'];
    assert(w_not@ =~= word_not());
    assert(w_and@ =~= word_and());
    assert(w_or@ =~= word_or());
    assert(w_input@ =~= word_input());
    assert(w_output@ =~= word_output());
    if c == '(' {
        Ok((Token { kind: TokenKind::Open, start: i, end: i + 1 }, i + 1))
    } else if c == ')' {
        Ok((Token { kind: TokenKind::Close, start: i, end: i + 1 }, i + 1))
    } else if word_at(chars, i, &w_not) {
        Ok((Token { kind: TokenKind::Not, start: i, end: i + 3 }, i + 3))
    } else if word_at(chars, i, &w_and) {
        Ok((Token { kind: TokenKind::And, start: i, end: i + 3 }, i + 3))
    } else if word_at(chars, i, &w_or) {
        Ok((Token { kind: TokenKind::Or, start: i, end: i + 2 }, i + 2))
    } else if word_at(chars, i, &w_input) {
        lex_filter(chars, i, i + 5, Port::Input)
    } else if word_at(chars, i, &w_output) {
        lex_filter(chars, i, i + 6, Port::Output)
    } else {
        Err(
            ParseError {
                kind: ParseErrorKind::Token,
                start: i,
                end: i + 1,
                reason: "unexpected character: expected 'input', 'output', 'not', 'and', 'or', '(' or ')'".to_string(),
            },
        )
    }
}

/// Prepends `prefix` to an optional sequence of tokens.
pub open spec fn prepend(prefix: Seq<TokenModel>, rest: Option<Seq<TokenModel>>) -> Option<
    Seq<TokenModel>,
> {
    match rest {
        Some(r) => Some(prefix + r),
        None => None,
    }
}

/// Whether a port filter token's span holds, at its end, its pattern between
/// two slashes.
pub open spec fn pattern_fits(t: Token) -> bool {
    t@ matches TokenModel::Filter(_, p) ==> t.start + p.len() + 2 <= t.end
}

/// Whether every token's span lies within the first `n` characters and is not
/// empty, and holds the pattern of a port filter.
pub open spec fn spans_within(tokens: Seq<Token>, n: nat) -> bool {
    forall|m: int|
        0 <= m < tokens.len() ==> #[trigger] tokens[m].start < tokens[m].end <= n && pattern_fits(
            tokens[m],
        )
}

/// Splits `chars` into tokens.
pub fn lex(chars: &Vec<char>) -> (res: Result<Vec<Token>, ParseError>)
    ensures
        res is Ok <==> lex_spec(chars@) is Some,
        res matches Ok(tokens) ==> {
            &&& lex_spec(chars@) == Some(tokens_model(tokens@))
            &&& lexed_spec(chars@) == Some(lexed_tokens(tokens@))
            &&& spans_within(tokens@, chars@.len())
        },
        res matches Err(e) ==> {
            &&& e.kind == ParseErrorKind::Token
            &&& e.start <= e.end <= chars@.len()
            &&& (e.start as int, e.end as int, e.reason@) == lex_error_from(chars@, 0)
        },
{
    let mut tokens: Vec<Token> = Vec::new();
    let mut i: usize = 0;
    loop
        invariant
            i <= chars@.len(),
            lex_spec(chars@) == prepend(tokens_model(tokens@), lex_from(chars@, i as int)),
            lexed_spec(chars@) == match lexed_from(chars@, i as int) {
                Some(rest) => Some(lexed_tokens(tokens@) + rest),
                None => None::<Seq<(TokenModel, int, int)>>,
            },
            lex_error_from(chars@, 0) == lex_error_from(chars@, i as int),
            spans_within(tokens@, chars@.len()),
        decreases chars@.len() - i,
    {
        let j = skip_whitespace(chars, i);
        proof {
            lemma_skip_ws(chars@, i as int);
        }
        if j >= chars.len() {
            assert(lex_from(chars@, i as int) == Some(Seq::<TokenModel>::empty()));
            assert(tokens_model(tokens@) + Seq::<TokenModel>::empty() =~= tokens_model(tokens@));
            assert(lexed_from(chars@, i as int) == Some(Seq::<(TokenModel, int, int)>::empty()));
            assert(lexed_tokens(tokens@) + Seq::<(TokenModel, int, int)>::empty() =~= lexed_tokens(
                tokens@,
            ));
            return Ok(tokens);
        }
        let (tok, k) = match lex_token(chars, j) {
            Ok(found) => found,
            Err(e) => {
                assert(lex_error_from(chars@, i as int) == token_error(chars@, j as int));
                return Err(e);
            },
        };
        proof {
            let t = tok@;
            let old_model = tokens_model(tokens@);
            assert(lex_from(chars@, i as int) == prepend(seq![t], lex_from(chars@, k as int)));
            assert(tokens_model(tokens@.push(tok)) =~= old_model + seq![t]);
            match lex_from(chars@, k as int) {
                Some(rest) => {
                    assert(old_model + (seq![t] + rest) =~= (old_model + seq![t]) + rest);
                },
                None => {},
            }
            let x = (t, j as int, k as int);
            let old_lexed = lexed_tokens(tokens@);
            assert(lexed_tokens(tokens@.push(tok)) =~= old_lexed + seq![x]);
            match lexed_from(chars@, k as int) {
                Some(rest) => {
                    assert(lexed_from(chars@, i as int) == Some(seq![x] + rest));
                    assert(old_lexed + (seq![x] + rest) =~= (old_lexed + seq![x]) + rest);
                },
                None => {
                    assert(lexed_from(chars@, i as int) is None);
                },
            }
            assert(lex_error_from(chars@, i as int) == lex_error_from(chars@, k as int));
        }
        tokens.push(tok);
        i = k;
    }
}

} // verus!
