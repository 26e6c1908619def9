//! Writing expressions out as text, and the proof that the text reads back.

use vstd::prelude::*;

use super::lexer::{
    at_word, filter_token, lex_from, prepend, skip_ws, slash_from, token_at, word_and, word_input,
    word_not, word_or, word_output, TokenModel,
};
use super::parser::{law_tokens_round_trip, parse_spec, render_tokens};
use super::{ExprModel, Port};
use crate::text::is_whitespace;

verus! {

/// Whether no pattern in `e` contains a `/` (which could not be written
/// between the slashes that delimit it).
pub open spec fn slash_free(e: ExprModel) -> bool
    decreases e,
{
    match e {
        ExprModel::And(l, r) => slash_free(*l) && slash_free(*r),
        ExprModel::Or(l, r) => slash_free(*l) && slash_free(*r),
        ExprModel::Not(x) => slash_free(*x),
        ExprModel::Match(_, pattern) => forall|k: int| 0 <= k < pattern.len() ==> pattern[k] != '/',
    }
}

/// The text of `e` with every operand in parentheses: `input /re/`,
/// `output /re/`, `not (x)`, `(l) and (r)`, `(l) or (r)`.
pub open spec fn render_text(e: ExprModel) -> Seq<char>
    decreases e,
{
    match e {
        ExprModel::Match(Port::Input, pattern) => seq!['i', 'n', 'p', 'u', 't', ' ', '/'] + pattern
            + seq!['/'],
        ExprModel::Match(Port::Output, pattern) => seq!['o', 'u', 't', 'p', 'u', 't', ' ', '/']
            + pattern + seq!['/'],
        ExprModel::Not(x) => seq!['n', 'o', 't', ' ', '('] + render_text(*x) + seq![')'],
        ExprModel::And(l, r) => seq!['('] + render_text(*l) + seq![')', ' ', 'a', 'n', 'd', ' ', '(']
            + render_text(*r) + seq![')'],
        ExprModel::Or(l, r) => seq!['('] + render_text(*l) + seq![')', ' ', 'o', 'r', ' ', '(']
            + render_text(*r) + seq![')'],
    }
}

/// Whether `s` holds `part` at position `i`.
pub open spec fn chars_at(s: Seq<char>, i: int, part: Seq<char>) -> bool {
    0 <= i && i + part.len() <= s.len() && s.subrange(i, i + part.len()) == part
}

proof fn lemma_chars_sub(s: Seq<char>, i: int, whole: Seq<char>, off: int, part: Seq<char>)
    requires
        chars_at(s, i, whole),
        0 <= off,
        off + part.len() <= whole.len(),
        whole.subrange(off, off + part.len()) == part,
    ensures
        chars_at(s, i + off, part),
{
    assert forall|k: int| 0 <= k < part.len() implies s.subrange(i + off, i + off + part.len())[k]
        == part[k] by {
        assert(s.subrange(i, i + whole.len())[off + k] == whole[off + k]);
        assert(whole.subrange(off, off + part.len())[k] == whole[off + k]);
    }
    assert(s.subrange(i + off, i + off + part.len()) =~= part);
}

proof fn lemma_chars_index(s: Seq<char>, i: int, whole: Seq<char>, k: int)
    requires
        chars_at(s, i, whole),
        0 <= k < whole.len(),
    ensures
        s[i + k] == whole[k],
{
    assert(s.subrange(i, i + whole.len())[k] == whole[k]);
}

proof fn lemma_slash_run(s: Seq<char>, a: int, b: int)
    requires
        0 <= a <= b < s.len(),
        forall|k: int| a <= k < b ==> s[k] != '/',
        s[b] == '/',
    ensures
        slash_from(s, a) == b,
    decreases b - a,
{
    if a < b {
        lemma_slash_run(s, a + 1, b);
    }
}

proof fn lemma_prepend_assoc(a: Seq<TokenModel>, b: Seq<TokenModel>, x: Option<Seq<TokenModel>>)
    ensures
        prepend(a, prepend(b, x)) == prepend(a + b, x),
{
    match x {
        Some(r) => {
            assert(a + (b + r) =~= (a + b) + r);
        },
        None => {},
    }
}

/// One token at position `q`, after the whitespace that starts at `p`.
proof fn lemma_lex_step(s: Seq<char>, p: int, q: int, t: TokenModel, k: int)
    requires
        0 <= p <= q < s.len(),
        forall|m: int| p <= m < q ==> is_whitespace(#[trigger] s[m]),
        !is_whitespace(s[q]),
        token_at(s, q) == Some((t, k)),
        q < k <= s.len(),
    ensures
        lex_from(s, p) == prepend(seq![t], lex_from(s, k)),
    decreases q - p,
{
    if p < q {
        lemma_lex_step(s, p + 1, q, t, k);
        assert(skip_ws(s, p) == skip_ws(s, p + 1));
    }
}

#[verifier::rlimit(100)]
#[verifier::spinoff_prover]
proof fn lemma_lex_filter(s: Seq<char>, i: int, port: Port, pattern: Seq<char>)
    requires
        chars_at(s, i, render_text(ExprModel::Match(port, pattern))),
        slash_free(ExprModel::Match(port, pattern)),
    ensures
        lex_from(s, i) == prepend(
            render_tokens(ExprModel::Match(port, pattern)),
            lex_from(s, i + render_text(ExprModel::Match(port, pattern)).len()),
        ),
{
    let e = ExprModel::Match(port, pattern);
    let text = render_text(e);
    let w: int = if port == Port::Input {
        5
    } else {
        6
    };
    let n = text.len() as int;
    assert(n == w + 3 + pattern.len());
    assert forall|k: int| 0 <= k < n implies s[i + k] == text[k] by {
        lemma_chars_index(s, i, text, k);
    }
    assert(text[w] == ' ');
    assert(text[w + 1] == '/');
    assert(text[n - 1] == '/');
    assert(s[i + w] == ' ');
    assert(s[i + w + 1] == '/');
    assert(s[i + n - 1] == '/');
    assert forall|k: int| i + w + 2 <= k < i + n - 1 implies s[k] != '/' by {
        assert(s[k] == text[k - i]);
        assert(text[k - i] == pattern[k - i - w - 2]);
    }
    lemma_slash_run(s, i + w + 2, i + n - 1);
    assert(skip_ws(s, i + w + 1) == i + w + 1);
    assert(skip_ws(s, i + w) == i + w + 1);
    assert(s.subrange(i + w + 2, i + n - 1) =~= pattern) by {
        assert forall|k: int| 0 <= k < pattern.len() implies s.subrange(i + w + 2, i + n - 1)[k]
            == pattern[k] by {
            assert(s[i + w + 2 + k] == text[w + 2 + k]);
        }
    }
    if port == Port::Input {
        assert(s.subrange(i, i + 5) =~= word_input()) by {
            assert forall|k: int| 0 <= k < 5 implies s.subrange(i, i + 5)[k] == word_input()[k] by {
                assert(s[i + k] == text[k]);
            }
        }
        assert(s.subrange(i, i + 3)[0] == s[i]);
        assert(s.subrange(i, i + 2)[0] == s[i]);
        assert(!at_word(s, i, word_not()));
        assert(!at_word(s, i, word_and()));
        assert(!at_word(s, i, word_or()));
        assert(filter_token(s, i + 5, Port::Input) == Some((TokenModel::Filter(port, pattern), i + n)));
        assert(token_at(s, i) == Some((TokenModel::Filter(port, pattern), i + n)));
    } else {
        assert(s.subrange(i, i + 6) =~= word_output()) by {
            assert forall|k: int| 0 <= k < 6 implies s.subrange(i, i + 6)[k] == word_output()[k] by {
                assert(s[i + k] == text[k]);
            }
        }
        assert(s.subrange(i, i + 3)[0] == s[i]);
        assert(s.subrange(i, i + 2)[1] == s[i + 1]);
        assert(s.subrange(i, i + 5)[0] == s[i]);
        assert(!at_word(s, i, word_not()));
        assert(!at_word(s, i, word_and()));
        assert(!at_word(s, i, word_or()));
        assert(!at_word(s, i, word_input()));
        assert(filter_token(s, i + 6, Port::Output) == Some((TokenModel::Filter(port, pattern), i + n)));
        assert(token_at(s, i) == Some((TokenModel::Filter(port, pattern), i + n)));
    }
    lemma_lex_step(s, i, i, TokenModel::Filter(port, pattern), i + n);
}

proof fn lemma_open_at(s: Seq<char>, q: int)
    requires
        0 <= q < s.len(),
        s[q] == '(',
    ensures
        token_at(s, q) == Some((TokenModel::Open, q + 1)),
        !is_whitespace(s[q]),
{
}

proof fn lemma_close_at(s: Seq<char>, q: int)
    requires
        0 <= q < s.len(),
        s[q] == ')',
    ensures
        token_at(s, q) == Some((TokenModel::Close, q + 1)),
        !is_whitespace(s[q]),
{
}

#[verifier::rlimit(100)]
#[verifier::spinoff_prover]
proof fn lemma_lex_not(s: Seq<char>, i: int, x: ExprModel)
    requires
        chars_at(s, i, render_text(ExprModel::Not(Box::new(x)))),
        lex_from(s, i + 5) == prepend(
            render_tokens(x),
            lex_from(s, i + 5 + render_text(x).len()),
        ),
    ensures
        lex_from(s, i) == prepend(
            render_tokens(ExprModel::Not(Box::new(x))),
            lex_from(s, i + render_text(ExprModel::Not(Box::new(x))).len()),
        ),
{
    let e = ExprModel::Not(Box::new(x));
    let text = render_text(e);
    let n = text.len() as int;
    let q = i + 5 + render_text(x).len();
    assert(q == i + n - 1);
    assert forall|k: int| 0 <= k < n implies s[i + k] == text[k] by {
        lemma_chars_index(s, i, text, k);
    }
    let head = seq!['n', 'o', 't', ' ', '('];
    assert(text =~= head + render_text(x) + seq![')']);
    assert forall|k: int| 0 <= k < 5 implies s[i + k] == head[k] by {
        assert(text[k] == head[k]);
    }
    assert(s[i] == 'n' && s[i + 1] == 'o' && s[i + 2] == 't' && s[i + 3] == ' ' && s[i + 4] == '(');
    assert(s[q] == text[n - 1]);
    assert(s.subrange(i, i + 3) =~= word_not());
    assert(token_at(s, i) == Some((TokenModel::Not, i + 3)));
    lemma_lex_step(s, i, i, TokenModel::Not, i + 3);
    lemma_open_at(s, i + 4);
    lemma_lex_step(s, i + 3, i + 4, TokenModel::Open, i + 5);
    lemma_close_at(s, q);
    lemma_lex_step(s, q, q, TokenModel::Close, q + 1);
    let rest = lex_from(s, i + n);
    let tx = render_tokens(x);
    lemma_prepend_assoc(seq![TokenModel::Open], tx, prepend(seq![TokenModel::Close], rest));
    lemma_prepend_assoc(seq![TokenModel::Open] + tx, seq![TokenModel::Close], rest);
    lemma_prepend_assoc(
        seq![TokenModel::Not],
        seq![TokenModel::Open] + tx + seq![TokenModel::Close],
        rest,
    );
    assert(seq![TokenModel::Not] + (seq![TokenModel::Open] + tx + seq![TokenModel::Close])
        =~= render_tokens(e));
}

/// The tokens of a binary expression whose operator is written `op`.
pub open spec fn binary_text(l: ExprModel, r: ExprModel, op: Seq<char>) -> Seq<char> {
    seq!['('] + render_text(l) + seq![')', ' '] + op + seq![' ', '('] + render_text(r) + seq![')']
}

#[verifier::rlimit(100)]
#[verifier::spinoff_prover]
proof fn lemma_lex_binary(
    s: Seq<char>,
    i: int,
    l: ExprModel,
    r: ExprModel,
    op: Seq<char>,
    op_token: TokenModel,
)
    requires
        chars_at(s, i, binary_text(l, r, op)),
        op == word_and() || op == word_or(),
        op == word_and() ==> op_token == TokenModel::And,
        op == word_or() ==> op_token == TokenModel::Or,
        lex_from(s, i + 1) == prepend(render_tokens(l), lex_from(s, i + 1 + render_text(l).len())),
        lex_from(s, i + 1 + render_text(l).len() + 4 + op.len()) == prepend(
            render_tokens(r),
            lex_from(s, i + 1 + render_text(l).len() + 4 + op.len() + render_text(r).len()),
        ),
    ensures
        lex_from(s, i) == prepend(
            seq![TokenModel::Open] + render_tokens(l) + seq![
                TokenModel::Close,
                op_token,
                TokenModel::Open,
            ] + render_tokens(r) + seq![TokenModel::Close],
            lex_from(s, i + binary_text(l, r, op).len()),
        ),
{
    let text = binary_text(l, r, op);
    let n = text.len() as int;
    let a = i + 1 + render_text(l).len();
    let w = op.len() as int;
    let b = a + 4 + w + render_text(r).len();
    assert(b == i + n - 1);
    assert forall|k: int| 0 <= k < n implies s[i + k] == text[k] by {
        lemma_chars_index(s, i, text, k);
    }
    assert(s[i] == text[0]);
    assert(s[a] == text[a - i]);
    assert(s[a + 1] == text[a + 1 - i]);
    assert(s[a + 2 + w] == text[a + 2 + w - i]);
    assert(s[a + 3 + w] == text[a + 3 + w - i]);
    assert(s[b] == text[n - 1]);
    assert(s[i] == '(');
    assert(s[a] == ')');
    assert(s[a + 1] == ' ');
    assert(s[a + 2 + w] == ' ');
    assert(s[a + 3 + w] == '(');
    assert(s[b] == ')');
    assert forall|k: int| 0 <= k < w implies s[a + 2 + k] == op[k] by {
        assert(s[a + 2 + k] == text[a + 2 + k - i]);
    }
    assert(s.subrange(a + 2, a + 2 + w) =~= op);
    assert(s.subrange(a + 2, a + 5)[0] == s[a + 2]);
    assert(s.subrange(a + 2, a + 4)[0] == s[a + 2]);
    assert(token_at(s, a + 2) == Some((op_token, a + 2 + w)));
    lemma_open_at(s, i);
    lemma_lex_step(s, i, i, TokenModel::Open, i + 1);
    lemma_close_at(s, a);
    lemma_lex_step(s, a, a, TokenModel::Close, a + 1);
    lemma_lex_step(s, a + 1, a + 2, op_token, a + 2 + w);
    lemma_open_at(s, a + 3 + w);
    lemma_lex_step(s, a + 2 + w, a + 3 + w, TokenModel::Open, a + 4 + w);
    lemma_close_at(s, b);
    lemma_lex_step(s, b, b, TokenModel::Close, b + 1);
    let rest = lex_from(s, i + n);
    let tl = render_tokens(l);
    let tr = render_tokens(r);
    let mid = seq![TokenModel::Close, op_token, TokenModel::Open];
    assert(prepend(seq![TokenModel::Close], prepend(seq![op_token], prepend(
        seq![TokenModel::Open],
        lex_from(s, a + 4 + w),
    ))) == prepend(mid, lex_from(s, a + 4 + w))) by {
        lemma_prepend_assoc(seq![op_token], seq![TokenModel::Open], lex_from(s, a + 4 + w));
        lemma_prepend_assoc(
            seq![TokenModel::Close],
            seq![op_token] + seq![TokenModel::Open],
            lex_from(s, a + 4 + w),
        );
        assert(seq![TokenModel::Close] + (seq![op_token] + seq![TokenModel::Open]) =~= mid);
    }
    lemma_prepend_assoc(tr, seq![TokenModel::Close], rest);
    lemma_prepend_assoc(mid, tr + seq![TokenModel::Close], rest);
    lemma_prepend_assoc(tl, mid + (tr + seq![TokenModel::Close]), rest);
    lemma_prepend_assoc(seq![TokenModel::Open], tl + (mid + (tr + seq![TokenModel::Close])), rest);
    assert(seq![TokenModel::Open] + (tl + (mid + (tr + seq![TokenModel::Close]))) =~= seq![
        TokenModel::Open,
    ] + tl + mid + tr + seq![TokenModel::Close]);
}

/// Lexing a rendered expression, at any position of a longer text, yields
/// its tokens and continues just after it.
proof fn lemma_lex_rendered(s: Seq<char>, i: int, e: ExprModel)
    requires
        chars_at(s, i, render_text(e)),
        slash_free(e),
    ensures
        lex_from(s, i) == prepend(render_tokens(e), lex_from(s, i + render_text(e).len())),
    decreases e,
{
    let text = render_text(e);
    match e {
        ExprModel::Match(port, pattern) => {
            lemma_lex_filter(s, i, port, pattern);
        },
        ExprModel::Not(x) => {
            let tx = render_text(*x);
            assert(text.subrange(5, 5 + tx.len() as int) =~= tx);
            lemma_chars_sub(s, i, text, 5, tx);
            lemma_lex_rendered(s, i + 5, *x);
            lemma_lex_not(s, i, *x);
        },
        ExprModel::And(l, r) => {
            let tl = render_text(*l);
            let tr = render_text(*r);
            assert(text =~= binary_text(*l, *r, word_and()));
            let off: int = 1 + tl.len() as int + 7;
            assert(text.subrange(1, 1 + tl.len() as int) =~= tl);
            assert(text.subrange(off, off + tr.len() as int) =~= tr);
            lemma_chars_sub(s, i, text, 1, tl);
            lemma_chars_sub(s, i, text, off, tr);
            lemma_lex_rendered(s, i + 1, *l);
            lemma_lex_rendered(s, i + off, *r);
            lemma_lex_binary(s, i, *l, *r, word_and(), TokenModel::And);
        },
        ExprModel::Or(l, r) => {
            let tl = render_text(*l);
            let tr = render_text(*r);
            assert(text =~= binary_text(*l, *r, word_or()));
            let off: int = 1 + tl.len() as int + 6;
            assert(text.subrange(1, 1 + tl.len() as int) =~= tl);
            assert(text.subrange(off, off + tr.len() as int) =~= tr);
            lemma_chars_sub(s, i, text, 1, tl);
            lemma_chars_sub(s, i, text, off, tr);
            lemma_lex_rendered(s, i + 1, *l);
            lemma_lex_rendered(s, i + off, *r);
            lemma_lex_binary(s, i, *l, *r, word_or(), TokenModel::Or);
        },
    }
}

/// Every expression whose patterns contain no `/`, written out as text with
/// each operand in parentheses, reads back as that same expression.
pub proof fn law_text_round_trip(e: ExprModel)
    requires
        slash_free(e),
    ensures
        parse_spec(render_text(e)) == Some(e),
{
    let s = render_text(e);
    assert(s.subrange(0, s.len() as int) =~= s);
    lemma_lex_rendered(s, 0, e);
    assert(lex_from(s, s.len() as int) == Some(Seq::<TokenModel>::empty()));
    assert(render_tokens(e) + Seq::<TokenModel>::empty() =~= render_tokens(e));
    law_tokens_round_trip(e);
}

} // verus!
