//! Whitespace around the text of a filter does not change what it means.

use vstd::prelude::*;

use super::lexer::{
    at_word, filter_token, lemma_skip_ws, lemma_slash_from, lex_from, skip_ws, slash_from,
    token_at, word_and, word_input, word_not, word_or, word_output, TokenModel,
};
use super::parser::parse_spec;
use super::Port;
use crate::text::is_whitespace;

verus! {

/// Whether every character of `w` is whitespace.
pub open spec fn all_whitespace(w: Seq<char>) -> bool {
    forall|k: int| 0 <= k < w.len() ==> is_whitespace(#[trigger] w[k])
}

/// A token found in a text, moved `off` characters to the right.
pub open spec fn shifted(r: Option<(TokenModel, int)>, off: int) -> Option<(TokenModel, int)> {
    match r {
        Some((tok, k)) => Some((tok, k + off)),
        None => None,
    }
}

/// Whether `s` holds `t` at position `off`, followed only by whitespace.
pub open spec fn padded(s: Seq<char>, t: Seq<char>, off: int) -> bool {
    &&& 0 <= off
    &&& off + t.len() <= s.len()
    &&& forall|k: int| 0 <= k < t.len() ==> #[trigger] t[k] == s[off + k]
    &&& forall|p: int| off + t.len() <= p < s.len() ==> is_whitespace(#[trigger] s[p])
}

proof fn lemma_skip_tail(s: Seq<char>, t: Seq<char>, off: int, p: int)
    requires
        padded(s, t, off),
        off + t.len() <= p <= s.len(),
    ensures
        skip_ws(s, p) == s.len(),
    decreases s.len() - p,
{
    if p < s.len() {
        assert(is_whitespace(s[p]));
        lemma_skip_tail(s, t, off, p + 1);
    }
}

proof fn lemma_skip_padded(s: Seq<char>, t: Seq<char>, off: int, i: int)
    requires
        padded(s, t, off),
        0 <= i <= t.len(),
    ensures
        skip_ws(t, i) < t.len() ==> skip_ws(s, off + i) == off + skip_ws(t, i),
        skip_ws(t, i) >= t.len() ==> skip_ws(s, off + i) == s.len(),
    decreases t.len() - i,
{
    if i < t.len() {
        assert(t[i] == s[off + i]);
        if is_whitespace(t[i]) {
            lemma_skip_padded(s, t, off, i + 1);
        }
    } else {
        lemma_skip_tail(s, t, off, off + i);
    }
}

proof fn lemma_slash_tail(s: Seq<char>, t: Seq<char>, off: int, p: int)
    requires
        padded(s, t, off),
        off + t.len() <= p <= s.len(),
    ensures
        slash_from(s, p) == s.len(),
    decreases s.len() - p,
{
    if p < s.len() {
        assert(is_whitespace(s[p]));
        lemma_slash_tail(s, t, off, p + 1);
    }
}

proof fn lemma_slash_padded(s: Seq<char>, t: Seq<char>, off: int, i: int)
    requires
        padded(s, t, off),
        0 <= i <= t.len(),
    ensures
        slash_from(t, i) < t.len() ==> slash_from(s, off + i) == off + slash_from(t, i),
        slash_from(t, i) >= t.len() ==> slash_from(s, off + i) == s.len(),
    decreases t.len() - i,
{
    if i < t.len() {
        assert(t[i] == s[off + i]);
        if t[i] != '/' {
            lemma_slash_padded(s, t, off, i + 1);
        }
    } else {
        lemma_slash_tail(s, t, off, off + i);
    }
}

/// No keyword contains whitespace.
proof fn lemma_words_solid()
    ensures
        forall|m: int| 0 <= m < word_not().len() ==> !is_whitespace(#[trigger] word_not()[m]),
        forall|m: int| 0 <= m < word_and().len() ==> !is_whitespace(#[trigger] word_and()[m]),
        forall|m: int| 0 <= m < word_or().len() ==> !is_whitespace(#[trigger] word_or()[m]),
        forall|m: int| 0 <= m < word_input().len() ==> !is_whitespace(#[trigger] word_input()[m]),
        forall|m: int|
            0 <= m < word_output().len() ==> !is_whitespace(#[trigger] word_output()[m]),
{
}

proof fn lemma_word_padded(s: Seq<char>, t: Seq<char>, off: int, i: int, word: Seq<char>)
    requires
        padded(s, t, off),
        0 <= i < t.len(),
        forall|m: int| 0 <= m < word.len() ==> !is_whitespace(#[trigger] word[m]),
    ensures
        at_word(s, off + i, word) == at_word(t, i, word),
{
    let n = word.len() as int;
    if i + n <= t.len() {
        if at_word(t, i, word) {
            assert forall|m: int| 0 <= m < n implies s.subrange(off + i, off + i + n)[m]
                == word[m] by {
                assert(t.subrange(i, i + n)[m] == word[m]);
                assert(t[i + m] == s[off + (i + m)]);
            }
            assert(s.subrange(off + i, off + i + n) =~= word);
        } else if at_word(s, off + i, word) {
            assert forall|m: int| 0 <= m < n implies t.subrange(i, i + n)[m] == word[m] by {
                assert(s.subrange(off + i, off + i + n)[m] == word[m]);
                assert(t[i + m] == s[off + (i + m)]);
            }
            assert(t.subrange(i, i + n) =~= word);
        }
    } else if at_word(s, off + i, word) {
        let m = t.len() - i;
        assert(s.subrange(off + i, off + i + n)[m] == word[m]);
        assert(is_whitespace(s[off + t.len()]));
        assert(!is_whitespace(word[m]));
    }
}

proof fn lemma_filter_padded(s: Seq<char>, t: Seq<char>, off: int, i: int, port: Port)
    requires
        padded(s, t, off),
        0 <= i <= t.len(),
    ensures
        filter_token(s, off + i, port) == shifted(filter_token(t, i, port), off),
{
    lemma_skip_padded(s, t, off, i);
    lemma_skip_ws(t, i);
    let open = skip_ws(t, i);
    if open < t.len() {
        assert(t[open] == s[off + open]);
        if t[open] == '/' {
            lemma_slash_padded(s, t, off, open + 1);
            lemma_slash_from(t, open + 1);
            let close = slash_from(t, open + 1);
            if close < t.len() {
                assert forall|m: int| 0 <= m < close - (open + 1) implies #[trigger] s.subrange(
                    off + open + 1,
                    off + close,
                )[m] == t.subrange(open + 1, close)[m] by {
                    assert(t[open + 1 + m] == s[off + (open + 1 + m)]);
                }
                assert(s.subrange(off + open + 1, off + close) =~= t.subrange(open + 1, close));
            }
        }
    }
}

/// A token ends after it starts and within the text.
proof fn lemma_token_end(t: Seq<char>, j: int)
    requires
        0 <= j < t.len(),
    ensures
        token_at(t, j) matches Some((_, k)) ==> j < k <= t.len(),
{
    if at_word(t, j, word_input()) {
        lemma_skip_ws(t, j + 5);
        let open = skip_ws(t, j + 5);
        if open < t.len() {
            lemma_slash_from(t, open + 1);
        }
    }
    if at_word(t, j, word_output()) {
        lemma_skip_ws(t, j + 6);
        let open = skip_ws(t, j + 6);
        if open < t.len() {
            lemma_slash_from(t, open + 1);
        }
    }
}

proof fn lemma_token_padded(s: Seq<char>, t: Seq<char>, off: int, j: int)
    requires
        padded(s, t, off),
        0 <= j < t.len(),
    ensures
        token_at(s, off + j) == shifted(token_at(t, j), off),
{
    lemma_words_solid();
    assert(t[j] == s[off + j]);
    lemma_word_padded(s, t, off, j, word_not());
    lemma_word_padded(s, t, off, j, word_and());
    lemma_word_padded(s, t, off, j, word_or());
    lemma_word_padded(s, t, off, j, word_input());
    lemma_word_padded(s, t, off, j, word_output());
    if at_word(t, j, word_input()) {
        lemma_filter_padded(s, t, off, j + 5, Port::Input);
    }
    if at_word(t, j, word_output()) {
        lemma_filter_padded(s, t, off, j + 6, Port::Output);
    }
}

proof fn lemma_lex_padded(s: Seq<char>, t: Seq<char>, off: int, i: int)
    requires
        padded(s, t, off),
        0 <= i <= t.len(),
    ensures
        lex_from(s, off + i) == lex_from(t, i),
    decreases t.len() - i,
{
    lemma_skip_padded(s, t, off, i);
    lemma_skip_ws(t, i);
    let j = skip_ws(t, i);
    if j < t.len() {
        lemma_token_padded(s, t, off, j);
        lemma_token_end(t, j);
        if let Some((tok, k)) = token_at(t, j) {
            lemma_lex_padded(s, t, off, k);
        }
    }
}

/// Leading whitespace is skipped before the first token.
proof fn lemma_lex_lead(s: Seq<char>, p: int, off: int)
    requires
        0 <= p <= off <= s.len(),
        forall|q: int| 0 <= q < off ==> is_whitespace(#[trigger] s[q]),
    ensures
        lex_from(s, p) == lex_from(s, off),
    decreases off - p,
{
    if p < off {
        lemma_lex_lead(s, p + 1, off);
        assert(skip_ws(s, p) == skip_ws(s, p + 1));
        lemma_skip_ws(s, p + 1);
        let j = skip_ws(s, p + 1);
        if j < s.len() {
            lemma_token_end(s, j);
        }
    }
}

/// Whitespace before and after the text of a filter does not change what
/// the text means: it is read as the same expression, or rejected alike.
pub proof fn law_surrounding_whitespace(before: Seq<char>, text: Seq<char>, after: Seq<char>)
    requires
        all_whitespace(before),
        all_whitespace(after),
    ensures
        parse_spec(before + text + after) == parse_spec(text),
{
    let s = before + text + after;
    let off = before.len() as int;
    assert forall|k: int| 0 <= k < text.len() implies #[trigger] text[k] == s[off + k] by {
        assert((before + text)[off + k] == text[k]);
    }
    assert forall|p: int| off + text.len() <= p < s.len() implies is_whitespace(#[trigger] s[p]) by {
        assert(s[p] == after[p - off - text.len()]);
    }
    assert forall|q: int| 0 <= q < off implies is_whitespace(#[trigger] s[q]) by {
        assert((before + text)[q] == before[q]);
    }
    lemma_lex_padded(s, text, off, 0);
    lemma_lex_lead(s, 0, off);
}

} // verus!
