//! The general properties of the scanner, stated over the model in `scan`
//! and proved once for all inputs: totality of the scan, idempotence of
//! `EndOfFile`, transparency of whitespace, maximality of identifier and
//! numeral runs, and the precedence of reserved words.

use crate::scan::{
    ident_run_len, ident_token, is_digit, is_ident_char, is_letter, is_number_char,
    is_whitespace, lemma_ident_run_bounds, lemma_number_run_bounds,
    lemma_ws_len_bounds, next_token_model, number_run_len, word_token, ws_len,
};
use crate::token::TokenModel;
use vstd::prelude::*;

verus! {

/// The whole token stream of an input: the tokens of each scan step in
/// order, up to and including the first `EndOfFile`.
pub open spec fn token_stream(s: Seq<char>) -> Seq<TokenModel>
    decreases s.len(),
        via token_stream_decreases
{
    let p = next_token_model(s);
    if p.0 == TokenModel::EndOfFile {
        seq![TokenModel::EndOfFile]
    } else {
        seq![p.0] + token_stream(s.skip(p.1 as int))
    }
}

#[via_fn]
proof fn token_stream_decreases(s: Seq<char>) {
    lemma_next_token_progress(s);
}

/// One scan step never consumes more characters than remain; every token
/// but `EndOfFile` consumes at least one character; and `EndOfFile` comes
/// exactly when the step consumed the input to its end.
pub proof fn lemma_next_token_progress(s: Seq<char>)
    ensures
        next_token_model(s).1 <= s.len(),
        next_token_model(s).0 != TokenModel::EndOfFile ==> 1 <= next_token_model(s).1,
        next_token_model(s).0 == TokenModel::EndOfFile ==> next_token_model(s).1 == s.len(),
{
    lemma_ws_len_bounds(s);
    let k = ws_len(s);
    let r = s.skip(k as int);
    lemma_ident_run_bounds(r.skip(1));
    lemma_number_run_bounds(r.skip(1));
}

/// Totality: tokenizing any finite text takes finitely many scan steps —
/// at most one more than the text has characters — and the stream ends
/// with `EndOfFile`.
pub proof fn lemma_token_stream_total(s: Seq<char>)
    ensures
        1 <= token_stream(s).len() <= s.len() + 1,
        token_stream(s).last() == TokenModel::EndOfFile,
    decreases s.len(),
{
    lemma_next_token_progress(s);
    let p = next_token_model(s);
    if p.0 != TokenModel::EndOfFile {
        lemma_token_stream_total(s.skip(p.1 as int));
        assert(token_stream(s).last() == token_stream(s.skip(p.1 as int)).last());
    }
}

/// Idempotent `EndOfFile`: a step that produces `EndOfFile` has consumed
/// the whole input, and the step after it produces `EndOfFile` again,
/// consuming nothing — so every later step does too.
pub proof fn lemma_end_of_file_idempotent(s: Seq<char>)
    requires
        next_token_model(s).0 == TokenModel::EndOfFile,
    ensures
        next_token_model(s).1 == s.len(),
        next_token_model(s.skip(next_token_model(s).1 as int)) == (TokenModel::EndOfFile, 0nat),
{
    lemma_next_token_progress(s);
    let e = s.skip(s.len() as int);
    assert(e =~= Seq::<char>::empty());
    assert(e.skip(0) =~= e);
}

/// A whitespace run in front of any text only lengthens the whitespace
/// prefix of the whole.
pub proof fn lemma_ws_len_concat(a: Seq<char>, b: Seq<char>)
    requires
        forall|i: int| 0 <= i < a.len() ==> is_whitespace(a[i]),
    ensures
        ws_len(a + b) == a.len() + ws_len(b),
    decreases a.len(),
{
    if a.len() == 0 {
        assert(a + b =~= b);
    } else {
        assert((a + b)[0] == a[0]);
        assert((a + b).skip(1) =~= a.skip(1) + b);
        lemma_ws_len_concat(a.skip(1), b);
    }
}

/// Whitespace transparency: inserting or removing whitespace ahead of the
/// remaining input — the position the scanner is at between any two
/// tokens — leaves the token stream unchanged.
pub proof fn lemma_whitespace_transparency(ws: Seq<char>, s: Seq<char>)
    requires
        forall|i: int| 0 <= i < ws.len() ==> is_whitespace(ws[i]),
    ensures
        token_stream(ws + s) == token_stream(s),
{
    lemma_ws_len_concat(ws, s);
    lemma_ws_len_bounds(s);
    lemma_next_token_progress(s);
    lemma_next_token_progress(ws + s);
    let k = ws_len(s);
    let p = next_token_model(s);
    let p2 = next_token_model(ws + s);
    assert((ws + s).skip(ws_len(ws + s) as int) =~= s.skip(k as int));
    assert(p2.0 == p.0);
    if p.0 != TokenModel::EndOfFile {
        assert((ws + s).skip(p2.1 as int) =~= s.skip(p.1 as int));
    }
}

/// Maximal munch: after an identifier or a numeral token, the character at
/// the new cursor — if one remains — cannot extend the run just consumed.
pub proof fn lemma_maximal_munch(s: Seq<char>)
    ensures
        ({
            let k = ws_len(s);
            let n = next_token_model(s).1;
            &&& (k < s.len() && is_letter(s[k as int]) && n < s.len() ==> !is_ident_char(
                s[n as int],
            ))
            &&& (k < s.len() && is_digit(s[k as int]) && n < s.len() ==> !is_number_char(
                s[n as int],
            ))
        }),
{
    lemma_ws_len_bounds(s);
    let k = ws_len(s);
    if k < s.len() {
        let r = s.skip(k as int);
        let tail = r.skip(1);
        lemma_ident_run_bounds(tail);
        lemma_number_run_bounds(tail);
        let n = next_token_model(s).1;
        assert(r[0] == s[k as int]);
        if is_letter(s[k as int]) && n < s.len() {
            assert(tail[ident_run_len(tail) as int] == s[n as int]);
        }
        if is_digit(s[k as int]) && n < s.len() {
            assert(tail[number_run_len(tail) as int] == s[n as int]);
        }
    }
}

/// A reserved word: one that the scanner never emits as an identifier.
pub open spec fn is_reserved_word(w: Seq<char>) -> bool {
    !(word_token(w) is Ident)
}

/// Keyword precedence: whenever a scan step produces `Ident(w)`, the word
/// `w` is not reserved — reserved words always come out as their own
/// tokens.
pub proof fn lemma_keyword_precedence(s: Seq<char>, w: Seq<char>)
    requires
        next_token_model(s).0 == TokenModel::Ident(w),
    ensures
        !is_reserved_word(w),
{
    let k = ws_len(s);
    let r = s.skip(k as int);
    let x = r.take(ident_token(r).1 as int);
    assert(word_token(x) == TokenModel::Ident(w));
}

} // verus!
