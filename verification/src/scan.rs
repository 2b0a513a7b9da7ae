//! The mathematical model of the scanner: character classes, maximal runs,
//! numeral values, and the function giving the token produced at the head of
//! any remaining input together with the number of characters it consumes.

use crate::token::{TokenModel, Type};
use vstd::prelude::*;

verus! {

/// The whitespace the scanner skips between tokens: space, tab, newline,
/// carriage return.
pub open spec fn is_whitespace(c: char) -> bool {
    c == ' ' || c == '\t' || c == '\n' || c == '\r'
}

/// An ASCII letter.
pub open spec fn is_letter(c: char) -> bool {
    (65 <= c as u32 && c as u32 <= 90) || (97 <= c as u32 && c as u32 <= 122)
}

/// An ASCII decimal digit.
pub open spec fn is_digit(c: char) -> bool {
    48 <= c as u32 && c as u32 <= 57
}

/// A character that may continue an identifier: letter, digit or underscore.
pub open spec fn is_ident_char(c: char) -> bool {
    is_letter(c) || is_digit(c) || c == '_'
}

/// A character that may continue a numeral: digit or decimal point.
pub open spec fn is_number_char(c: char) -> bool {
    is_digit(c) || c == '.'
}

/// An ASCII punctuation character, the class dispatched to operator and
/// delimiter recognition.
pub open spec fn is_punctuation(c: char) -> bool {
    (33 <= c as u32 && c as u32 <= 47) || (58 <= c as u32 && c as u32 <= 64) || (91 <= c as u32
        && c as u32 <= 96) || (123 <= c as u32 && c as u32 <= 126)
}

/// Length of the maximal whitespace prefix of `s`.
pub open spec fn ws_len(s: Seq<char>) -> nat
    decreases s.len(),
{
    if s.len() > 0 && is_whitespace(s[0]) {
        1 + ws_len(s.skip(1))
    } else {
        0
    }
}

/// Length of the maximal identifier-character prefix of `s`.
pub open spec fn ident_run_len(s: Seq<char>) -> nat
    decreases s.len(),
{
    if s.len() > 0 && is_ident_char(s[0]) {
        1 + ident_run_len(s.skip(1))
    } else {
        0
    }
}

/// Length of the maximal numeral-character prefix of `s`.
pub open spec fn number_run_len(s: Seq<char>) -> nat
    decreases s.len(),
{
    if s.len() > 0 && is_number_char(s[0]) {
        1 + number_run_len(s.skip(1))
    } else {
        0
    }
}

/// The numeric value of a digit character.
pub open spec fn digit_val(c: char) -> nat {
    (c as u32 - 48) as nat
}

/// The value of a digit string read in base ten.
pub open spec fn num_val(s: Seq<char>) -> nat
    decreases s.len(),
{
    if s.len() == 0 {
        0
    } else {
        num_val(s.drop_last()) * 10 + digit_val(s.last())
    }
}

/// How many decimal points `s` holds.
pub open spec fn dot_count(s: Seq<char>) -> nat
    decreases s.len(),
{
    if s.len() == 0 {
        0
    } else {
        dot_count(s.drop_last()) + (if s.last() == '.' {
            1nat
        } else {
            0nat
        })
    }
}

/// The token an alphanumeric word denotes: the reserved words of the
/// language take absolute precedence, any other word is an identifier.
pub open spec fn word_token(w: Seq<char>) -> TokenModel {
    if w == "fn"@ {
        TokenModel::Function
    } else if w == "let"@ {
        TokenModel::Let
    } else if w == "if"@ {
        TokenModel::If
    } else if w == "else"@ {
        TokenModel::Else
    } else if w == "true"@ {
        TokenModel::Boolean(true)
    } else if w == "false"@ {
        TokenModel::Boolean(false)
    } else if w == "return"@ {
        TokenModel::Return
    } else if w == "int"@ {
        TokenModel::Type(Type::Integer)
    } else if w == "float"@ {
        TokenModel::Type(Type::Float)
    } else if w == "bool"@ {
        TokenModel::Type(Type::Boolean)
    } else if w == "string"@ {
        TokenModel::Type(Type::String)
    } else {
        TokenModel::Ident(w)
    }
}

/// The token a maximal numeral run denotes. A run without a decimal point
/// is an integer literal when its value fits in an `i64`; a run with
/// exactly one decimal point is a float literal, kept as its text; any
/// other run is illegal.
pub open spec fn number_text_token(text: Seq<char>) -> TokenModel {
    if dot_count(text) == 0 {
        if num_val(text) <= i64::MAX {
            TokenModel::Integer(num_val(text) as int)
        } else {
            TokenModel::Illegal(text)
        }
    } else if dot_count(text) == 1 {
        TokenModel::Float(text)
    } else {
        TokenModel::Illegal(text)
    }
}

/// The operator or delimiter at the head of `s`, with the count of
/// characters consumed: one character, except for the compound forms
/// `==`, `->` and `!=`, which take one more on a matching lookahead.
pub open spec fn operator_token(s: Seq<char>) -> (TokenModel, nat) {
    let c = s[0];
    if c == '=' {
        if s.len() > 1 && s[1] == '=' {
            (TokenModel::Equal, 2nat)
        } else {
            (TokenModel::Assign, 1nat)
        }
    } else if c == ';' {
        (TokenModel::Semicolon, 1nat)
    } else if c == ':' {
        (TokenModel::Colon, 1nat)
    } else if c == '(' {
        (TokenModel::LeftParenthesis, 1nat)
    } else if c == ')' {
        (TokenModel::RightParenthesis, 1nat)
    } else if c == ',' {
        (TokenModel::Comma, 1nat)
    } else if c == '+' {
        (TokenModel::Plus, 1nat)
    } else if c == '-' {
        if s.len() > 1 && s[1] == '>' {
            (TokenModel::RightArrow, 2nat)
        } else {
            (TokenModel::Minus, 1nat)
        }
    } else if c == '!' {
        if s.len() > 1 && s[1] == '=' {
            (TokenModel::NotEqual, 2nat)
        } else {
            (TokenModel::Bang, 1nat)
        }
    } else if c == '/' {
        (TokenModel::Slash, 1nat)
    } else if c == '*' {
        (TokenModel::Asterisk, 1nat)
    } else if c == '<' {
        (TokenModel::LessThan, 1nat)
    } else if c == '>' {
        (TokenModel::GreaterThan, 1nat)
    } else if c == '{' {
        (TokenModel::LeftBrace, 1nat)
    } else if c == '}' {
        (TokenModel::RightBrace, 1nat)
    } else {
        (TokenModel::Illegal(seq![c]), 1nat)
    }
}

/// The identifier, keyword or literal word at the head of `s` (whose first
/// character is a letter), with the count of characters consumed: the
/// maximal alphanumeric-or-underscore run.
pub open spec fn ident_token(s: Seq<char>) -> (TokenModel, nat) {
    let n = 1 + ident_run_len(s.skip(1));
    (word_token(s.take(n as int)), n)
}

/// The numeric literal at the head of `s` (whose first character is a
/// digit), with the count of characters consumed: the maximal digit-or-dot
/// run.
pub open spec fn number_token(s: Seq<char>) -> (TokenModel, nat) {
    let n = 1 + number_run_len(s.skip(1));
    (number_text_token(s.take(n as int)), n)
}

/// The token produced at the head of the remaining input `s`, with the
/// total count of characters consumed, leading whitespace included.
/// `EndOfFile` comes exactly when nothing but whitespace remains.
pub open spec fn next_token_model(s: Seq<char>) -> (TokenModel, nat) {
    let k = ws_len(s);
    let r = s.skip(k as int);
    if r.len() == 0 {
        (TokenModel::EndOfFile, k)
    } else if is_punctuation(r[0]) {
        let p = operator_token(r);
        (p.0, k + p.1)
    } else if is_letter(r[0]) {
        let p = ident_token(r);
        (p.0, k + p.1)
    } else if is_digit(r[0]) {
        let p = number_token(r);
        (p.0, k + p.1)
    } else {
        (TokenModel::Illegal(seq![r[0]]), k + 1)
    }
}

/// A maximal run is bounded by the input, all its characters are in the
/// class, and the character right after it, if any, is not.
pub proof fn lemma_ws_len_bounds(s: Seq<char>)
    ensures
        ws_len(s) <= s.len(),
        forall|i: int| 0 <= i < ws_len(s) ==> is_whitespace(s[i]),
        ws_len(s) < s.len() ==> !is_whitespace(s[ws_len(s) as int]),
    decreases s.len(),
{
    if s.len() > 0 && is_whitespace(s[0]) {
        lemma_ws_len_bounds(s.skip(1));
        assert forall|i: int| 0 <= i < ws_len(s) implies is_whitespace(s[i]) by {
            if i >= 1 {
                assert(s.skip(1)[i - 1] == s[i]);
            }
        }
        if ws_len(s) < s.len() {
            assert(s.skip(1)[ws_len(s) - 1] == s[ws_len(s) as int]);
        }
    }
}

/// A count with the three properties of `lemma_ws_len_bounds` is the
/// whitespace run length.
pub proof fn lemma_ws_len_is(s: Seq<char>, m: nat)
    requires
        m <= s.len(),
        forall|i: int| 0 <= i < m ==> is_whitespace(s[i]),
        m < s.len() ==> !is_whitespace(s[m as int]),
    ensures
        ws_len(s) == m,
    decreases s.len(),
{
    if m == 0 {
    } else {
        assert(is_whitespace(s[0]));
        assert forall|i: int| 0 <= i < m - 1 implies is_whitespace(s.skip(1)[i]) by {
            assert(s.skip(1)[i] == s[i + 1]);
        }
        if m - 1 < s.skip(1).len() {
            assert(s.skip(1)[m - 1] == s[m as int]);
        }
        lemma_ws_len_is(s.skip(1), (m - 1) as nat);
    }
}

/// Counterpart of `lemma_ws_len_bounds` for identifier runs.
pub proof fn lemma_ident_run_bounds(s: Seq<char>)
    ensures
        ident_run_len(s) <= s.len(),
        forall|i: int| 0 <= i < ident_run_len(s) ==> is_ident_char(s[i]),
        ident_run_len(s) < s.len() ==> !is_ident_char(s[ident_run_len(s) as int]),
    decreases s.len(),
{
    if s.len() > 0 && is_ident_char(s[0]) {
        lemma_ident_run_bounds(s.skip(1));
        assert forall|i: int| 0 <= i < ident_run_len(s) implies is_ident_char(s[i]) by {
            if i >= 1 {
                assert(s.skip(1)[i - 1] == s[i]);
            }
        }
        if ident_run_len(s) < s.len() {
            assert(s.skip(1)[ident_run_len(s) - 1] == s[ident_run_len(s) as int]);
        }
    }
}

/// Counterpart of `lemma_ws_len_is` for identifier runs.
pub proof fn lemma_ident_run_is(s: Seq<char>, m: nat)
    requires
        m <= s.len(),
        forall|i: int| 0 <= i < m ==> is_ident_char(s[i]),
        m < s.len() ==> !is_ident_char(s[m as int]),
    ensures
        ident_run_len(s) == m,
    decreases s.len(),
{
    if m == 0 {
    } else {
        assert(is_ident_char(s[0]));
        assert forall|i: int| 0 <= i < m - 1 implies is_ident_char(s.skip(1)[i]) by {
            assert(s.skip(1)[i] == s[i + 1]);
        }
        if m - 1 < s.skip(1).len() {
            assert(s.skip(1)[m - 1] == s[m as int]);
        }
        lemma_ident_run_is(s.skip(1), (m - 1) as nat);
    }
}

/// Counterpart of `lemma_ws_len_bounds` for numeral runs.
pub proof fn lemma_number_run_bounds(s: Seq<char>)
    ensures
        number_run_len(s) <= s.len(),
        forall|i: int| 0 <= i < number_run_len(s) ==> is_number_char(s[i]),
        number_run_len(s) < s.len() ==> !is_number_char(s[number_run_len(s) as int]),
    decreases s.len(),
{
    if s.len() > 0 && is_number_char(s[0]) {
        lemma_number_run_bounds(s.skip(1));
        assert forall|i: int| 0 <= i < number_run_len(s) implies is_number_char(s[i]) by {
            if i >= 1 {
                assert(s.skip(1)[i - 1] == s[i]);
            }
        }
        if number_run_len(s) < s.len() {
            assert(s.skip(1)[number_run_len(s) - 1] == s[number_run_len(s) as int]);
        }
    }
}

/// Counterpart of `lemma_ws_len_is` for numeral runs.
pub proof fn lemma_number_run_is(s: Seq<char>, m: nat)
    requires
        m <= s.len(),
        forall|i: int| 0 <= i < m ==> is_number_char(s[i]),
        m < s.len() ==> !is_number_char(s[m as int]),
    ensures
        number_run_len(s) == m,
    decreases s.len(),
{
    if m == 0 {
    } else {
        assert(is_number_char(s[0]));
        assert forall|i: int| 0 <= i < m - 1 implies is_number_char(s.skip(1)[i]) by {
            assert(s.skip(1)[i] == s[i + 1]);
        }
        if m - 1 < s.skip(1).len() {
            assert(s.skip(1)[m - 1] == s[m as int]);
        }
        lemma_number_run_is(s.skip(1), (m - 1) as nat);
    }
}

/// Reading one more digit multiplies the value by ten and adds the digit.
pub proof fn lemma_num_val_step(s: Seq<char>, i: int)
    requires
        0 <= i < s.len(),
    ensures
        num_val(s.take(i + 1)) == num_val(s.take(i)) * 10 + digit_val(s[i]),
{
    assert(s.take(i + 1).drop_last() =~= s.take(i));
    assert(s.take(i + 1).last() == s[i]);
}

/// The value of a digit string never falls below the value of any prefix.
pub proof fn lemma_num_val_prefix(s: Seq<char>, i: int)
    requires
        0 <= i <= s.len(),
    ensures
        num_val(s.take(i)) <= num_val(s),
    decreases s.len() - i,
{
    if i < s.len() {
        lemma_num_val_step(s, i);
        lemma_num_val_prefix(s, i + 1);
    } else {
        assert(s.take(i) =~= s);
    }
}

/// Counting one more character raises the dot count exactly on a dot.
pub proof fn lemma_dot_count_step(s: Seq<char>, i: int)
    requires
        0 <= i < s.len(),
    ensures
        dot_count(s.take(i + 1)) == dot_count(s.take(i)) + (if s[i] == '.' {
            1nat
        } else {
            0nat
        }),
{
    assert(s.take(i + 1).drop_last() =~= s.take(i));
    assert(s.take(i + 1).last() == s[i]);
}

/// A string without dots is one whose every character is not a dot.
pub proof fn lemma_dot_count_zero(s: Seq<char>)
    ensures
        dot_count(s) == 0 <==> (forall|i: int| 0 <= i < s.len() ==> s[i] != '.'),
    decreases s.len(),
{
    if s.len() > 0 {
        lemma_dot_count_zero(s.drop_last());
        assert forall|i: int| 0 <= i < s.len() - 1 implies s.drop_last()[i] == s[i] by {}
        if dot_count(s) == 0 {
            assert forall|i: int| 0 <= i < s.len() implies s[i] != '.' by {
                if i < s.len() - 1 {
                    assert(s[i] == s.drop_last()[i]);
                } else {
                    assert(s[i] == s.last());
                }
            }
        }
    }
}

} // verus!
