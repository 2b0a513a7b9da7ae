//! The executable tokenizer: a cursor over the characters of one source
//! text, pulled one token at a time. Every operation is proved against the
//! model in `scan`: `next_token` returns exactly the token that
//! `scan::next_token_model` gives for the remaining input, and consumes
//! exactly as many characters.

use crate::scan::{
    digit_val, dot_count, ident_token, is_digit, is_ident_char, is_letter, is_number_char,
    is_punctuation, is_whitespace, lemma_dot_count_step, lemma_dot_count_zero,
    lemma_ident_run_bounds, lemma_ident_run_is, lemma_num_val_prefix, lemma_num_val_step,
    lemma_number_run_bounds, lemma_number_run_is,
    lemma_ws_len_bounds, lemma_ws_len_is, next_token_model, num_val, number_text_token,
    number_token, operator_token, word_token, ws_len,
};
use crate::token::Token;
use vstd::prelude::*;
use vstd::string::StrSliceExecFns;

verus! {

/// Appends one character to a string.
///
/// Relies on `String::push`: appends the given char to the end of this
/// `String`.
#[verifier::external_body]
fn push_char(s: &mut String, c: char)
    ensures
        final(s)@ == old(s)@.push(c),
{
    s.push(c);
}

/// Builds the string holding exactly the characters of `v`.
fn chars_to_string(v: &Vec<char>) -> (s: String)
    ensures
        s@ == v@,
{
    let mut s = String::new();
    let mut i: usize = 0;
    while i < v.len()
        invariant
            i <= v@.len(),
            s@ == v@.take(i as int),
        decreases v@.len() - i,
    {
        push_char(&mut s, v[i]);
        proof {
            assert(v@.take(i as int).push(v@[i as int]) =~= v@.take(i + 1 as int));
        }
        i = i + 1;
    }
    proof {
        assert(v@.take(v@.len() as int) =~= v@);
    }
    s
}

/// Builds the one-character string holding `c`.
fn single_char_string(c: char) -> (s: String)
    ensures
        s@ == seq![c],
{
    let mut s = String::new();
    push_char(&mut s, c);
    proof {
        assert(Seq::<char>::empty().push(c) =~= seq![c]);
    }
    s
}

/// Whether `c` is whitespace the scanner skips.
fn whitespace_char(c: char) -> (r: bool)
    ensures
        r == is_whitespace(c),
{
    c == ' ' || c == '\t' || c == '\n' || c == '\r'
}

/// Whether `c` is an ASCII letter.
fn letter_char(c: char) -> (r: bool)
    ensures
        r == is_letter(c),
{
    let u = c as u32;
    (65 <= u && u <= 90) || (97 <= u && u <= 122)
}

/// Whether `c` is an ASCII decimal digit.
fn digit_char(c: char) -> (r: bool)
    ensures
        r == is_digit(c),
{
    let u = c as u32;
    48 <= u && u <= 57
}

/// Whether `c` is ASCII punctuation.
fn punctuation_char(c: char) -> (r: bool)
    ensures
        r == is_punctuation(c),
{
    let u = c as u32;
    (33 <= u && u <= 47) || (58 <= u && u <= 64) || (91 <= u && u <= 96) || (123 <= u && u
        <= 126)
}

/// The token a finished alphanumeric word denotes: reserved words first,
/// identifier otherwise.
fn word_to_token(w: String) -> (t: Token)
    ensures
        t@ == word_token(w@),
{
    if w == "fn".to_owned() {
        Token::Function
    } else if w == "let".to_owned() {
        Token::Let
    } else if w == "if".to_owned() {
        Token::If
    } else if w == "else".to_owned() {
        Token::Else
    } else if w == "true".to_owned() {
        Token::Boolean(true)
    } else if w == "false".to_owned() {
        Token::Boolean(false)
    } else if w == "return".to_owned() {
        Token::Return
    } else if w == "int".to_owned() {
        Token::Type(crate::token::Type::Integer)
    } else if w == "float".to_owned() {
        Token::Type(crate::token::Type::Float)
    } else if w == "bool".to_owned() {
        Token::Type(crate::token::Type::Boolean)
    } else if w == "string".to_owned() {
        Token::Type(crate::token::Type::String)
    } else {
        Token::Ident(w)
    }
}

/// Reads a digit string in base ten, reporting overflow of `i64` instead
/// of wrapping.
fn parse_integer(text: &Vec<char>) -> (r: Option<i64>)
    requires
        forall|i: int| 0 <= i < text@.len() ==> is_digit(text@[i]),
    ensures
        match r {
            Some(v) => v == num_val(text@) && num_val(text@) <= i64::MAX,
            None => num_val(text@) > i64::MAX,
        },
{
    let mut acc: i64 = 0;
    let mut i: usize = 0;
    while i < text.len()
        invariant
            i <= text@.len(),
            forall|j: int| 0 <= j < text@.len() ==> is_digit(text@[j]),
            0 <= acc,
            acc == num_val(text@.take(i as int)),
        decreases text@.len() - i,
    {
        let c = text[i];
        let d = (c as u32 - 48) as i64;
        proof {
            lemma_num_val_step(text@, i as int);
            assert(d == digit_val(c));
        }
        let shifted = match acc.checked_mul(10) {
            Some(m) => m,
            None => {
                proof {
                    lemma_num_val_prefix(text@, i + 1 as int);
                }
                return None;
            },
        };
        let next = match shifted.checked_add(d) {
            Some(n) => n,
            None => {
                proof {
                    lemma_num_val_prefix(text@, i + 1 as int);
                }
                return None;
            },
        };
        acc = next;
        i = i + 1;
    }
    proof {
        assert(text@.take(text@.len() as int) =~= text@);
    }
    Some(acc)
}

/// The token a finished numeral run denotes: integer, float kept as text,
/// or illegal on a malformed or overflowing numeral.
fn number_text_to_token(text: Vec<char>) -> (t: Token)
    requires
        text@.len() >= 1,
        forall|i: int| 0 <= i < text@.len() ==> is_number_char(text@[i]),
    ensures
        t@ == number_text_token(text@),
{
    let mut dots: usize = 0;
    let mut i: usize = 0;
    while i < text.len()
        invariant
            i <= text@.len(),
            dots <= i,
            dots == dot_count(text@.take(i as int)),
        decreases text@.len() - i,
    {
        proof {
            lemma_dot_count_step(text@, i as int);
        }
        if text[i] == '.' {
            dots = dots + 1;
        }
        i = i + 1;
    }
    proof {
        assert(text@.take(text@.len() as int) =~= text@);
    }
    if dots == 0 {
        proof {
            lemma_dot_count_zero(text@);
        }
        match parse_integer(&text) {
            Some(v) => Token::Integer(v),
            None => Token::Illegal(chars_to_string(&text)),
        }
    } else if dots == 1 {
        Token::Float(chars_to_string(&text))
    } else {
        Token::Illegal(chars_to_string(&text))
    }
}

/// A single-pass, one-character-lookahead tokenizer over one source text.
/// It owns the characters of the text and a cursor into them; each call of
/// `next_token` advances the cursor past exactly one token.
pub struct Lexer {
    input: Vec<char>,
    pos: usize,
}

impl Lexer {
    /// The whole source text.
    pub closed spec fn source(self) -> Seq<char> {
        self.input@
    }

    /// The characters not yet consumed.
    pub closed spec fn remaining(self) -> Seq<char> {
        self.input@.skip(self.pos as int)
    }

    #[verifier::type_invariant]
    spec fn wf(self) -> bool {
        self.pos <= self.input@.len()
    }

    /// A tokenizer over `input`, with nothing consumed yet.
    pub fn new(input: &str) -> (lx: Lexer)
        ensures
            lx.source() == input@,
            lx.remaining() == input@,
    {
        let n = input.unicode_len();
        let mut v: Vec<char> = Vec::new();
        let mut i: usize = 0;
        while i < n
            invariant
                n == input@.len(),
                i <= n,
                v@ == input@.take(i as int),
            decreases n - i,
        {
            let c = input.get_char(i);
            v.push(c);
            proof {
                assert(input@.take(i as int).push(input@[i as int]) =~= input@.take(
                    i + 1 as int,
                ));
            }
            i = i + 1;
        }
        proof {
            assert(input@.take(n as int) =~= input@);
        }
        let lx = Lexer { input: v, pos: 0 };
        proof {
            assert(lx.remaining() =~= lx.input@);
        }
        lx
    }

    /// Consumes and returns the next character, if one remains.
    pub fn read_char(&mut self) -> (r: Option<char>)
        ensures
            final(self).source() == old(self).source(),
            old(self).remaining().len() > 0 ==> r == Some(old(self).remaining()[0])
                && final(self).remaining() == old(self).remaining().skip(1),
            old(self).remaining().len() == 0 ==> r is None && final(self).remaining() == old(
                self,
            ).remaining(),
    {
        proof {
            use_type_invariant(&*self);
        }
        if self.pos < self.input.len() {
            let c = self.input[self.pos];
            self.pos = self.pos + 1;
            proof {
                assert(final(self).remaining() =~= old(self).remaining().skip(1));
            }
            Some(c)
        } else {
            None
        }
    }

    /// Returns the next character without consuming it.
    pub fn peek_char(&self) -> (r: Option<char>)
        ensures
            self.remaining().len() > 0 ==> r == Some(self.remaining()[0]),
            self.remaining().len() == 0 ==> r is None,
    {
        proof {
            use_type_invariant(&*self);
        }
        if self.pos < self.input.len() {
            Some(self.input[self.pos])
        } else {
            None
        }
    }

    /// Whether the next character is exactly `ch`.
    pub fn peek_char_eq(&self, ch: char) -> (r: bool)
        ensures
            r == (self.remaining().len() > 0 && self.remaining()[0] == ch),
    {
        match self.peek_char() {
            Some(c) => c == ch,
            None => false,
        }
    }

    /// Whether the next character can continue an identifier.
    pub fn peek_is_alphanumeric(&self) -> (r: bool)
        ensures
            r == (self.remaining().len() > 0 && is_ident_char(self.remaining()[0])),
    {
        match self.peek_char() {
            Some(c) => {
                let is_l = letter_char(c);
                let is_d = digit_char(c);
                is_l || is_d || c == '_'
            },
            None => false,
        }
    }

    /// Whether the next character can continue a numeral.
    pub fn peek_is_numeric(&self) -> (r: bool)
        ensures
            r == (self.remaining().len() > 0 && is_number_char(self.remaining()[0])),
    {
        match self.peek_char() {
            Some(c) => digit_char(c) || c == '.',
            None => false,
        }
    }

    /// Consumes the maximal whitespace run at the cursor.
    pub fn skip_whitespace(&mut self)
        ensures
            final(self).source() == old(self).source(),
            final(self).remaining() == old(self).remaining().skip(
                ws_len(old(self).remaining()) as int,
            ),
    {
        proof {
            use_type_invariant(&*self);
        }
        let ghost src0 = self.input@;
        let ghost p0 = self.pos as int;
        while self.pos < self.input.len() && whitespace_char(self.input[self.pos])
            invariant
                self.input@ == src0,
                p0 <= self.pos as int <= src0.len(),
                forall|i: int| p0 <= i < self.pos as int ==> is_whitespace(src0[i]),
            decreases src0.len() - self.pos as int,
        {
            self.pos = self.pos + 1;
        }
        proof {
            let s0 = old(self).remaining();
            let m = (self.pos as int - p0) as nat;
            assert forall|i: int| 0 <= i < m implies is_whitespace(s0[i]) by {
                assert(s0[i] == src0[p0 + i]);
            }
            if m < s0.len() {
                assert(s0[m as int] == src0[self.pos as int]);
            }
            lemma_ws_len_is(s0, m);
            assert(final(self).remaining() =~= s0.skip(m as int));
        }
    }

    /// Recognizes the operator or delimiter whose first character `ch` was
    /// just consumed, taking one more character for `==`, `->` and `!=`.
    fn read_operator_or_delimiter(&mut self, ch: char) -> (t: Token)
        ensures
            final(self).source() == old(self).source(),
            ({
                let s = seq![ch] + old(self).remaining();
                let p = operator_token(s);
                t@ == p.0 && final(self).remaining() == s.skip(p.1 as int)
            }),
    {
        let ghost rem0 = self.remaining();
        let ghost s = seq![ch] + rem0;
        proof {
            assert(s[0] == ch);
            assert(s.skip(1) =~= rem0);
            if rem0.len() > 0 {
                assert(s[1] == rem0[0]);
                assert(s.skip(2) =~= rem0.skip(1));
            }
        }
        match ch {
            '=' => {
                if self.peek_char_eq('=') {
                    let _ = self.read_char();
                    Token::Equal
                } else {
                    Token::Assign
                }
            },
            ';' => Token::Semicolon,
            ':' => Token::Colon,
            '(' => Token::LeftParenthesis,
            ')' => Token::RightParenthesis,
            ',' => Token::Comma,
            '+' => Token::Plus,
            '-' => {
                if self.peek_char_eq('>') {
                    let _ = self.read_char();
                    Token::RightArrow
                } else {
                    Token::Minus
                }
            },
            '!' => {
                if self.peek_char_eq('=') {
                    let _ = self.read_char();
                    Token::NotEqual
                } else {
                    Token::Bang
                }
            },
            '/' => Token::Slash,
            '*' => Token::Asterisk,
            '<' => Token::LessThan,
            '>' => Token::GreaterThan,
            '{' => Token::LeftBrace,
            '}' => Token::RightBrace,
            _ => Token::Illegal(single_char_string(ch)),
        }
    }

    /// Reads the maximal identifier run beginning with the just-consumed
    /// character `ch`, then resolves reserved words.
    fn read_identifier(&mut self, ch: char) -> (t: Token)
        ensures
            final(self).source() == old(self).source(),
            ({
                let s = seq![ch] + old(self).remaining();
                let p = ident_token(s);
                t@ == p.0 && final(self).remaining() == s.skip(p.1 as int)
            }),
    {
        let ghost rem0 = self.remaining();
        let ghost s = seq![ch] + rem0;
        let mut word: Vec<char> = Vec::new();
        word.push(ch);
        proof {
            assert(word@ =~= s.take(1));
            assert(self.remaining() =~= s.skip(1));
        }
        while self.peek_is_alphanumeric()
            invariant
                self.source() == old(self).source(),
                1 <= word@.len() <= s.len(),
                word@ == s.take(word@.len() as int),
                self.remaining() == s.skip(word@.len() as int),
                forall|i: int| 1 <= i < word@.len() ==> is_ident_char(s[i]),
            decreases s.len() - word@.len(),
        {
            let ghost w = word@.len() as int;
            proof {
                assert(self.remaining()[0] == s[w]);
            }
            let c = self.read_char().unwrap();
            word.push(c);
            proof {
                assert(word@ =~= s.take(w + 1));
                assert(self.remaining() =~= s.skip(w + 1));
            }
        }
        proof {
            let w = word@.len() as int;
            let tail = s.skip(1);
            assert forall|i: int| 0 <= i < w - 1 implies is_ident_char(tail[i]) by {
                assert(tail[i] == s[i + 1]);
            }
            if w < s.len() {
                assert(self.remaining()[0] == s[w]);
                assert(tail[w - 1] == s[w]);
            }
            lemma_ident_run_is(tail, (w - 1) as nat);
        }
        word_to_token(chars_to_string(&word))
    }

    /// Reads the maximal numeral run beginning with the just-consumed digit
    /// `ch`, then classifies it.
    fn read_number(&mut self, ch: char) -> (t: Token)
        requires
            is_digit(ch),
        ensures
            final(self).source() == old(self).source(),
            ({
                let s = seq![ch] + old(self).remaining();
                let p = number_token(s);
                t@ == p.0 && final(self).remaining() == s.skip(p.1 as int)
            }),
    {
        let ghost rem0 = self.remaining();
        let ghost s = seq![ch] + rem0;
        let mut number: Vec<char> = Vec::new();
        number.push(ch);
        proof {
            assert(number@ =~= s.take(1));
            assert(self.remaining() =~= s.skip(1));
        }
        while self.peek_is_numeric()
            invariant
                self.source() == old(self).source(),
                1 <= number@.len() <= s.len(),
                number@ == s.take(number@.len() as int),
                self.remaining() == s.skip(number@.len() as int),
                forall|i: int| 1 <= i < number@.len() ==> is_number_char(s[i]),
            decreases s.len() - number@.len(),
        {
            let ghost w = number@.len() as int;
            proof {
                assert(self.remaining()[0] == s[w]);
            }
            let c = self.read_char().unwrap();
            number.push(c);
            proof {
                assert(number@ =~= s.take(w + 1));
                assert(self.remaining() =~= s.skip(w + 1));
            }
        }
        proof {
            let w = number@.len() as int;
            let tail = s.skip(1);
            assert forall|i: int| 0 <= i < w - 1 implies is_number_char(tail[i]) by {
                assert(tail[i] == s[i + 1]);
            }
            if w < s.len() {
                assert(self.remaining()[0] == s[w]);
                assert(tail[w - 1] == s[w]);
            }
            lemma_number_run_is(tail, (w - 1) as nat);
            assert(s[0] == ch);
            assert forall|i: int| 0 <= i < number@.len() implies is_number_char(
                number@[i],
            ) by {
                assert(number@[i] == s[i]);
            }
        }
        number_text_to_token(number)
    }

    /// Produces the next token: skips whitespace, consumes one maximal
    /// token, and returns `EndOfFile` once only whitespace remains. Exactly
    /// the token and consumption that `scan::next_token_model` gives.
    pub fn next_token(&mut self) -> (t: Token)
        ensures
            final(self).source() == old(self).source(),
            t@ == next_token_model(old(self).remaining()).0,
            final(self).remaining() == old(self).remaining().skip(
                next_token_model(old(self).remaining()).1 as int,
            ),
    {
        let ghost s0 = self.remaining();
        let ghost k = ws_len(s0);
        let ghost r = s0.skip(k as int);
        proof {
            lemma_ws_len_bounds(s0);
        }
        self.skip_whitespace();
        match self.read_char() {
            Some(c) => {
                proof {
                    assert(c == r[0]);
                    assert(seq![c] + self.remaining() =~= r);
                }
                let t = if punctuation_char(c) {
                    self.read_operator_or_delimiter(c)
                } else if letter_char(c) {
                    self.read_identifier(c)
                } else if digit_char(c) {
                    self.read_number(c)
                } else {
                    Token::Illegal(single_char_string(c))
                };
                proof {
                    lemma_ident_run_bounds(r.skip(1));
                    lemma_number_run_bounds(r.skip(1));
                    let n = next_token_model(s0).1;
                    assert(r.skip((n - k) as int) =~= s0.skip(n as int));
                }
                t
            },
            None => {
                proof {
                    assert(r.len() == 0);
                }
                Token::EndOfFile
            },
        }
    }
}

} // verus!
