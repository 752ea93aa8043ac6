//! Lexical analysis: source text to tokens.
//!
//! Scanning goes left to right. At each position the rules apply in
//! priority order: skip whitespace; keywords (only when not followed by an
//! identifier character); two-character operators; single-character
//! operators and punctuation; integer literals (the longest digit run,
//! which must fit in a signed 32-bit integer); identifiers (maximal
//! munch). Anything else is a `LexError`. An end-of-input sentinel is
//! appended once scanning is exhausted.

use vstd::math::{max, min};
use vstd::prelude::*;
use vstd::string::*;

use crate::token::{Token, TokenV};

verus! {

/// Why lexing failed.
#[derive(Debug, Clone, Copy, PartialEq, Eq)]
pub enum LexErrorKind {
    /// No rule matches the character at the error position.
    UnrecognizedCharacter,
    /// A digit run does not fit in a signed 32-bit integer.
    InvalidNumber,
}

/// A lexing failure: where it happened, why, and the remaining text from
/// that position on.
#[derive(Debug, Clone, PartialEq)]
pub struct LexError {
    pub pos: usize,
    pub kind: LexErrorKind,
    pub text: String,
}

/// ASCII whitespace.
pub open spec fn is_space(c: char) -> bool {
    c == ' ' || c == '\t' || c == '\n' || c == '\x0C' || c == '\r'
}

/// An ASCII decimal digit.
pub open spec fn is_digit(c: char) -> bool {
    48 <= c as u32 && c as u32 <= 57
}

/// A character that may begin an identifier.
pub open spec fn is_ident_start(c: char) -> bool {
    (65 <= c as u32 && c as u32 <= 90)  // A-Z
    || (97 <= c as u32 && c as u32 <= 122)  // a-z
    || c == '_'
}

/// A character that may continue an identifier.
pub open spec fn is_ident_char(c: char) -> bool {
    is_ident_start(c) || is_digit(c)
}

/// The numeric value of a digit character.
pub open spec fn digit_val(c: char) -> int {
    c as u32 - 48
}

/// The value of a run of decimal digits.
pub open spec fn digits_val(d: Seq<char>) -> int
    decreases d.len(),
{
    if d.len() == 0 {
        0
    } else {
        digits_val(d.drop_last()) * 10 + digit_val(d.last())
    }
}

/// The length of the digit run beginning at `pos`.
pub open spec fn digit_run_len(s: Seq<char>, pos: int) -> nat
    decreases s.len() - pos,
{
    if pos < 0 || pos >= s.len() {
        0
    } else if is_digit(s[pos]) {
        1 + digit_run_len(s, pos + 1)
    } else {
        0
    }
}

/// The length of the identifier-character run beginning at `pos`.
pub open spec fn ident_run_len(s: Seq<char>, pos: int) -> nat
    decreases s.len() - pos,
{
    if pos < 0 || pos >= s.len() {
        0
    } else if is_ident_char(s[pos]) {
        1 + ident_run_len(s, pos + 1)
    } else {
        0
    }
}

/// Whether the keyword `kw` stands at `pos`: its characters match and the
/// following character, if any, cannot continue an identifier.
pub open spec fn is_keyword_at(s: Seq<char>, pos: int, kw: Seq<char>) -> bool {
    &&& 0 <= pos
    &&& pos + kw.len() <= s.len()
    &&& s.subrange(pos, pos + kw.len()) == kw
    &&& (pos + kw.len() == s.len() || !is_ident_char(s[pos + kw.len()]))
}

pub open spec fn kw_return() -> Seq<char> {
    seq!['r', 'e', 't', 'u', 'r', 'n']
}

pub open spec fn kw_if() -> Seq<char> {
    seq!['i', 'f']
}

pub open spec fn kw_else() -> Seq<char> {
    seq!['e', 'l', 's', 'e']
}

pub open spec fn kw_while() -> Seq<char> {
    seq!['w', 'h', 'i', 'l', 'e']
}

pub open spec fn kw_for() -> Seq<char> {
    seq!['f', 'o', 'r']
}

/// Prepends a token to the result of lexing the rest of the input.
pub open spec fn cons_tok(
    t: TokenV,
    r: Result<Seq<TokenV>, (int, LexErrorKind)>,
) -> Result<Seq<TokenV>, (int, LexErrorKind)> {
    match r {
        Ok(rest) => Ok(seq![t] + rest),
        Err(e) => Err(e),
    }
}

/// The tokens of `s` from position `pos` on, ending with the `Eof`
/// sentinel, or the position and cause of the first lexing failure.
pub open spec fn spec_tokenize_from(s: Seq<char>, pos: int) -> Result<
    Seq<TokenV>,
    (int, LexErrorKind),
>
    decreases s.len() - pos,
{
    if pos < 0 || pos >= s.len() {
        Ok(seq![TokenV::Eof])
    } else {
        let c = s[pos];
        if is_space(c) {
            spec_tokenize_from(s, pos + 1)
        } else if is_keyword_at(s, pos, kw_return()) {
            cons_tok(TokenV::Return, spec_tokenize_from(s, pos + 6))
        } else if is_keyword_at(s, pos, kw_if()) {
            cons_tok(TokenV::If, spec_tokenize_from(s, pos + 2))
        } else if is_keyword_at(s, pos, kw_else()) {
            cons_tok(TokenV::Else, spec_tokenize_from(s, pos + 4))
        } else if is_keyword_at(s, pos, kw_while()) {
            cons_tok(TokenV::While, spec_tokenize_from(s, pos + 5))
        } else if is_keyword_at(s, pos, kw_for()) {
            cons_tok(TokenV::For, spec_tokenize_from(s, pos + 3))
        } else if pos + 1 < s.len() && c == '=' && s[pos + 1] == '=' {
            cons_tok(TokenV::Equal, spec_tokenize_from(s, pos + 2))
        } else if pos + 1 < s.len() && c == '!' && s[pos + 1] == '=' {
            cons_tok(TokenV::NotEqual, spec_tokenize_from(s, pos + 2))
        } else if pos + 1 < s.len() && c == '<' && s[pos + 1] == '=' {
            cons_tok(TokenV::LessThanOrEqual, spec_tokenize_from(s, pos + 2))
        } else if pos + 1 < s.len() && c == '>' && s[pos + 1] == '=' {
            cons_tok(TokenV::GreaterThanOrEqual, spec_tokenize_from(s, pos + 2))
        } else if c == '+' {
            cons_tok(TokenV::Plus, spec_tokenize_from(s, pos + 1))
        } else if c == '-' {
            cons_tok(TokenV::Minus, spec_tokenize_from(s, pos + 1))
        } else if c == '*' {
            cons_tok(TokenV::Star, spec_tokenize_from(s, pos + 1))
        } else if c == '/' {
            cons_tok(TokenV::Slash, spec_tokenize_from(s, pos + 1))
        } else if c == '(' {
            cons_tok(TokenV::LeftParen, spec_tokenize_from(s, pos + 1))
        } else if c == ')' {
            cons_tok(TokenV::RightParen, spec_tokenize_from(s, pos + 1))
        } else if c == '{' {
            cons_tok(TokenV::LeftBrace, spec_tokenize_from(s, pos + 1))
        } else if c == '}' {
            cons_tok(TokenV::RightBrace, spec_tokenize_from(s, pos + 1))
        } else if c == '<' {
            cons_tok(TokenV::LeftAngleBracket, spec_tokenize_from(s, pos + 1))
        } else if c == '>' {
            cons_tok(TokenV::RightAngleBracket, spec_tokenize_from(s, pos + 1))
        } else if c == ';' {
            cons_tok(TokenV::Semicolon, spec_tokenize_from(s, pos + 1))
        } else if c == '=' {
            cons_tok(TokenV::Assign, spec_tokenize_from(s, pos + 1))
        } else if is_digit(c) {
            let next = min(pos + digit_run_len(s, pos), s.len() as int);
            let val = digits_val(s.subrange(pos, next));
            if val > i32::MAX as int {
                Err((pos, LexErrorKind::InvalidNumber))
            } else {
                cons_tok(TokenV::Num(val as i32), spec_tokenize_from(s, next))
            }
        } else if is_ident_start(c) {
            let next = min(pos + ident_run_len(s, pos), s.len() as int);
            cons_tok(TokenV::Ident(s.subrange(pos, next)), spec_tokenize_from(s, next))
        } else {
            Err((pos, LexErrorKind::UnrecognizedCharacter))
        }
    }
}

/// The tokens of the whole of `s`, or the first lexing failure.
pub open spec fn spec_tokenize(s: Seq<char>) -> Result<Seq<TokenV>, (int, LexErrorKind)> {
    spec_tokenize_from(s, 0)
}

/// Splices already-produced tokens onto the result of lexing the rest.
pub open spec fn splice(
    prefix: Seq<TokenV>,
    r: Result<Seq<TokenV>, (int, LexErrorKind)>,
) -> Result<Seq<TokenV>, (int, LexErrorKind)> {
    match r {
        Ok(rest) => Ok(prefix + rest),
        Err(e) => Err(e),
    }
}

/// Moving a token from the head of the rest onto the produced prefix
/// leaves the spliced whole unchanged.
proof fn lemma_splice_step(
    prefix: Seq<TokenV>,
    t: TokenV,
    r: Result<Seq<TokenV>, (int, LexErrorKind)>,
)
    ensures
        splice(prefix, cons_tok(t, r)) == splice(prefix.push(t), r),
{
    match r {
        Ok(rest) => {
            assert(prefix + (seq![t] + rest) =~= prefix.push(t) + rest);
        },
        Err(_) => {},
    }
}

/// A digit run never passes the end of the input.
proof fn lemma_digit_run_len_le(s: Seq<char>, pos: int)
    requires
        0 <= pos <= s.len(),
    ensures
        pos + digit_run_len(s, pos) <= s.len(),
    decreases s.len() - pos,
{
    if pos < s.len() && is_digit(s[pos]) {
        lemma_digit_run_len_le(s, pos + 1);
    }
}

/// An identifier run never passes the end of the input.
proof fn lemma_ident_run_len_le(s: Seq<char>, pos: int)
    requires
        0 <= pos <= s.len(),
    ensures
        pos + ident_run_len(s, pos) <= s.len(),
    decreases s.len() - pos,
{
    if pos < s.len() && is_ident_char(s[pos]) {
        lemma_ident_run_len_le(s, pos + 1);
    }
}

/// Appends a token, viewed.
fn emit(tokens: &mut Vec<Token>, t: Token)
    ensures
        final(tokens).deep_view() == old(tokens).deep_view().push(t@),
        final(tokens)@ == old(tokens)@.push(t),
{
    let ghost dv = tokens.deep_view();
    let ghost tv = t@;
    tokens.push(t);
    proof {
        assert(tokens.deep_view() =~= dv.push(tv));
    }
}

/// Whether the keyword `kw` stands at position `pos` of `s`.
fn at_keyword(s: &str, pos: usize, n: usize, kw: &str) -> (r: bool)
    requires
        n == s@.len(),
        pos < n,
    ensures
        r == is_keyword_at(s@, pos as int, kw@),
{
    let m: usize = kw.unicode_len();
    if n - pos < m {
        return false;
    }
    let mut i: usize = 0;
    while i < m
        invariant
            0 <= i <= m,
            m <= n - pos,
            n == s@.len(),
            m == kw@.len(),
            forall|k: int| 0 <= k < i ==> s@[pos + k] == kw@[k],
        decreases m - i,
    {
        if s.get_char(pos + i) != kw.get_char(i) {
            assert(s@.subrange(pos as int, pos + m) != kw@);
            return false;
        }
        i = i + 1;
    }
    assert(s@.subrange(pos as int, pos + m) =~= kw@);
    if pos + m == n {
        true
    } else {
        let c = s.get_char(pos + m);
        !is_ident_char_exec(c)
    }
}

/// Executable test for [`is_space`].
fn is_space_char(c: char) -> (r: bool)
    ensures
        r == is_space(c),
{
    c == ' ' || c == '\t' || c == '\n' || c == '\x0C' || c == '\r'
}

/// Executable test for [`is_digit`].
fn is_digit_char(c: char) -> (r: bool)
    ensures
        r == is_digit(c),
{
    let u: u32 = c as u32;
    48 <= u && u <= 57
}

/// Executable test for [`is_ident_start`].
fn is_ident_start_char(c: char) -> (r: bool)
    ensures
        r == is_ident_start(c),
{
    let u: u32 = c as u32;
    (65 <= u && u <= 90) || (97 <= u && u <= 122) || c == '_'
}

/// Executable test for [`is_ident_char`].
fn is_ident_char_exec(c: char) -> (r: bool)
    ensures
        r == is_ident_char(c),
{
    is_ident_start_char(c) || is_digit_char(c)
}

/// Converts raw source text into the ordered, finite token sequence that
/// the parser consumes.
pub struct Tokenizer {
    pub input: String,
    pub cursor: usize,
}

impl Tokenizer {
    /// A tokenizer over `input`, positioned at its start.
    pub fn new(input: &str) -> (t: Self)
        ensures
            t.input@ == input@,
            t.cursor == 0,
    {
        Tokenizer { input: input.to_owned(), cursor: 0 }
    }

    /// Scans the input from the cursor on and returns its tokens, `Eof`
    /// sentinel last, or the first lexing failure with the offending
    /// remaining text and its position.
    #[verifier::rlimit(100)]
    pub fn tokenize(&mut self) -> (r: Result<Vec<Token>, LexError>)
        ensures
            final(self).input == old(self).input,
            match r {
                Ok(toks) => {
                    &&& spec_tokenize_from(old(self).input@, old(self).cursor as int)
                        == Ok::<Seq<TokenV>, (int, LexErrorKind)>(toks.deep_view())
                    &&& final(self).cursor as int == max(
                        old(self).cursor as int,
                        old(self).input@.len() as int,
                    )
                },
                Err(e) => {
                    &&& spec_tokenize_from(old(self).input@, old(self).cursor as int)
                        == Err::<Seq<TokenV>, (int, LexErrorKind)>((e.pos as int, e.kind))
                    &&& e.text@ == old(self).input@.subrange(
                        e.pos as int,
                        old(self).input@.len() as int,
                    )
                    &&& final(self).cursor == e.pos
                },
            },
    {
        let ghost s = self.input@;
        let ghost c0 = self.cursor as int;
        let n: usize = self.input.as_str().unicode_len();
        let mut tokens: Vec<Token> = Vec::new();

        if self.cursor >= n {
            emit(&mut tokens, Token::Eof);
            proof {
                assert(tokens.deep_view() =~= seq![TokenV::Eof]);
            }
            return Ok(tokens);
        }

        while self.cursor < n
            invariant
                self.input == old(self).input,
                self.input@ == s,
                s == old(self).input@,
                c0 == old(self).cursor as int,
                n == s.len(),
                c0 <= self.cursor <= n,
                spec_tokenize_from(s, c0) == splice(
                    tokens.deep_view(),
                    spec_tokenize_from(s, self.cursor as int),
                ),
            decreases n - self.cursor,
        {
            let ghost pos = self.cursor as int;
            let ghost dv = tokens.deep_view();
            let c = self.input.as_str().get_char(self.cursor);

            if is_space_char(c) {
                self.cursor = self.cursor + 1;
            } else if at_keyword(self.input.as_str(), self.cursor, n, "return") {
                proof {
                    reveal_strlit("return");
                    assert("return"@ =~= kw_return());
                    lemma_splice_step(dv, TokenV::Return, spec_tokenize_from(s, pos + 6));
                }
                emit(&mut tokens, Token::Return);
                self.cursor = self.cursor + 6;
            } else if at_keyword(self.input.as_str(), self.cursor, n, "if") {
                proof {
                    reveal_strlit("if");
                    reveal_strlit("return");
                    assert("if"@ =~= kw_if());
                    assert(!is_keyword_at(s, pos, kw_return()));
                    lemma_splice_step(dv, TokenV::If, spec_tokenize_from(s, pos + 2));
                }
                emit(&mut tokens, Token::If);
                self.cursor = self.cursor + 2;
            } else if at_keyword(self.input.as_str(), self.cursor, n, "else") {
                proof {
                    reveal_strlit("else");
                    reveal_strlit("return");
                    reveal_strlit("if");
                    assert("else"@ =~= kw_else());
                    lemma_splice_step(dv, TokenV::Else, spec_tokenize_from(s, pos + 4));
                }
                emit(&mut tokens, Token::Else);
                self.cursor = self.cursor + 4;
            } else if at_keyword(self.input.as_str(), self.cursor, n, "while") {
                proof {
                    reveal_strlit("while");
                    reveal_strlit("return");
                    reveal_strlit("if");
                    reveal_strlit("else");
                    assert("while"@ =~= kw_while());
                    lemma_splice_step(dv, TokenV::While, spec_tokenize_from(s, pos + 5));
                }
                emit(&mut tokens, Token::While);
                self.cursor = self.cursor + 5;
            } else if at_keyword(self.input.as_str(), self.cursor, n, "for") {
                proof {
                    reveal_strlit("for");
                    reveal_strlit("return");
                    reveal_strlit("if");
                    reveal_strlit("else");
                    reveal_strlit("while");
                    assert("for"@ =~= kw_for());
                    lemma_splice_step(dv, TokenV::For, spec_tokenize_from(s, pos + 3));
                }
                emit(&mut tokens, Token::For);
                self.cursor = self.cursor + 3;
            } else {
                proof {
                    reveal_strlit("return");
                    reveal_strlit("if");
                    reveal_strlit("else");
                    reveal_strlit("while");
                    reveal_strlit("for");
                    assert("return"@ =~= kw_return());
                    assert("if"@ =~= kw_if());
                    assert("else"@ =~= kw_else());
                    assert("while"@ =~= kw_while());
                    assert("for"@ =~= kw_for());
                }
                if self.cursor + 1 < n && c == '=' && self.input.as_str().get_char(
                    self.cursor + 1,
                ) == '=' {
                    proof {
                        lemma_splice_step(dv, TokenV::Equal, spec_tokenize_from(s, pos + 2));
                    }
                    emit(&mut tokens, Token::Equal);
                    self.cursor = self.cursor + 2;
                } else if self.cursor + 1 < n && c == '!' && self.input.as_str().get_char(
                    self.cursor + 1,
                ) == '=' {
                    proof {
                        lemma_splice_step(dv, TokenV::NotEqual, spec_tokenize_from(s, pos + 2));
                    }
                    emit(&mut tokens, Token::NotEqual);
                    self.cursor = self.cursor + 2;
                } else if self.cursor + 1 < n && c == '<' && self.input.as_str().get_char(
                    self.cursor + 1,
                ) == '=' {
                    proof {
                        lemma_splice_step(
                            dv,
                            TokenV::LessThanOrEqual,
                            spec_tokenize_from(s, pos + 2),
                        );
                    }
                    emit(&mut tokens, Token::LessThanOrEqual);
                    self.cursor = self.cursor + 2;
                } else if self.cursor + 1 < n && c == '>' && self.input.as_str().get_char(
                    self.cursor + 1,
                ) == '=' {
                    proof {
                        lemma_splice_step(
                            dv,
                            TokenV::GreaterThanOrEqual,
                            spec_tokenize_from(s, pos + 2),
                        );
                    }
                    emit(&mut tokens, Token::GreaterThanOrEqual);
                    self.cursor = self.cursor + 2;
                } else if c == '+' {
                    proof {
                        lemma_splice_step(dv, TokenV::Plus, spec_tokenize_from(s, pos + 1));
                    }
                    emit(&mut tokens, Token::Plus);
                    self.cursor = self.cursor + 1;
                } else if c == '-' {
                    proof {
                        lemma_splice_step(dv, TokenV::Minus, spec_tokenize_from(s, pos + 1));
                    }
                    emit(&mut tokens, Token::Minus);
                    self.cursor = self.cursor + 1;
                } else if c == '*' {
                    proof {
                        lemma_splice_step(dv, TokenV::Star, spec_tokenize_from(s, pos + 1));
                    }
                    emit(&mut tokens, Token::Star);
                    self.cursor = self.cursor + 1;
                } else if c == '/' {
                    proof {
                        lemma_splice_step(dv, TokenV::Slash, spec_tokenize_from(s, pos + 1));
                    }
                    emit(&mut tokens, Token::Slash);
                    self.cursor = self.cursor + 1;
                } else if c == '(' {
                    proof {
                        lemma_splice_step(dv, TokenV::LeftParen, spec_tokenize_from(s, pos + 1));
                    }
                    emit(&mut tokens, Token::LeftParen);
                    self.cursor = self.cursor + 1;
                } else if c == ')' {
                    proof {
                        lemma_splice_step(dv, TokenV::RightParen, spec_tokenize_from(s, pos + 1));
                    }
                    emit(&mut tokens, Token::RightParen);
                    self.cursor = self.cursor + 1;
                } else if c == '{' {
                    proof {
                        lemma_splice_step(dv, TokenV::LeftBrace, spec_tokenize_from(s, pos + 1));
                    }
                    emit(&mut tokens, Token::LeftBrace);
                    self.cursor = self.cursor + 1;
                } else if c == '}' {
                    proof {
                        lemma_splice_step(dv, TokenV::RightBrace, spec_tokenize_from(s, pos + 1));
                    }
                    emit(&mut tokens, Token::RightBrace);
                    self.cursor = self.cursor + 1;
                } else if c == '<' {
                    proof {
                        lemma_splice_step(
                            dv,
                            TokenV::LeftAngleBracket,
                            spec_tokenize_from(s, pos + 1),
                        );
                    }
                    emit(&mut tokens, Token::LeftAngleBracket);
                    self.cursor = self.cursor + 1;
                } else if c == '>' {
                    proof {
                        lemma_splice_step(
                            dv,
                            TokenV::RightAngleBracket,
                            spec_tokenize_from(s, pos + 1),
                        );
                    }
                    emit(&mut tokens, Token::RightAngleBracket);
                    self.cursor = self.cursor + 1;
                } else if c == ';' {
                    proof {
                        lemma_splice_step(dv, TokenV::Semicolon, spec_tokenize_from(s, pos + 1));
                    }
                    emit(&mut tokens, Token::Semicolon);
                    self.cursor = self.cursor + 1;
                } else if c == '=' {
                    proof {
                        lemma_splice_step(dv, TokenV::Assign, spec_tokenize_from(s, pos + 1));
                    }
                    emit(&mut tokens, Token::Assign);
                    self.cursor = self.cursor + 1;
                } else if is_digit_char(c) {
                    let start: usize = self.cursor;
                    let mut j: usize = self.cursor;
                    let mut acc: u64 = 0;
                    let mut over = false;
                    while j < n && is_digit_char(self.input.as_str().get_char(j))
                        invariant
                            self.input@ == s,
                            n == s.len(),
                            c0 <= start <= j <= n,
                            start < s.len(),
                            is_digit(s[start as int]),
                            forall|k: int| start <= k < j ==> is_digit(s[k]),
                            digit_run_len(s, start as int) == (j - start) + digit_run_len(
                                s,
                                j as int,
                            ),
                            !over ==> acc == digits_val(s.subrange(start as int, j as int))
                                && acc <= i32::MAX as u64,
                            over ==> digits_val(s.subrange(start as int, j as int)) > i32::MAX
                                as int,
                        decreases n - j,
                    {
                        let d: u32 = self.input.as_str().get_char(j) as u32 - 48;
                        proof {
                            assert(s.subrange(start as int, j + 1).drop_last() =~= s.subrange(
                                start as int,
                                j as int,
                            ));
                            assert(s.subrange(start as int, j + 1).last() == s[j as int]);
                        }
                        if !over {
                            let acc2: u64 = acc * 10 + (d as u64);
                            if acc2 > 2147483647 {
                                over = true;
                            } else {
                                acc = acc2;
                            }
                        }
                        j = j + 1;
                    }
                    proof {
                        lemma_digit_run_len_le(s, start as int);
                        assert(digit_run_len(s, j as int) == 0);
                        assert(min(start + digit_run_len(s, start as int), s.len() as int)
                            == j as int);
                    }
                    if over {
                        let text = self.input.as_str().substring_char(start, n).to_owned();
                        return Err(
                            LexError { pos: start, kind: LexErrorKind::InvalidNumber, text },
                        );
                    }
                    proof {
                        lemma_splice_step(
                            dv,
                            TokenV::Num(acc as i32),
                            spec_tokenize_from(s, j as int),
                        );
                    }
                    emit(&mut tokens, Token::Num(acc as i32));
                    self.cursor = j;
                } else if is_ident_start_char(c) {
                    let start: usize = self.cursor;
                    let mut j: usize = self.cursor;
                    while j < n && is_ident_char_exec(self.input.as_str().get_char(j))
                        invariant
                            self.input@ == s,
                            n == s.len(),
                            c0 <= start <= j <= n,
                            start < s.len(),
                            is_ident_start(s[start as int]),
                            ident_run_len(s, start as int) == (j - start) + ident_run_len(
                                s,
                                j as int,
                            ),
                        decreases n - j,
                    {
                        j = j + 1;
                    }
                    proof {
                        lemma_ident_run_len_le(s, start as int);
                        assert(ident_run_len(s, j as int) == 0);
                        assert(min(start + ident_run_len(s, start as int), s.len() as int)
                            == j as int);
                    }
                    let name = self.input.as_str().substring_char(start, j).to_owned();
                    proof {
                        lemma_splice_step(
                            dv,
                            TokenV::Ident(s.subrange(start as int, j as int)),
                            spec_tokenize_from(s, j as int),
                        );
                    }
                    emit(&mut tokens, Token::Ident(name));
                    self.cursor = j;
                } else {
                    let text = self.input.as_str().substring_char(self.cursor, n).to_owned();
                    return Err(
                        LexError {
                            pos: self.cursor,
                            kind: LexErrorKind::UnrecognizedCharacter,
                            text,
                        },
                    );
                }
            }
        }
        proof {
            assert(spec_tokenize_from(s, n as int) == Ok::<Seq<TokenV>, (int, LexErrorKind)>(
                seq![TokenV::Eof],
            ));
            assert(tokens.deep_view() + seq![TokenV::Eof] =~= tokens.deep_view().push(
                TokenV::Eof,
            ));
        }
        emit(&mut tokens, Token::Eof);
        Ok(tokens)
    }
}

} // verus!
