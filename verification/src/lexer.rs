//! The lexer: one left-to-right pass over the input characters, producing
//! the token sequence or the first character that no token can start.

use vstd::prelude::*;

use crate::token::{Token, TokenKind, TokenModel, token_models};

verus! {

/// The lexer's error: the input held a character that no token can start.
#[derive(Clone, Copy, Debug, PartialEq, Eq, Structural)]
pub enum LexError {
    UnexpectedSymbol { symbol: char },
}

/// An ASCII digit, the start of a number token.
pub open spec fn is_digit_char(c: char) -> bool {
    '0' <= c && c <= '9'
}

/// A character that may continue a number token: a digit or `.`. The lexer
/// does not check that at most one `.` appears; malformed numbers are left
/// for numeric parsing to reject.
pub open spec fn is_number_cont(c: char) -> bool {
    is_digit_char(c) || c == '.'
}

/// An ASCII letter, the start of an identifier token.
pub open spec fn is_ascii_letter(c: char) -> bool {
    ('a' <= c && c <= 'z') || ('A' <= c && c <= 'Z')
}

/// One of the five operator characters.
pub open spec fn is_operator_char(c: char) -> bool {
    c == '+' || c == '-' || c == '*' || c == '/' || c == '^'
}

/// A character with the Unicode White_Space property; the lexer skips these.
pub open spec fn is_whitespace_char(c: char) -> bool {
    ('\u{0009}' <= c && c <= '\u{000D}') || c == ' ' || c == '\u{0085}' || c == '\u{00A0}'
        || c == '\u{1680}' || ('\u{2000}' <= c && c <= '\u{200A}') || c == '\u{2028}'
        || c == '\u{2029}' || c == '\u{202F}' || c == '\u{205F}' || c == '\u{3000}'
}

/// What `char::is_alphanumeric` returns: whether the character counts as
/// alphanumeric by the Unicode tables, a function of the character alone.
pub uninterp spec fn unicode_alphanumeric(c: char) -> bool;

/// Relies on `char::is_alphanumeric` of std: whether the character is
/// alphanumeric by the Unicode tables; the result depends on the character
/// alone.
#[verifier::external_body]
fn char_is_alphanumeric(c: char) -> (r: bool)
    ensures
        r == unicode_alphanumeric(c),
{
    c.is_alphanumeric()
}

/// A character that may continue an identifier token.
pub open spec fn is_ident_cont(c: char) -> bool {
    unicode_alphanumeric(c)
}

/// How many consecutive characters from position `i` on may continue a
/// number token.
pub open spec fn number_run_len(s: Seq<char>, i: int) -> nat
    decreases s.len() - i,
{
    if 0 <= i < s.len() && is_number_cont(s[i]) {
        (number_run_len(s, i + 1) + 1) as nat
    } else {
        0
    }
}

/// How many consecutive characters from position `i` on may continue an
/// identifier token.
pub open spec fn ident_run_len(s: Seq<char>, i: int) -> nat
    decreases s.len() - i,
{
    if 0 <= i < s.len() && is_ident_cont(s[i]) {
        (ident_run_len(s, i + 1) + 1) as nat
    } else {
        0
    }
}

/// One past the last character of a token that starts at `i` and is
/// continued by `run` further characters, clipped to the input's length.
pub open spec fn run_end(s: Seq<char>, i: int, run: nat) -> int {
    if i + 1 + run <= s.len() {
        i + 1 + run
    } else {
        s.len() as int
    }
}

/// The lexer's meaning from position `i` on: the token sequence of the rest
/// of the input, or the first unexpected character in it.
pub open spec fn spec_tokenize_from(s: Seq<char>, i: int) -> Result<Seq<TokenModel>, LexError>
    decreases s.len() - i,
{
    if i < 0 || i >= s.len() {
        Ok(Seq::empty())
    } else {
        let c = s[i];
        if is_digit_char(c) {
            let j = run_end(s, i, number_run_len(s, i + 1));
            match spec_tokenize_from(s, j) {
                Ok(rest) => Ok(
                    seq![TokenModel { text: s.subrange(i, j), kind: TokenKind::Number }] + rest,
                ),
                Err(e) => Err(e),
            }
        } else if is_ascii_letter(c) {
            let j = run_end(s, i, ident_run_len(s, i + 1));
            match spec_tokenize_from(s, j) {
                Ok(rest) => Ok(
                    seq![TokenModel { text: s.subrange(i, j), kind: TokenKind::Identifier }] + rest,
                ),
                Err(e) => Err(e),
            }
        } else if is_operator_char(c) {
            match spec_tokenize_from(s, i + 1) {
                Ok(rest) => Ok(
                    seq![TokenModel { text: s.subrange(i, i + 1), kind: TokenKind::Operator }]
                        + rest,
                ),
                Err(e) => Err(e),
            }
        } else if c == '(' {
            match spec_tokenize_from(s, i + 1) {
                Ok(rest) => Ok(
                    seq![TokenModel { text: s.subrange(i, i + 1), kind: TokenKind::LeftParen }]
                        + rest,
                ),
                Err(e) => Err(e),
            }
        } else if c == ')' {
            match spec_tokenize_from(s, i + 1) {
                Ok(rest) => Ok(
                    seq![TokenModel { text: s.subrange(i, i + 1), kind: TokenKind::RightParen }]
                        + rest,
                ),
                Err(e) => Err(e),
            }
        } else if is_whitespace_char(c) {
            spec_tokenize_from(s, i + 1)
        } else {
            Err(LexError::UnexpectedSymbol { symbol: c })
        }
    }
}

/// The lexer's meaning: the token sequence of the whole input, or the first
/// unexpected character.
pub open spec fn spec_tokenize(s: Seq<char>) -> Result<Seq<TokenModel>, LexError> {
    spec_tokenize_from(s, 0)
}

/// A scan that saw number-continuation characters up to `j` exclusive, and
/// stopped there for a reason, found the whole run.
proof fn lemma_number_run_scan(s: Seq<char>, i: int, j: int)
    requires
        0 <= i <= j <= s.len(),
        forall|m: int| i <= m < j ==> is_number_cont(s[m]),
        j < s.len() ==> !is_number_cont(s[j]),
    ensures
        number_run_len(s, i) == j - i,
    decreases j - i,
{
    if i < j {
        assert(is_number_cont(s[i]));
        lemma_number_run_scan(s, i + 1, j);
    }
}

/// The same, for identifier-continuation characters.
proof fn lemma_ident_run_scan(s: Seq<char>, i: int, j: int)
    requires
        0 <= i <= j <= s.len(),
        forall|m: int| i <= m < j ==> is_ident_cont(s[m]),
        j < s.len() ==> !is_ident_cont(s[j]),
    ensures
        ident_run_len(s, i) == j - i,
    decreases j - i,
{
    if i < j {
        assert(is_ident_cont(s[i]));
        lemma_ident_run_scan(s, i + 1, j);
    }
}

/// Whether the character at `j` may continue the token being scanned: a
/// number token when `number` holds, an identifier token otherwise.
fn run_cont_at(input: &str, j: usize, number: bool) -> (r: bool)
    requires
        j < input@.len(),
    ensures
        number ==> r == is_number_cont(input@[j as int]),
        !number ==> r == is_ident_cont(input@[j as int]),
{
    let c = input.get_char(j);
    if number {
        ('0' <= c && c <= '9') || c == '.'
    } else {
        char_is_alphanumeric(c)
    }
}

/// Scans past the characters that continue the token starting at `start`:
/// the greedy consumption of both multi-character token forms.
fn scan_run(input: &str, start: usize, number: bool) -> (j: usize)
    requires
        start <= input@.len(),
    ensures
        start <= j <= input@.len(),
        number ==> j - start == number_run_len(input@, start as int),
        !number ==> j - start == ident_run_len(input@, start as int),
{
    let n: usize = input.unicode_len();
    let mut j: usize = start;
    while j < n && run_cont_at(input, j, number)
        invariant
            n == input@.len(),
            start <= j <= n,
            number ==> forall|m: int| start <= m < j ==> is_number_cont(input@[m]),
            !number ==> forall|m: int| start <= m < j ==> is_ident_cont(input@[m]),
        decreases n - j,
    {
        j = j + 1;
    }
    proof {
        if number {
            lemma_number_run_scan(input@, start as int, j as int);
        } else {
            lemma_ident_run_scan(input@, start as int, j as int);
        }
    }
    j
}

/// Whether `c` has the Unicode White_Space property.
fn whitespace_char(c: char) -> (r: bool)
    ensures
        r == is_whitespace_char(c),
{
    ('\u{0009}' <= c && c <= '\u{000D}') || c == ' ' || c == '\u{0085}' || c == '\u{00A0}'
        || c == '\u{1680}' || ('\u{2000}' <= c && c <= '\u{200A}') || c == '\u{2028}'
        || c == '\u{2029}' || c == '\u{202F}' || c == '\u{205F}' || c == '\u{3000}'
}

/// Turns the input into its token sequence: numbers (digits then digits or
/// dots), identifiers (an ASCII letter then alphanumeric characters), the
/// five operators and the two parentheses, with whitespace skipped. Fails on
/// the first character that fits none of these, naming it.
pub fn tokenize(input: &str) -> (r: Result<Vec<Token>, LexError>)
    ensures
        match r {
            Ok(tokens) => spec_tokenize(input@) == Ok::<_, LexError>(token_models(tokens@)),
            Err(e) => spec_tokenize(input@) == Err::<Seq<TokenModel>, _>(e),
        },
{
    let n: usize = input.unicode_len();
    let mut tokens: Vec<Token> = Vec::new();
    let mut i: usize = 0;
    while i < n
        invariant
            n == input@.len(),
            i <= n,
            spec_tokenize(input@) == (match spec_tokenize_from(input@, i as int) {
                Ok(rest) => Ok::<_, LexError>(token_models(tokens@) + rest),
                Err(e) => Err::<Seq<TokenModel>, _>(e),
            }),
        decreases n - i,
    {
        let ghost done = token_models(tokens@);
        let c = input.get_char(i);
        if ('0' <= c && c <= '9') || ('a' <= c && c <= 'z') || ('A' <= c && c <= 'Z') {
            let number = '0' <= c && c <= '9';
            let j: usize = scan_run(input, i + 1, number);
            let text = input.substring_char(i, j).to_owned();
            let kind = if number {
                TokenKind::Number
            } else {
                TokenKind::Identifier
            };
            tokens.push(Token { text, kind });
            proof {
                let s = input@;
                let tm = TokenModel { text: s.subrange(i as int, j as int), kind };
                assert(token_models(tokens@) =~= done.push(tm));
                assert(run_end(s, i as int, number_run_len(s, i + 1)) == j || !number);
                assert(run_end(s, i as int, ident_run_len(s, i + 1)) == j || number);
                if let Ok(rest) = spec_tokenize_from(s, j as int) {
                    assert(done + (seq![tm] + rest) =~= done.push(tm) + rest);
                }
            }
            i = j;
        } else if c == '+' || c == '-' || c == '*' || c == '/' || c == '^' || c == '(' || c == ')' {
            let kind = if c == '(' {
                TokenKind::LeftParen
            } else if c == ')' {
                TokenKind::RightParen
            } else {
                TokenKind::Operator
            };
            let text = input.substring_char(i, i + 1).to_owned();
            tokens.push(Token { text, kind });
            proof {
                let s = input@;
                let tm = TokenModel { text: s.subrange(i as int, i + 1), kind };
                assert(token_models(tokens@) =~= done.push(tm));
                if let Ok(rest) = spec_tokenize_from(s, i + 1) {
                    assert(done + (seq![tm] + rest) =~= done.push(tm) + rest);
                }
            }
            i = i + 1;
        } else if whitespace_char(c) {
            i = i + 1;
        } else {
            return Err(LexError::UnexpectedSymbol { symbol: c });
        }
    }
    proof {
        assert(token_models(tokens@) + Seq::<TokenModel>::empty() =~= token_models(tokens@));
    }
    Ok(tokens)
}

} // verus!
