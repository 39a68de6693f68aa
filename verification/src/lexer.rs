//! The tokenizer: turns source text into a positioned token sequence.
//!
//! Lines and columns are 1-based; a column counts from the character after
//! the previous newline.  A backslash is not emitted on its own: the token
//! lexed after it is reclassified as `Escaped`.

use vstd::prelude::*;
use vstd::slice::{slice_subrange, slice_to_vec};

verus! {

/// The kind of one token.
#[derive(Clone, Copy, Debug, PartialEq, Eq, Structural)]
pub enum LexerTokenType {
    Identifier,
    Integer,
    Label,
    FloatingPoint,
    CompilerInstruction,
    Newline,
    String,
    Character,
    Comment,
    LParen,
    RParen,
    LBracket,
    RBracket,
    Escaped,
    Comma,
    Plus,
    Minus,
    Multiply,
    Divide,
    PreprocessInstruction,
    EnterInclude,
    ExitInclude,
}

/// The mathematical image of one token.
pub ghost struct TokenView {
    pub kind: LexerTokenType,
    pub slice: Seq<char>,
    pub line: nat,
    pub column: nat,
}

/// One token: its kind, the original lexeme, and its source position.
#[derive(Debug)]
pub struct LexerToken {
    pub kind: LexerTokenType,
    pub slice: Vec<char>,
    pub line: usize,
    pub column: usize,
}

impl Clone for LexerToken {
    /// A copy of the token, equal to it in every field.
    fn clone(&self) -> (r: Self)
        ensures
            r@ == self@,
    {
        LexerToken {
            kind: self.kind,
            slice: crate::text::clone_chars(&self.slice),
            line: self.line,
            column: self.column,
        }
    }
}

impl View for LexerToken {
    type V = TokenView;

    open spec fn view(&self) -> TokenView {
        TokenView {
            kind: self.kind,
            slice: self.slice@,
            line: self.line as nat,
            column: self.column as nat,
        }
    }
}

impl DeepView for LexerToken {
    type V = TokenView;

    open spec fn deep_view(&self) -> TokenView {
        self.view()
    }
}

/// A failure while lexing: either an unrecognizable character or running
/// out of input, each with the position where it happened.
#[derive(Clone, Copy, Debug, PartialEq, Eq, Structural)]
pub enum LexerError {
    Lexer { line: usize, column: usize },
    EOF { line: usize, column: usize },
}

pub type LexerResult<T> = Result<T, LexerError>;

impl LexerToken {
    /// Checks that this token has the given kind; reports a lexer error at
    /// the token's own position otherwise.
    pub fn expect(&self, token_type: LexerTokenType) -> (r: LexerResult<()>)
        ensures
            r is Ok <==> self.kind == token_type,
            r is Err ==> r->Err_0 == (LexerError::Lexer { line: self.line, column: self.column }),
    {
        if self.kind != token_type {
            return Err(LexerError::Lexer { line: self.line, column: self.column });
        }
        Ok(())
    }
}

// ---------------------------------------------------------------------------
// Character classes of the lexical grammar.

pub open spec fn is_skip_ws(c: char) -> bool {
    c == ' ' || c == '\t' || c == '\r' || c == '\u{c}'
}

pub open spec fn is_digit(c: char) -> bool {
    '0' <= c && c <= '9'
}

pub open spec fn is_ident_start(c: char) -> bool {
    c == '@' || c == '_' || ('a' <= c && c <= 'z') || ('A' <= c && c <= 'Z')
}

pub open spec fn is_ident_char(c: char) -> bool {
    is_ident_start(c) || is_digit(c)
}

pub open spec fn is_word_char(c: char) -> bool {
    c == '_' || ('a' <= c && c <= 'z') || ('A' <= c && c <= 'Z') || is_digit(c)
}

pub open spec fn is_hex_digit(c: char) -> bool {
    is_digit(c) || ('a' <= c && c <= 'f') || ('A' <= c && c <= 'F')
}

pub open spec fn is_bin_digit(c: char) -> bool {
    c == '0' || c == '1'
}

fn skip_ws_char(c: char) -> (r: bool)
    ensures
        r == is_skip_ws(c),
{
    c == ' ' || c == '\t' || c == '\r' || c == '\u{c}'
}

fn digit_char(c: char) -> (r: bool)
    ensures
        r == is_digit(c),
{
    '0' <= c && c <= '9'
}

fn ident_start_char(c: char) -> (r: bool)
    ensures
        r == is_ident_start(c),
{
    c == '@' || c == '_' || ('a' <= c && c <= 'z') || ('A' <= c && c <= 'Z')
}

fn ident_char(c: char) -> (r: bool)
    ensures
        r == is_ident_char(c),
{
    ident_start_char(c) || digit_char(c)
}

fn word_char(c: char) -> (r: bool)
    ensures
        r == is_word_char(c),
{
    c == '_' || ('a' <= c && c <= 'z') || ('A' <= c && c <= 'Z') || digit_char(c)
}

fn hex_digit_char(c: char) -> (r: bool)
    ensures
        r == is_hex_digit(c),
{
    digit_char(c) || ('a' <= c && c <= 'f') || ('A' <= c && c <= 'F')
}

fn bin_digit_char(c: char) -> (r: bool)
    ensures
        r == is_bin_digit(c),
{
    c == '0' || c == '1'
}

// ---------------------------------------------------------------------------
// Maximal munch: the end of a run of characters of one class.

pub open spec fn ident_pred() -> spec_fn(char) -> bool {
    |c: char| is_ident_char(c)
}

pub open spec fn word_pred() -> spec_fn(char) -> bool {
    |c: char| is_word_char(c)
}

pub open spec fn digit_pred() -> spec_fn(char) -> bool {
    |c: char| is_digit(c)
}

pub open spec fn hex_pred() -> spec_fn(char) -> bool {
    |c: char| is_hex_digit(c)
}

pub open spec fn bin_pred() -> spec_fn(char) -> bool {
    |c: char| is_bin_digit(c)
}

pub open spec fn not_newline_pred() -> spec_fn(char) -> bool {
    |c: char| c != '\n'
}

pub open spec fn not_quote_pred() -> spec_fn(char) -> bool {
    |c: char| c != '"'
}

/// The first position at or after `i` whose character fails `p` (or the end
/// of the input).
pub open spec fn spec_while_end(s: Seq<char>, i: nat, p: spec_fn(char) -> bool) -> nat
    decreases s.len() - i,
    when i <= s.len()
{
    if i >= s.len() {
        i
    } else if p(s[i as int]) {
        spec_while_end(s, i + 1, p)
    } else {
        i
    }
}

pub proof fn lemma_while_end(s: Seq<char>, i: nat, p: spec_fn(char) -> bool)
    requires
        i <= s.len(),
    ensures
        i <= spec_while_end(s, i, p) <= s.len(),
        forall|k: int| i <= k < spec_while_end(s, i, p) ==> p(s[k]),
        spec_while_end(s, i, p) < s.len() ==> !p(s[spec_while_end(s, i, p) as int]),
    decreases s.len() - i,
{
    if i < s.len() && p(s[i as int]) {
        lemma_while_end(s, i + 1, p);
    }
}

fn scan_ident(s: &[char], i: usize) -> (j: usize)
    requires
        i <= s@.len(),
    ensures
        j == spec_while_end(s@, i as nat, ident_pred()),
    decreases s@.len() - i,
{
    if i < s.len() && ident_char(s[i]) {
        scan_ident(s, i + 1)
    } else {
        i
    }
}

fn scan_word(s: &[char], i: usize) -> (j: usize)
    requires
        i <= s@.len(),
    ensures
        j == spec_while_end(s@, i as nat, word_pred()),
    decreases s@.len() - i,
{
    if i < s.len() && word_char(s[i]) {
        scan_word(s, i + 1)
    } else {
        i
    }
}

fn scan_digits(s: &[char], i: usize) -> (j: usize)
    requires
        i <= s@.len(),
    ensures
        j == spec_while_end(s@, i as nat, digit_pred()),
    decreases s@.len() - i,
{
    if i < s.len() && digit_char(s[i]) {
        scan_digits(s, i + 1)
    } else {
        i
    }
}

fn scan_hex(s: &[char], i: usize) -> (j: usize)
    requires
        i <= s@.len(),
    ensures
        j == spec_while_end(s@, i as nat, hex_pred()),
    decreases s@.len() - i,
{
    if i < s.len() && hex_digit_char(s[i]) {
        scan_hex(s, i + 1)
    } else {
        i
    }
}

fn scan_bin(s: &[char], i: usize) -> (j: usize)
    requires
        i <= s@.len(),
    ensures
        j == spec_while_end(s@, i as nat, bin_pred()),
    decreases s@.len() - i,
{
    if i < s.len() && bin_digit_char(s[i]) {
        scan_bin(s, i + 1)
    } else {
        i
    }
}

fn scan_not_newline(s: &[char], i: usize) -> (j: usize)
    requires
        i <= s@.len(),
    ensures
        j == spec_while_end(s@, i as nat, not_newline_pred()),
    decreases s@.len() - i,
{
    if i < s.len() && s[i] != '\n' {
        scan_not_newline(s, i + 1)
    } else {
        i
    }
}

fn scan_not_quote(s: &[char], i: usize) -> (j: usize)
    requires
        i <= s@.len(),
    ensures
        j == spec_while_end(s@, i as nat, not_quote_pred()),
    decreases s@.len() - i,
{
    if i < s.len() && s[i] != '"' {
        scan_not_quote(s, i + 1)
    } else {
        i
    }
}

// ---------------------------------------------------------------------------
// One raw token.

/// What the scanner sees next: an ordinary token, or the backslash that
/// reclassifies its successor.
#[derive(Clone, Copy, Debug, PartialEq, Eq, Structural)]
pub enum RawToken {
    Kind(LexerTokenType),
    Backslash,
}

/// The raw token starting at position `i` (which must hold a character that
/// is neither skippable whitespace nor past the end): its classification and
/// its end position, or `None` when no rule matches.  Matches are maximal:
/// a dot followed by word characters is a compiler instruction unless the
/// whole run is digits, which makes it a float.
pub open spec fn spec_raw(s: Seq<char>, i: nat) -> Option<(RawToken, nat)>
    recommends
        i < s.len(),
{
    let c = s[i as int];
    if c == '\n' {
        Some((RawToken::Kind(LexerTokenType::Newline), (i + 1) as nat))
    } else if c == '(' {
        Some((RawToken::Kind(LexerTokenType::LParen), (i + 1) as nat))
    } else if c == ')' {
        Some((RawToken::Kind(LexerTokenType::RParen), (i + 1) as nat))
    } else if c == '{' {
        Some((RawToken::Kind(LexerTokenType::LBracket), (i + 1) as nat))
    } else if c == '}' {
        Some((RawToken::Kind(LexerTokenType::RBracket), (i + 1) as nat))
    } else if c == ',' {
        Some((RawToken::Kind(LexerTokenType::Comma), (i + 1) as nat))
    } else if c == '+' {
        Some((RawToken::Kind(LexerTokenType::Plus), (i + 1) as nat))
    } else if c == '-' {
        Some((RawToken::Kind(LexerTokenType::Minus), (i + 1) as nat))
    } else if c == '*' {
        Some((RawToken::Kind(LexerTokenType::Multiply), (i + 1) as nat))
    } else if c == '/' {
        Some((RawToken::Kind(LexerTokenType::Divide), (i + 1) as nat))
    } else if c == '\\' {
        Some((RawToken::Backslash, (i + 1) as nat))
    } else if c == ';' || c == '#' {
        Some((RawToken::Kind(LexerTokenType::Comment), spec_while_end(s, i, not_newline_pred())))
    } else if c == '"' {
        let j = spec_while_end(s, i + 1, not_quote_pred());
        if j < s.len() {
            Some((RawToken::Kind(LexerTokenType::String), (j + 1) as nat))
        } else {
            None
        }
    } else if c == '\'' {
        if i + 2 < s.len() && s[i + 1 as int] != '\n' && s[i + 2 as int] == '\'' {
            Some((RawToken::Kind(LexerTokenType::Character), (i + 3) as nat))
        } else {
            None
        }
    } else if c == '.' {
        if i + 1 < s.len() && is_word_char(s[i + 1 as int]) {
            let we = spec_while_end(s, i + 1, word_pred());
            if is_digit(s[i + 1 as int]) && spec_while_end(s, i + 1, digit_pred()) == we {
                Some((RawToken::Kind(LexerTokenType::FloatingPoint), we))
            } else {
                Some((RawToken::Kind(LexerTokenType::CompilerInstruction), we))
            }
        } else {
            None
        }
    } else if c == '%' {
        if i + 1 < s.len() && is_word_char(s[i + 1 as int]) {
            Some((RawToken::Kind(LexerTokenType::PreprocessInstruction), spec_while_end(s, i + 1, word_pred())))
        } else {
            None
        }
    } else if is_digit(c) {
        let j = spec_while_end(s, i, digit_pred());
        if j < s.len() && s[j as int] == '.' {
            Some((RawToken::Kind(LexerTokenType::FloatingPoint), spec_while_end(s, j + 1, digit_pred())))
        } else if c == '0' && i + 2 < s.len() && s[i + 1 as int] == 'x' && is_hex_digit(s[i + 2 as int]) {
            Some((RawToken::Kind(LexerTokenType::Integer), spec_while_end(s, i + 2, hex_pred())))
        } else if c == '0' && i + 2 < s.len() && s[i + 1 as int] == 'b' && is_bin_digit(s[i + 2 as int]) {
            Some((RawToken::Kind(LexerTokenType::Integer), spec_while_end(s, i + 2, bin_pred())))
        } else if c == '0' && i + 2 < s.len() && s[i + 1 as int] == 'd' && is_digit(s[i + 2 as int]) {
            Some((RawToken::Kind(LexerTokenType::Integer), spec_while_end(s, i + 2, digit_pred())))
        } else {
            Some((RawToken::Kind(LexerTokenType::Integer), j))
        }
    } else if is_ident_start(c) {
        let j = spec_while_end(s, i, ident_pred());
        if j < s.len() && s[j as int] == ':' {
            Some((RawToken::Kind(LexerTokenType::Label), (j + 1) as nat))
        } else {
            Some((RawToken::Kind(LexerTokenType::Identifier), j))
        }
    } else {
        None
    }
}

/// A recognized raw token always makes progress and stays inside the input.
pub proof fn lemma_raw_bounds(s: Seq<char>, i: nat)
    requires
        i < s.len(),
        spec_raw(s, i) is Some,
    ensures
        i < spec_raw(s, i)->Some_0.1 <= s.len(),
{
    let c = s[i as int];
    lemma_while_end(s, i, not_newline_pred());
    lemma_while_end(s, i + 1, not_quote_pred());
    lemma_while_end(s, i + 1, digit_pred());
    lemma_while_end(s, i + 1, word_pred());
    lemma_while_end(s, i, digit_pred());
    if is_digit(c) {
        let j = spec_while_end(s, i, digit_pred());
        if j < s.len() {
            lemma_while_end(s, j + 1, digit_pred());
        }
        if i + 2 < s.len() {
            lemma_while_end(s, i + 2, hex_pred());
            lemma_while_end(s, i + 2, bin_pred());
            lemma_while_end(s, i + 2, digit_pred());
        }
    }
    lemma_while_end(s, i, ident_pred());
}

/// Scans the raw token starting at `i`.
fn raw_token(s: &[char], i: usize) -> (r: Option<(RawToken, usize)>)
    requires
        i < s@.len(),
        s@.len() + 3 <= usize::MAX,
    ensures
        match spec_raw(s@, i as nat) {
            Some((k, end)) => r is Some && r->Some_0.0 == k && r->Some_0.1 == end
                && i < end <= s@.len(),
            None => r is None,
        },
{
    proof {
        if spec_raw(s@, i as nat) is Some {
            lemma_raw_bounds(s@, i as nat);
        }
    }
    let c = s[i];
    if c == '\n' {
        Some((RawToken::Kind(LexerTokenType::Newline), i + 1))
    } else if c == '(' {
        Some((RawToken::Kind(LexerTokenType::LParen), i + 1))
    } else if c == ')' {
        Some((RawToken::Kind(LexerTokenType::RParen), i + 1))
    } else if c == '{' {
        Some((RawToken::Kind(LexerTokenType::LBracket), i + 1))
    } else if c == '}' {
        Some((RawToken::Kind(LexerTokenType::RBracket), i + 1))
    } else if c == ',' {
        Some((RawToken::Kind(LexerTokenType::Comma), i + 1))
    } else if c == '+' {
        Some((RawToken::Kind(LexerTokenType::Plus), i + 1))
    } else if c == '-' {
        Some((RawToken::Kind(LexerTokenType::Minus), i + 1))
    } else if c == '*' {
        Some((RawToken::Kind(LexerTokenType::Multiply), i + 1))
    } else if c == '/' {
        Some((RawToken::Kind(LexerTokenType::Divide), i + 1))
    } else if c == '\\' {
        Some((RawToken::Backslash, i + 1))
    } else if c == ';' || c == '#' {
        Some((RawToken::Kind(LexerTokenType::Comment), scan_not_newline(s, i)))
    } else if c == '"' {
        let j = scan_not_quote(s, i + 1);
        if j < s.len() {
            Some((RawToken::Kind(LexerTokenType::String), j + 1))
        } else {
            None
        }
    } else if c == '\'' {
        if i + 2 < s.len() && s[i + 1] != '\n' && s[i + 2] == '\'' {
            Some((RawToken::Kind(LexerTokenType::Character), i + 3))
        } else {
            None
        }
    } else if c == '.' {
        if i + 1 < s.len() && word_char(s[i + 1]) {
            let we = scan_word(s, i + 1);
            if digit_char(s[i + 1]) && scan_digits(s, i + 1) == we {
                Some((RawToken::Kind(LexerTokenType::FloatingPoint), we))
            } else {
                Some((RawToken::Kind(LexerTokenType::CompilerInstruction), we))
            }
        } else {
            None
        }
    } else if c == '%' {
        if i + 1 < s.len() && word_char(s[i + 1]) {
            Some((RawToken::Kind(LexerTokenType::PreprocessInstruction), scan_word(s, i + 1)))
        } else {
            None
        }
    } else if digit_char(c) {
        let j = scan_digits(s, i);
        if j < s.len() && s[j] == '.' {
            Some((RawToken::Kind(LexerTokenType::FloatingPoint), scan_digits(s, j + 1)))
        } else if c == '0' && i + 2 < s.len() && s[i + 1] == 'x' && hex_digit_char(s[i + 2]) {
            Some((RawToken::Kind(LexerTokenType::Integer), scan_hex(s, i + 2)))
        } else if c == '0' && i + 2 < s.len() && s[i + 1] == 'b' && bin_digit_char(s[i + 2]) {
            Some((RawToken::Kind(LexerTokenType::Integer), scan_bin(s, i + 2)))
        } else if c == '0' && i + 2 < s.len() && s[i + 1] == 'd' && digit_char(s[i + 2]) {
            Some((RawToken::Kind(LexerTokenType::Integer), scan_digits(s, i + 2)))
        } else {
            Some((RawToken::Kind(LexerTokenType::Integer), j))
        }
    } else if ident_start_char(c) {
        let j = scan_ident(s, i);
        if j < s.len() && s[j] == ':' {
            Some((RawToken::Kind(LexerTokenType::Label), j + 1))
        } else {
            Some((RawToken::Kind(LexerTokenType::Identifier), j))
        }
    } else {
        None
    }
}

// ---------------------------------------------------------------------------
// The whole token stream.

/// The token stream from position `i` onwards, with `line` the current
/// 1-based line, `lstart` the position where that line begins, and
/// `escaping` set when a backslash reclassifies the next token.
pub open spec fn spec_lex(
    s: Seq<char>,
    i: nat,
    line: nat,
    lstart: nat,
    escaping: bool,
) -> Result<Seq<TokenView>, (nat, nat)>
    decreases s.len() - i,
    when i <= s.len()
    via spec_lex_decreases
{
    if i >= s.len() {
        Ok(Seq::empty())
    } else if is_skip_ws(s[i as int]) {
        spec_lex(s, i + 1, line, lstart, escaping)
    } else {
        match spec_raw(s, i) {
            None => Err((line, (i - lstart + 1) as nat)),
            Some((raw, end)) => {
                let column = (i - lstart + 1) as nat;
                let newline = raw == RawToken::Kind(LexerTokenType::Newline);
                let line2 = if newline { line + 1 } else { line };
                let lstart2 = if newline { end } else { lstart };
                let emitted = if escaping {
                    Some(TokenView { kind: LexerTokenType::Escaped, slice: s.subrange(i as int, end as int), line, column })
                } else if raw == RawToken::Backslash {
                    None
                } else {
                    Some(TokenView { kind: raw->Kind_0, slice: s.subrange(i as int, end as int), line, column })
                };
                let escaping2 = !escaping && raw == RawToken::Backslash;
                match spec_lex(s, end, line2, lstart2, escaping2) {
                    Err(e) => Err(e),
                    Ok(rest) => match emitted {
                        Some(t) => Ok(seq![t] + rest),
                        None => Ok(rest),
                    },
                }
            },
        }
    }
}

#[via_fn]
proof fn spec_lex_decreases(s: Seq<char>, i: nat, line: nat, lstart: nat, escaping: bool) {
    if i < s.len() && !is_skip_ws(s[i as int]) && spec_raw(s, i) is Some {
        lemma_raw_bounds(s, i);
    }
}

/// The token stream of a whole input.
pub open spec fn spec_tokenize(s: Seq<char>) -> Result<Seq<TokenView>, (nat, nat)> {
    spec_lex(s, 0, 1, 0, false)
}

/// No more tokens come out of an input than it has characters.
pub proof fn lemma_lex_len(s: Seq<char>, i: nat, line: nat, lstart: nat, escaping: bool)
    requires
        i <= s.len(),
        spec_lex(s, i, line, lstart, escaping) is Ok,
    ensures
        spec_lex(s, i, line, lstart, escaping)->Ok_0.len() <= s.len() - i,
    decreases s.len() - i,
{
    if i >= s.len() {
    } else if is_skip_ws(s[i as int]) {
        lemma_lex_len(s, i + 1, line, lstart, escaping);
    } else {
        match spec_raw(s, i) {
            None => {},
            Some((raw, end)) => {
                lemma_raw_bounds(s, i);
                let newline = raw == RawToken::Kind(LexerTokenType::Newline);
                let line2 = if newline { line + 1 } else { line };
                let lstart2 = if newline { end } else { lstart };
                let escaping2 = !escaping && raw == RawToken::Backslash;
                if spec_lex(s, end, line2, lstart2, escaping2) is Ok {
                    lemma_lex_len(s, end, line2, lstart2, escaping2);
                }
            },
        }
    }
}

/// Lexes a whole input into tokens.
///
/// Returns exactly the token stream that the lexical grammar assigns to the
/// input, or the position of the first unrecognizable character.
pub fn tokenize(code: &[char]) -> (r: LexerResult<Vec<LexerToken>>)
    requires
        code@.len() + 3 <= usize::MAX,
    ensures
        match spec_tokenize(code@) {
            Ok(ts) => r is Ok && r->Ok_0.deep_view() == ts,
            Err(e) => r is Err
                && (r->Err_0 matches LexerError::Lexer { line, column } && line == e.0
                && column == e.1),
        },
{
    let n = code.len();
    let mut tokens: Vec<LexerToken> = Vec::new();
    let mut i: usize = 0;
    let mut line: usize = 1;
    let mut lstart: usize = 0;
    let mut escaping: bool = false;
    while i < n
        invariant
            n == code@.len(),
            n + 3 <= usize::MAX,
            i <= n,
            lstart <= i,
            line <= i + 1,
            spec_tokenize(code@) == (match spec_lex(code@, i as nat, line as nat, lstart as nat, escaping) {
                Ok(rest) => Ok::<Seq<TokenView>, (nat, nat)>(tokens.deep_view() + rest),
                Err(e) => Err::<Seq<TokenView>, (nat, nat)>(e),
            }),
        decreases n - i,
    {
        let ghost pre = tokens.deep_view();
        let ghost i0 = i as nat;
        let ghost line0 = line as nat;
        let ghost lstart0 = lstart as nat;
        let ghost esc0 = escaping;
        if skip_ws_char(code[i]) {
            i = i + 1;
            continue;
        }
        match raw_token(code, i) {
            None => {
                return Err(LexerError::Lexer { line, column: i - lstart + 1 });
            },
            Some((raw, end)) => {
                let column = i - lstart + 1;
                let newline = raw == RawToken::Kind(LexerTokenType::Newline);
                let ghost mut emitted: Option<TokenView> = None;
                if escaping {
                    let slice = slice_to_vec(slice_subrange(code, i, end));
                    let t = LexerToken { kind: LexerTokenType::Escaped, slice, line, column };
                    proof {
                        emitted = Some(t@);
                    }
                    tokens.push(t);
                    escaping = false;
                } else if raw == RawToken::Backslash {
                    escaping = true;
                } else {
                    let kind = match raw {
                        RawToken::Kind(k) => k,
                        RawToken::Backslash => LexerTokenType::Escaped,
                    };
                    let slice = slice_to_vec(slice_subrange(code, i, end));
                    let t = LexerToken { kind, slice, line, column };
                    proof {
                        emitted = Some(t@);
                    }
                    tokens.push(t);
                }
                if newline {
                    line = line + 1;
                    lstart = end;
                }
                i = end;
                proof {
                    let s = code@;
                    match spec_lex(s, i as nat, line as nat, lstart as nat, escaping) {
                        Ok(rest) => {
                            match emitted {
                                Some(t) => {
                                    assert(pre + (seq![t] + rest) =~= tokens.deep_view() + rest);
                                },
                                None => {
                                    assert(pre + rest =~= tokens.deep_view() + rest);
                                },
                            }
                        },
                        Err(e) => {},
                    }
                }
            },
        }
    }
    proof {
        assert(tokens.deep_view() + Seq::<TokenView>::empty() =~= tokens.deep_view());
    }
    Ok(tokens)
}

} // verus!
