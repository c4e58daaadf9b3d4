//! Lexical scanner: turns source text into tokens with 1-based line and column.
//!
//! Rules chosen for this language:
//! - whitespace is every character with the Unicode `White_Space` property;
//!   only a newline starts a new line; there are no comments;
//! - identifiers are ASCII letters, digits and `_`, not starting with a digit;
//! - a numeric literal is a run of digits, continued as a float by a dot only
//!   when a digit follows the dot; a second such fractional part makes it
//!   malformed (an `Unknown` token over all further digits and dots);
//! - a string literal runs to the next unescaped `"`, and its lexeme is its
//!   source text, quotes included; `decode_string` gives its contents, with
//!   `\n`, `\t`, `\\` and `\"` decoded and any other escaped character
//!   standing for itself; an unterminated string is an `Unknown` token;
//! - only the `EOF` token has an empty lexeme.

use vstd::prelude::*;
use vstd::string::*;

verus! {

#[derive(Clone, Copy, Debug, PartialEq, Eq, Structural)]
pub enum TokenType {
    Let,
    Const,
    Fn,
    Return,
    If,
    Else,
    While,
    For,
    In,
    Break,
    Continue,
    Struct,
    Enum,
    Trait,
    Impl,
    Quantum,
    Distributed,
    AI,
    Identifier,
    IntLiteral,
    FloatLiteral,
    StringLiteral,
    BoolLiteral,
    Plus,
    Minus,
    Multiply,
    Divide,
    Modulo,
    Assign,
    Equal,
    NotEqual,
    LessThan,
    GreaterThan,
    LessThanEqual,
    GreaterThanEqual,
    And,
    Or,
    Not,
    LeftParen,
    RightParen,
    LeftBrace,
    RightBrace,
    LeftBracket,
    RightBracket,
    Semicolon,
    Colon,
    Comma,
    Dot,
    Arrow,
    EOF,
    Unknown,
}

#[derive(Clone, Debug, PartialEq)]
pub struct Token {
    pub token_type: TokenType,
    pub lexeme: String,
    pub line: usize,
    pub column: usize,
}

/// A token as a mathematical value: kind, text, line and column.
pub type TokenModel = (TokenType, Seq<char>, int, int);

impl View for Token {
    type V = TokenModel;

    open spec fn view(&self) -> TokenModel {
        (self.token_type, self.lexeme@, self.line as int, self.column as int)
    }
}

/// A well-formed lexer scans a position within its source.
pub proof fn lemma_offset_in_source(lexer: &Lexer)
    requires
        lexer.wf(),
    ensures
        0 <= lexer.offset() <= lexer.source().len(),
        lexer.source().len() < usize::MAX,
{
}

/// The mathematical values of a sequence of tokens.
pub open spec fn token_models(ts: Seq<Token>) -> Seq<TokenModel> {
    ts.map_values(|t: Token| t@)
}

/// White space: the characters with the Unicode `White_Space` property.
pub open spec fn is_ws(c: char) -> bool {
    ('\u{9}' <= c && c <= '\u{d}') || c == ' ' || c == '\u{85}' || c == '\u{a0}' || c
        == '\u{1680}' || ('\u{2000}' <= c && c <= '\u{200a}') || c == '\u{2028}' || c
        == '\u{2029}' || c == '\u{202f}' || c == '\u{205f}' || c == '\u{3000}'
}

pub open spec fn is_letter(c: char) -> bool {
    ('a' <= c && c <= 'z') || ('A' <= c && c <= 'Z') || c == '_'
}

pub open spec fn is_digit(c: char) -> bool {
    '0' <= c && c <= '9'
}

pub open spec fn is_ident_char(c: char) -> bool {
    is_letter(c) || is_digit(c)
}

pub open spec fn is_number_char(c: char) -> bool {
    is_digit(c) || c == '.'
}

/// Line (1-based) of the character at index `i`.
pub open spec fn line_of(s: Seq<char>, i: int) -> int
    decreases i,
{
    if i <= 0 {
        1
    } else if s[i - 1] == '\n' {
        line_of(s, i - 1) + 1
    } else {
        line_of(s, i - 1)
    }
}

/// Column (1-based) of the character at index `i`.
pub open spec fn col_of(s: Seq<char>, i: int) -> int
    decreases i,
{
    if i <= 0 {
        1
    } else if s[i - 1] == '\n' {
        1
    } else {
        col_of(s, i - 1) + 1
    }
}

/// First index at or after `p` that holds no whitespace.
pub open spec fn skip_ws(s: Seq<char>, p: int) -> int
    decreases s.len() - p,
{
    if 0 <= p < s.len() && is_ws(s[p]) {
        skip_ws(s, p + 1)
    } else {
        p
    }
}

/// End of the run of identifier characters that starts at `p`.
pub open spec fn ident_end(s: Seq<char>, p: int) -> int
    decreases s.len() - p,
{
    if 0 <= p < s.len() && is_ident_char(s[p]) {
        ident_end(s, p + 1)
    } else {
        p
    }
}

/// End of the run of digits that starts at `p`.
pub open spec fn digits_end(s: Seq<char>, p: int) -> int
    decreases s.len() - p,
{
    if 0 <= p < s.len() && is_digit(s[p]) {
        digits_end(s, p + 1)
    } else {
        p
    }
}

/// A dot at `a` followed by a digit: a fractional part starts there.
pub open spec fn has_fraction_at(s: Seq<char>, a: int) -> bool {
    0 <= a && a + 1 < s.len() && s[a] == '.' && is_digit(s[a + 1])
}

/// End of the numeric literal that starts at the digit at `q`: its digits, and
/// a dot with the digits after it when a digit follows the dot. A second
/// such fractional part makes the literal malformed, and it then runs over
/// all further digits and dots.
pub open spec fn number_end(s: Seq<char>, q: int) -> int {
    let a = digits_end(s, q);
    if has_fraction_at(s, a) {
        let b = digits_end(s, a + 1);
        if has_fraction_at(s, b) {
            number_run_end(s, b)
        } else {
            b
        }
    } else {
        a
    }
}

/// Kind of the numeric literal that starts at the digit at `q`.
pub open spec fn number_kind(s: Seq<char>, q: int) -> TokenType {
    let a = digits_end(s, q);
    if has_fraction_at(s, a) {
        if has_fraction_at(s, digits_end(s, a + 1)) {
            TokenType::Unknown
        } else {
            TokenType::FloatLiteral
        }
    } else {
        TokenType::IntLiteral
    }
}

/// End of the run of digits and dots that starts at `p`.
pub open spec fn number_run_end(s: Seq<char>, p: int) -> int
    decreases s.len() - p,
{
    if 0 <= p < s.len() && is_number_char(s[p]) {
        number_run_end(s, p + 1)
    } else {
        p
    }
}

/// Index of the quote that closes a string whose contents start at `i`,
/// or the length of `s` when there is none.
pub open spec fn str_end(s: Seq<char>, i: int) -> int
    decreases s.len() - i,
{
    if i < 0 || i >= s.len() {
        s.len() as int
    } else if s[i] == '"' {
        i
    } else if s[i] == '\\' && i + 1 < s.len() {
        str_end(s, i + 2)
    } else {
        str_end(s, i + 1)
    }
}

/// The character that the escape `\c` stands for.
pub open spec fn unescape(c: char) -> char {
    if c == 'n' {
        '\n'
    } else if c == 't' {
        '\t'
    } else {
        c
    }
}

/// Decoded contents of a string literal whose contents start at `i`.
pub open spec fn str_content(s: Seq<char>, i: int) -> Seq<char>
    decreases s.len() - i,
{
    if i < 0 || i >= s.len() || s[i] == '"' {
        Seq::empty()
    } else if s[i] == '\\' && i + 1 < s.len() {
        seq![unescape(s[i + 1])] + str_content(s, i + 2)
    } else {
        seq![s[i]] + str_content(s, i + 1)
    }
}

/// Kind of an identifier run: a keyword, a boolean literal or an identifier.
pub open spec fn keyword_kind(w: Seq<char>) -> TokenType {
    if w == "let"@ {
        TokenType::Let
    } else if w == "const"@ {
        TokenType::Const
    } else if w == "fn"@ {
        TokenType::Fn
    } else if w == "return"@ {
        TokenType::Return
    } else if w == "if"@ {
        TokenType::If
    } else if w == "else"@ {
        TokenType::Else
    } else if w == "while"@ {
        TokenType::While
    } else if w == "for"@ {
        TokenType::For
    } else if w == "in"@ {
        TokenType::In
    } else if w == "break"@ {
        TokenType::Break
    } else if w == "continue"@ {
        TokenType::Continue
    } else if w == "struct"@ {
        TokenType::Struct
    } else if w == "enum"@ {
        TokenType::Enum
    } else if w == "trait"@ {
        TokenType::Trait
    } else if w == "impl"@ {
        TokenType::Impl
    } else if w == "quantum"@ {
        TokenType::Quantum
    } else if w == "distributed"@ {
        TokenType::Distributed
    } else if w == "ai"@ {
        TokenType::AI
    } else if w == "true"@ || w == "false"@ {
        TokenType::BoolLiteral
    } else {
        TokenType::Identifier
    }
}

/// Kind of a two-character operator, if `a` and `b` form one.
pub open spec fn two_char_kind(a: char, b: char) -> Option<TokenType> {
    if a == '=' && b == '=' {
        Some(TokenType::Equal)
    } else if a == '!' && b == '=' {
        Some(TokenType::NotEqual)
    } else if a == '<' && b == '=' {
        Some(TokenType::LessThanEqual)
    } else if a == '>' && b == '=' {
        Some(TokenType::GreaterThanEqual)
    } else if a == '&' && b == '&' {
        Some(TokenType::And)
    } else if a == '|' && b == '|' {
        Some(TokenType::Or)
    } else if a == '-' && b == '>' {
        Some(TokenType::Arrow)
    } else {
        None
    }
}

/// Kind of a one-character operator or delimiter; `Unknown` for any other character.
pub open spec fn one_char_kind(c: char) -> TokenType {
    if c == '+' {
        TokenType::Plus
    } else if c == '-' {
        TokenType::Minus
    } else if c == '*' {
        TokenType::Multiply
    } else if c == '/' {
        TokenType::Divide
    } else if c == '%' {
        TokenType::Modulo
    } else if c == '=' {
        TokenType::Assign
    } else if c == '<' {
        TokenType::LessThan
    } else if c == '>' {
        TokenType::GreaterThan
    } else if c == '!' {
        TokenType::Not
    } else if c == '(' {
        TokenType::LeftParen
    } else if c == ')' {
        TokenType::RightParen
    } else if c == '{' {
        TokenType::LeftBrace
    } else if c == '}' {
        TokenType::RightBrace
    } else if c == '[' {
        TokenType::LeftBracket
    } else if c == ']' {
        TokenType::RightBracket
    } else if c == ';' {
        TokenType::Semicolon
    } else if c == ':' {
        TokenType::Colon
    } else if c == ',' {
        TokenType::Comma
    } else if c == '.' {
        TokenType::Dot
    } else {
        TokenType::Unknown
    }
}

/// True when a two-character operator starts at `q`.
pub open spec fn is_two_char_at(s: Seq<char>, q: int) -> bool {
    q + 1 < s.len() && two_char_kind(s[q], s[q + 1]) is Some
}

/// End (exclusive) of the token that starts at `q`, a non-whitespace index.
pub open spec fn scan_end(s: Seq<char>, q: int) -> int {
    let c = s[q];
    if is_letter(c) {
        ident_end(s, q)
    } else if is_digit(c) {
        number_end(s, q)
    } else if c == '"' {
        if str_end(s, q + 1) < s.len() {
            str_end(s, q + 1) + 1
        } else {
            s.len() as int
        }
    } else if is_two_char_at(s, q) {
        q + 2
    } else {
        q + 1
    }
}

/// Kind of the token that starts at `q`.
pub open spec fn scan_kind(s: Seq<char>, q: int) -> TokenType {
    let c = s[q];
    if is_letter(c) {
        keyword_kind(s.subrange(q, ident_end(s, q)))
    } else if is_digit(c) {
        number_kind(s, q)
    } else if c == '"' {
        if str_end(s, q + 1) < s.len() {
            TokenType::StringLiteral
        } else {
            TokenType::Unknown
        }
    } else if is_two_char_at(s, q) {
        two_char_kind(s[q], s[q + 1])->Some_0
    } else {
        one_char_kind(c)
    }
}

/// Text of the token that starts at `q`: its source text, quotes included
/// for a string literal.
pub open spec fn scan_lexeme(s: Seq<char>, q: int) -> Seq<char> {
    s.subrange(q, scan_end(s, q))
}

/// The token that starts at index `q` of `s`.
pub open spec fn token_at(s: Seq<char>, q: int) -> TokenModel {
    (scan_kind(s, q), scan_lexeme(s, q), line_of(s, q), col_of(s, q))
}

/// The end-of-input token of `s`.
pub open spec fn eof_of(s: Seq<char>) -> TokenModel {
    (TokenType::EOF, Seq::empty(), line_of(s, s.len() as int), col_of(s, s.len() as int))
}


proof fn lemma_line_col_bounds(s: Seq<char>, i: int)
    requires
        0 <= i,
    ensures
        1 <= line_of(s, i) <= i + 1,
        1 <= col_of(s, i) <= i + 1,
    decreases i,
{
    if i > 0 {
        lemma_line_col_bounds(s, i - 1);
    }
}

pub proof fn lemma_skip_ws(s: Seq<char>, p: int)
    requires
        0 <= p <= s.len(),
    ensures
        p <= skip_ws(s, p) <= s.len(),
        skip_ws(s, p) < s.len() ==> !is_ws(s[skip_ws(s, p)]),
    decreases s.len() - p,
{
    if p < s.len() && is_ws(s[p]) {
        lemma_skip_ws(s, p + 1);
    }
}

pub proof fn lemma_ident_end(s: Seq<char>, p: int)
    requires
        0 <= p <= s.len(),
    ensures
        p <= ident_end(s, p) <= s.len(),
    decreases s.len() - p,
{
    if p < s.len() && is_ident_char(s[p]) {
        lemma_ident_end(s, p + 1);
    }
}

pub proof fn lemma_digits_end(s: Seq<char>, p: int)
    requires
        0 <= p <= s.len(),
    ensures
        p <= digits_end(s, p) <= s.len(),
    decreases s.len() - p,
{
    if p < s.len() && is_digit(s[p]) {
        lemma_digits_end(s, p + 1);
    }
}

pub proof fn lemma_number_run_end(s: Seq<char>, p: int)
    requires
        0 <= p <= s.len(),
    ensures
        p <= number_run_end(s, p) <= s.len(),
    decreases s.len() - p,
{
    if p < s.len() && is_number_char(s[p]) {
        lemma_number_run_end(s, p + 1);
    }
}

pub proof fn lemma_str_end(s: Seq<char>, i: int)
    requires
        0 <= i,
    ensures
        i <= str_end(s, i) <= s.len() || (i > s.len() && str_end(s, i) == s.len()),
        str_end(s, i) < s.len() ==> s[str_end(s, i)] == '"',
    decreases s.len() - i,
{
    if i < s.len() && s[i] != '"' {
        if s[i] == '\\' && i + 1 < s.len() {
            lemma_str_end(s, i + 2);
        } else {
            lemma_str_end(s, i + 1);
        }
    }
}

/// Every token that starts inside the input ends after its start and within the input.
pub proof fn lemma_scan_end(s: Seq<char>, q: int)
    requires
        0 <= q < s.len(),
    ensures
        q < scan_end(s, q) <= s.len(),
{
    lemma_ident_end(s, q + 1);
    lemma_number_run_end(s, q + 1);
    lemma_str_end(s, q + 1);
    lemma_digits_end(s, q + 1);
    let a = digits_end(s, q);
    if has_fraction_at(s, a) {
        lemma_digits_end(s, a + 1);
        let b = digits_end(s, a + 1);
        if has_fraction_at(s, b) {
            lemma_number_run_end(s, b);
        }
    }
}

/// The tokens of `s` from index `p` on, ending with the end-of-input token.
pub open spec fn lex_from(s: Seq<char>, p: int) -> Seq<TokenModel>
    decreases s.len() - p,
{
    if 0 <= p <= s.len() {
        let q = skip_ws(s, p);
        proof {
            lemma_skip_ws(s, p);
        }
        if q < s.len() {
            proof {
                lemma_scan_end(s, q);
            }
            seq![token_at(s, q)] + lex_from(s, scan_end(s, q))
        } else {
            seq![eof_of(s)]
        }
    } else {
        Seq::empty()
    }
}

/// The tokens of the whole of `s`.
pub open spec fn lex_spec(s: Seq<char>) -> Seq<TokenModel> {
    lex_from(s, 0)
}

pub struct Lexer {
    input: String,
    chars: Vec<char>,
    position: usize,
    line: usize,
    column: usize,
}

impl Lexer {
    /// The characters being scanned.
    pub closed spec fn source(&self) -> Seq<char> {
        self.chars@
    }

    /// Index of the next character to scan.
    pub closed spec fn offset(&self) -> int {
        self.position as int
    }

    /// The scanner's state agrees with its source; in particular
    /// `0 <= offset() <= source().len()`.
    pub closed spec fn wf(&self) -> bool {
        &&& self.input@ == self.chars@
        &&& self.chars.len() < usize::MAX
        &&& self.position <= self.chars.len()
        &&& self.line == line_of(self.chars@, self.position as int)
        &&& self.column == col_of(self.chars@, self.position as int)
    }

    pub fn new(input: String) -> (r: Lexer)
        requires
            input@.len() < usize::MAX,
        ensures
            r.wf(),
            r.source() == input@,
            r.offset() == 0,
            r.source().len() < usize::MAX,
    {
        let n = input.as_str().unicode_len();
        let mut chars: Vec<char> = Vec::new();
        let mut i: usize = 0;
        while i < n
            invariant
                n == input@.len(),
                i <= n,
                chars@ == input@.subrange(0, i as int),
            decreases n - i,
        {
            let c = input.as_str().get_char(i);
            chars.push(c);
            i = i + 1;
            assert(chars@ =~= input@.subrange(0, i as int));
        }
        assert(chars@ =~= input@);
        Lexer { input, chars, position: 0, line: 1, column: 1 }
    }

    /// Moves past one character, keeping line and column in step.
    fn read_char(&mut self)
        requires
            old(self).wf(),
            old(self).offset() < old(self).source().len(),
        ensures
            final(self).wf(),
            final(self).source() == old(self).source(),
            final(self).offset() == old(self).offset() + 1,
    {
        proof {
            lemma_line_col_bounds(self.chars@, self.position as int);
        }
        if self.chars[self.position] == '\n' {
            self.line = self.line + 1;
            self.column = 1;
        } else {
            self.column = self.column + 1;
        }
        self.position = self.position + 1;
    }

    fn skip_whitespace(&mut self)
        requires
            old(self).wf(),
        ensures
            final(self).wf(),
            final(self).source() == old(self).source(),
            final(self).offset() == skip_ws(old(self).source(), old(self).offset()),
    {
        let ghost s = self.source();
        let ghost begin = self.offset();
        while self.position < self.chars.len() && is_whitespace(self.chars[self.position])
            invariant
                self.wf(),
                self.source() == s,
                skip_ws(s, self.offset()) == skip_ws(s, begin),
            decreases s.len() - self.offset(),
        {
            self.read_char();
        }
    }

    /// The source text between `start` and `end`.
    fn text(&self, start: usize, end: usize) -> (r: String)
        requires
            self.wf(),
            start <= end <= self.source().len(),
        ensures
            r@ == self.source().subrange(start as int, end as int),
    {
        String::from_str(self.input.as_str().substring_char(start, end))
    }

    /// Moves past the run of identifier characters at the current position.
    fn read_identifier(&mut self)
        requires
            old(self).wf(),
        ensures
            final(self).wf(),
            final(self).source() == old(self).source(),
            final(self).offset() == ident_end(old(self).source(), old(self).offset()),
    {
        let ghost s = self.source();
        let ghost begin = self.offset();
        while self.position < self.chars.len() && is_identifier_char(self.chars[self.position])
            invariant
                self.wf(),
                self.source() == s,
                ident_end(s, self.offset()) == ident_end(s, begin),
            decreases s.len() - self.offset(),
        {
            self.read_char();
        }
    }

    fn read_digits(&mut self)
        requires
            old(self).wf(),
        ensures
            final(self).wf(),
            final(self).source() == old(self).source(),
            final(self).offset() == digits_end(old(self).source(), old(self).offset()),
    {
        let ghost s = self.source();
        let ghost begin = self.offset();
        while self.position < self.chars.len() && is_digit_char(self.chars[self.position])
            invariant
                self.wf(),
                self.source() == s,
                digits_end(s, self.offset()) == digits_end(s, begin),
            decreases s.len() - self.offset(),
        {
            self.read_char();
        }
    }

    /// Whether a fractional part (a dot and a digit) starts here.
    fn fraction_here(&self) -> (r: bool)
        requires
            self.wf(),
        ensures
            r == has_fraction_at(self.source(), self.offset()),
    {
        self.position + 1 < self.chars.len() && self.chars[self.position] == '.'
            && is_digit_char(self.chars[self.position + 1])
    }

    /// Moves past the run of digits and dots at the current position.
    fn read_number(&mut self)
        requires
            old(self).wf(),
        ensures
            final(self).wf(),
            final(self).source() == old(self).source(),
            final(self).offset() == number_run_end(old(self).source(), old(self).offset()),
    {
        let ghost s = self.source();
        let ghost begin = self.offset();
        while self.position < self.chars.len() && (is_digit_char(self.chars[self.position])
            || self.chars[self.position] == '.')
            invariant
                self.wf(),
                self.source() == s,
                number_run_end(s, self.offset()) == number_run_end(s, begin),
            decreases s.len() - self.offset(),
        {
            self.read_char();
        }
    }

    /// Whether the source text between `start` and `end` is the word `w`.
    fn matches_word(&self, start: usize, end: usize, w: &str) -> (r: bool)
        requires
            self.wf(),
            start <= end <= self.source().len(),
        ensures
            r == (self.source().subrange(start as int, end as int) == w@),
    {
        let n = w.unicode_len();
        if end - start != n {
            return false;
        }
        let mut i: usize = 0;
        while i < n
            invariant
                self.wf(),
                start <= end <= self.source().len(),
                n == w@.len(),
                end - start == n,
                i <= n,
                forall|j: int| 0 <= j < i ==> self.source()[start + j] == w@[j],
            decreases n - i,
        {
            if self.chars[start + i] != w.get_char(i) {
                assert(self.source().subrange(start as int, end as int)[i as int] != w@[i as int]);
                return false;
            }
            i = i + 1;
        }
        assert(self.source().subrange(start as int, end as int) =~= w@);
        true
    }

    fn keyword_of(&self, start: usize, end: usize) -> (r: TokenType)
        requires
            self.wf(),
            start <= end <= self.source().len(),
        ensures
            r == keyword_kind(self.source().subrange(start as int, end as int)),
    {
        if self.matches_word(start, end, "let") {
            TokenType::Let
        } else if self.matches_word(start, end, "const") {
            TokenType::Const
        } else if self.matches_word(start, end, "fn") {
            TokenType::Fn
        } else if self.matches_word(start, end, "return") {
            TokenType::Return
        } else if self.matches_word(start, end, "if") {
            TokenType::If
        } else if self.matches_word(start, end, "else") {
            TokenType::Else
        } else if self.matches_word(start, end, "while") {
            TokenType::While
        } else if self.matches_word(start, end, "for") {
            TokenType::For
        } else if self.matches_word(start, end, "in") {
            TokenType::In
        } else if self.matches_word(start, end, "break") {
            TokenType::Break
        } else if self.matches_word(start, end, "continue") {
            TokenType::Continue
        } else if self.matches_word(start, end, "struct") {
            TokenType::Struct
        } else if self.matches_word(start, end, "enum") {
            TokenType::Enum
        } else if self.matches_word(start, end, "trait") {
            TokenType::Trait
        } else if self.matches_word(start, end, "impl") {
            TokenType::Impl
        } else if self.matches_word(start, end, "quantum") {
            TokenType::Quantum
        } else if self.matches_word(start, end, "distributed") {
            TokenType::Distributed
        } else if self.matches_word(start, end, "ai") {
            TokenType::AI
        } else if self.matches_word(start, end, "true") || self.matches_word(start, end, "false") {
            TokenType::BoolLiteral
        } else {
            TokenType::Identifier
        }
    }

    /// Reads the contents of a string literal up to its closing quote (not
    /// consumed) or the end of input, decoding escapes.
    fn read_string(&mut self) -> (r: String)
        requires
            old(self).wf(),
        ensures
            final(self).wf(),
            final(self).source() == old(self).source(),
            final(self).offset() == str_end(old(self).source(), old(self).offset()),
            r@ == str_content(old(self).source(), old(self).offset()),
    {
        let ghost s = self.source();
        let ghost begin = self.offset();
        let mut buf = String::new();
        while self.position < self.chars.len() && self.chars[self.position] != '"'
            invariant
                self.wf(),
                self.source() == s,
                0 <= begin <= self.offset(),
                str_end(s, self.offset()) == str_end(s, begin),
                buf@ + str_content(s, self.offset()) == str_content(s, begin),
            decreases s.len() - self.offset(),
        {
            let p = self.position;
            let ghost b0 = buf@;
            if self.chars[p] == '\\' && p + 1 < self.chars.len() {
                let piece = self.escape_text(p + 1);
                buf.append(piece.as_str());
                self.read_char();
                self.read_char();
                assert(str_content(s, p as int) == seq![unescape(s[p + 1])] + str_content(
                    s,
                    p + 2,
                ));
                assert(buf@ + str_content(s, p + 2) =~= b0 + str_content(s, p as int));
            } else {
                let piece = self.text(p, p + 1);
                buf.append(piece.as_str());
                self.read_char();
                assert(str_content(s, p as int) == seq![s[p as int]] + str_content(s, p + 1));
                assert(buf@ + str_content(s, p + 1) =~= b0 + str_content(s, p as int));
            }
        }
        assert(str_content(s, self.offset()) =~= Seq::<char>::empty());
        assert(buf@ =~= buf@ + str_content(s, self.offset()));
        buf
    }

    /// The character that the escape whose letter is at `i` stands for.
    fn escape_text(&self, i: usize) -> (r: String)
        requires
            self.wf(),
            i < self.source().len(),
        ensures
            r@ == seq![unescape(self.source()[i as int])],
    {
        let c = self.chars[i];
        if c == 'n' {
            proof {
                reveal_strlit("\n");
            }
            String::from_str("\n")
        } else if c == 't' {
            proof {
                reveal_strlit("\t");
            }
            String::from_str("\t")
        } else {
            let r = self.text(i, i + 1);
            assert(r@ =~= seq![self.source()[i as int]]);
            r
        }
    }

    /// Scans the next token. At the end of input it returns an `EOF` token and
    /// keeps returning one on every later call.
    pub fn next_token(&mut self) -> (tok: Token)
        requires
            old(self).wf(),
        ensures
            final(self).wf(),
            final(self).source() == old(self).source(),
            0 <= final(self).offset() <= final(self).source().len(),
            tok.token_type != TokenType::EOF ==> tok.lexeme@.len() > 0,
            ({
                let s = old(self).source();
                let q = skip_ws(s, old(self).offset());
                if q < s.len() {
                    &&& tok@ == token_at(s, q)
                    &&& final(self).offset() == scan_end(s, q)
                } else {
                    &&& tok@ == eof_of(s)
                    &&& final(self).offset() == s.len()
                }
            }),
    {
        let ghost s = self.source();
        self.skip_whitespace();
        proof {
            lemma_skip_ws(s, old(self).offset());
        }
        let start = self.position;
        let line = self.line;
        let column = self.column;
        if start >= self.chars.len() {
            return Token { token_type: TokenType::EOF, lexeme: String::new(), line, column };
        }
        let c = self.chars[start];
        proof {
            lemma_scan_end(s, start as int);
        }
        if is_letter_char(c) {
            self.read_identifier();
            let end = self.position;
            let kind = self.keyword_of(start, end);
            let lexeme = self.text(start, end);
            Token { token_type: kind, lexeme, line, column }
        } else if is_digit_char(c) {
            self.read_digits();
            proof {
                lemma_digits_end(s, start as int);
            }
            let kind = if self.fraction_here() {
                self.read_char();
                self.read_digits();
                proof {
                    lemma_digits_end(s, self.offset());
                }
                if self.fraction_here() {
                    self.read_number();
                    TokenType::Unknown
                } else {
                    TokenType::FloatLiteral
                }
            } else {
                TokenType::IntLiteral
            };
            let end = self.position;
            let lexeme = self.text(start, end);
            Token { token_type: kind, lexeme, line, column }
        } else if c == '"' {
            self.read_char();
            let _contents = self.read_string();
            proof {
                lemma_str_end(s, start + 1);
            }
            if self.position < self.chars.len() {
                self.read_char();
                let lexeme = self.text(start, self.position);
                Token { token_type: TokenType::StringLiteral, lexeme, line, column }
            } else {
                let lexeme = self.text(start, self.position);
                Token { token_type: TokenType::Unknown, lexeme, line, column }
            }
        } else {
            let two = if start + 1 < self.chars.len() {
                two_char_token(c, self.chars[start + 1])
            } else {
                None
            };
            match two {
                Some(kind) => {
                    self.read_char();
                    self.read_char();
                    let lexeme = self.text(start, start + 2);
                    Token { token_type: kind, lexeme, line, column }
                },
                None => {
                    self.read_char();
                    let lexeme = self.text(start, start + 1);
                    Token { token_type: one_char_token(c), lexeme, line, column }
                },
            }
        }
    }
}

fn is_letter_char(c: char) -> (r: bool)
    ensures
        r == is_letter(c),
{
    ('a' <= c && c <= 'z') || ('A' <= c && c <= 'Z') || c == '_'
}

fn is_digit_char(c: char) -> (r: bool)
    ensures
        r == is_digit(c),
{
    '0' <= c && c <= '9'
}

fn is_identifier_char(c: char) -> (r: bool)
    ensures
        r == is_ident_char(c),
{
    is_letter_char(c) || is_digit_char(c)
}

fn two_char_token(a: char, b: char) -> (r: Option<TokenType>)
    ensures
        r == two_char_kind(a, b),
{
    if a == '=' && b == '=' {
        Some(TokenType::Equal)
    } else if a == '!' && b == '=' {
        Some(TokenType::NotEqual)
    } else if a == '<' && b == '=' {
        Some(TokenType::LessThanEqual)
    } else if a == '>' && b == '=' {
        Some(TokenType::GreaterThanEqual)
    } else if a == '&' && b == '&' {
        Some(TokenType::And)
    } else if a == '|' && b == '|' {
        Some(TokenType::Or)
    } else if a == '-' && b == '>' {
        Some(TokenType::Arrow)
    } else {
        None
    }
}

fn one_char_token(c: char) -> (r: TokenType)
    ensures
        r == one_char_kind(c),
{
    if c == '+' {
        TokenType::Plus
    } else if c == '-' {
        TokenType::Minus
    } else if c == '*' {
        TokenType::Multiply
    } else if c == '/' {
        TokenType::Divide
    } else if c == '%' {
        TokenType::Modulo
    } else if c == '=' {
        TokenType::Assign
    } else if c == '<' {
        TokenType::LessThan
    } else if c == '>' {
        TokenType::GreaterThan
    } else if c == '!' {
        TokenType::Not
    } else if c == '(' {
        TokenType::LeftParen
    } else if c == ')' {
        TokenType::RightParen
    } else if c == '{' {
        TokenType::LeftBrace
    } else if c == '}' {
        TokenType::RightBrace
    } else if c == '[' {
        TokenType::LeftBracket
    } else if c == ']' {
        TokenType::RightBracket
    } else if c == ';' {
        TokenType::Semicolon
    } else if c == ':' {
        TokenType::Colon
    } else if c == ',' {
        TokenType::Comma
    } else if c == '.' {
        TokenType::Dot
    } else {
        TokenType::Unknown
    }
}

/// Scans the whole of `source`; the last token is the single `EOF` token.
pub fn lex(source: &str) -> (r: Vec<Token>)
    requires
        source@.len() < usize::MAX,
    ensures
        r@.map_values(|t: Token| t@) == lex_spec(source@),
{
    let ghost s = source@;
    let mut lexer = Lexer::new(String::from_str(source));
    let mut tokens: Vec<Token> = Vec::new();
    loop
        invariant_except_break
            tokens@.map_values(|t: Token| t@) + lex_from(s, lexer.offset()) == lex_from(s, 0),
        invariant
            lexer.wf(),
            lexer.source() == s,
            0 <= lexer.offset() <= s.len(),
        ensures
            tokens@.map_values(|t: Token| t@) == lex_from(s, 0),
        decreases s.len() - lexer.offset(),
    {
        let ghost p = lexer.offset();
        let tok = lexer.next_token();
        let done = tok.token_type == TokenType::EOF;
        proof {
            lemma_skip_ws(s, p);
            let q = skip_ws(s, p);
            if q < s.len() {
                lemma_scan_end(s, q);
                lemma_scan_kind_not_eof(s, q);
            }
        }
        let ghost before = tokens@;
        tokens.push(tok);
        assert(tokens@.map_values(|t: Token| t@) =~= before.map_values(|t: Token| t@).push(tok@));
        if done {
            assert(tokens@.map_values(|t: Token| t@) =~= lex_from(s, 0));
            break;
        }
    }
    tokens
}

/// A token sequence ends with its one and only `EOF` token.
pub proof fn lemma_lex_shape(s: Seq<char>, p: int)
    requires
        0 <= p <= s.len(),
    ensures
        lex_from(s, p).len() >= 1,
        lex_from(s, p).last().0 == TokenType::EOF,
        forall|i: int|
            0 <= i < lex_from(s, p).len() - 1 ==> #[trigger] lex_from(s, p)[i].0 != TokenType::EOF,
    decreases s.len() - p,
{
    lemma_skip_ws(s, p);
    let q = skip_ws(s, p);
    if q < s.len() {
        lemma_scan_end(s, q);
        lemma_scan_kind_not_eof(s, q);
        lemma_lex_shape(s, scan_end(s, q));
        let rest = lex_from(s, scan_end(s, q));
        assert(lex_from(s, p) == seq![token_at(s, q)] + rest);
        assert forall|i: int| 0 <= i < lex_from(s, p).len() - 1 implies #[trigger] lex_from(
            s,
            p,
        )[i].0 != TokenType::EOF by {
            if i > 0 {
                assert(lex_from(s, p)[i] == rest[i - 1]);
            }
        }
    }
}

/// The decoded contents of the string literal `raw`, quotes included.
pub fn decode_string(raw: &str) -> (r: String)
    ensures
        raw@.len() < usize::MAX ==> r@ == str_content(raw@, 1),
{
    let n = raw.unicode_len();
    if n == 0 || n == usize::MAX {
        return String::new();
    }
    let mut lexer = Lexer::new(String::from_str(raw));
    lexer.read_char();
    lexer.read_string()
}

/// Only the end of input gives an `EOF` token.
pub proof fn lemma_scan_kind_not_eof(s: Seq<char>, q: int)
    requires
        0 <= q < s.len(),
    ensures
        scan_kind(s, q) != TokenType::EOF,
{
}

fn is_whitespace(c: char) -> (r: bool)
    ensures
        r == is_ws(c),
{
    ('\u{9}' <= c && c <= '\u{d}') || c == ' ' || c == '\u{85}' || c == '\u{a0}' || c
        == '\u{1680}' || ('\u{2000}' <= c && c <= '\u{200a}') || c == '\u{2028}' || c
        == '\u{2029}' || c == '\u{202f}' || c == '\u{205f}' || c == '\u{3000}'
}

} // verus!
