//! The scanner: from the characters of a program to its tokens.

use crate::ast::tokens_view;
use crate::lox::{error_text, Lox};
use crate::number::{read_number, reading, reads};
use crate::text::{characters, slice};
use crate::token::{LiteralValue, Token, TokenType, TokenV, ValueV};
use vstd::prelude::*;
use vstd::string::*;

verus! {

pub open spec fn digit(c: char) -> bool {
    '0' <= c && c <= '9'
}

pub open spec fn alpha(c: char) -> bool {
    ('a' <= c && c <= 'z') || ('A' <= c && c <= 'Z') || c == '_'
}

pub open spec fn alphanumeric(c: char) -> bool {
    alpha(c) || digit(c)
}

/// The kind of token that a character is all by itself.
pub open spec fn simple(c: char) -> Option<TokenType> {
    if c == '(' {
        Some(TokenType::LeftParen)
    } else if c == ')' {
        Some(TokenType::RightParen)
    } else if c == '{' {
        Some(TokenType::LeftBrace)
    } else if c == '}' {
        Some(TokenType::RightBrace)
    } else if c == ',' {
        Some(TokenType::Comma)
    } else if c == '.' {
        Some(TokenType::Dot)
    } else if c == '-' {
        Some(TokenType::Minus)
    } else if c == '+' {
        Some(TokenType::Plus)
    } else if c == ';' {
        Some(TokenType::SemiColon)
    } else if c == '*' {
        Some(TokenType::Star)
    } else {
        None
    }
}

/// The kind of token that a reserved word is.
pub open spec fn keyword(text: Seq<char>) -> Option<TokenType> {
    if text == "and"@ {
        Some(TokenType::And)
    } else if text == "class"@ {
        Some(TokenType::Class)
    } else if text == "else"@ {
        Some(TokenType::Else)
    } else if text == "false"@ {
        Some(TokenType::False)
    } else if text == "for"@ {
        Some(TokenType::For)
    } else if text == "fun"@ {
        Some(TokenType::Fun)
    } else if text == "if"@ {
        Some(TokenType::If)
    } else if text == "nil"@ {
        Some(TokenType::Nil)
    } else if text == "or"@ {
        Some(TokenType::Or)
    } else if text == "print"@ {
        Some(TokenType::Print)
    } else if text == "return"@ {
        Some(TokenType::Return)
    } else if text == "super"@ {
        Some(TokenType::Super)
    } else if text == "this"@ {
        Some(TokenType::This)
    } else if text == "true"@ {
        Some(TokenType::True)
    } else if text == "var"@ {
        Some(TokenType::Var)
    } else if text == "while"@ {
        Some(TokenType::While)
    } else {
        None
    }
}

/// The first place from `pos` on whose character `keep` does not hold of,
/// or the end of the text.
pub open spec fn skip(src: Seq<char>, pos: int, keep: spec_fn(char) -> bool) -> int
    decreases src.len() - pos,
{
    if 0 <= pos < src.len() && keep(src[pos]) {
        skip(src, pos + 1, keep)
    } else {
        pos
    }
}

/// The line after `line`. The count stops at the largest line number.
pub open spec fn next_line(line: int) -> int {
    if line < i32::MAX {
        line + 1
    } else {
        line
    }
}

/// The line reached from `line` over the characters from `from` up to
/// `to`.
pub open spec fn line_after(src: Seq<char>, from: int, to: int, line: int) -> int
    decreases to - from,
{
    if from >= to {
        line
    } else {
        line_after(
            src,
            from + 1,
            to,
            if src[from] == '\n' {
                next_line(line)
            } else {
                line
            },
        )
    }
}

/// Where the number that begins at `pos` ends: after its digits, and after
/// a point and further digits where a point and a digit follow them.
pub open spec fn number_end(src: Seq<char>, pos: int) -> int {
    let whole = skip(src, pos, |c: char| digit(c));
    if whole + 1 < src.len() && src[whole] == '.' && digit(src[whole + 1]) {
        skip(src, whole + 1, |c: char| digit(c))
    } else {
        whole
    }
}

/// What the scanner makes of the text at one place: where it goes on, on
/// which line, and the token or the error that it found, if any.
pub struct Lexed {
    pub next: int,
    pub line: int,
    pub token: Option<TokenV>,
    pub error: Option<Seq<char>>,
}

/// A token without a literal value, from `from` up to `to`.
pub open spec fn plain(kind: TokenType, src: Seq<char>, from: int, to: int, line: int) -> Lexed {
    Lexed {
        next: to,
        line,
        token: Some(
            TokenV {
                token_type: kind,
                lexeme: src.subrange(from, to),
                literal: ValueV::Nil,
                line,
            },
        ),
        error: None,
    }
}

/// An operator of one character, or of two where `=` follows.
pub open spec fn operator(
    single: TokenType,
    double: TokenType,
    src: Seq<char>,
    pos: int,
    line: int,
) -> Lexed {
    if pos + 1 < src.len() && src[pos + 1] == '=' {
        plain(double, src, pos, pos + 2, line)
    } else {
        plain(single, src, pos, pos + 1, line)
    }
}

/// The string that begins with the quote at `pos`: it reaches to the next
/// quote, and may span lines. Without a closing quote it is an error, and
/// the rest of the text is given up.
pub open spec fn string_at(src: Seq<char>, pos: int, line: int) -> Lexed {
    let close = skip(src, pos + 1, |x: char| x != '"');
    let reached = line_after(src, pos + 1, close, line);
    if close >= src.len() {
        Lexed { next: close, line: reached, token: None, error: Some("Unterminated string."@) }
    } else {
        Lexed {
            next: close + 1,
            line: reached,
            token: Some(
                TokenV {
                    token_type: TokenType::StringToken,
                    lexeme: src.subrange(pos, close + 1),
                    literal: ValueV::StringValue(src.subrange(pos + 1, close)),
                    line: reached,
                },
            ),
            error: None,
        }
    }
}

/// The number that begins with the digit at `pos`. Its value is what `read`
/// makes of its text.
pub open spec fn number_at(
    read: spec_fn(Seq<char>) -> u64,
    src: Seq<char>,
    pos: int,
    line: int,
) -> Lexed {
    let end = number_end(src, pos);
    let text = src.subrange(pos, end);
    Lexed {
        next: end,
        line,
        token: Some(
            TokenV {
                token_type: TokenType::Number,
                lexeme: text,
                literal: ValueV::NumValue(read(text)),
                line,
            },
        ),
        error: None,
    }
}

/// The word that begins with the letter at `pos`: the longest run of
/// letters and digits, a reserved word or else a name.
pub open spec fn word_at(src: Seq<char>, pos: int, line: int) -> Lexed {
    let end = skip(src, pos, |x: char| alphanumeric(x));
    let text = src.subrange(pos, end);
    plain(
        match keyword(text) {
            Some(kind) => kind,
            None => TokenType::Identifier,
        },
        src,
        pos,
        end,
        line,
    )
}

/// What stands at `pos`, a place inside the text.
pub open spec fn scan_one(read: spec_fn(Seq<char>) -> u64, src: Seq<char>, pos: int, line: int) -> Lexed
    recommends
        0 <= pos < src.len(),
{
    let c = src[pos];
    if simple(c) is Some {
        plain(simple(c)->0, src, pos, pos + 1, line)
    } else if c == '!' {
        operator(TokenType::Bang, TokenType::BangEqual, src, pos, line)
    } else if c == '=' {
        operator(TokenType::Equal, TokenType::EqualEqual, src, pos, line)
    } else if c == '<' {
        operator(TokenType::Less, TokenType::LessEqual, src, pos, line)
    } else if c == '>' {
        operator(TokenType::Greater, TokenType::GreaterEqual, src, pos, line)
    } else if c == '/' {
        if pos + 1 < src.len() && src[pos + 1] == '/' {
            Lexed { next: skip(src, pos + 2, |x: char| x != '\n'), line, token: None, error: None }
        } else {
            plain(TokenType::Slash, src, pos, pos + 1, line)
        }
    } else if c == ' ' || c == '\r' || c == '\t' || c == '\0' {
        Lexed { next: pos + 1, line, token: None, error: None }
    } else if c == '\n' {
        Lexed { next: pos + 1, line: next_line(line), token: None, error: None }
    } else if c == '"' {
        string_at(src, pos, line)
    } else if digit(c) {
        number_at(read, src, pos, line)
    } else if alpha(c) {
        word_at(src, pos, line)
    } else {
        Lexed { next: pos + 1, line, token: None, error: Some("Unexpected character."@) }
    }
}

/// Skipping goes forward and stops inside the text or at its end.
pub proof fn lemma_skip_bounds(src: Seq<char>, pos: int, keep: spec_fn(char) -> bool)
    requires
        0 <= pos,
    ensures
        pos <= skip(src, pos, keep),
        pos <= src.len() ==> skip(src, pos, keep) <= src.len(),
        skip(src, pos, keep) < src.len() ==> !keep(src[skip(src, pos, keep)]),
        forall|i: int| pos <= i < skip(src, pos, keep) ==> keep(#[trigger] src[i]),
    decreases src.len() - pos,
{
    if pos < src.len() && keep(src[pos]) {
        lemma_skip_bounds(src, pos + 1, keep);
    }
}

/// The scanner always goes forward, and not beyond the end of the text.
pub proof fn lemma_scan_one_advances(
    read: spec_fn(Seq<char>) -> u64,
    src: Seq<char>,
    pos: int,
    line: int,
)
    requires
        0 <= pos < src.len(),
    ensures
        pos < scan_one(read, src, pos, line).next <= src.len(),
{
    lemma_skip_bounds(src, pos + 2, |x: char| x != '\n');
    lemma_skip_bounds(src, pos + 1, |x: char| x != '"');
    lemma_skip_bounds(src, pos, |x: char| alphanumeric(x));
    let whole = skip(src, pos, |c: char| digit(c));
    lemma_skip_bounds(src, pos, |c: char| digit(c));
    lemma_skip_bounds(src, whole + 1, |c: char| digit(c));
}

/// The token that ends every scan.
pub open spec fn end_token(line: int) -> TokenV {
    TokenV { token_type: TokenType::Eof, lexeme: Seq::empty(), literal: ValueV::Nil, line }
}

/// The tokens of the text from `pos` on and the reports of the errors in
/// it, the scanner being on line `line`.
pub open spec fn scan_from(
    read: spec_fn(Seq<char>) -> u64,
    src: Seq<char>,
    pos: int,
    line: int,
) -> (Seq<TokenV>, Seq<Seq<char>>)
    decreases src.len() - pos,
{
    if pos < 0 || pos >= src.len() {
        (seq![end_token(line)], Seq::empty())
    } else {
        let found = scan_one(read, src, pos, line);
        proof {
            lemma_scan_one_advances(read, src, pos, line);
        }
        let (tokens, errors) = scan_from(read, src, found.next, found.line);
        (
            match found.token {
                Some(t) => seq![t] + tokens,
                None => tokens,
            },
            match found.error {
                Some(e) => seq![error_text(found.line, e)] + errors,
                None => errors,
            },
        )
    }
}

/// The tokens of a scan end with the end token.
pub proof fn lemma_scan_well_ended(
    read: spec_fn(Seq<char>) -> u64,
    src: Seq<char>,
    pos: int,
    line: int,
)
    ensures
        scan_from(read, src, pos, line).0.len() > 0,
        scan_from(read, src, pos, line).0.last().token_type == TokenType::Eof,
    decreases src.len() - pos,
{
    if 0 <= pos < src.len() {
        let found = scan_one(read, src, pos, line);
        lemma_scan_one_advances(read, src, pos, line);
        lemma_scan_well_ended(read, src, found.next, found.line);
    }
}

/// The tokens of a program, ended by the end token, and the reports of the
/// errors in it.
pub open spec fn scan(read: spec_fn(Seq<char>) -> u64, src: Seq<char>) -> (
    Seq<TokenV>,
    Seq<Seq<char>>,
) {
    scan_from(read, src, 0, 1)
}

/// The views of a sequence of strings.
pub open spec fn texts_view(texts: Seq<String>) -> Seq<Seq<char>> {
    Seq::new(texts.len(), |i: int| texts[i]@)
}

/// The token that `found` holds, as a sequence of one or none.
pub open spec fn found_token(found: Lexed) -> Seq<TokenV> {
    match found.token {
        Some(t) => seq![t],
        None => Seq::empty(),
    }
}

/// The report of the error that `found` holds, as a sequence of one or
/// none.
pub open spec fn found_error(found: Lexed) -> Seq<Seq<char>> {
    match found.error {
        Some(e) => seq![error_text(found.line, e)],
        None => Seq::empty(),
    }
}

/// The scanner: the characters of the program, the tokens and the error
/// reports made so far, the place where the current token began, the place
/// reached, and the line.
#[derive(Debug)]
pub struct Lexer {
    pub source: Vec<char>,
    pub tokens: Vec<Token>,
    pub errors: Vec<String>,
    pub start: usize,
    pub current: usize,
    pub line: i32,
}

/// The kind of token that a reserved word is.
fn keyword_of(text: &String) -> (r: Option<TokenType>)
    ensures
        r == keyword(text@),
{
    if *text == "and".to_owned() {
        Some(TokenType::And)
    } else if *text == "class".to_owned() {
        Some(TokenType::Class)
    } else if *text == "else".to_owned() {
        Some(TokenType::Else)
    } else if *text == "false".to_owned() {
        Some(TokenType::False)
    } else if *text == "for".to_owned() {
        Some(TokenType::For)
    } else if *text == "fun".to_owned() {
        Some(TokenType::Fun)
    } else if *text == "if".to_owned() {
        Some(TokenType::If)
    } else if *text == "nil".to_owned() {
        Some(TokenType::Nil)
    } else if *text == "or".to_owned() {
        Some(TokenType::Or)
    } else if *text == "print".to_owned() {
        Some(TokenType::Print)
    } else if *text == "return".to_owned() {
        Some(TokenType::Return)
    } else if *text == "super".to_owned() {
        Some(TokenType::Super)
    } else if *text == "this".to_owned() {
        Some(TokenType::This)
    } else if *text == "true".to_owned() {
        Some(TokenType::True)
    } else if *text == "var".to_owned() {
        Some(TokenType::Var)
    } else if *text == "while".to_owned() {
        Some(TokenType::While)
    } else {
        None
    }
}

/// The kind of token that a character is all by itself.
fn simple_of(c: char) -> (r: Option<TokenType>)
    ensures
        r == simple(c),
{
    if c == '(' {
        Some(TokenType::LeftParen)
    } else if c == ')' {
        Some(TokenType::RightParen)
    } else if c == '{' {
        Some(TokenType::LeftBrace)
    } else if c == '}' {
        Some(TokenType::RightBrace)
    } else if c == ',' {
        Some(TokenType::Comma)
    } else if c == '.' {
        Some(TokenType::Dot)
    } else if c == '-' {
        Some(TokenType::Minus)
    } else if c == '+' {
        Some(TokenType::Plus)
    } else if c == ';' {
        Some(TokenType::SemiColon)
    } else if c == '*' {
        Some(TokenType::Star)
    } else {
        None
    }
}

/// Over characters that end no line the line stays.
pub proof fn lemma_line_stays(src: Seq<char>, from: int, to: int, line: int)
    requires
        forall|i: int| from <= i < to ==> #[trigger] src[i] != '\n',
    ensures
        line_after(src, from, to, line) == line,
    decreases to - from,
{
    if from < to {
        lemma_line_stays(src, from + 1, to, line);
    }
}

impl Lexer {
    /// A scanner at the beginning of `source`.
    pub fn new(source: String) -> (r: Lexer)
        ensures
            r.source@ == source@,
            r.tokens@.len() == 0,
            r.errors@.len() == 0,
            r.start == 0,
            r.current == 0,
            r.line == 1,
    {
        Lexer {
            source: characters(source.as_str()),
            tokens: Vec::new(),
            errors: Vec::new(),
            start: 0,
            current: 0,
            line: 1,
        }
    }

    /// Whether an error was reported.
    pub fn had_error(&self) -> (r: bool)
        ensures
            r == (self.errors@.len() > 0),
    {
        self.errors.len() > 0
    }

    pub fn is_digit(c: char) -> (r: bool)
        ensures
            r == digit(c),
    {
        '0' <= c && c <= '9'
    }

    pub fn is_alpha(c: char) -> (r: bool)
        ensures
            r == alpha(c),
    {
        ('a' <= c && c <= 'z') || ('A' <= c && c <= 'Z') || c == '_'
    }

    pub fn is_alphanumeric(c: char) -> (r: bool)
        ensures
            r == alphanumeric(c),
    {
        Lexer::is_alpha(c) || Lexer::is_digit(c)
    }

    fn is_at_end(&self) -> (r: bool)
        ensures
            r == (self.current >= self.source@.len()),
    {
        self.current >= self.source.len()
    }

    fn advance(&mut self) -> (c: char)
        requires
            old(self).current < old(self).source@.len(),
        ensures
            c == old(self).source@[old(self).current as int],
            final(self).current == old(self).current + 1,
            final(self).source == old(self).source,
            final(self).tokens == old(self).tokens,
            final(self).errors == old(self).errors,
            final(self).start == old(self).start,
            final(self).line == old(self).line,
    {
        proof {
            vstd::std_specs::vec::axiom_spec_len(&self.source);
        }
        let c = self.source[self.current];
        self.current = self.current + 1;
        c
    }

    fn peek(&self) -> (c: char)
        ensures
            c == if self.current < self.source@.len() {
                self.source@[self.current as int]
            } else {
                '\0'
            },
    {
        if self.is_at_end() {
            '\0'
        } else {
            self.source[self.current]
        }
    }

    fn peek_next(&self) -> (c: char)
        ensures
            c == if self.current + 1 < self.source@.len() {
                self.source@[self.current + 1]
            } else {
                '\0'
            },
    {
        if self.current >= self.source.len() || self.current + 1 >= self.source.len() {
            '\0'
        } else {
            self.source[self.current + 1]
        }
    }

    fn check_next(&mut self, expected: char) -> (r: bool)
        ensures
            r == (old(self).current < old(self).source@.len() && old(self).source@[old(
                self,
            ).current as int] == expected),
            final(self).current == if r {
                old(self).current + 1
            } else {
                old(self).current as int
            },
            final(self).source == old(self).source,
            final(self).tokens == old(self).tokens,
            final(self).errors == old(self).errors,
            final(self).start == old(self).start,
            final(self).line == old(self).line,
    {
        if self.is_at_end() {
            return false;
        }
        proof {
            vstd::std_specs::vec::axiom_spec_len(&self.source);
        }
        if self.source[self.current] != expected {
            return false;
        }
        self.current = self.current + 1;
        true
    }

    /// Adds the token that reaches from `start` to `current`.
    fn add_token(&mut self, token_type: TokenType, literal: LiteralValue)
        requires
            old(self).start <= old(self).current <= old(self).source@.len(),
        ensures
            tokens_view(final(self).tokens@) == tokens_view(old(self).tokens@).push(
                TokenV {
                    token_type,
                    lexeme: old(self).source@.subrange(
                        old(self).start as int,
                        old(self).current as int,
                    ),
                    literal: literal@,
                    line: old(self).line as int,
                },
            ),
            final(self).current == old(self).current,
            final(self).source == old(self).source,
            final(self).errors == old(self).errors,
            final(self).start == old(self).start,
            final(self).line == old(self).line,
    {
        let text = slice(&self.source, self.start, self.current);
        let token = Token::new(token_type, text, literal, self.line);
        self.tokens.push(token);
        assert(tokens_view(self.tokens@) =~= tokens_view(old(self).tokens@).push(token@));
    }

    /// Adds the report of an error on the current line.
    fn add_error(&mut self, message: &str)
        ensures
            texts_view(final(self).errors@) == texts_view(old(self).errors@).push(
                error_text(old(self).line as int, message@),
            ),
            final(self).current == old(self).current,
            final(self).source == old(self).source,
            final(self).tokens == old(self).tokens,
            final(self).start == old(self).start,
            final(self).line == old(self).line,
    {
        let report = Lox::error(self.line, message);
        self.errors.push(report);
        assert(texts_view(self.errors@) =~= texts_view(old(self).errors@).push(report@));
    }

    /// Goes on to the first character that is not `stop`, counting lines.
    fn skip_until(&mut self, stop: char)
        requires
            old(self).current <= old(self).source@.len(),
        ensures
            final(self).current == skip(
                old(self).source@,
                old(self).current as int,
                |x: char| x != stop,
            ),
            final(self).line == line_after(
                old(self).source@,
                old(self).current as int,
                final(self).current as int,
                old(self).line as int,
            ),
            final(self).current <= final(self).source@.len(),
            final(self).source == old(self).source,
            final(self).tokens == old(self).tokens,
            final(self).errors == old(self).errors,
            final(self).start == old(self).start,
    {
        let ghost keep = |x: char| x != stop;
        let ghost src = self.source@;
        let ghost first = self.current as int;
        let ghost line = self.line as int;
        proof {
            lemma_skip_bounds(src, first, keep);
        }
        while self.current < self.source.len() && self.source[self.current] != stop
            invariant
                self.source@ == src,
                src == old(self).source@,
                first <= self.current <= src.len(),
                skip(src, self.current as int, keep) == skip(src, first, keep),
                keep == (|x: char| x != stop),
                line_after(src, self.current as int, skip(src, first, keep), self.line as int)
                    == line_after(src, first, skip(src, first, keep), line),
                self.current <= skip(src, first, keep),
                self.tokens == old(self).tokens,
                self.errors == old(self).errors,
                self.start == old(self).start,
                self.source == old(self).source,
            decreases src.len() - self.current,
        {
            proof {
                lemma_skip_bounds(src, self.current as int + 1, keep);
            }
            if self.source[self.current] == '\n' {
                if self.line < i32::MAX {
                    self.line = self.line + 1;
                }
            }
            self.current = self.current + 1;
        }
    }

    /// Goes on to the first character that is no digit.
    fn skip_digits(&mut self)
        requires
            old(self).current <= old(self).source@.len(),
        ensures
            final(self).current == skip(
                old(self).source@,
                old(self).current as int,
                |c: char| digit(c),
            ),
            final(self).current <= final(self).source@.len(),
            old(self).current <= final(self).current,
            final(self).line == old(self).line,
            final(self).source == old(self).source,
            final(self).tokens == old(self).tokens,
            final(self).errors == old(self).errors,
            final(self).start == old(self).start,
    {
        let ghost keep = |c: char| digit(c);
        let ghost src = self.source@;
        let ghost first = self.current as int;
        while self.current < self.source.len() && Lexer::is_digit(self.source[self.current])
            invariant
                self.source@ == src,
                first <= self.current <= src.len(),
                skip(src, self.current as int, keep) == skip(src, first, keep),
                keep == (|c: char| digit(c)),
                self.tokens == old(self).tokens,
                self.errors == old(self).errors,
                self.start == old(self).start,
                self.line == old(self).line,
                self.source == old(self).source,
            decreases src.len() - self.current,
        {
            self.current = self.current + 1;
        }
    }

    /// Goes on to the first character that is neither letter nor digit.
    fn skip_word(&mut self)
        requires
            old(self).current <= old(self).source@.len(),
        ensures
            final(self).current == skip(
                old(self).source@,
                old(self).current as int,
                |x: char| alphanumeric(x),
            ),
            final(self).current <= final(self).source@.len(),
            old(self).current <= final(self).current,
            final(self).line == old(self).line,
            final(self).source == old(self).source,
            final(self).tokens == old(self).tokens,
            final(self).errors == old(self).errors,
            final(self).start == old(self).start,
    {
        let ghost keep = |x: char| alphanumeric(x);
        let ghost src = self.source@;
        let ghost first = self.current as int;
        while self.current < self.source.len() && Lexer::is_alphanumeric(
            self.source[self.current],
        )
            invariant
                self.source@ == src,
                first <= self.current <= src.len(),
                skip(src, self.current as int, keep) == skip(src, first, keep),
                keep == (|x: char| alphanumeric(x)),
                self.tokens == old(self).tokens,
                self.errors == old(self).errors,
                self.start == old(self).start,
                self.line == old(self).line,
                self.source == old(self).source,
            decreases src.len() - self.current,
        {
            self.current = self.current + 1;
        }
    }
}

impl Lexer {
    /// The rest of a string whose opening quote was read.
    fn read_string(&mut self)
        requires
            old(self).start + 1 == old(self).current <= old(self).source@.len(),
            old(self).source@[old(self).start as int] == '"',
        ensures
            ({
                let found = string_at(
                    old(self).source@,
                    old(self).start as int,
                    old(self).line as int,
                );
                &&& final(self).current == found.next
                &&& final(self).line == found.line
                &&& tokens_view(final(self).tokens@) == tokens_view(old(self).tokens@) + found_token(
                    found,
                )
                &&& texts_view(final(self).errors@) == texts_view(old(self).errors@) + found_error(
                    found,
                )
            }),
            final(self).source == old(self).source,
    {
        proof {
            lemma_skip_bounds(self.source@, self.current as int, |x: char| x != '"');
        }
        self.skip_until('"');
        if self.is_at_end() {
            self.add_error("Unterminated string.");
            return ;
        }
        proof {
            vstd::std_specs::vec::axiom_spec_len(&self.source);
        }
        self.current = self.current + 1;
        let text = slice(&self.source, self.start + 1, self.current - 1);
        self.add_token(TokenType::StringToken, LiteralValue::StringValue(text));
    }

    /// The rest of a number whose first digit was read.
    fn read_number<P: Fn(String) -> u64>(&mut self, read: &P)
        requires
            reads(read),
            old(self).start + 1 == old(self).current <= old(self).source@.len(),
            digit(old(self).source@[old(self).start as int]),
        ensures
            ({
                let found = number_at(
                    reading(read),
                    old(self).source@,
                    old(self).start as int,
                    old(self).line as int,
                );
                &&& final(self).current == found.next
                &&& final(self).line == found.line
                &&& tokens_view(final(self).tokens@) == tokens_view(old(self).tokens@) + found_token(
                    found,
                )
                &&& texts_view(final(self).errors@) == texts_view(old(self).errors@) + found_error(
                    found,
                )
            }),
            final(self).source == old(self).source,
    {
        proof {
            lemma_skip_bounds(self.source@, self.start as int, |c: char| digit(c));
        }
        self.skip_digits();
        if self.peek() == '.' && Lexer::is_digit(self.peek_next()) {
            proof {
                lemma_skip_bounds(self.source@, self.current as int + 1, |c: char| digit(c));
            }
            proof {
                vstd::std_specs::vec::axiom_spec_len(&self.source);
            }
            self.current = self.current + 1;
            self.skip_digits();
        }
        let text = slice(&self.source, self.start, self.current);
        let bits = read_number(read, text);
        self.add_token(TokenType::Number, LiteralValue::NumValue(bits));
    }

    /// The rest of a word whose first letter was read.
    fn read_identifier(&mut self)
        requires
            old(self).start + 1 == old(self).current <= old(self).source@.len(),
            alpha(old(self).source@[old(self).start as int]),
        ensures
            ({
                let found = word_at(
                    old(self).source@,
                    old(self).start as int,
                    old(self).line as int,
                );
                &&& final(self).current == found.next
                &&& final(self).line == found.line
                &&& tokens_view(final(self).tokens@) == tokens_view(old(self).tokens@) + found_token(
                    found,
                )
                &&& texts_view(final(self).errors@) == texts_view(old(self).errors@) + found_error(
                    found,
                )
            }),
            final(self).source == old(self).source,
    {
        proof {
            lemma_skip_bounds(self.source@, self.start as int, |x: char| alphanumeric(x));
        }
        self.skip_word();
        let text = slice(&self.source, self.start, self.current);
        match keyword_of(&text) {
            Some(kind) => self.add_token(kind, LiteralValue::Nil),
            None => self.add_token(TokenType::Identifier, LiteralValue::Nil),
        }
    }

    /// An operator of one character, or of two where `=` follows.
    fn read_operator(&mut self, single: TokenType, double: TokenType)
        requires
            old(self).start + 1 == old(self).current <= old(self).source@.len(),
        ensures
            ({
                let found = operator(
                    single,
                    double,
                    old(self).source@,
                    old(self).start as int,
                    old(self).line as int,
                );
                &&& final(self).current == found.next
                &&& final(self).line == found.line
                &&& tokens_view(final(self).tokens@) == tokens_view(old(self).tokens@) + found_token(
                    found,
                )
                &&& texts_view(final(self).errors@) == texts_view(old(self).errors@)
            }),
            final(self).source == old(self).source,
    {
        if self.check_next('=') {
            self.add_token(double, LiteralValue::Nil);
        } else {
            self.add_token(single, LiteralValue::Nil);
        }
    }

    /// Reads what stands at the current place.
    fn scan_token<P: Fn(String) -> u64>(&mut self, read: &P)
        requires
            reads(read),
            old(self).start == old(self).current < old(self).source@.len(),
        ensures
            ({
                let found = scan_one(
                    reading(read),
                    old(self).source@,
                    old(self).current as int,
                    old(self).line as int,
                );
                &&& final(self).current == found.next
                &&& final(self).line == found.line
                &&& tokens_view(final(self).tokens@) == tokens_view(old(self).tokens@) + found_token(
                    found,
                )
                &&& texts_view(final(self).errors@) == texts_view(old(self).errors@) + found_error(
                    found,
                )
            }),
            final(self).source == old(self).source,
    {
        let c: char = self.advance();
        match simple_of(c) {
            Some(kind) => {
                self.add_token(kind, LiteralValue::Nil);
                return ;
            },
            None => {},
        }
        if c == '!' {
            self.read_operator(TokenType::Bang, TokenType::BangEqual);
        } else if c == '=' {
            self.read_operator(TokenType::Equal, TokenType::EqualEqual);
        } else if c == '<' {
            self.read_operator(TokenType::Less, TokenType::LessEqual);
        } else if c == '>' {
            self.read_operator(TokenType::Greater, TokenType::GreaterEqual);
        } else if c == '/' {
            if self.check_next('/') {
                proof {
                    lemma_skip_bounds(self.source@, self.current as int, |x: char| x != '\n');
                    lemma_line_stays(
                        self.source@,
                        self.current as int,
                        skip(self.source@, self.current as int, |x: char| x != '\n'),
                        self.line as int,
                    );
                }
                self.skip_until('\n');
            } else {
                self.add_token(TokenType::Slash, LiteralValue::Nil);
            }
        } else if c == ' ' || c == '\r' || c == '\t' || c == '\0' {
        } else if c == '\n' {
            if self.line < i32::MAX {
                self.line = self.line + 1;
            }
        } else if c == '"' {
            self.read_string();
        } else if Lexer::is_digit(c) {
            self.read_number(read);
        } else if Lexer::is_alpha(c) {
            self.read_identifier();
        } else {
            self.add_error("Unexpected character.");
        }
    }

    /// Reads the rest of the program, and ends the tokens with the end
    /// token.
    pub fn scan_tokens<P: Fn(String) -> u64>(&mut self, read: &P)
        requires
            reads(read),
        ensures
            tokens_view(final(self).tokens@) == tokens_view(old(self).tokens@) + scan_from(
                reading(read),
                old(self).source@,
                old(self).current as int,
                old(self).line as int,
            ).0,
            texts_view(final(self).errors@) == texts_view(old(self).errors@) + scan_from(
                reading(read),
                old(self).source@,
                old(self).current as int,
                old(self).line as int,
            ).1,
            final(self).source == old(self).source,
    {
        let ghost sem = reading(read);
        let ghost src = self.source@;
        let ghost whole = scan_from(sem, src, self.current as int, self.line as int);
        while !self.is_at_end()
            invariant
                reads(read),
                sem == reading(read),
                self.source == old(self).source,
                src == self.source@,
                tokens_view(self.tokens@) + scan_from(
                    sem,
                    src,
                    self.current as int,
                    self.line as int,
                ).0 == tokens_view(old(self).tokens@) + whole.0,
                texts_view(self.errors@) + scan_from(
                    sem,
                    src,
                    self.current as int,
                    self.line as int,
                ).1 == texts_view(old(self).errors@) + whole.1,
            decreases src.len() - self.current,
        {
            self.start = self.current;
            let ghost before = *self;
            let ghost found = scan_one(sem, src, self.current as int, self.line as int);
            let ghost rest = scan_from(sem, src, found.next, found.line);
            proof {
                lemma_scan_one_advances(sem, src, self.current as int, self.line as int);
            }
            self.scan_token(read);
            assert(tokens_view(self.tokens@) + rest.0 =~= tokens_view(before.tokens@) + (
            found_token(found) + rest.0));
            assert(texts_view(self.errors@) + rest.1 =~= texts_view(before.errors@) + (found_error(
                found,
            ) + rest.1));
        }
        let token = Token::new(TokenType::Eof, String::new(), LiteralValue::Nil, self.line);
        let ghost before = tokens_view(self.tokens@);
        self.tokens.push(token);
        assert(tokens_view(self.tokens@) =~= before + seq![end_token(self.line as int)]);
        assert(texts_view(self.errors@) + Seq::<Seq<char>>::empty() =~= texts_view(self.errors@));
    }
}

} // verus!
