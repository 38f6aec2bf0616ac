use crate::number::{all_digits, is_digit_char, is_numeral};
use crate::text::{chars_to_string, range_eq_str};
use crate::token::Token;
use crate::token_type::TokenType;
use vstd::prelude::*;

verus! {

/// An ASCII letter.
pub open spec fn is_ascii_letter(c: char) -> bool {
    ('a' <= c <= 'z') || ('A' <= c <= 'Z')
}

/// A character that can stand in an identifier: an ASCII letter or an
/// underscore.
pub open spec fn is_ident_char(c: char) -> bool {
    is_ascii_letter(c) || c == '_'
}

fn ident_char(c: char) -> (r: bool)
    ensures
        r == is_ident_char(c),
{
    (c >= 'a' && c <= 'z') || (c >= 'A' && c <= 'Z') || c == '_'
}

/// What one scan yields: the token's kind, where its lexeme starts and
/// ends in the source, and the line counter after the scan.
pub struct ScanResult {
    pub ttype: TokenType,
    pub start: int,
    pub end: int,
    pub line: int,
}

/// The line counter after one more newline; it saturates rather than
/// overflow.
pub open spec fn next_line(line: int) -> int {
    if line < usize::MAX {
        line + 1
    } else {
        line
    }
}

/// The position and line after skipping whitespace and line comments:
/// spaces, tabs, carriage returns, newlines (each bumping the line), and
/// `//` comments up to (not including) their newline.
pub open spec fn skip_ws(src: Seq<char>, pos: int, line: int) -> (int, int)
    decreases src.len() - pos, 0int,
{
    if pos < 0 || pos >= src.len() {
        (pos, line)
    } else {
        let c = src[pos];
        if c == ' ' || c == '\r' || c == '\t' {
            skip_ws(src, pos + 1, line)
        } else if c == '\n' {
            skip_ws(src, pos + 1, next_line(line))
        } else if c == '/' && pos + 1 < src.len() && src[pos + 1] == '/' {
            skip_comment(src, pos + 1, line)
        } else {
            (pos, line)
        }
    }
}

/// Consumes a comment's characters up to its newline, then goes on
/// skipping.
pub open spec fn skip_comment(src: Seq<char>, pos: int, line: int) -> (int, int)
    decreases src.len() - pos, 1int,
{
    if pos < 0 || pos >= src.len() {
        (pos, line)
    } else if src[pos] == '\n' {
        skip_ws(src, pos, line)
    } else {
        skip_comment(src, pos + 1, line)
    }
}

/// Scans a string literal whose opening quote stands at `start`, the
/// characters from `pos` on still to be read: to the closing quote,
/// counting embedded newlines, or to an `Error` at the end of the input.
pub open spec fn scan_string(src: Seq<char>, start: int, pos: int, line: int) -> ScanResult
    decreases src.len() - pos,
{
    if pos < 0 || pos >= src.len() {
        ScanResult { ttype: TokenType::Error, start, end: pos, line }
    } else if src[pos] == '"' {
        ScanResult { ttype: TokenType::String, start, end: pos + 1, line }
    } else {
        scan_string(
            src,
            start,
            pos + 1,
            if src[pos] == '\n' {
                next_line(line)
            } else {
                line
            },
        )
    }
}

/// Scans a numeral's remaining digits, then an optional `.` followed by
/// at least one digit.
pub open spec fn scan_number(src: Seq<char>, start: int, pos: int, line: int) -> ScanResult
    decreases src.len() - pos,
{
    if pos >= 0 && pos < src.len() && is_digit_char(src[pos]) {
        scan_number(src, start, pos + 1, line)
    } else if pos >= 0 && pos < src.len() && src[pos] == '.' && pos + 1 < src.len()
        && is_digit_char(src[pos + 1]) {
        scan_number_frac(src, start, pos + 1, line)
    } else {
        ScanResult { ttype: TokenType::Number, start, end: pos, line }
    }
}

/// Scans the digits after a numeral's decimal point.
pub open spec fn scan_number_frac(src: Seq<char>, start: int, pos: int, line: int) -> ScanResult
    decreases src.len() - pos,
{
    if pos >= 0 && pos < src.len() && is_digit_char(src[pos]) {
        scan_number_frac(src, start, pos + 1, line)
    } else {
        ScanResult { ttype: TokenType::Number, start, end: pos, line }
    }
}

/// Scans an identifier's remaining characters and classifies the lexeme.
pub open spec fn scan_ident(src: Seq<char>, start: int, pos: int, line: int) -> ScanResult
    decreases src.len() - pos,
{
    if pos >= 0 && pos < src.len() && is_ident_char(src[pos]) {
        scan_ident(src, start, pos + 1, line)
    } else {
        ScanResult { ttype: keyword_type(src.subrange(start, pos)), start, end: pos, line }
    }
}

/// The token found at `pos` itself (no skipping): the longest-match
/// classification of the language's lexemes.
pub open spec fn scan_at(src: Seq<char>, pos: int, line: int) -> ScanResult {
    if pos < 0 || pos >= src.len() {
        ScanResult { ttype: TokenType::Eof, start: pos, end: pos, line }
    } else {
        let c = src[pos];
        if c == '(' {
            ScanResult { ttype: TokenType::LeftParen, start: pos, end: pos + 1, line }
        } else if c == ')' {
            ScanResult { ttype: TokenType::RightParen, start: pos, end: pos + 1, line }
        } else if c == '{' {
            ScanResult { ttype: TokenType::LeftBrace, start: pos, end: pos + 1, line }
        } else if c == '}' {
            ScanResult { ttype: TokenType::RightBrace, start: pos, end: pos + 1, line }
        } else if c == ';' {
            ScanResult { ttype: TokenType::SemiColon, start: pos, end: pos + 1, line }
        } else if c == ',' {
            ScanResult { ttype: TokenType::Comma, start: pos, end: pos + 1, line }
        } else if c == '.' {
            ScanResult { ttype: TokenType::Dot, start: pos, end: pos + 1, line }
        } else if c == '-' {
            ScanResult { ttype: TokenType::Minus, start: pos, end: pos + 1, line }
        } else if c == '+' {
            ScanResult { ttype: TokenType::Plus, start: pos, end: pos + 1, line }
        } else if c == '/' {
            ScanResult { ttype: TokenType::Slash, start: pos, end: pos + 1, line }
        } else if c == '*' {
            ScanResult { ttype: TokenType::Star, start: pos, end: pos + 1, line }
        } else if c == '!' {
            if pos + 1 < src.len() && src[pos + 1] == '=' {
                ScanResult { ttype: TokenType::BangEqual, start: pos, end: pos + 2, line }
            } else {
                ScanResult { ttype: TokenType::Bang, start: pos, end: pos + 1, line }
            }
        } else if c == '=' {
            if pos + 1 < src.len() && src[pos + 1] == '=' {
                ScanResult { ttype: TokenType::Equal, start: pos, end: pos + 2, line }
            } else {
                ScanResult { ttype: TokenType::Assign, start: pos, end: pos + 1, line }
            }
        } else if c == '<' {
            if pos + 1 < src.len() && src[pos + 1] == '=' {
                ScanResult { ttype: TokenType::LessEqual, start: pos, end: pos + 2, line }
            } else {
                ScanResult { ttype: TokenType::Less, start: pos, end: pos + 1, line }
            }
        } else if c == '>' {
            if pos + 1 < src.len() && src[pos + 1] == '=' {
                ScanResult { ttype: TokenType::GreaterEqual, start: pos, end: pos + 2, line }
            } else {
                ScanResult { ttype: TokenType::Greater, start: pos, end: pos + 1, line }
            }
        } else if c == '"' {
            scan_string(src, pos, pos + 1, line)
        } else if is_digit_char(c) {
            scan_number(src, pos, pos + 1, line)
        } else if is_ident_char(c) {
            scan_ident(src, pos, pos + 1, line)
        } else {
            ScanResult { ttype: TokenType::Error, start: pos, end: pos + 1, line }
        }
    }
}

/// One whole scan: skip whitespace and comments, then the token there.
pub open spec fn spec_token(src: Seq<char>, pos: int, line: int) -> ScanResult {
    let (p, l) = skip_ws(src, pos, line);
    scan_at(src, p, l)
}

/// The message an `Error` token carries: an unclosed quote means an
/// unterminated string; anything else is an unexpected character.
pub open spec fn scan_error_message(src: Seq<char>, start: int) -> Seq<char> {
    if 0 <= start < src.len() && src[start] == '"' {
        "Unterminated string."@
    } else {
        "Unexpected character."@
    }
}

/// `scan_string` hands back the `start` it was given.
proof fn lemma_scan_string_fields(src: Seq<char>, start: int, pos: int, line: int)
    ensures
        scan_string(src, start, pos, line).start == start,
    decreases src.len() - pos,
{
    if 0 <= pos < src.len() && src[pos] != '"' {
        lemma_scan_string_fields(
            src,
            start,
            pos + 1,
            if src[pos] == '\n' {
                next_line(line)
            } else {
                line
            },
        );
    }
}

/// `scan_number` keeps `start` and `line`, classifies as `Number`, and
/// ends no earlier than it began.
proof fn lemma_scan_number_fields(src: Seq<char>, start: int, pos: int, line: int)
    ensures
        scan_number(src, start, pos, line).start == start,
        scan_number(src, start, pos, line).line == line,
        scan_number(src, start, pos, line).ttype == TokenType::Number,
        scan_number(src, start, pos, line).end >= pos,
    decreases src.len() - pos,
{
    if 0 <= pos < src.len() && is_digit_char(src[pos]) {
        lemma_scan_number_fields(src, start, pos + 1, line);
    } else if 0 <= pos < src.len() && src[pos] == '.' && pos + 1 < src.len() && is_digit_char(
        src[pos + 1],
    ) {
        lemma_scan_number_frac_fields(src, start, pos + 1, line);
    }
}

/// As `lemma_scan_number_fields`, for the digits after the point.
proof fn lemma_scan_number_frac_fields(src: Seq<char>, start: int, pos: int, line: int)
    ensures
        scan_number_frac(src, start, pos, line).start == start,
        scan_number_frac(src, start, pos, line).line == line,
        scan_number_frac(src, start, pos, line).ttype == TokenType::Number,
        scan_number_frac(src, start, pos, line).end >= pos,
    decreases src.len() - pos,
{
    if 0 <= pos < src.len() && is_digit_char(src[pos]) {
        lemma_scan_number_frac_fields(src, start, pos + 1, line);
    }
}

/// `scan_ident` keeps `start` and `line` and classifies its lexeme by
/// `keyword_type`.
proof fn lemma_scan_ident_fields(src: Seq<char>, start: int, pos: int, line: int)
    ensures
        scan_ident(src, start, pos, line).start == start,
        scan_ident(src, start, pos, line).line == line,
        scan_ident(src, start, pos, line).end >= pos,
        scan_ident(src, start, pos, line).ttype == keyword_type(
            src.subrange(start, scan_ident(src, start, pos, line).end),
        ),
    decreases src.len() - pos,
{
    if 0 <= pos < src.len() && is_ident_char(src[pos]) {
        lemma_scan_ident_fields(src, start, pos + 1, line);
    }
}

/// Skipping whitespace never runs backwards nor past the end.
pub proof fn lemma_skip_ws_bounds(src: Seq<char>, pos: int, line: int)
    requires
        0 <= pos <= src.len(),
    ensures
        pos <= skip_ws(src, pos, line).0 <= src.len(),
    decreases src.len() - pos, 0int,
{
    if pos < src.len() {
        let c = src[pos];
        if c == ' ' || c == '\r' || c == '\t' {
            lemma_skip_ws_bounds(src, pos + 1, line);
        } else if c == '\n' {
            lemma_skip_ws_bounds(src, pos + 1, next_line(line));
        } else if c == '/' && pos + 1 < src.len() && src[pos + 1] == '/' {
            lemma_skip_comment_bounds(src, pos + 1, line);
        }
    }
}

/// As `lemma_skip_ws_bounds`, for comment skipping.
pub proof fn lemma_skip_comment_bounds(src: Seq<char>, pos: int, line: int)
    requires
        0 <= pos <= src.len(),
    ensures
        pos <= skip_comment(src, pos, line).0 <= src.len(),
    decreases src.len() - pos, 1int,
{
    if pos < src.len() {
        if src[pos] == '\n' {
            lemma_skip_ws_bounds(src, pos, line);
        } else {
            lemma_skip_comment_bounds(src, pos + 1, line);
        }
    }
}

/// An `Eof` answer comes exactly at the end of the source, where every
/// later scan also answers `Eof`.
pub proof fn lemma_spec_token_eof(src: Seq<char>, pos: int, line: int)
    requires
        0 <= pos <= src.len(),
    ensures
        spec_token(src, pos, line).ttype == TokenType::Eof ==> spec_token(src, pos, line).end
            == src.len(),
        spec_token(src, src.len() as int, line).ttype == TokenType::Eof,
{
    lemma_skip_ws_bounds(src, pos, line);
    let (p, l) = skip_ws(src, pos, line);
    if p < src.len() {
        // a real character is scanned: no arm of the scan yields `Eof`
        let r = scan_at(src, p, l);
        if r.ttype == TokenType::Eof {
            lemma_scan_string_not_eof(src, p, p + 1, l);
            lemma_scan_number_fields(src, p, p + 1, l);
            lemma_scan_number_frac_fields(src, p, p + 1, l);
            lemma_scan_ident_fields(src, p, p + 1, l);
        }
    }
}

/// A string scan never answers `Eof`.
proof fn lemma_scan_string_not_eof(src: Seq<char>, start: int, pos: int, line: int)
    ensures
        scan_string(src, start, pos, line).ttype != TokenType::Eof,
    decreases src.len() - pos,
{
    if 0 <= pos < src.len() && src[pos] != '"' {
        lemma_scan_string_not_eof(
            src,
            start,
            pos + 1,
            if src[pos] == '\n' {
                next_line(line)
            } else {
                line
            },
        );
    }
}

/// The longest-match tokenizer. It walks the source left to right and
/// hands out one token per call; after the end it keeps returning `Eof`.
pub struct Scanner {
    source: Vec<char>,
    start: usize,
    current: usize,
    line: usize,
}

impl Scanner {
    /// The source characters.
    pub closed spec fn src(&self) -> Seq<char> {
        self.source@
    }

    /// Where the next character would be read.
    pub closed spec fn pos(&self) -> int {
        self.current as int
    }

    /// Where the token being scanned began.
    pub closed spec fn start_of(&self) -> int {
        self.start as int
    }

    /// The current 1-based source line.
    pub closed spec fn line_of(&self) -> int {
        self.line as int
    }

    pub open spec fn wf(&self) -> bool {
        0 <= self.start_of() <= self.pos() <= self.src().len()
    }

    pub fn new(source: &str) -> (r: Scanner)
        ensures
            r.wf(),
            r.src() == source@,
            r.pos() == 0,
            r.line_of() == 1,
    {
        let n = source.unicode_len();
        let mut v: Vec<char> = Vec::new();
        let mut i: usize = 0;
        proof {
            assert(v@ =~= source@.subrange(0, 0));
        }
        while i < n
            invariant
                i <= n,
                n == source@.len(),
                v@ == source@.subrange(0, i as int),
            decreases n - i,
        {
            v.push(source.get_char(i));
            i = i + 1;
            proof {
                assert(v@ =~= source@.subrange(0, i as int));
            }
        }
        proof {
            assert(v@ =~= source@);
        }
        Scanner { source: v, start: 0, current: 0, line: 1 }
    }

    /// Skips whitespace and comments, then scans and returns one token.
    /// Progress: every token but `Eof` moves the scanner forward, and
    /// `Eof` comes exactly at the end of the source, so it repeats
    /// forever once reached. A `Number` token's lexeme is a numeral as
    /// `is_numeral` describes; a `String` token's lexeme keeps both
    /// quotes.
    pub fn scan_token(&mut self) -> (t: Token)
        requires
            old(self).wf(),
        ensures
            final (self).wf(),
            final (self).src() == old(self).src(),
            final (self).pos() >= old(self).pos(),
            final (self).line_of() >= old(self).line_of(),
            t.ttype != TokenType::Eof ==> final (self).pos() > old(self).pos(),
            t.ttype == TokenType::Eof ==> final (self).pos() == final (self).src().len(),
            t.line == final (self).line_of(),
            t.ttype == TokenType::Number ==> is_numeral(t.lexeme@),
            t.ttype == TokenType::String ==> t.lexeme@.len() >= 2 && t.lexeme@[0] == '"'
                && t.lexeme@[t.lexeme@.len() - 1] == '"',
            t.ttype != TokenType::Error ==> old(self).pos() <= final (self).start_of()
                <= final (self).pos() && t.lexeme@ == final (self).src().subrange(
                final (self).start_of(),
                final (self).pos(),
            ),
            ({
                let r = spec_token(old(self).src(), old(self).pos(), old(self).line_of());
                &&& t.ttype == r.ttype
                &&& final (self).start_of() == r.start
                &&& final (self).pos() == r.end
                &&& final (self).line_of() == r.line
                &&& (t.ttype == TokenType::Error ==> t.lexeme@ == scan_error_message(
                    old(self).src(),
                    r.start,
                ))
            }),
    {
        self.skip_whitespace();
        self.start = self.current;
        let ghost p = self.pos();
        let ghost l = self.line_of();
        if self.is_at_end() {
            return self.make_token(TokenType::Eof);
        }
        let c = self.advance();
        let t = match c {
            '(' => self.make_token(TokenType::LeftParen),
            ')' => self.make_token(TokenType::RightParen),
            '{' => self.make_token(TokenType::LeftBrace),
            '}' => self.make_token(TokenType::RightBrace),
            ';' => self.make_token(TokenType::SemiColon),
            ',' => self.make_token(TokenType::Comma),
            '.' => self.make_token(TokenType::Dot),
            '-' => self.make_token(TokenType::Minus),
            '+' => self.make_token(TokenType::Plus),
            '/' => self.make_token(TokenType::Slash),
            '*' => self.make_token(TokenType::Star),
            '!' => {
                let equal = self.is_match('=');
                self.make_token(
                    if equal {
                        TokenType::BangEqual
                    } else {
                        TokenType::Bang
                    },
                )
            },
            '=' => {
                let equal = self.is_match('=');
                self.make_token(
                    if equal {
                        TokenType::Equal
                    } else {
                        TokenType::Assign
                    },
                )
            },
            '<' => {
                let equal = self.is_match('=');
                self.make_token(
                    if equal {
                        TokenType::LessEqual
                    } else {
                        TokenType::Less
                    },
                )
            },
            '>' => {
                let equal = self.is_match('=');
                self.make_token(
                    if equal {
                        TokenType::GreaterEqual
                    } else {
                        TokenType::Greater
                    },
                )
            },
            '"' => self.string(),
            '0' => self.number(),
            '1' => self.number(),
            '2' => self.number(),
            '3' => self.number(),
            '4' => self.number(),
            '5' => self.number(),
            '6' => self.number(),
            '7' => self.number(),
            '8' => self.number(),
            '9' => self.number(),
            _ => {
                if ident_char(c) {
                    self.identifier()
                } else {
                    self.error_token("Unexpected character.")
                }
            },
        };
        proof {
            lemma_scan_string_fields(self.src(), p, p + 1, l);
            lemma_scan_number_fields(self.src(), p, p + 1, l);
            lemma_scan_ident_fields(self.src(), p, p + 1, l);
        }
        t
    }

    fn is_at_end(&self) -> (r: bool)
        requires
            self.wf(),
        ensures
            r == (self.pos() == self.src().len()),
    {
        self.current == self.source.len()
    }

    fn make_token(&self, ttype: TokenType) -> (t: Token)
        requires
            self.wf(),
        ensures
            t.ttype == ttype,
            t.lexeme@ == self.src().subrange(self.start_of(), self.pos()),
            t.line == self.line_of(),
    {
        Token::new(ttype, chars_to_string(&self.source, self.start, self.current), self.line)
    }

    fn error_token(&self, message: &str) -> (t: Token)
        ensures
            t.ttype == TokenType::Error,
            t.lexeme@ == message@,
            t.line == self.line_of(),
    {
        Token::new(TokenType::Error, String::from_str(message), self.line)
    }

    fn advance(&mut self) -> (c: char)
        requires
            old(self).wf(),
            old(self).pos() < old(self).src().len(),
        ensures
            final (self).wf(),
            final (self).src() == old(self).src(),
            final (self).start_of() == old(self).start_of(),
            final (self).line_of() == old(self).line_of(),
            final (self).pos() == old(self).pos() + 1,
            c == old(self).src()[old(self).pos()],
    {
        let n = self.source.len();
        let c = self.source[self.current];
        self.current = self.current + 1;
        c
    }

    fn is_match(&mut self, expected: char) -> (r: bool)
        requires
            old(self).wf(),
        ensures
            final (self).wf(),
            final (self).src() == old(self).src(),
            final (self).start_of() == old(self).start_of(),
            final (self).line_of() == old(self).line_of(),
            r == (old(self).pos() < old(self).src().len() && old(self).src()[old(self).pos()]
                == expected),
            final (self).pos() == old(self).pos() + if r {
                1int
            } else {
                0int
            },
    {
        if self.is_at_end() {
            return false;
        }
        if self.source[self.current] != expected {
            return false;
        }
        let n = self.source.len();
        self.current = self.current + 1;
        true
    }

    fn peek(&self) -> (c: char)
        requires
            self.wf(),
        ensures
            c == if self.pos() < self.src().len() {
                self.src()[self.pos()]
            } else {
                '\0'
            },
    {
        if self.is_at_end() {
            '\0'
        } else {
            self.source[self.current]
        }
    }

    fn peek_next(&self) -> (c: char)
        requires
            self.wf(),
        ensures
            c == if self.pos() + 1 < self.src().len() {
                self.src()[self.pos() + 1]
            } else {
                '\0'
            },
    {
        let n = self.source.len();
        if self.current >= n || self.current == n - 1 {
            '\0'
        } else {
            self.source[self.current + 1]
        }
    }

    /// Whether the next character is a decimal digit.
    fn peek_is_digit(&self) -> (r: bool)
        requires
            self.wf(),
        ensures
            r == (self.pos() < self.src().len() && is_digit_char(self.src()[self.pos()])),
    {
        if self.is_at_end() {
            return false;
        }
        let c = self.source[self.current];
        c >= '0' && c <= '9'
    }

    /// Whether the next character can continue an identifier.
    fn peek_is_ident_char(&self) -> (r: bool)
        requires
            self.wf(),
        ensures
            r == (self.pos() < self.src().len() && is_ident_char(self.src()[self.pos()])),
    {
        if self.is_at_end() {
            return false;
        }
        let c = self.source[self.current];
        ident_char(c)
    }

    #[verifier::loop_isolation(false)]
    fn skip_whitespace(&mut self)
        requires
            old(self).wf(),
        ensures
            final (self).wf(),
            final (self).src() == old(self).src(),
            final (self).start_of() == old(self).start_of(),
            final (self).pos() >= old(self).pos(),
            final (self).line_of() >= old(self).line_of(),
            ({
                let r = skip_ws(old(self).src(), old(self).pos(), old(self).line_of());
                final (self).pos() == r.0 && final (self).line_of() == r.1
            }),
    {
        let ghost target = skip_ws(old(self).src(), old(self).pos(), old(self).line_of());
        loop
            invariant
                self.wf(),
                self.src() == old(self).src(),
                self.start_of() == old(self).start_of(),
                self.pos() >= old(self).pos(),
                self.line_of() >= old(self).line_of(),
                skip_ws(self.src(), self.pos(), self.line_of()) == target,
            decreases self.src().len() - self.pos(),
        {
            let ghost p0 = self.pos();
            let c = self.peek();
            match c {
                ' ' | '\r' | '\t' => {
                    let _ = self.advance();
                },
                '\n' => {
                    if self.line < usize::MAX {
                        self.line = self.line + 1;
                    }
                    let _ = self.advance();
                },
                '/' => {
                    if '/' == self.peek_next() {
                        // a line comment: consume both slashes and the rest
                        // of the line
                        let _ = self.advance();
                        proof {
                            assert(skip_comment(self.src(), self.pos(), self.line_of())
                                == target);
                        }
                        while self.peek() != '\n' && !self.is_at_end()
                            invariant
                                self.wf(),
                                self.src() == old(self).src(),
                                self.start_of() == old(self).start_of(),
                                self.pos() > p0,
                                self.pos() >= old(self).pos(),
                                self.line_of() >= old(self).line_of(),
                                skip_comment(self.src(), self.pos(), self.line_of()) == target,
                            decreases self.src().len() - self.pos(),
                        {
                            let _ = self.advance();
                        }
                        proof {
                            assert(skip_ws(self.src(), self.pos(), self.line_of()) == target);
                        }
                    } else {
                        return ;
                    }
                },
                _ => {
                    return ;
                },
            }
        }
    }

    #[verifier::loop_isolation(false)]
    fn string(&mut self) -> (t: Token)
        requires
            old(self).wf(),
            old(self).start_of() < old(self).pos(),
            old(self).src()[old(self).start_of()] == '"',
        ensures
            final (self).wf(),
            final (self).src() == old(self).src(),
            final (self).pos() >= old(self).pos(),
            final (self).line_of() >= old(self).line_of(),
            t.line == final (self).line_of(),
            t.ttype == TokenType::String || t.ttype == TokenType::Error,
            t.ttype == TokenType::String ==> t.lexeme@.len() >= 2 && t.lexeme@[0] == '"'
                && t.lexeme@[t.lexeme@.len() - 1] == '"',
            final (self).start_of() == old(self).start_of(),
            t.ttype == TokenType::String ==> t.lexeme@ == final (self).src().subrange(
                final (self).start_of(),
                final (self).pos(),
            ),
            t.ttype == TokenType::Error ==> t.lexeme@ == "Unterminated string."@,
            ({
                let r = scan_string(
                    old(self).src(),
                    old(self).start_of(),
                    old(self).pos(),
                    old(self).line_of(),
                );
                t.ttype == r.ttype && final (self).pos() == r.end && final (self).line_of()
                    == r.line
            }),
    {
        let ghost target = scan_string(
            old(self).src(),
            old(self).start_of(),
            old(self).pos(),
            old(self).line_of(),
        );
        while self.peek() != '"' && !self.is_at_end()
            invariant
                self.wf(),
                self.src() == old(self).src(),
                self.start_of() == old(self).start_of(),
                self.pos() >= old(self).pos(),
                self.line_of() >= old(self).line_of(),
                scan_string(self.src(), self.start_of(), self.pos(), self.line_of()) == target,
            decreases self.src().len() - self.pos(),
        {
            if self.peek() == '\n' && self.line < usize::MAX {
                self.line = self.line + 1;
            }
            let _ = self.advance();
        }
        if self.is_at_end() {
            self.error_token("Unterminated string.")
        } else {
            // the closing quote
            let _ = self.advance();
            let t = self.make_token(TokenType::String);
            proof {
                assert(t.lexeme@[0] == '"');
                assert(t.lexeme@[t.lexeme@.len() - 1] == self.src()[self.pos() - 1]);
            }
            t
        }
    }

    #[verifier::loop_isolation(false)]
    fn number(&mut self) -> (t: Token)
        requires
            old(self).wf(),
            old(self).start_of() < old(self).pos(),
            all_digits(old(self).src().subrange(old(self).start_of(), old(self).pos())),
        ensures
            final (self).wf(),
            final (self).src() == old(self).src(),
            final (self).pos() >= old(self).pos(),
            final (self).line_of() == old(self).line_of(),
            t.line == final (self).line_of(),
            t.ttype == TokenType::Number,
            is_numeral(t.lexeme@),
            final (self).start_of() == old(self).start_of(),
            t.lexeme@ == final (self).src().subrange(final (self).start_of(), final (self).pos()),
            final (self).pos() == scan_number(
                old(self).src(),
                old(self).start_of(),
                old(self).pos(),
                old(self).line_of(),
            ).end,
    {
        let ghost target = scan_number(
            old(self).src(),
            old(self).start_of(),
            old(self).pos(),
            old(self).line_of(),
        );
        while self.peek_is_digit()
            invariant
                self.wf(),
                self.src() == old(self).src(),
                self.start_of() == old(self).start_of(),
                self.line_of() == old(self).line_of(),
                self.pos() >= old(self).pos(),
                all_digits(self.src().subrange(self.start_of(), self.pos())),
                scan_number(self.src(), self.start_of(), self.pos(), self.line_of()) == target,
            decreases self.src().len() - self.pos(),
        {
            let _ = self.advance();
            proof {
                let lo = self.start_of();
                let hi = self.pos();
                assert(self.src().subrange(lo, hi) =~= self.src().subrange(lo, hi - 1).push(
                    self.src()[hi - 1],
                ));
            }
        }
        let p = self.peek();
        let pn = self.peek_next();
        if p == '.' && pn >= '0' && pn <= '9' {
            let ghost dot = self.pos();
            // the decimal point
            let _ = self.advance();
            proof {
                assert(scan_number_frac(self.src(), self.start_of(), self.pos(), self.line_of())
                    == target);
            }
            while self.peek_is_digit()
                invariant
                    self.wf(),
                    self.src() == old(self).src(),
                    self.start_of() == old(self).start_of(),
                    self.line_of() == old(self).line_of(),
                    self.start_of() < dot,
                    dot < self.pos(),
                    self.pos() >= old(self).pos(),
                    self.src()[dot] == '.',
                    dot + 1 < self.src().len() && is_digit_char(self.src()[dot + 1]),
                    all_digits(self.src().subrange(self.start_of(), dot)),
                    all_digits(self.src().subrange(dot + 1, self.pos())),
                    scan_number_frac(self.src(), self.start_of(), self.pos(), self.line_of())
                        == target,
                decreases self.src().len() - self.pos(),
            {
                let _ = self.advance();
                proof {
                    assert(self.src().subrange(dot + 1, self.pos()) =~= self.src().subrange(
                        dot + 1,
                        self.pos() - 1,
                    ).push(self.src()[self.pos() - 1]));
                }
            }
            proof {
                // the loop cannot have stopped right after the point: the
                // character there is a digit
                if self.pos() == dot + 1 {
                    assert(false);
                }
            }
            let t = self.make_token(TokenType::Number);
            proof {
                let lex = t.lexeme@;
                let k = dot - self.start_of();
                assert(lex.subrange(0, k) =~= self.src().subrange(self.start_of(), dot));
                assert(lex.subrange(k + 1, lex.len() as int) =~= self.src().subrange(
                    dot + 1,
                    self.pos(),
                ));
                assert(1 <= k < lex.len() - 1 && lex[k] == '.' && all_digits(lex.subrange(0, k))
                    && all_digits(lex.subrange(k + 1, lex.len() as int)));
            }
            t
        } else {
            let t = self.make_token(TokenType::Number);
            proof {
                assert(t.lexeme@.len() > 0 && all_digits(t.lexeme@));
            }
            t
        }
    }

    #[verifier::loop_isolation(false)]
    fn identifier(&mut self) -> (t: Token)
        requires
            old(self).wf(),
            old(self).start_of() < old(self).pos(),
        ensures
            final (self).wf(),
            final (self).src() == old(self).src(),
            final (self).pos() >= old(self).pos(),
            final (self).line_of() == old(self).line_of(),
            t.line == final (self).line_of(),
            t.ttype == keyword_type(final (self).src().subrange(
                final (self).start_of(),
                final (self).pos(),
            )),
            final (self).start_of() == old(self).start_of(),
            t.lexeme@ == final (self).src().subrange(final (self).start_of(), final (self).pos()),
            final (self).pos() == scan_ident(
                old(self).src(),
                old(self).start_of(),
                old(self).pos(),
                old(self).line_of(),
            ).end,
    {
        let ghost target = scan_ident(
            old(self).src(),
            old(self).start_of(),
            old(self).pos(),
            old(self).line_of(),
        );
        while self.peek_is_ident_char()
            invariant
                self.wf(),
                self.src() == old(self).src(),
                self.start_of() == old(self).start_of(),
                self.line_of() == old(self).line_of(),
                self.start_of() < self.pos(),
                self.pos() >= old(self).pos(),
                scan_ident(self.src(), self.start_of(), self.pos(), self.line_of()) == target,
            decreases self.src().len() - self.pos(),
        {
            let _ = self.advance();
        }
        self.make_token(self.identifier_type())
    }

    fn identifier_type(&self) -> (tt: TokenType)
        requires
            self.wf(),
            self.start_of() < self.pos(),
        ensures
            tt == keyword_type(self.src().subrange(self.start_of(), self.pos())),
    {
        let ghost lex = self.src().subrange(self.start_of(), self.pos());
        let c = self.source[self.start];
        proof {
            assert(lex[0] == c);
        }
        let tt = match c {
            'a' => self.check_keyword(1, "nd", TokenType::And),
            'c' => self.check_keyword(1, "lass", TokenType::Class),
            'e' => self.check_keyword(1, "lse", TokenType::Else),
            'f' => {
                if self.current - self.start > 1 {
                    match self.source[self.start + 1] {
                        'a' => self.check_keyword(2, "lse", TokenType::False),
                        'o' => self.check_keyword(2, "r", TokenType::For),
                        'u' => self.check_keyword(2, "n", TokenType::Fun),
                        _ => TokenType::Identifier,
                    }
                } else {
                    TokenType::Identifier
                }
            },
            'i' => self.check_keyword(1, "f", TokenType::If),
            'n' => self.check_keyword(1, "il", TokenType::Nil),
            'o' => self.check_keyword(1, "r", TokenType::Or),
            'p' => self.check_keyword(1, "rint", TokenType::Print),
            'r' => self.check_keyword(1, "eturn", TokenType::Return),
            's' => self.check_keyword(1, "uper", TokenType::Super),
            't' => {
                if self.current - self.start > 1 {
                    match self.source[self.start + 1] {
                        'h' => self.check_keyword(2, "is", TokenType::This),
                        'r' => self.check_keyword(2, "ue", TokenType::True),
                        _ => TokenType::Identifier,
                    }
                } else {
                    TokenType::Identifier
                }
            },
            'v' => self.check_keyword(1, "ar", TokenType::Var),
            'w' => self.check_keyword(1, "hile", TokenType::While),
            _ => TokenType::Identifier,
        };
        proof {
            assert(forall|k: int|
                0 <= k <= lex.len() ==> self.src().subrange(self.start_of() + k, self.pos())
                    =~= lex.subrange(k, lex.len() as int));
            if lex.len() > 1 {
                assert(lex[1] == self.src()[self.start_of() + 1]);
            }
        }
        tt
    }

    /// Compares the rest of the lexeme, from `offset` characters past its
    /// start, against `rest`.
    fn check_keyword(&self, offset: usize, rest: &str, ttype: TokenType) -> (tt: TokenType)
        requires
            self.wf(),
            self.start_of() + offset <= self.pos(),
        ensures
            tt == if self.src().subrange(self.start_of() + offset, self.pos()) == rest@ {
                ttype
            } else {
                TokenType::Identifier
            },
    {
        if range_eq_str(&self.source, self.start + offset, self.current, rest) {
            ttype
        } else {
            TokenType::Identifier
        }
    }
}

/// Which keyword a lexeme spells, dispatching on its first characters as
/// the scanner does; anything else is a plain identifier.
pub open spec fn keyword_type(s: Seq<char>) -> TokenType {
    if s.len() == 0 {
        TokenType::Identifier
    } else if s[0] == 'a' {
        if s.subrange(1, s.len() as int) == "nd"@ {
            TokenType::And
        } else {
            TokenType::Identifier
        }
    } else if s[0] == 'c' {
        if s.subrange(1, s.len() as int) == "lass"@ {
            TokenType::Class
        } else {
            TokenType::Identifier
        }
    } else if s[0] == 'e' {
        if s.subrange(1, s.len() as int) == "lse"@ {
            TokenType::Else
        } else {
            TokenType::Identifier
        }
    } else if s[0] == 'f' {
        if s.len() > 1 && s[1] == 'a' && s.subrange(2, s.len() as int) == "lse"@ {
            TokenType::False
        } else if s.len() > 1 && s[1] == 'o' && s.subrange(2, s.len() as int) == "r"@ {
            TokenType::For
        } else if s.len() > 1 && s[1] == 'u' && s.subrange(2, s.len() as int) == "n"@ {
            TokenType::Fun
        } else {
            TokenType::Identifier
        }
    } else if s[0] == 'i' {
        if s.subrange(1, s.len() as int) == "f"@ {
            TokenType::If
        } else {
            TokenType::Identifier
        }
    } else if s[0] == 'n' {
        if s.subrange(1, s.len() as int) == "il"@ {
            TokenType::Nil
        } else {
            TokenType::Identifier
        }
    } else if s[0] == 'o' {
        if s.subrange(1, s.len() as int) == "r"@ {
            TokenType::Or
        } else {
            TokenType::Identifier
        }
    } else if s[0] == 'p' {
        if s.subrange(1, s.len() as int) == "rint"@ {
            TokenType::Print
        } else {
            TokenType::Identifier
        }
    } else if s[0] == 'r' {
        if s.subrange(1, s.len() as int) == "eturn"@ {
            TokenType::Return
        } else {
            TokenType::Identifier
        }
    } else if s[0] == 's' {
        if s.subrange(1, s.len() as int) == "uper"@ {
            TokenType::Super
        } else {
            TokenType::Identifier
        }
    } else if s[0] == 't' {
        if s.len() > 1 && s[1] == 'h' && s.subrange(2, s.len() as int) == "is"@ {
            TokenType::This
        } else if s.len() > 1 && s[1] == 'r' && s.subrange(2, s.len() as int) == "ue"@ {
            TokenType::True
        } else {
            TokenType::Identifier
        }
    } else if s[0] == 'v' {
        if s.subrange(1, s.len() as int) == "ar"@ {
            TokenType::Var
        } else {
            TokenType::Identifier
        }
    } else if s[0] == 'w' {
        if s.subrange(1, s.len() as int) == "hile"@ {
            TokenType::While
        } else {
            TokenType::Identifier
        }
    } else {
        TokenType::Identifier
    }
}

} // verus!

