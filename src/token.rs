use vstd::prelude::*;

use crate::text::{
    alphabetic, alphanumeric, char_is_alphabetic, char_is_alphanumeric, char_is_digit, chars_of,
    is_digit, string_of,
};

verus! {

/// A lexical token.
#[derive(Debug, Clone, PartialEq)]
pub enum Token {
    // Literals
    Number(i64),
    String(String),
    Identifier(String),
    // Keywords
    Print,
    Let,
    If,
    Else,
    Endif,
    Assert,
    AssertNe,
    // Operators
    Plus,
    Minus,
    Star,
    Slash,
    Equal,
    EqualEqual,
    // Delimiters
    LParen,
    RParen,
    Comma,
    // Structure
    Newline,
    Eof,
}

/// Mathematical model of a token: text payloads are sequences of characters.
pub enum TokenModel {
    Number(i64),
    Str(Seq<char>),
    Ident(Seq<char>),
    Print,
    Let,
    If,
    Else,
    Endif,
    Assert,
    AssertNe,
    Plus,
    Minus,
    Star,
    Slash,
    Equal,
    EqualEqual,
    LParen,
    RParen,
    Comma,
    Newline,
    Eof,
}

impl View for Token {
    type V = TokenModel;

    open spec fn view(&self) -> TokenModel {
        match self {
            Token::Number(n) => TokenModel::Number(*n),
            Token::String(s) => TokenModel::Str(s@),
            Token::Identifier(s) => TokenModel::Ident(s@),
            Token::Print => TokenModel::Print,
            Token::Let => TokenModel::Let,
            Token::If => TokenModel::If,
            Token::Else => TokenModel::Else,
            Token::Endif => TokenModel::Endif,
            Token::Assert => TokenModel::Assert,
            Token::AssertNe => TokenModel::AssertNe,
            Token::Plus => TokenModel::Plus,
            Token::Minus => TokenModel::Minus,
            Token::Star => TokenModel::Star,
            Token::Slash => TokenModel::Slash,
            Token::Equal => TokenModel::Equal,
            Token::EqualEqual => TokenModel::EqualEqual,
            Token::LParen => TokenModel::LParen,
            Token::RParen => TokenModel::RParen,
            Token::Comma => TokenModel::Comma,
            Token::Newline => TokenModel::Newline,
            Token::Eof => TokenModel::Eof,
        }
    }
}

/// The models of a token list.
pub open spec fn tokens_view(ts: Seq<Token>) -> Seq<TokenModel> {
    ts.map_values(|t: Token| t@)
}

/// The character at `i`, if there is one.
pub open spec fn char_at(s: Seq<char>, i: int) -> Option<char> {
    if 0 <= i < s.len() {
        Some(s[i])
    } else {
        None
    }
}

/// The first position at or after `p` that holds a newline, or the end.
pub open spec fn line_end(s: Seq<char>, p: int) -> int
    decreases s.len() - p,
{
    if 0 <= p < s.len() && s[p] != '\n' {
        line_end(s, p + 1)
    } else {
        p
    }
}

/// The position just after the first `*/` at or after `p`, or the end.
pub open spec fn block_end(s: Seq<char>, p: int) -> int
    decreases s.len() - p,
{
    if 0 <= p < s.len() {
        if s[p] == '*' && char_at(s, p + 1) == Some('/') {
            p + 2
        } else {
            block_end(s, p + 1)
        }
    } else {
        p
    }
}

/// The first position at or after `p` that holds a double quote, or the end.
pub open spec fn quote_end(s: Seq<char>, p: int) -> int
    decreases s.len() - p,
{
    if 0 <= p < s.len() && s[p] != '"' {
        quote_end(s, p + 1)
    } else {
        p
    }
}

/// The end of the run of decimal digits that starts at `p`.
pub open spec fn digits_end(s: Seq<char>, p: int) -> int
    decreases s.len() - p,
{
    if 0 <= p < s.len() && is_digit(s[p]) {
        digits_end(s, p + 1)
    } else {
        p
    }
}

/// Characters that may continue an identifier.
pub open spec fn is_word_char(c: char) -> bool {
    alphanumeric(c) || c == '_'
}

/// The end of the run of identifier characters that starts at `p`.
pub open spec fn word_end(s: Seq<char>, p: int) -> int
    decreases s.len() - p,
{
    if 0 <= p < s.len() && is_word_char(s[p]) {
        word_end(s, p + 1)
    } else {
        p
    }
}

/// The base-10 value of a sequence of digits.
pub open spec fn digits_value(d: Seq<char>) -> int
    decreases d.len(),
{
    if d.len() == 0 {
        0
    } else {
        digits_value(d.drop_last()) * 10 + (d.last() as int - '0' as int)
    }
}

/// The value of a number token: its digits' value, or 0 where that does not fit.
pub open spec fn number_value(d: Seq<char>) -> i64 {
    if digits_value(d) <= i64::MAX {
        digits_value(d) as i64
    } else {
        0
    }
}

/// A keyword token for a reserved word, an identifier token otherwise.
pub open spec fn word_token(w: Seq<char>) -> TokenModel {
    if w == "print"@ {
        TokenModel::Print
    } else if w == "let"@ {
        TokenModel::Let
    } else if w == "if"@ {
        TokenModel::If
    } else if w == "else"@ {
        TokenModel::Else
    } else if w == "endif"@ {
        TokenModel::Endif
    } else if w == "assert"@ {
        TokenModel::Assert
    } else if w == "assert_ne"@ {
        TokenModel::AssertNe
    } else {
        TokenModel::Ident(w)
    }
}

proof fn lemma_ends_advance(s: Seq<char>, p: int)
    ensures
        line_end(s, p) >= p,
        block_end(s, p) >= p,
        quote_end(s, p) >= p,
        digits_end(s, p) >= p,
        word_end(s, p) >= p,
        line_end(s, p) <= s.len() || line_end(s, p) == p,
        block_end(s, p) <= s.len() || block_end(s, p) == p,
        quote_end(s, p) <= s.len() || quote_end(s, p) == p,
        digits_end(s, p) <= s.len() || digits_end(s, p) == p,
        word_end(s, p) <= s.len() || word_end(s, p) == p,
    decreases s.len() - p,
{
    if 0 <= p < s.len() {
        lemma_ends_advance(s, p + 1);
    }
}

/// Where the text of a line comment starts: after its marker, or at the end.
pub open spec fn comment_body(pos: int, marker: int, len: int) -> int {
    if pos + marker <= len {
        pos + marker
    } else {
        len
    }
}

pub open spec fn moves_on(from: int, to: int, len: int) -> bool {
    from < to <= len
}

/// The next token at or after `pos`, with the position just after it. Blanks,
/// comments and unknown characters are passed over; at the end it is `Eof`.
pub open spec fn scan(s: Seq<char>, pos: int) -> (TokenModel, int)
    decreases s.len() - pos,
{
    let len = s.len() as int;
    if pos < 0 || pos >= len {
        (TokenModel::Eof, len)
    } else {
        let c = s[pos];
        let next = char_at(s, pos + 1);
        if c == ' ' || c == '\t' || c == '\r' {
            scan(s, pos + 1)
        } else if c == '\n' {
            (TokenModel::Newline, pos + 1)
        } else if c == '#' || (c == '/' && next == Some('/')) {
            let q = line_end(s, comment_body(pos, if c == '#' { 1 } else { 2 }, len));
            if moves_on(pos, q, len) {
                scan(s, q)
            } else {
                (TokenModel::Eof, len)
            }
        } else if c == '/' && next == Some('*') && char_at(s, pos + 2) == Some('*') {
            let q = block_end(s, pos + 3);
            if moves_on(pos, q, len) {
                scan(s, q)
            } else {
                (TokenModel::Eof, len)
            }
        } else if c == '"' {
            let q = quote_end(s, pos + 1);
            (TokenModel::Str(s.subrange(pos + 1, q)), if q < len { q + 1 } else { q })
        } else if is_digit(c) {
            let q = digits_end(s, pos);
            (TokenModel::Number(number_value(s.subrange(pos, q))), q)
        } else if alphabetic(c) || c == '_' {
            let q = word_end(s, pos + 1);
            (word_token(s.subrange(pos, q)), q)
        } else if c == '+' {
            (TokenModel::Plus, pos + 1)
        } else if c == '-' {
            (TokenModel::Minus, pos + 1)
        } else if c == '*' {
            (TokenModel::Star, pos + 1)
        } else if c == '/' {
            (TokenModel::Slash, pos + 1)
        } else if c == '=' {
            if next == Some('=') {
                (TokenModel::EqualEqual, pos + 2)
            } else {
                (TokenModel::Equal, pos + 1)
            }
        } else if c == '(' {
            (TokenModel::LParen, pos + 1)
        } else if c == ')' {
            (TokenModel::RParen, pos + 1)
        } else if c == ',' {
            (TokenModel::Comma, pos + 1)
        } else {
            scan(s, pos + 1)
        }
    }
}

/// All tokens from `pos` on, ending with the single `Eof`.
pub open spec fn lex_from(s: Seq<char>, pos: int) -> Seq<TokenModel>
    decreases s.len() - pos,
{
    let (t, q) = scan(s, pos);
    if t is Eof {
        seq![TokenModel::Eof]
    } else if moves_on(pos, q, s.len() as int) {
        seq![t] + lex_from(s, q)
    } else {
        seq![t]
    }
}

/// The token sequence of a source text.
pub open spec fn lex(s: Seq<char>) -> Seq<TokenModel> {
    lex_from(s, 0)
}

/// Scans source text into tokens, left to right.
pub struct Tokenizer {
    input: Vec<char>,
    pos: usize,
}

impl Tokenizer {
    pub closed spec fn wf(&self) -> bool {
        self.pos <= self.input@.len()
    }

    /// The source characters.
    pub closed spec fn source(&self) -> Seq<char> {
        self.input@
    }

    /// The position of the next character to scan.
    pub closed spec fn position(&self) -> int {
        self.pos as int
    }

    /// A tokenizer at the start of `input`.
    pub fn new(input: &str) -> (r: Self)
        ensures
            r.wf(),
            r.source() == input@,
            r.position() == 0,
    {
        Tokenizer { input: chars_of(input), pos: 0 }
    }

    fn current(&self) -> (r: Option<char>)
        ensures
            r == char_at(self.input@, self.pos as int),
    {
        if self.pos < self.input.len() {
            Some(self.input[self.pos])
        } else {
            None
        }
    }

    /// Whether the character `offset` places ahead is `c`.
    fn peek_is(&self, offset: usize, c: char) -> (r: bool)
        requires
            self.wf(),
        ensures
            r == (char_at(self.input@, self.pos + offset) == Some(c)),
    {
        if offset < self.input.len() - self.pos {
            self.input[self.pos + offset] == c
        } else {
            false
        }
    }

    fn advance(&mut self)
        requires
            old(self).wf(),
        ensures
            final(self).wf(),
            final(self).input == old(self).input,
            final(self).pos == if old(self).pos < old(self).input@.len() {
                old(self).pos + 1
            } else {
                old(self).pos as int
            },
    {
        if self.pos < self.input.len() {
            self.pos += 1;
        }
    }

    fn skip_whitespace(&mut self)
        requires
            old(self).wf(),
        ensures
            final(self).wf(),
            final(self).input == old(self).input,
            old(self).pos <= final(self).pos,
            scan(final(self).input@, final(self).pos as int) == scan(old(self).input@, old(self).pos as int),
            !(char_at(final(self).input@, final(self).pos as int) matches Some(c) && (c == ' ' || c == '\t' || c == '\r')),
    {
        while self.pos < self.input.len()
            invariant
                self.wf(),
                self.input == old(self).input,
                old(self).pos <= self.pos,
                scan(self.input@, self.pos as int) == scan(old(self).input@, old(self).pos as int),
            ensures
                self.wf(),
                self.input == old(self).input,
                old(self).pos <= self.pos,
                scan(self.input@, self.pos as int) == scan(old(self).input@, old(self).pos as int),
                !(char_at(self.input@, self.pos as int) matches Some(c) && (c == ' ' || c == '\t' || c == '\r')),
            decreases self.input@.len() - self.pos,
        {
            let ch = self.input[self.pos];
            if ch == ' ' || ch == '\t' || ch == '\r' {
                self.advance();
            } else {
                break;
            }
        }
    }

    /// Skips a line comment whose marker is `marker` characters long, up to
    /// (not past) the next newline.
    fn skip_line_comment(&mut self, marker: usize)
        requires
            old(self).wf(),
            marker <= 2,
        ensures
            final(self).wf(),
            final(self).input == old(self).input,
            final(self).pos == line_end(
                old(self).input@,
                comment_body(old(self).pos as int, marker as int, old(self).input@.len() as int),
            ),
    {
        let mut i: usize = 0;
        while i < marker
            invariant
                self.wf(),
                self.input == old(self).input,
                i <= marker <= 2,
                self.pos == comment_body(old(self).pos as int, i as int, old(self).input@.len() as int),
            decreases marker - i,
        {
            self.advance();
            i += 1;
        }
        while self.pos < self.input.len()
            invariant
                self.wf(),
                self.input == old(self).input,
                line_end(self.input@, self.pos as int) == line_end(
                    old(self).input@,
                    comment_body(old(self).pos as int, marker as int, old(self).input@.len() as int),
                ),
            ensures
                self.wf(),
                self.input == old(self).input,
                line_end(self.input@, self.pos as int) == self.pos,
                line_end(self.input@, self.pos as int) == line_end(
                    old(self).input@,
                    comment_body(old(self).pos as int, marker as int, old(self).input@.len() as int),
                ),
            decreases self.input@.len() - self.pos,
        {
            if self.input[self.pos] == '\n' {
                break;
            }
            self.advance();
        }
    }

    fn skip_block_comment(&mut self)
        requires
            old(self).wf(),
            old(self).pos + 3 <= old(self).input@.len(),
        ensures
            final(self).wf(),
            final(self).input == old(self).input,
            final(self).pos == block_end(old(self).input@, old(self).pos + 3),
    {
        self.advance();
        self.advance();
        self.advance();
        while self.pos < self.input.len()
            invariant
                self.wf(),
                self.input == old(self).input,
                block_end(self.input@, self.pos as int) == block_end(old(self).input@, old(self).pos + 3),
            decreases self.input@.len() - self.pos,
        {
            if self.input[self.pos] == '*' && self.peek_is(1, '/') {
                self.advance();
                self.advance();
                return;
            }
            self.advance();
        }
    }

    fn read_number(&mut self) -> (r: i64)
        requires
            old(self).wf(),
        ensures
            final(self).wf(),
            final(self).input == old(self).input,
            final(self).pos == digits_end(old(self).input@, old(self).pos as int),
            r == number_value(old(self).input@.subrange(old(self).pos as int, final(self).pos as int)),
    {
        let start = self.pos;
        let mut value: i64 = 0;
        let mut too_large = false;
        while self.pos < self.input.len()
            invariant
                self.wf(),
                self.input == old(self).input,
                start == old(self).pos,
                start <= self.pos,
                digits_end(self.input@, self.pos as int) == digits_end(self.input@, start as int),
                value >= 0,
                !too_large ==> value == digits_value(self.input@.subrange(start as int, self.pos as int)),
                too_large ==> digits_value(self.input@.subrange(start as int, self.pos as int)) > i64::MAX,
            ensures
                self.wf(),
                self.input == old(self).input,
                start <= self.pos,
                digits_end(self.input@, self.pos as int) == self.pos,
                digits_end(self.input@, self.pos as int) == digits_end(self.input@, start as int),
                value >= 0,
                !too_large ==> value == digits_value(self.input@.subrange(start as int, self.pos as int)),
                too_large ==> digits_value(self.input@.subrange(start as int, self.pos as int)) > i64::MAX,
            decreases self.input@.len() - self.pos,
        {
            let ch = self.input[self.pos];
            if !char_is_digit(ch) {
                break;
            }
            let ghost before = self.input@.subrange(start as int, self.pos as int);
            let d = (ch as u32 - '0' as u32) as i128;
            self.advance();
            proof {
                let now = self.input@.subrange(start as int, self.pos as int);
                assert(now.drop_last() =~= before);
                assert(now.last() == ch);
                assert(d == ch as int - '0' as int);
                assert(digits_value(now) == digits_value(before) * 10 + d);
            }
            if !too_large {
                let next = value as i128 * 10 + d;
                if next > i64::MAX as i128 {
                    too_large = true;
                } else {
                    value = next as i64;
                }
            }
        }
        if too_large {
            0
        } else {
            value
        }
    }

    fn read_string(&mut self) -> (r: String)
        requires
            old(self).wf(),
            old(self).pos < old(self).input@.len(),
        ensures
            final(self).wf(),
            final(self).input == old(self).input,
            old(self).pos < final(self).pos,
            ({
                let q = quote_end(old(self).input@, old(self).pos + 1);
                &&& r@ == old(self).input@.subrange(old(self).pos + 1, q)
                &&& final(self).pos == if q < old(self).input@.len() {
                    q + 1
                } else {
                    q
                }
            }),
    {
        self.advance();
        let start = self.pos;
        let mut content: Vec<char> = Vec::new();
        while self.pos < self.input.len()
            invariant
                self.wf(),
                self.input == old(self).input,
                start == old(self).pos + 1,
                start <= self.pos,
                quote_end(self.input@, self.pos as int) == quote_end(self.input@, start as int),
                content@ == self.input@.subrange(start as int, self.pos as int),
            decreases self.input@.len() - self.pos,
        {
            let ch = self.input[self.pos];
            if ch == '"' {
                self.advance();
                return string_of(content.as_slice());
            }
            content.push(ch);
            self.advance();
            assert(content@ =~= self.input@.subrange(start as int, self.pos as int));
        }
        string_of(content.as_slice())
    }

    fn read_identifier(&mut self) -> (r: String)
        requires
            old(self).wf(),
            old(self).pos < old(self).input@.len(),
        ensures
            final(self).wf(),
            final(self).input == old(self).input,
            old(self).pos < final(self).pos,
            final(self).pos == word_end(old(self).input@, old(self).pos + 1),
            r@ == old(self).input@.subrange(old(self).pos as int, final(self).pos as int),
    {
        let start = self.pos;
        let mut word: Vec<char> = Vec::new();
        word.push(self.input[self.pos]);
        self.advance();
        assert(word@ =~= self.input@.subrange(start as int, self.pos as int));
        while self.pos < self.input.len()
            invariant
                self.wf(),
                self.input == old(self).input,
                start == old(self).pos,
                start < self.pos,
                word_end(self.input@, self.pos as int) == word_end(self.input@, start + 1),
                word@ == self.input@.subrange(start as int, self.pos as int),
            ensures
                self.wf(),
                self.input == old(self).input,
                word_end(self.input@, self.pos as int) == self.pos,
                word_end(self.input@, self.pos as int) == word_end(self.input@, start + 1),
                word@ == self.input@.subrange(start as int, self.pos as int),
            decreases self.input@.len() - self.pos,
        {
            let ch = self.input[self.pos];
            if !(char_is_alphanumeric(ch) || ch == '_') {
                break;
            }
            word.push(ch);
            self.advance();
            assert(word@ =~= self.input@.subrange(start as int, self.pos as int));
        }
        string_of(word.as_slice())
    }
}

impl Tokenizer {
    /// The next token, with blanks, comments and unknown characters passed over.
    pub fn next_token(&mut self) -> (t: Token)
        requires
            old(self).wf(),
        ensures
            final(self).wf(),
            final(self).source() == old(self).source(),
            (t@, final(self).position()) == scan(old(self).source(), old(self).position()),
            !(t@ is Eof) ==> old(self).position() < final(self).position(),
    {
        let ghost s = self.input@;
        loop
            invariant
                self.wf(),
                self.input == old(self).input,
                s == self.input@,
                old(self).pos <= self.pos,
                scan(s, self.pos as int) == scan(s, old(self).pos as int),
            decreases s.len() - self.pos,
        {
            self.skip_whitespace();
            proof {
                lemma_ends_advance(s, self.pos as int);
                lemma_ends_advance(s, self.pos + 1);
                lemma_ends_advance(s, self.pos + 2);
                lemma_ends_advance(s, self.pos + 3);
            }
            let c = match self.current() {
                None => return Token::Eof,
                Some(c) => c,
            };
            let p = self.pos;
            if c == '\n' {
                self.advance();
                return Token::Newline;
            } else if c == '#' {
                self.skip_line_comment(1);
            } else if c == '/' && self.peek_is(1, '/') {
                self.skip_line_comment(2);
            } else if c == '/' && self.peek_is(1, '*') && self.peek_is(2, '*') {
                self.skip_block_comment();
            } else if c == '"' {
                return Token::String(self.read_string());
            } else if char_is_digit(c) {
                return Token::Number(self.read_number());
            } else if char_is_alphabetic(c) || c == '_' {
                let w = self.read_identifier();
                return word_to_token(w);
            } else if c == '+' {
                self.advance();
                return Token::Plus;
            } else if c == '-' {
                self.advance();
                return Token::Minus;
            } else if c == '*' {
                self.advance();
                return Token::Star;
            } else if c == '/' {
                self.advance();
                return Token::Slash;
            } else if c == '=' {
                if self.peek_is(1, '=') {
                    self.advance();
                    self.advance();
                    return Token::EqualEqual;
                }
                self.advance();
                return Token::Equal;
            } else if c == '(' {
                self.advance();
                return Token::LParen;
            } else if c == ')' {
                self.advance();
                return Token::RParen;
            } else if c == ',' {
                self.advance();
                return Token::Comma;
            } else {
                self.advance();
            }
        }
    }

    /// All remaining tokens, ending with exactly one `Eof`.
    pub fn tokenize(&mut self) -> (r: Vec<Token>)
        requires
            old(self).wf(),
        ensures
            final(self).wf(),
            final(self).source() == old(self).source(),
            tokens_view(r@) == lex_from(old(self).source(), old(self).position()),
    {
        let ghost s = self.input@;
        let mut tokens: Vec<Token> = Vec::new();
        loop
            invariant_except_break
                tokens_view(tokens@) + lex_from(s, self.pos as int) == lex_from(s, old(self).pos as int),
            invariant
                self.wf(),
                s == self.input@,
                old(self).input@ == self.input@,
            ensures
                self.wf(),
                s == self.input@,
                old(self).input@ == self.input@,
                tokens_view(tokens@) == lex_from(s, old(self).pos as int),
            decreases s.len() - self.pos,
        {
            let ghost p = self.pos as int;
            let ghost before = tokens@;
            let token = self.next_token();
            let done = matches!(token, Token::Eof);
            tokens.push(token);
            assert(tokens_view(tokens@) =~= tokens_view(before).push(tokens@.last()@));
            if done {
                assert(lex_from(s, p) =~= seq![TokenModel::Eof]);
                assert(tokens_view(tokens@) =~= tokens_view(before) + lex_from(s, p));
                break;
            }
            assert(lex_from(s, p) =~= seq![tokens@.last()@] + lex_from(s, self.pos as int));
            assert(tokens_view(tokens@) + lex_from(s, self.pos as int) =~= tokens_view(before) + lex_from(s, p));
        }
        tokens
    }
}

/// The keyword token for a reserved word, an identifier token otherwise.
fn word_to_token(w: String) -> (t: Token)
    ensures
        t@ == word_token(w@),
{
    if w.eq(&String::from_str("print")) {
        Token::Print
    } else if w.eq(&String::from_str("let")) {
        Token::Let
    } else if w.eq(&String::from_str("if")) {
        Token::If
    } else if w.eq(&String::from_str("else")) {
        Token::Else
    } else if w.eq(&String::from_str("endif")) {
        Token::Endif
    } else if w.eq(&String::from_str("assert")) {
        Token::Assert
    } else if w.eq(&String::from_str("assert_ne")) {
        Token::AssertNe
    } else {
        Token::Identifier(w)
    }
}

/// Every token but `Eof` is found strictly ahead of where the scan started,
/// and no further than the end.
proof fn lemma_scan_moves_on(s: Seq<char>, pos: int)
    ensures
        !(scan(s, pos).0 is Eof) ==> moves_on(pos, scan(s, pos).1, s.len() as int),
    decreases s.len() - pos,
{
    let len = s.len() as int;
    if 0 <= pos < len {
        lemma_ends_advance(s, pos);
        lemma_ends_advance(s, pos + 1);
        lemma_ends_advance(s, pos + 2);
        lemma_ends_advance(s, pos + 3);
        lemma_ends_advance(s, len);
        lemma_scan_moves_on(s, pos + 1);
        let c = s[pos];
        let next = char_at(s, pos + 1);
        if c == '#' || (c == '/' && next == Some('/')) {
            let q = line_end(s, comment_body(pos, if c == '#' { 1 } else { 2 }, len));
            if moves_on(pos, q, len) {
                lemma_scan_moves_on(s, q);
            }
        } else if c == '/' && next == Some('*') && char_at(s, pos + 2) == Some('*') {
            let q = block_end(s, pos + 3);
            if moves_on(pos, q, len) {
                lemma_scan_moves_on(s, q);
            }
        }
    }
}

/// The token sequence from any position ends with `Eof`, and holds no other.
pub proof fn lex_ends_with_one_eof(s: Seq<char>, pos: int)
    ensures
        lex_from(s, pos).len() >= 1,
        lex_from(s, pos).last() is Eof,
        forall|i: int| 0 <= i < lex_from(s, pos).len() - 1 ==> !(#[trigger] lex_from(s, pos)[i] is Eof),
    decreases s.len() - pos,
{
    let (t, q) = scan(s, pos);
    lemma_scan_moves_on(s, pos);
    if !(t is Eof) {
        lex_ends_with_one_eof(s, q);
        let rest = lex_from(s, q);
        assert forall|i: int| 0 <= i < lex_from(s, pos).len() - 1 implies !(#[trigger] lex_from(s, pos)[i] is Eof) by {
            if i > 0 {
                assert(lex_from(s, pos)[i] == rest[i - 1]);
            }
        }
    }
}

} // verus!
