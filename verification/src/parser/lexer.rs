use vstd::prelude::*;
use vstd::string::*;
use crate::errors::ParseError;
use crate::parser::token::{lexemes, Lexeme, Token, TokenKind, TokenType};

verus! {

pub open spec fn is_digit(c: char) -> bool {
    '0' <= c <= '9'
}

pub open spec fn is_alpha(c: char) -> bool {
    ('a' <= c <= 'z') || ('A' <= c <= 'Z') || c == '_'
}

/// The classes of characters of which a token can hold a run.
#[derive(Clone, Copy, Debug, PartialEq, Eq, Structural)]
pub enum Class {
    /// Decimal digits.
    Digit,
    /// Letters, digits and the underscore.
    Word,
    /// Everything but the double quote.
    Quoted,
    /// The line break.
    Break,
}

pub open spec fn in_class(c: char, class: Class) -> bool {
    match class {
        Class::Digit => is_digit(c),
        Class::Word => is_alpha(c) || is_digit(c),
        Class::Quoted => c != '"',
        Class::Break => c == '\n',
    }
}

/// Where the run of characters of a class that starts at `from` ends.
pub open spec fn run_end(chars: Seq<char>, from: int, class: Class) -> int
    decreases chars.len() - from,
{
    if from < 0 || from >= chars.len() || !in_class(chars[from], class) {
        from
    } else {
        run_end(chars, from + 1, class)
    }
}

/// The number of line breaks from `from` up to `to`.
pub open spec fn breaks(chars: Seq<char>, from: int, to: int) -> nat
    decreases to - from,
{
    if from >= to {
        0
    } else {
        breaks(chars, from, to - 1) + if chars[to - 1] == '\n' {
            1nat
        } else {
            0nat
        }
    }
}

/// The token of a character that is a token by itself.
pub open spec fn single(c: char) -> Option<TokenKind> {
    if c == '(' {
        Some(TokenKind::LeftBrace)
    } else if c == ')' {
        Some(TokenKind::RightBrace)
    } else if c == '{' {
        Some(TokenKind::LeftParen)
    } else if c == '}' {
        Some(TokenKind::RightParen)
    } else if c == '[' {
        Some(TokenKind::LeftSquareBracket)
    } else if c == ']' {
        Some(TokenKind::RightSquareBracket)
    } else if c == '^' {
        Some(TokenKind::Pow)
    } else if c == ',' {
        Some(TokenKind::Comma)
    } else if c == '+' {
        Some(TokenKind::Plus)
    } else if c == '-' {
        Some(TokenKind::Minus)
    } else if c == '*' {
        Some(TokenKind::Star)
    } else if c == ';' {
        Some(TokenKind::Semicolon)
    } else if c == ':' {
        Some(TokenKind::Colon)
    } else {
        None
    }
}

/// The keyword that a word is, if it is one.
pub open spec fn keyword(word: Seq<char>) -> Option<TokenKind> {
    if word == "if"@ {
        Some(TokenKind::If)
    } else if word == "is"@ {
        Some(TokenKind::Is)
    } else if word == "else"@ {
        Some(TokenKind::Else)
    } else if word == "print"@ {
        Some(TokenKind::Print)
    } else if word == "and"@ {
        Some(TokenKind::And)
    } else if word == "or"@ {
        Some(TokenKind::Or)
    } else if word == "null"@ {
        Some(TokenKind::Nil)
    } else if word == "not"@ {
        Some(TokenKind::Not)
    } else if word == "for"@ {
        Some(TokenKind::For)
    } else if word == "while"@ {
        Some(TokenKind::While)
    } else if word == "return"@ {
        Some(TokenKind::Return)
    } else if word == "true"@ {
        Some(TokenKind::True)
    } else if word == "false"@ {
        Some(TokenKind::False)
    } else if word == "var"@ {
        Some(TokenKind::Var)
    } else if word == "fun"@ {
        Some(TokenKind::Fun)
    } else if word == "break"@ {
        Some(TokenKind::Break)
    } else if word == "const"@ {
        Some(TokenKind::Const)
    } else if word == "loop"@ {
        Some(TokenKind::Loop)
    } else if word == "reverse"@ {
        Some(TokenKind::Reverse)
    } else if word == "as"@ {
        Some(TokenKind::As)
    } else {
        None
    }
}

/// The keyword that the word from `pos` up to `end` is. A word that stands
/// between a closing and an opening round bracket is none, whatever it
/// spells: it is a part of the name of a function, as `and` is in
/// `add(a)and(b)`.
pub open spec fn name_or_keyword(chars: Seq<char>, pos: int, end: int) -> Option<TokenKind> {
    if follows(chars, pos - 1, ')') && follows(chars, end, '(') {
        None
    } else {
        keyword(chars.subrange(pos, end))
    }
}

/// True when the character at `at` is `c`.
pub open spec fn follows(chars: Seq<char>, at: int, c: char) -> bool {
    0 <= at < chars.len() && chars[at] == c
}

/// What the scan of one token gives: the tokens (none for blank space, and
/// two for `!=`), where the scan goes on, and the line there.
pub struct Step {
    pub tokens: Seq<Lexeme>,
    pub pos: int,
    pub line: u128,
}

/// A step, or the message and the line of an error.
pub type Scan = Result<Step, (Seq<char>, u128)>;

pub open spec fn plain(kind: TokenKind, line: u128) -> Lexeme {
    Lexeme { kind: kind, text: Seq::empty(), line: line }
}

pub open spec fn one(kind: TokenKind, pos: int, line: u128) -> Scan {
    Ok(Step { tokens: seq![plain(kind, line)], pos: pos, line: line })
}

pub open spec fn nothing(pos: int, line: u128) -> Scan {
    Ok(Step { tokens: Seq::empty(), pos: pos, line: line })
}

/// Where a number that starts with a digit before `from` ends: after the
/// digits and, where a point and a digit follow them, after the digits that
/// follow the point.
pub open spec fn number_end(chars: Seq<char>, from: int) -> int {
    let whole = run_end(chars, from, Class::Digit);
    if follows(chars, whole, '.') && whole + 1 < chars.len() && is_digit(chars[whole + 1]) {
        run_end(chars, whole + 1, Class::Digit)
    } else {
        whole
    }
}

/// The scan of the token that starts at `pos`. Blank space gives no token;
/// after two slashes the line breaks that follow are skipped; `==` reads
/// as `is` and `!=` as `is not`.
pub open spec fn scan_one(chars: Seq<char>, pos: int, line: u128) -> Scan {
    let c = chars[pos];
    let next = pos + 1;
    if single(c) is Some {
        one(single(c)->0, next, line)
    } else if c == '.' {
        if follows(chars, next, '.') {
            one(TokenKind::DoubleDot, next + 1, line)
        } else {
            one(TokenKind::Dot, next, line)
        }
    } else if c == '=' {
        if follows(chars, next, '=') {
            one(TokenKind::Is, next + 1, line)
        } else {
            one(TokenKind::Equal, next, line)
        }
    } else if c == '!' {
        if follows(chars, next, '=') {
            Ok(
                Step {
                    tokens: seq![plain(TokenKind::Is, line), plain(TokenKind::Not, line)],
                    pos: next + 1,
                    line: line,
                },
            )
        } else {
            Err(("Unexpected character."@, line))
        }
    } else if c == '>' {
        if follows(chars, next, '=') {
            one(TokenKind::GraterEqual, next + 1, line)
        } else {
            one(TokenKind::Grater, next, line)
        }
    } else if c == '<' {
        if follows(chars, next, '=') {
            one(TokenKind::LessEqual, next + 1, line)
        } else {
            one(TokenKind::Less, next, line)
        }
    } else if c == '/' {
        if follows(chars, next, '/') {
            nothing(run_end(chars, next + 1, Class::Break), line)
        } else {
            one(TokenKind::Slash, next, line)
        }
    } else if c == ' ' || c == '\t' || c == '\r' {
        nothing(next, line)
    } else if c == '\n' {
        nothing(next, (line + 1) as u128)
    } else if is_digit(c) {
        let end = number_end(chars, next);
        Ok(
            Step {
                tokens: seq![
                    Lexeme { kind: TokenKind::Number, text: chars.subrange(pos, end), line: line },
                ],
                pos: end,
                line: line,
            },
        )
    } else if is_alpha(c) {
        let end = run_end(chars, next, Class::Word);
        let word = chars.subrange(pos, end);
        match name_or_keyword(chars, pos, end) {
            Some(kind) => one(kind, end, line),
            None => Ok(
                Step {
                    tokens: seq![Lexeme { kind: TokenKind::Identifier, text: word, line: line }],
                    pos: end,
                    line: line,
                },
            ),
        }
    } else if c == '"' {
        let end = run_end(chars, next, Class::Quoted);
        let last = (line + breaks(chars, next, end)) as u128;
        if end >= chars.len() {
            Err(("Unterminated string."@, last))
        } else {
            Ok(
                Step {
                    tokens: seq![
                        Lexeme {
                            kind: TokenKind::String,
                            text: chars.subrange(next, end),
                            line: last,
                        },
                    ],
                    pos: end + 1,
                    line: last,
                },
            )
        }
    } else if c == '\'' {
        if follows(chars, next, 's') {
            one(TokenKind::Possesive, next + 1, line)
        } else {
            Err(("Unexpected character."@, line))
        }
    } else {
        Err(("Unexpected character."@, line))
    }
}

/// The tokens of a text from `pos` on, after the tokens so far; the last
/// token is the end of the text.
pub open spec fn scan_from(chars: Seq<char>, pos: int, line: u128, tokens: Seq<Lexeme>) -> Result<
    Seq<Lexeme>,
    (Seq<char>, u128),
>
    decreases chars.len() - pos,
{
    if pos < 0 || pos >= chars.len() {
        Ok(tokens.push(plain(TokenKind::Eof, line)))
    } else {
        match scan_one(chars, pos, line) {
            Err(e) => Err(e),
            Ok(step) => if step.pos <= pos || step.pos > chars.len() {
                Err(("Unexpected character."@, line))
            } else {
                scan_from(chars, step.pos, step.line, tokens + step.tokens)
            },
        }
    }
}

/// The tokens of a text.
pub open spec fn scan(chars: Seq<char>) -> Result<Seq<Lexeme>, (Seq<char>, u128)> {
    scan_from(chars, 0, 1, Seq::empty())
}

pub proof fn lemma_run_end_is(chars: Seq<char>, from: int, end: int, class: Class)
    requires
        0 <= from <= end <= chars.len(),
        forall|i: int| from <= i < end ==> in_class(chars[i], class),
        end < chars.len() ==> !in_class(chars[end], class),
    ensures
        run_end(chars, from, class) == end,
    decreases end - from,
{
    if from < end {
        lemma_run_end_is(chars, from + 1, end, class);
    }
}

proof fn lemma_breaks_bound(chars: Seq<char>, from: int, to: int)
    ensures
        breaks(chars, from, to) <= if to >= from {
            to - from
        } else {
            0
        },
    decreases to - from,
{
    if from < to {
        lemma_breaks_bound(chars, from, to - 1);
    }
}

/// The scanner of a text.
pub struct Lexer {
    pub source: String,
    pub chars: Vec<char>,
    pub tokens: Vec<Token>,
    pub start: usize,
    pub current: usize,
    pub line: u128,
}

fn digit(c: char) -> (r: bool)
    ensures
        r == is_digit(c),
{
    '0' <= c && c <= '9'
}

fn alpha(c: char) -> (r: bool)
    ensures
        r == is_alpha(c),
{
    ('a' <= c && c <= 'z') || ('A' <= c && c <= 'Z') || c == '_'
}

fn classed(c: char, class: Class) -> (r: bool)
    ensures
        r == in_class(c, class),
{
    match class {
        Class::Digit => digit(c),
        Class::Word => alpha(c) || digit(c),
        Class::Quoted => c != '"',
        Class::Break => c == '\n',
    }
}

fn single_kind(c: char) -> (kind: Option<TokenKind>)
    ensures
        kind == single(c),
{
    if c == '(' {
        Some(TokenKind::LeftBrace)
    } else if c == ')' {
        Some(TokenKind::RightBrace)
    } else if c == '{' {
        Some(TokenKind::LeftParen)
    } else if c == '}' {
        Some(TokenKind::RightParen)
    } else if c == '[' {
        Some(TokenKind::LeftSquareBracket)
    } else if c == ']' {
        Some(TokenKind::RightSquareBracket)
    } else if c == '^' {
        Some(TokenKind::Pow)
    } else if c == ',' {
        Some(TokenKind::Comma)
    } else if c == '+' {
        Some(TokenKind::Plus)
    } else if c == '-' {
        Some(TokenKind::Minus)
    } else if c == '*' {
        Some(TokenKind::Star)
    } else if c == ';' {
        Some(TokenKind::Semicolon)
    } else if c == ':' {
        Some(TokenKind::Colon)
    } else {
        None
    }
}

fn is_word(word: &String, literal: &str) -> (r: bool)
    ensures
        r == (word@ == literal@),
{
    let other = String::from_str(literal);
    *word == other
}

/// The keyword that a word is, if it is one.
pub fn keyword_kind(word: &String) -> (kind: Option<TokenKind>)
    ensures
        kind == keyword(word@),
{
    if is_word(word, "if") {
        Some(TokenKind::If)
    } else if is_word(word, "is") {
        Some(TokenKind::Is)
    } else if is_word(word, "else") {
        Some(TokenKind::Else)
    } else if is_word(word, "print") {
        Some(TokenKind::Print)
    } else if is_word(word, "and") {
        Some(TokenKind::And)
    } else if is_word(word, "or") {
        Some(TokenKind::Or)
    } else if is_word(word, "null") {
        Some(TokenKind::Nil)
    } else if is_word(word, "not") {
        Some(TokenKind::Not)
    } else if is_word(word, "for") {
        Some(TokenKind::For)
    } else if is_word(word, "while") {
        Some(TokenKind::While)
    } else if is_word(word, "return") {
        Some(TokenKind::Return)
    } else if is_word(word, "true") {
        Some(TokenKind::True)
    } else if is_word(word, "false") {
        Some(TokenKind::False)
    } else if is_word(word, "var") {
        Some(TokenKind::Var)
    } else if is_word(word, "fun") {
        Some(TokenKind::Fun)
    } else if is_word(word, "break") {
        Some(TokenKind::Break)
    } else if is_word(word, "const") {
        Some(TokenKind::Const)
    } else if is_word(word, "loop") {
        Some(TokenKind::Loop)
    } else if is_word(word, "reverse") {
        Some(TokenKind::Reverse)
    } else if is_word(word, "as") {
        Some(TokenKind::As)
    } else {
        None
    }
}

/// True when a scan step ended as the scan of one token says.
pub open spec fn scanned(before: Lexer, after: Lexer, r: Result<(), ParseError>) -> bool {
    match scan_one(before.chars@, before.current as int, before.line) {
        Ok(step) => {
            &&& r is Ok
            &&& lexemes(after.tokens@) == lexemes(before.tokens@) + step.tokens
            &&& after.current == step.pos
            &&& after.line == step.line
            &&& after.current > before.current
        },
        Err(e) => r matches Err(error) && error.message@ == e.0 && error.line == e.1,
    }
}

impl Lexer {
    /// The text is held as its characters, and the scan has not gone past
    /// its end nor counted more lines than it has read characters.
    pub open spec fn wf(&self) -> bool {
        &&& self.chars@ == self.source@
        &&& self.current <= self.chars.len()
        &&& self.line <= self.current + 1
    }

    pub fn new(source: &str) -> (lexer: Self)
        ensures
            lexer.wf(),
            lexer.source@ == source@,
            lexer.tokens@.len() == 0,
            lexer.current == 0,
            lexer.line == 1,
    {
        let len = source.unicode_len();
        let mut chars: Vec<char> = Vec::new();
        let mut i: usize = 0;
        while i < len
            invariant
                i <= len,
                len == source@.len(),
                chars@ == source@.subrange(0, i as int),
            decreases len - i,
        {
            chars.push(source.get_char(i));
            i = i + 1;
            assert(chars@ =~= source@.subrange(0, i as int));
        }
        assert(source@.subrange(0, i as int) =~= source@);
        Self {
            source: String::from_str(source),
            chars,
            tokens: Vec::new(),
            start: 0,
            current: 0,
            line: 1,
        }
    }

    pub fn is_at_end(&self) -> (r: bool)
        ensures
            r == (self.current >= self.chars.len()),
    {
        self.current >= self.chars.len()
    }

    pub fn peek(&self) -> (c: Option<char>)
        ensures
            c == if self.current < self.chars.len() {
                Some(self.chars[self.current as int])
            } else {
                None
            },
    {
        if self.is_at_end() {
            return None;
        }
        Some(self.chars[self.current])
    }

    fn peek_next(&self) -> (c: Option<char>)
        ensures
            c == if self.current + 1 < self.chars.len() {
                Some(self.chars[self.current + 1])
            } else {
                None
            },
    {
        if self.current >= self.chars.len() || self.current + 1 >= self.chars.len() {
            return None;
        }
        Some(self.chars[self.current + 1])
    }

    /// Takes the next character.
    pub fn advance(&mut self) -> (c: char)
        requires
            old(self).current < old(self).chars.len(),
        ensures
            c == old(self).chars[old(self).current as int],
            final(self).current == old(self).current + 1,
            final(self).source == old(self).source,
            final(self).chars == old(self).chars,
            final(self).tokens == old(self).tokens,
            final(self).line == old(self).line,
    {
        self.current += 1;
        self.chars[self.current - 1]
    }

    fn match_char(&mut self, chr: char) -> (r: bool)
        requires
            old(self).current <= old(self).chars.len(),
        ensures
            r == follows(old(self).chars@, old(self).current as int, chr),
            final(self).current == old(self).current + if r {
                1int
            } else {
                0int
            },
            final(self).source == old(self).source,
            final(self).chars == old(self).chars,
            final(self).tokens == old(self).tokens,
            final(self).line == old(self).line,
    {
        if self.is_at_end() {
            return false;
        }
        if self.chars[self.current] != chr {
            return false;
        }
        self.current += 1;
        true
    }

    fn add(&mut self, kind: TokenKind)
        requires
            kind != TokenKind::Identifier,
            kind != TokenKind::String,
            kind != TokenKind::Number,
        ensures
            lexemes(final(self).tokens@) == lexemes(old(self).tokens@) + seq![
                plain(kind, old(self).line),
            ],
            final(self).current == old(self).current,
            final(self).source == old(self).source,
            final(self).chars == old(self).chars,
            final(self).line == old(self).line,
    {
        self.tokens.push(Token { typ: TokenType::of_kind(kind), line: self.line });
        assert(lexemes(self.tokens@) =~= lexemes(old(self).tokens@) + seq![
            plain(kind, old(self).line),
        ]);
    }

    /// Adds the first token where an equals sign follows, and else the
    /// second.
    pub fn match_equal(&mut self, condition_met_token_type: TokenType, alternative_token_type: TokenType)
        requires
            old(self).current <= old(self).chars.len(),
        ensures
            final(self).source == old(self).source,
            final(self).chars == old(self).chars,
            final(self).line == old(self).line,
            follows(old(self).chars@, old(self).current as int, '=') ==> final(self).current
                == old(self).current + 1 && final(self).tokens@ == old(self).tokens@.push(
                Token { typ: condition_met_token_type, line: old(self).line },
            ),
            !follows(old(self).chars@, old(self).current as int, '=') ==> final(self).current
                == old(self).current && final(self).tokens@ == old(self).tokens@.push(
                Token { typ: alternative_token_type, line: old(self).line },
            ),
    {
        if self.match_char('=') {
            self.tokens.push(Token { typ: condition_met_token_type, line: self.line })
        } else {
            self.tokens.push(Token { typ: alternative_token_type, line: self.line })
        }
    }

    fn pair(&mut self, follower: char, met: TokenKind, alternative: TokenKind)
        requires
            old(self).current <= old(self).chars.len(),
            met != TokenKind::Identifier && met != TokenKind::String && met != TokenKind::Number,
            alternative != TokenKind::Identifier && alternative != TokenKind::String && alternative
                != TokenKind::Number,
        ensures
            final(self).source == old(self).source,
            final(self).chars == old(self).chars,
            final(self).line == old(self).line,
            final(self).current == old(self).current + if follows(
                old(self).chars@,
                old(self).current as int,
                follower,
            ) {
                1int
            } else {
                0int
            },
            lexemes(final(self).tokens@) == lexemes(old(self).tokens@) + seq![
                plain(
                    if follows(old(self).chars@, old(self).current as int, follower) {
                        met
                    } else {
                        alternative
                    },
                    old(self).line,
                ),
            ],
    {
        if self.match_char(follower) {
            self.add(met);
        } else {
            self.add(alternative);
        }
    }

    /// Goes on to the end of the run of characters of a class.
    fn skip(&mut self, class: Class) -> (newlines: usize)
        requires
            old(self).current <= old(self).chars.len(),
        ensures
            final(self).current == run_end(old(self).chars@, old(self).current as int, class),
            old(self).current <= final(self).current <= final(self).chars.len(),
            newlines == breaks(old(self).chars@, old(self).current as int, final(self).current as int),
            final(self).source == old(self).source,
            final(self).chars == old(self).chars,
            final(self).tokens == old(self).tokens,
            final(self).line == old(self).line,
    {
        let mut newlines: usize = 0;
        let ghost from = self.current as int;
        while self.current < self.chars.len() && classed(self.chars[self.current], class)
            invariant
                0 <= from <= self.current <= self.chars.len(),
                forall|i: int| from <= i < self.current ==> in_class(self.chars@[i], class),
                newlines == breaks(self.chars@, from, self.current as int),
                newlines <= self.current - from,
                self.source == old(self).source,
                self.chars == old(self).chars,
                self.tokens == old(self).tokens,
                self.line == old(self).line,
            decreases self.chars.len() - self.current,
        {
            assert(self.current < self.chars.len());
            if self.chars[self.current] == '\n' {
                newlines = newlines + 1;
            }
            self.current = self.current + 1;
        }
        proof {
            lemma_run_end_is(self.chars@, from, self.current as int, class);
        }
        newlines
    }

    /// The text from one place up to another.
    fn slice(&self, from: usize, to: usize) -> (text: String)
        requires
            self.chars@ == self.source@,
            from <= to <= self.chars.len(),
        ensures
            text@ == self.chars@.subrange(from as int, to as int),
    {
        String::from_str(self.source.as_str().substring_char(from, to))
    }

    fn add_text(&mut self, typ: TokenType)
        ensures
            lexemes(final(self).tokens@) == lexemes(old(self).tokens@) + seq![
                Lexeme { kind: typ.spec_kind(), text: typ.spec_text(), line: old(self).line },
            ],
            final(self).current == old(self).current,
            final(self).source == old(self).source,
            final(self).chars == old(self).chars,
            final(self).line == old(self).line,
    {
        self.tokens.push(Token { typ, line: self.line });
        assert(lexemes(self.tokens@) =~= lexemes(old(self).tokens@) + seq![
            Lexeme { kind: typ.spec_kind(), text: typ.spec_text(), line: old(self).line },
        ]);
    }

    /// The token of a word that is a keyword.
    fn get_keyword_token(&self, identifier_string: &String, line: u128) -> (token: Option<Token>)
        ensures
            match keyword(identifier_string@) {
                Some(kind) => token matches Some(found) && found@ == plain(kind, line),
                None => token.is_none(),
            },
    {
        match keyword_kind(identifier_string) {
            Some(kind) => {
                assert(kind != TokenKind::Identifier && kind != TokenKind::String && kind
                    != TokenKind::Number);
                Some(Token { typ: TokenType::of_kind(kind), line })
            },
            None => None,
        }
    }

    fn scan_token(&mut self) -> (r: Result<(), ParseError>)
        requires
            old(self).wf(),
            old(self).current < old(self).chars.len(),
        ensures
            r is Ok ==> final(self).wf(),
            final(self).source == old(self).source,
            final(self).chars == old(self).chars,
            scanned(*old(self), *final(self), r),
    {
        let begin = self.current;
        let c = self.advance();
        assert(lexemes(self.tokens@) =~= lexemes(old(self).tokens@) + Seq::empty());
        if let Some(kind) = single_kind(c) {
            self.add(kind);
        } else if c == '.' {
            self.pair('.', TokenKind::DoubleDot, TokenKind::Dot);
        } else if c == '=' {
            self.pair('=', TokenKind::Is, TokenKind::Equal);
        } else if c == '!' {
            if self.match_char('=') {
                self.add(TokenKind::Is);
                self.add(TokenKind::Not);
                assert(lexemes(self.tokens@) =~= lexemes(old(self).tokens@) + seq![
                    plain(TokenKind::Is, self.line),
                    plain(TokenKind::Not, self.line),
                ]);
            } else {
                return Err(ParseError::new("Unexpected character.", self.line));
            }
        } else if c == '>' {
            self.pair('=', TokenKind::GraterEqual, TokenKind::Grater);
        } else if c == '<' {
            self.pair('=', TokenKind::LessEqual, TokenKind::Less);
        } else if c == '/' {
            if self.match_char('/') {
                self.skip(Class::Break);
            } else {
                self.add(TokenKind::Slash);
            }
        } else if c == ' ' || c == '\t' || c == '\r' {
        } else if c == '\n' {
            self.line += 1;
        } else if digit(c) {
            self.skip(Class::Digit);
            if let Some(chr) = self.peek() {
                if chr == '.' {
                    if let Some(chr_next) = self.peek_next() {
                        if digit(chr_next) {
                            self.advance();
                            self.skip(Class::Digit);
                        }
                    }
                }
            }
            let number_literal = self.slice(begin, self.current);
            self.add_text(TokenType::Number(number_literal));
        } else if alpha(c) {
            self.skip(Class::Word);
            let identifier_string = self.slice(begin, self.current);
            let part_of_name = begin > 0 && self.chars[begin - 1] == ')' && self.current
                < self.chars.len() && self.chars[self.current] == '(';
            let found = if part_of_name {
                None
            } else {
                self.get_keyword_token(&identifier_string, self.line)
            };
            match found {
                Some(tok) => {
                    let ghost held = tok@;
                    let ghost before = lexemes(self.tokens@);
                    self.tokens.push(tok);
                    assert(lexemes(self.tokens@) =~= before + seq![held]);
                },
                None => {
                    self.add_text(TokenType::Identifier(identifier_string));
                },
            }
        } else if c == '"' {
            let newlines = self.skip(Class::Quoted);
            proof {
                lemma_breaks_bound(self.chars@, begin + 1, self.current as int);
            }
            self.line = self.line + newlines as u128;
            if self.is_at_end() {
                return Err(ParseError::new("Unterminated string.", self.line));
            }
            let string_literal = self.slice(begin + 1, self.current);
            self.advance();
            self.add_text(TokenType::String(string_literal));
        } else if c == '\'' {
            if self.match_char('s') {
                self.add(TokenKind::Possesive);
            } else {
                return Err(ParseError::new("Unexpected character.", self.line));
            }
        } else {
            return Err(ParseError::new("Unexpected character.", self.line));
        }
        Ok(())
    }

    /// The tokens of the text, the last of which is the end of the text.
    pub fn scan_tokens(self) -> (r: Result<Vec<Token>, ParseError>)
        requires
            self.wf(),
        ensures
            match scan_from(self.chars@, self.current as int, self.line, lexemes(self.tokens@)) {
                Ok(tokens) => r matches Ok(found) && lexemes(found@) == tokens,
                Err(e) => r matches Err(error) && error.message@ == e.0 && error.line == e.1,
            },
    {
        let mut lexer = self;
        lexer.scan_rest()
    }

    fn scan_rest(&mut self) -> (r: Result<Vec<Token>, ParseError>)
        requires
            old(self).wf(),
        ensures
            match scan_from(
                old(self).chars@,
                old(self).current as int,
                old(self).line,
                lexemes(old(self).tokens@),
            ) {
                Ok(tokens) => r matches Ok(found) && lexemes(found@) == tokens,
                Err(e) => r matches Err(error) && error.message@ == e.0 && error.line == e.1,
            },
    {
        let ghost chars = self.chars@;
        let ghost goal = scan_from(chars, self.current as int, self.line, lexemes(self.tokens@));
        while !self.is_at_end()
            invariant
                self.wf(),
                self.chars@ == chars,
                goal == scan_from(chars, self.current as int, self.line, lexemes(self.tokens@)),
                goal == scan_from(
                    old(self).chars@,
                    old(self).current as int,
                    old(self).line,
                    lexemes(old(self).tokens@),
                ),
            decreases self.chars.len() - self.current,
        {
            self.start = self.current;
            let ghost before = *self;
            let scanning = self.scan_token();
            proof {
                assert(scanned(before, *self, scanning));
                assert(goal == scan_from(
                    chars,
                    before.current as int,
                    before.line,
                    lexemes(before.tokens@),
                ));
            }
            match scanning {
                Err(e) => {
                    return Err(e);
                },
                Ok(_) => {},
            }
        }
        let ghost before = lexemes(self.tokens@);
        self.tokens.push(Token { typ: TokenType::Eof, line: self.line });
        assert(lexemes(self.tokens@) =~= before.push(plain(TokenKind::Eof, self.line)));
        let mut tokens: Vec<Token> = Vec::new();
        core::mem::swap(&mut self.tokens, &mut tokens);
        Ok(tokens)
    }
}

} // verus!
