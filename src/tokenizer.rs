use vstd::prelude::*;

use crate::error::{CompilerError, Failure, Outcome, Result};

verus! {

/// The kinds of token.
#[derive(Debug, Clone, Copy, PartialEq, Eq, Structural)]
pub enum TokenType {
    Paren,
    Name,
    Number,
    String,
}

/// A token: its kind and its text.
#[derive(Debug, Clone, PartialEq, Eq)]
pub struct Token {
    pub token_type: TokenType,
    pub value: String,
}

/// Mathematical model of a token.
pub type Lexeme = (TokenType, Seq<char>);

impl View for Token {
    type V = Lexeme;

    open spec fn view(&self) -> Lexeme {
        (self.token_type, self.value@)
    }
}

pub open spec fn lexemes(ts: Seq<Token>) -> Seq<Lexeme> {
    ts.map_values(|t: Token| t@)
}

impl Token {
    pub fn new(token_type: TokenType, value: String) -> (r: Self)
        ensures
            r.token_type == token_type,
            r.value == value,
    {
        Self { token_type, value }
    }
}

/// Relies on String::push: the character is appended to the end of the string.
pub assume_specification[ std::string::String::push ](s: &mut std::string::String, ch: char)
    ensures
        final(s)@ == old(s)@.push(ch),
;

/// Whether `c` has Unicode's Alphabetic property (only asked of characters beyond ASCII).
pub uninterp spec fn unicode_alphabetic(c: char) -> bool;

pub open spec fn is_ascii_letter(c: char) -> bool {
    ('a' <= c && c <= 'z') || ('A' <= c && c <= 'Z')
}

/// The characters that may start a name.
pub open spec fn is_letter(c: char) -> bool {
    if (c as u32) < 128 {
        is_ascii_letter(c)
    } else {
        unicode_alphabetic(c)
    }
}

pub open spec fn is_digit(c: char) -> bool {
    '0' <= c && c <= '9'
}

pub open spec fn is_whitespace(c: char) -> bool {
    c == ' ' || c == '\t' || c == '\n' || c == '\r'
}

pub open spec fn is_name_char(c: char) -> bool {
    is_letter(c) || c == '_'
}

pub open spec fn is_number_char(c: char) -> bool {
    is_digit(c) || c == '.'
}

/// Relies on char::is_alphabetic: an ASCII character is alphabetic exactly when it is
/// a letter, and a character beyond ASCII exactly when it has the Alphabetic property.
#[verifier::external_body]
fn alphabetic(c: char) -> (r: bool)
    ensures
        (c as u32) < 128 ==> (r <==> is_ascii_letter(c)),
        (c as u32) >= 128 ==> (r <==> unicode_alphabetic(c)),
{
    c.is_alphabetic()
}

/// What the lexer is in the middle of.
pub enum LexMode {
    Start,
    Name(Seq<char>),
    Number(Seq<char>),
    Str(Seq<char>),
    Escape(Seq<char>),
}

/// One move of the lexer: the tokens it completes, how many characters it consumes
/// (zero or one), and the mode it moves to.
pub enum LexStep {
    Next(Seq<Lexeme>, int, LexMode),
    Done,
    Fail(Failure),
}

/// The text that an escape sequence `\e` stands for inside a string literal.
pub open spec fn escaped(e: char) -> Seq<char> {
    if e == 'n' {
        seq!['\n']
    } else if e == 't' {
        seq!['\t']
    } else if e == 'r' {
        seq!['\r']
    } else if e == '\\' {
        seq!['\\']
    } else if e == '"' {
        seq!['"']
    } else {
        seq!['\\', e]
    }
}

/// The lexer's move on the character at `pos` (`None` at the end of input).
pub open spec fn lex_step(c: Option<char>, pos: int, mode: LexMode) -> LexStep {
    match mode {
        LexMode::Start => match c {
            None => LexStep::Done,
            Some(x) => if is_whitespace(x) {
                LexStep::Next(seq![], 1, LexMode::Start)
            } else if x == '(' || x == ')' {
                LexStep::Next(seq![(TokenType::Paren, seq![x])], 1, LexMode::Start)
            } else if is_letter(x) {
                LexStep::Next(seq![], 1, LexMode::Name(seq![x]))
            } else if is_digit(x) {
                LexStep::Next(seq![], 1, LexMode::Number(seq![x]))
            } else if x == '"' {
                LexStep::Next(seq![], 1, LexMode::Str(seq![]))
            } else {
                LexStep::Fail(Failure::InvalidCharacter(x, pos))
            },
        },
        LexMode::Name(v) => match c {
            Some(x) if is_name_char(x) => LexStep::Next(seq![], 1, LexMode::Name(v.push(x))),
            _ => LexStep::Next(seq![(TokenType::Name, v)], 0, LexMode::Start),
        },
        LexMode::Number(v) => match c {
            Some(x) if is_number_char(x) => LexStep::Next(seq![], 1, LexMode::Number(v.push(x))),
            _ => LexStep::Next(seq![(TokenType::Number, v)], 0, LexMode::Start),
        },
        LexMode::Str(v) => match c {
            None => LexStep::Fail(Failure::UnexpectedEof),
            Some(x) => if x == '"' {
                LexStep::Next(seq![(TokenType::String, v)], 1, LexMode::Start)
            } else if x == '\\' {
                LexStep::Next(seq![], 1, LexMode::Escape(v))
            } else {
                LexStep::Next(seq![], 1, LexMode::Str(v.push(x)))
            },
        },
        LexMode::Escape(v) => match c {
            None => LexStep::Fail(Failure::UnexpectedEof),
            Some(x) => LexStep::Next(seq![], 1, LexMode::Str(v + escaped(x))),
        },
    }
}

pub open spec fn mode_rank(mode: LexMode) -> int {
    match mode {
        LexMode::Start => 0,
        _ => 1,
    }
}

pub open spec fn char_at(s: Seq<char>, pos: int) -> Option<char> {
    if 0 <= pos < s.len() {
        Some(s[pos])
    } else {
        None
    }
}

/// Prepends completed tokens to the outcome of the rest of the input.
pub open spec fn emit(out: Seq<Lexeme>, rest: Outcome<Seq<Lexeme>>) -> Outcome<Seq<Lexeme>> {
    match rest {
        Ok(ts) => Ok(out + ts),
        Err(e) => Err(e),
    }
}

/// The tokens of `s` from position `pos` on, the lexer being in `mode` there.
pub open spec fn lex_from(s: Seq<char>, pos: int, mode: LexMode) -> Outcome<Seq<Lexeme>>
    decreases s.len() - pos, mode_rank(mode),
{
    match lex_step(char_at(s, pos), pos, mode) {
        LexStep::Done => Ok(seq![]),
        LexStep::Fail(e) => Err(e),
        LexStep::Next(out, used, next) => emit(out, lex_from(s, pos + used, next)),
    }
}

/// The tokens of `s`.
pub open spec fn lex(s: Seq<char>) -> Outcome<Seq<Lexeme>> {
    lex_from(s, 0, LexMode::Start)
}

/// Whether `r` is what the lexer's outcome `m` describes.
pub open spec fn lexed_as(r: Result<Vec<Token>>, m: Outcome<Seq<Lexeme>>) -> bool {
    match m {
        Ok(ts) => r matches Ok(v) && lexemes(v@) == ts,
        Err(e) => r matches Err(x) && x@ == e,
    }
}

pub proof fn lemma_emit_emit(a: Seq<Lexeme>, b: Seq<Lexeme>, r: Outcome<Seq<Lexeme>>)
    ensures
        emit(a, emit(b, r)) == emit(a + b, r),
{
    if let Ok(ts) = r {
        assert(a + (b + ts) =~= (a + b) + ts);
    }
}

proof fn lemma_lexemes_push(ts: Seq<Token>, t: Token)
    ensures
        lexemes(ts.push(t)) == lexemes(ts) + seq![t@],
{
    assert(lexemes(ts.push(t)) =~= lexemes(ts) + seq![t@]);
}

fn is_name_char_exec(c: char) -> (r: bool)
    ensures
        r == is_name_char(c),
{
    alphabetic(c) || c == '_'
}

fn is_number_char_exec(c: char) -> (r: bool)
    ensures
        r == is_number_char(c),
{
    ('0' <= c && c <= '9') || c == '.'
}

/// The first position at or after `pos` where the input ends or holds a character
/// that cannot continue a name.
pub open spec fn name_end(s: Seq<char>, pos: int) -> int
    decreases s.len() - pos,
{
    if 0 <= pos < s.len() && is_name_char(s[pos]) {
        name_end(s, pos + 1)
    } else {
        pos
    }
}

/// The first position at or after `pos` where the input ends or holds a character
/// that cannot continue a number.
pub open spec fn number_end(s: Seq<char>, pos: int) -> int
    decreases s.len() - pos,
{
    if 0 <= pos < s.len() && is_number_char(s[pos]) {
        number_end(s, pos + 1)
    } else {
        pos
    }
}

/// Reads the body of a string literal from `pos` on, after the text `acc` already
/// read: its content with escapes resolved, and the position just past the closing
/// quote; or `UnexpectedEof` when the input ends first.
pub open spec fn scan_string(s: Seq<char>, pos: int, acc: Seq<char>) -> Outcome<(Seq<char>, int)>
    decreases s.len() - pos,
{
    if pos < 0 || pos >= s.len() {
        Err(Failure::UnexpectedEof)
    } else if s[pos] == '"' {
        Ok((acc, pos + 1))
    } else if s[pos] == '\\' {
        if pos + 1 >= s.len() {
            Err(Failure::UnexpectedEof)
        } else {
            scan_string(s, pos + 2, acc + escaped(s[pos + 1]))
        }
    } else {
        scan_string(s, pos + 1, acc.push(s[pos]))
    }
}

/// Converts source text into tokens, one pass from left to right.
pub struct Tokenizer {
    input: Vec<char>,
    current: usize,
}

impl Tokenizer {
    /// The characters being tokenized.
    pub closed spec fn source(&self) -> Seq<char> {
        self.input@
    }

    /// The position of the next character to read.
    pub closed spec fn cursor(&self) -> int {
        self.current as int
    }

    pub fn new(input: &str) -> (r: Self)
        ensures
            r.source() == input@,
            r.cursor() == 0,
    {
        let mut chars: Vec<char> = Vec::new();
        for c in it: input.chars()
            invariant
                chars@ == it.seq().take(it.index()),
        {
            chars.push(c);
        }
        Self { input: chars, current: 0 }
    }

    /// Tokenizes the input from the cursor on.
    pub fn tokenize(&mut self) -> (r: Result<Vec<Token>>)
        ensures
            final(self).source() == old(self).source(),
            lexed_as(r, lex_from(old(self).source(), old(self).cursor(), LexMode::Start)),
    {
        let ghost s = self.input@;
        let ghost start = self.current as int;
        let mut tokens: Vec<Token> = Vec::new();
        assert(lexemes(tokens@) =~= seq![]);
        assert(emit(seq![], lex_from(s, start, LexMode::Start)) =~= lex_from(s, start, LexMode::Start));
        while self.current < self.input.len()
            invariant
                self.input@ == s,
                s == old(self).input@,
                start == old(self).current as int,
                lex_from(s, start, LexMode::Start) == emit(
                    lexemes(tokens@),
                    lex_from(s, self.current as int, LexMode::Start),
                ),
            decreases self.input.len() - self.current,
        {
            let ch = self.current_char();
            let ghost cur = self.current as int;
            if ch == ' ' || ch == '\t' || ch == '\n' || ch == '\r' {
                self.advance();
                continue;
            }
            if ch == '(' || ch == ')' {
                let mut text = String::new();
                text.push(ch);
                let tok = Token::new(TokenType::Paren, text);
                proof {
                    lemma_lexemes_push(tokens@, tok);
                    lemma_emit_emit(lexemes(tokens@), seq![tok@], lex_from(s, cur + 1, LexMode::Start));
                }
                tokens.push(tok);
                self.advance();
                continue;
            }
            if alphabetic(ch) {
                let value = self.read_name();
                let tok = Token::new(TokenType::Name, value);
                proof {
                    lemma_lexemes_push(tokens@, tok);
                    lemma_emit_emit(lexemes(tokens@), seq![tok@], lex_from(s, self.current as int, LexMode::Start));
                }
                tokens.push(tok);
                continue;
            }
            if '0' <= ch && ch <= '9' {
                let value = self.read_number();
                let tok = Token::new(TokenType::Number, value);
                proof {
                    lemma_lexemes_push(tokens@, tok);
                    lemma_emit_emit(lexemes(tokens@), seq![tok@], lex_from(s, self.current as int, LexMode::Start));
                }
                tokens.push(tok);
                continue;
            }
            if ch == '"' {
                match self.read_string() {
                    Ok(value) => {
                        let tok = Token::new(TokenType::String, value);
                        proof {
                            lemma_lexemes_push(tokens@, tok);
                            lemma_emit_emit(lexemes(tokens@), seq![tok@], lex_from(s, self.current as int, LexMode::Start));
                        }
                        tokens.push(tok);
                        continue;
                    },
                    Err(e) => {
                        return Err(e);
                    },
                }
            }
            return Err(CompilerError::InvalidCharacter { character: ch, position: self.current });
        }
        assert(lexemes(tokens@) + seq![] =~= lexemes(tokens@));
        Ok(tokens)
    }

    fn current_char(&self) -> (r: char)
        requires
            self.current < self.input.len(),
        ensures
            r == self.input@[self.current as int],
    {
        self.input[self.current]
    }

    fn advance(&mut self)
        requires
            old(self).current < old(self).input.len(),
        ensures
            final(self).input@ == old(self).input@,
            final(self).current == old(self).current + 1,
    {
        self.current += 1;
    }

    fn read_name(&mut self) -> (r: String)
        requires
            old(self).current < old(self).input.len(),
            is_letter(old(self).input@[old(self).current as int]),
        ensures
            final(self).input@ == old(self).input@,
            old(self).current < final(self).current <= final(self).input.len(),
            final(self).current == name_end(old(self).input@, old(self).current as int),
            r@ == old(self).input@.subrange(old(self).current as int, final(self).current as int),
            lex_from(old(self).input@, old(self).current as int, LexMode::Start) == emit(
                seq![(TokenType::Name, r@)],
                lex_from(final(self).input@, final(self).current as int, LexMode::Start),
            ),
    {
        let ghost s = self.input@;
        let ghost start = self.current as int;
        let mut value = String::new();
        let first = self.current_char();
        value.push(first);
        self.advance();
        assert(value@ =~= s.subrange(start, start + 1));
        while self.current < self.input.len() && is_name_char_exec(self.input[self.current])
            invariant
                self.input@ == s,
                s == old(self).input@,
                start == old(self).current as int,
                start < self.current <= s.len(),
                lex_from(s, start, LexMode::Start) == lex_from(
                    s,
                    self.current as int,
                    LexMode::Name(value@),
                ),
                name_end(s, start) == name_end(s, self.current as int),
                value@ == s.subrange(start, self.current as int),
            decreases self.input.len() - self.current,
        {
            let ch = self.current_char();
            value.push(ch);
            self.advance();
            assert(value@ =~= s.subrange(start, self.current as int));
        }
        value
    }

    fn read_number(&mut self) -> (r: String)
        requires
            old(self).current < old(self).input.len(),
            is_digit(old(self).input@[old(self).current as int]),
            !is_letter(old(self).input@[old(self).current as int]),
        ensures
            final(self).input@ == old(self).input@,
            old(self).current < final(self).current <= final(self).input.len(),
            final(self).current == number_end(old(self).input@, old(self).current as int),
            r@ == old(self).input@.subrange(old(self).current as int, final(self).current as int),
            lex_from(old(self).input@, old(self).current as int, LexMode::Start) == emit(
                seq![(TokenType::Number, r@)],
                lex_from(final(self).input@, final(self).current as int, LexMode::Start),
            ),
    {
        let ghost s = self.input@;
        let ghost start = self.current as int;
        let mut value = String::new();
        let first = self.current_char();
        value.push(first);
        self.advance();
        assert(value@ =~= s.subrange(start, start + 1));
        while self.current < self.input.len() && is_number_char_exec(self.input[self.current])
            invariant
                self.input@ == s,
                s == old(self).input@,
                start == old(self).current as int,
                start < self.current <= s.len(),
                lex_from(s, start, LexMode::Start) == lex_from(
                    s,
                    self.current as int,
                    LexMode::Number(value@),
                ),
                number_end(s, start) == number_end(s, self.current as int),
                value@ == s.subrange(start, self.current as int),
            decreases self.input.len() - self.current,
        {
            let ch = self.current_char();
            value.push(ch);
            self.advance();
            assert(value@ =~= s.subrange(start, self.current as int));
        }
        value
    }

    fn read_string(&mut self) -> (r: Result<String>)
        requires
            old(self).current < old(self).input.len(),
            old(self).input@[old(self).current as int] == '"',
        ensures
            final(self).input@ == old(self).input@,
            match scan_string(old(self).input@, old(self).current + 1, seq![]) {
                Ok((v, end)) => r matches Ok(x) && x@ == v && final(self).current == end,
                Err(e) => r matches Err(x) && x@ == e,
            },
            match r {
                Ok(v) => {
                    &&& old(self).current < final(self).current <= final(self).input.len()
                    &&& lex_from(old(self).input@, old(self).current as int, LexMode::Start)
                        == emit(
                        seq![(TokenType::String, v@)],
                        lex_from(final(self).input@, final(self).current as int, LexMode::Start),
                    )
                },
                Err(e) => lex_from(old(self).input@, old(self).current as int, LexMode::Start)
                    == Err::<Seq<Lexeme>, Failure>(e@),
            },
    {
        let ghost s = self.input@;
        let ghost start = self.current as int;
        let mut value = String::new();
        self.advance();
        while self.current < self.input.len()
            invariant
                self.input@ == s,
                s == old(self).input@,
                start == old(self).current as int,
                start < self.current <= s.len(),
                lex_from(s, start, LexMode::Start) == lex_from(
                    s,
                    self.current as int,
                    LexMode::Str(value@),
                ),
                scan_string(s, start + 1, seq![]) == scan_string(s, self.current as int, value@),
            decreases self.input.len() - self.current,
        {
            let ch = self.current_char();
            if ch == '"' {
                self.advance();
                return Ok(value);
            }
            if ch == '\\' {
                let ghost before = value@;
                let ghost cur = self.current as int;
                assert(lex_from(s, cur, LexMode::Str(before)) == lex_from(
                    s,
                    cur + 1,
                    LexMode::Escape(before),
                ));
                self.advance();
                if self.current >= self.input.len() {
                    assert(lex_from(s, cur + 1, LexMode::Escape(before)) == Err::<
                        Seq<Lexeme>,
                        Failure,
                    >(Failure::UnexpectedEof));
                    return Err(CompilerError::UnexpectedEof);
                }
                let e = self.current_char();
                assert(lex_from(s, cur + 1, LexMode::Escape(before)) == lex_from(
                    s,
                    cur + 2,
                    LexMode::Str(before + escaped(e)),
                ));
                if e == 'n' {
                    value.push('\n');
                } else if e == 't' {
                    value.push('\t');
                } else if e == 'r' {
                    value.push('\r');
                } else if e == '\\' {
                    value.push('\\');
                } else if e == '"' {
                    value.push('"');
                } else {
                    value.push('\\');
                    value.push(e);
                }
                assert(value@ =~= before + escaped(e));
            } else {
                value.push(ch);
            }
            self.advance();
        }
        Err(CompilerError::UnexpectedEof)
    }
}

/// Tokenizes `input` whole.
pub fn tokenize(input: &str) -> (r: Result<Vec<Token>>)
    ensures
        lexed_as(r, lex(input@)),
{
    let mut tokenizer = Tokenizer::new(input);
    tokenizer.tokenize()
}

} // verus!
