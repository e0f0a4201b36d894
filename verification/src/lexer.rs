//! The lexer: from the text of one input line to its tokens.

use vstd::prelude::*;
use crate::error::LexError;
use crate::text::{
    char_is_alphabetic, char_is_alphanumeric, char_is_whitespace, chars_of, is_alphabetic,
    is_alphanumeric,
    is_digit, is_digit_spec, is_whitespace, push_chars,
};

verus! {

/// A lexical unit.  Generic in the type of the text it carries: `String` in
/// running code, `Seq<char>` in contracts.
#[derive(Debug, Clone, PartialEq)]
pub enum Token<S = String> {
    /// A numeric literal, as written: digits with at most one `.` among them.
    Number(S),
    Plus,
    Minus,
    Asterisk,
    Slash,
    LParen,
    RParen,
    Caret,
    Identifier(S),
    Exclamation,
    Comma,
    Equals,
    EOF,
}

impl View for Token<String> {
    type V = Token<Seq<char>>;

    open spec fn view(&self) -> Token<Seq<char>> {
        match self {
            Token::Number(text) => Token::Number(text@),
            Token::Plus => Token::Plus,
            Token::Minus => Token::Minus,
            Token::Asterisk => Token::Asterisk,
            Token::Slash => Token::Slash,
            Token::LParen => Token::LParen,
            Token::RParen => Token::RParen,
            Token::Caret => Token::Caret,
            Token::Identifier(name) => Token::Identifier(name@),
            Token::Exclamation => Token::Exclamation,
            Token::Comma => Token::Comma,
            Token::Equals => Token::Equals,
            Token::EOF => Token::EOF,
        }
    }
}

/// A token with the index of its first character and its length, both
/// counted in characters.
#[derive(Debug, Clone, PartialEq)]
pub struct TokenWithPos<S = String> {
    pub token: Token<S>,
    pub position: usize,
    pub length: usize,
}

impl View for TokenWithPos<String> {
    type V = TokenWithPos<Seq<char>>;

    open spec fn view(&self) -> TokenWithPos<Seq<char>> {
        TokenWithPos { token: self.token@, position: self.position, length: self.length }
    }
}

impl TokenWithPos<String> {
    /// A token with its place.
    pub fn new(token: Token, position: usize, length: usize) -> (r: Self)
        ensures
            r.token == token,
            r.position == position,
            r.length == length,
    {
        TokenWithPos { token, position, length }
    }
}

/// The token written by the single character `c`, if there is one.
pub open spec fn symbol(c: char) -> Option<Token<Seq<char>>> {
    if c == '+' {
        Some(Token::Plus)
    } else if c == '-' {
        Some(Token::Minus)
    } else if c == '*' {
        Some(Token::Asterisk)
    } else if c == '/' {
        Some(Token::Slash)
    } else if c == '(' {
        Some(Token::LParen)
    } else if c == ')' {
        Some(Token::RParen)
    } else if c == '^' {
        Some(Token::Caret)
    } else if c == '!' {
        Some(Token::Exclamation)
    } else if c == ',' {
        Some(Token::Comma)
    } else if c == '=' {
        Some(Token::Equals)
    } else {
        None
    }
}

/// The first index at or after `from` that holds no white space.
pub open spec fn skip_blank(input: Seq<char>, from: int) -> int
    decreases input.len() - from,
{
    if 0 <= from < input.len() && char_is_whitespace(input[from]) {
        skip_blank(input, from + 1)
    } else {
        from
    }
}

/// The end of the run of digits that starts at `from`, with at most one `.`
/// in it, counting one already seen if `has_dot` holds.
pub open spec fn number_end(input: Seq<char>, from: int, has_dot: bool) -> int
    decreases input.len() - from,
{
    if 0 <= from < input.len() && is_digit_spec(input[from]) {
        number_end(input, from + 1, has_dot)
    } else if 0 <= from < input.len() && input[from] == '.' && !has_dot {
        number_end(input, from + 1, true)
    } else {
        from
    }
}

/// The end of the run of alphanumeric characters and underscores that starts
/// at `from`.
pub open spec fn identifier_end(input: Seq<char>, from: int) -> int
    decreases input.len() - from,
{
    if 0 <= from < input.len() && (char_is_alphanumeric(input[from]) || input[from] == '_') {
        identifier_end(input, from + 1)
    } else {
        from
    }
}

/// Whether a run of digits and dots holds a digit, and so denotes a number.
pub open spec fn has_digit(text: Seq<char>) -> bool {
    exists|i: int| 0 <= i < text.len() && is_digit_spec(#[trigger] text[i])
}

/// One step of the lexer from index `from`: the token that starts at the
/// first non-blank character at or after `from`, or the error met there,
/// and the index at which the lexer then stands.
pub open spec fn token_at(input: Seq<char>, from: int) -> (
    Result<TokenWithPos<Seq<char>>, LexError<Seq<char>>>,
    int,
) {
    let start = skip_blank(input, from);
    if !(0 <= start < input.len()) {
        (Ok(TokenWithPos { token: Token::EOF, position: start as usize, length: 1 }), start)
    } else if symbol(input[start]) is Some {
        (
            Ok(
                TokenWithPos {
                    token: symbol(input[start])->0,
                    position: start as usize,
                    length: 1,
                },
            ),
            start + 1,
        )
    } else if input[start] == '.' || is_digit_spec(input[start]) {
        let end = number_end(input, start, false);
        let text = input.subrange(start, end);
        if has_digit(text) {
            (
                Ok(
                    TokenWithPos {
                        token: Token::Number(text),
                        position: start as usize,
                        length: (end - start) as usize,
                    },
                ),
                end,
            )
        } else {
            (Err(LexError::InvalidNumber(text)), end)
        }
    } else if char_is_alphabetic(input[start]) {
        let end = identifier_end(input, start + 1);
        (
            Ok(
                TokenWithPos {
                    token: Token::Identifier(input.subrange(start, end)),
                    position: start as usize,
                    length: (end - start) as usize,
                },
            ),
            end,
        )
    } else {
        (Err(LexError::UnexpectedCharacter(input[start], start as usize)), start)
    }
}

/// Skipping white space stops within the input, at a character that is
/// none, and passes nothing else.
pub proof fn lemma_skip_blank_bounds(input: Seq<char>, from: int)
    requires
        0 <= from <= input.len(),
    ensures
        from <= skip_blank(input, from) <= input.len(),
        skip_blank(input, from) < input.len() ==> !char_is_whitespace(
            input[skip_blank(input, from)],
        ),
        forall|i: int| from <= i < skip_blank(input, from) ==> char_is_whitespace(input[i]),
    decreases input.len() - from,
{
    if from < input.len() && char_is_whitespace(input[from]) {
        lemma_skip_blank_bounds(input, from + 1);
    }
}

/// A run of digits ends within the input.
pub proof fn lemma_number_end_bounds(input: Seq<char>, from: int, has_dot: bool)
    requires
        0 <= from <= input.len(),
    ensures
        from <= number_end(input, from, has_dot) <= input.len(),
    decreases input.len() - from,
{
    if from < input.len() && is_digit_spec(input[from]) {
        lemma_number_end_bounds(input, from + 1, has_dot);
    } else if from < input.len() && input[from] == '.' && !has_dot {
        lemma_number_end_bounds(input, from + 1, true);
    }
}

/// A run of name characters ends within the input.
pub proof fn lemma_identifier_end_bounds(input: Seq<char>, from: int)
    requires
        0 <= from <= input.len(),
    ensures
        from <= identifier_end(input, from) <= input.len(),
    decreases input.len() - from,
{
    if from < input.len() && (char_is_alphanumeric(input[from]) || input[from] == '_') {
        lemma_identifier_end_bounds(input, from + 1);
    }
}

/// A token other than the end marker covers at least one character, and no
/// step reaches past the end of the input.
pub proof fn lemma_token_at_advances(input: Seq<char>, from: int)
    requires
        0 <= from <= input.len(),
    ensures
        from <= skip_blank(input, from) <= token_at(input, from).1 <= input.len(),
        token_at(input, from).0 matches Ok(t) ==> {
            &&& t.token is EOF <==> token_at(input, from).1 == skip_blank(input, from)
            &&& t.token is EOF ==> token_at(input, from).1 == input.len()
            &&& t.position == skip_blank(input, from) as usize
            &&& !(t.token is EOF) ==> t.length == (token_at(input, from).1 - skip_blank(
                input,
                from,
            )) as usize
        },
{
    lemma_skip_blank_bounds(input, from);
    let start = skip_blank(input, from);
    if start < input.len() {
        lemma_number_end_bounds(input, start, false);
        lemma_identifier_end_bounds(input, start + 1);
        if symbol(input[start]) is Some {
        } else if input[start] == '.' || is_digit_spec(input[start]) {
            if is_digit_spec(input[start]) {
                lemma_number_end_bounds(input, start + 1, false);
            } else {
                lemma_number_end_bounds(input, start + 1, true);
            }
        }
    }
}

/// The tokens of `input` from index `from` on, the end marker last; or the
/// first error met.
pub open spec fn scan(input: Seq<char>, from: int) -> Result<
    Seq<TokenWithPos<Seq<char>>>,
    LexError<Seq<char>>,
>
    decreases input.len() - from,
{
    if !(0 <= from <= input.len()) {
        Ok(seq![])
    } else {
        match token_at(input, from).0 {
            Err(e) => Err(e),
            Ok(t) => {
                if t.token is EOF {
                    Ok(seq![t])
                } else {
                    proof {
                        lemma_token_at_advances(input, from);
                    }
                    match scan(input, token_at(input, from).1) {
                        Err(e) => Err(e),
                        Ok(rest) => Ok(seq![t] + rest),
                    }
                }
            },
        }
    }
}

/// The tokens of an input end with the end marker, which stands at the end
/// of the input, and hold no other end marker.
pub proof fn lemma_scan_ends_with_one_end_marker(input: Seq<char>, from: int)
    requires
        0 <= from <= input.len() <= usize::MAX,
    ensures
        scan(input, from) matches Ok(tokens) ==> {
            &&& tokens.len() >= 1
            &&& tokens.last().token is EOF
            &&& tokens.last().position == input.len()
            &&& forall|i: int| 0 <= i < tokens.len() - 1 ==> !(#[trigger] tokens[i].token is EOF)
        },
    decreases input.len() - from,
{
    lemma_token_at_advances(input, from);
    match token_at(input, from).0 {
        Err(e) => {},
        Ok(t) => {
            if !(t.token is EOF) {
                lemma_scan_ends_with_one_end_marker(input, token_at(input, from).1);
                match scan(input, token_at(input, from).1) {
                    Err(e) => {},
                    Ok(rest) => {
                        let tokens = seq![t] + rest;
                        assert(tokens.last() == rest.last());
                        assert forall|i: int| 0 <= i < tokens.len() - 1 implies !(
                        #[trigger] tokens[i].token is EOF) by {
                            if i > 0 {
                                assert(tokens[i] == rest[i - 1]);
                            }
                        }
                    },
                }
            }
        },
    }
}

/// The tokens of a vector as they appear in contracts.
pub open spec fn tokens_view(tokens: Seq<TokenWithPos>) -> Seq<TokenWithPos<Seq<char>>> {
    Seq::new(tokens.len(), |i: int| tokens[i]@)
}

/// The lexer's state: the characters of the input and the index of the next
/// one to read.
pub struct Lexer {
    input: Vec<char>,
    position: usize,
}

impl Lexer {
    /// The characters of the input.
    pub closed spec fn source(&self) -> Seq<char> {
        self.input@
    }

    /// The index of the next character to read.
    pub closed spec fn cursor(&self) -> int {
        self.position as int
    }

    #[verifier::type_invariant]
    spec fn within_input(&self) -> bool {
        self.position <= self.input.len()
    }

    /// A lexer at the start of `input`.
    pub fn new(input: &str) -> (lexer: Self)
        ensures
            lexer.source() == input@,
            lexer.cursor() == 0,
    {
        Lexer { input: chars_of(input), position: 0 }
    }

    /// All the tokens from the cursor to the end of the input, the end
    /// marker last; or the first error.
    pub fn tokenize(&mut self) -> (r: Result<Vec<TokenWithPos>, LexError>)
        ensures
            final(self).source() == old(self).source(),
            match scan(old(self).source(), old(self).cursor()) {
                Ok(tokens) => r matches Ok(v) && tokens_view(v@) == tokens,
                Err(e) => r matches Err(err) && err@ == e,
            },
            r is Ok ==> final(self).cursor() == old(self).source().len(),
    {
        let ghost input = self.source();
        let ghost from = self.cursor();
        let mut tokens: Vec<TokenWithPos> = Vec::new();
        let mut done = false;
        proof {
            use_type_invariant(&*self);
            assert(tokens_view(tokens@) =~= seq![]);
            match scan(input, from) {
                Ok(rest) => {
                    assert(seq![] + rest =~= rest);
                },
                Err(e) => {},
            }
        }
        while !done
            invariant
                input == old(self).source(),
                from == old(self).cursor(),
                self.source() == input,
                0 <= self.cursor() <= input.len(),
                done ==> scan(input, from) == Ok::<_, LexError<Seq<char>>>(tokens_view(tokens@)),
                done ==> self.cursor() == input.len(),
                !done ==> match scan(input, self.cursor()) {
                    Ok(rest) => scan(input, from) == Ok::<_, LexError<Seq<char>>>(
                        tokens_view(tokens@) + rest,
                    ),
                    Err(e) => scan(input, from) == Err::<Seq<TokenWithPos<Seq<char>>>, _>(e),
                },
            decreases
                    if done {
                        0
                    } else {
                        1 + input.len() - self.cursor()
                    },
        {
            let ghost before = self.cursor();
            proof {
                lemma_token_at_advances(input, before);
            }
            match self.next_token() {
                Err(e) => {
                    return Err(e);
                },
                Ok(token) => {
                    let ghost shown = tokens_view(tokens@);
                    let ghost t = token@;
                    done = matches!(token.token, Token::EOF);
                    tokens.push(token);
                    proof {
                        assert(tokens_view(tokens@) =~= shown + seq![t]);
                        if !done {
                            match scan(input, self.cursor()) {
                                Ok(rest) => {
                                    assert(shown + (seq![t] + rest) =~= (shown + seq![t]) + rest);
                                },
                                Err(e) => {},
                            }
                        }
                    }
                },
            }
        }
        Ok(tokens)
    }

    /// The next token from the cursor on, which then stands behind it; or
    /// the error met, with the cursor where the lexer stopped.
    pub fn next_token(&mut self) -> (r: Result<TokenWithPos, LexError>)
        ensures
            final(self).source() == old(self).source(),
            final(self).cursor() == token_at(old(self).source(), old(self).cursor()).1,
            match token_at(old(self).source(), old(self).cursor()).0 {
                Ok(t) => r matches Ok(token) && token@ == t,
                Err(e) => r matches Err(err) && err@ == e,
            },
    {
        proof {
            use_type_invariant(&*self);
            lemma_skip_blank_bounds(self.source(), self.cursor());
        }
        self.skip_whitespace();
        let start_pos = self.position;
        let token = match self.current_char() {
            None => Token::EOF,
            Some(ch) => {
                if ch == '+' {
                    self.advance();
                    Token::Plus
                } else if ch == '-' {
                    self.advance();
                    Token::Minus
                } else if ch == '*' {
                    self.advance();
                    Token::Asterisk
                } else if ch == '/' {
                    self.advance();
                    Token::Slash
                } else if ch == '(' {
                    self.advance();
                    Token::LParen
                } else if ch == ')' {
                    self.advance();
                    Token::RParen
                } else if ch == '^' {
                    self.advance();
                    Token::Caret
                } else if ch == '!' {
                    self.advance();
                    Token::Exclamation
                } else if ch == ',' {
                    self.advance();
                    Token::Comma
                } else if ch == '=' {
                    self.advance();
                    Token::Equals
                } else if ch == '.' || is_digit(ch) {
                    return self.read_number(start_pos);
                } else if is_alphabetic(ch) {
                    return Ok(self.read_identifier(start_pos));
                } else {
                    return Err(LexError::UnexpectedCharacter(ch, self.position));
                }
            },
        };
        Ok(TokenWithPos::new(token, start_pos, 1))
    }

    fn current_char(&self) -> (r: Option<char>)
        ensures
            r == if self.cursor() < self.source().len() {
                Some(self.source()[self.cursor()])
            } else {
                None
            },
    {
        proof {
            use_type_invariant(self);
        }
        if self.position < self.input.len() {
            Some(self.input[self.position])
        } else {
            None
        }
    }

    fn advance(&mut self)
        requires
            old(self).cursor() < old(self).source().len(),
        ensures
            final(self).source() == old(self).source(),
            final(self).cursor() == old(self).cursor() + 1,
    {
        proof {
            use_type_invariant(&*self);
        }
        self.position += 1;
    }

    fn skip_whitespace(&mut self)
        ensures
            final(self).source() == old(self).source(),
            final(self).cursor() == skip_blank(old(self).source(), old(self).cursor()),
    {
        proof {
            use_type_invariant(&*self);
        }
        while self.position < self.input.len() && is_whitespace(self.input[self.position])
            invariant
                self.source() == old(self).source(),
                self.position <= self.input.len(),
                skip_blank(self.source(), self.cursor()) == skip_blank(
                    old(self).source(),
                    old(self).cursor(),
                ),
            decreases self.input.len() - self.position,
        {
            self.advance();
        }
    }

    fn read_number(&mut self, start_pos: usize) -> (r: Result<TokenWithPos, LexError>)
        requires
            old(self).cursor() == start_pos,
        ensures
            final(self).source() == old(self).source(),
            final(self).cursor() == number_end(old(self).source(), start_pos as int, false),
            ({
                let text = old(self).source().subrange(start_pos as int, final(self).cursor());
                if has_digit(text) {
                    r matches Ok(token) && token@ == (TokenWithPos {
                        token: Token::Number(text),
                        position: start_pos,
                        length: (final(self).cursor() - start_pos) as usize,
                    })
                } else {
                    r matches Err(err) && err@ == LexError::InvalidNumber(text)
                }
            }),
    {
        proof {
            use_type_invariant(&*self);
        }
        let ghost input = self.source();
        let mut has_dot = false;
        let mut seen_digit = false;
        while self.position < self.input.len() && (is_digit(self.input[self.position]) || (
            self.input[self.position] == '.' && !has_dot))
            invariant
                self.source() == input,
                start_pos <= self.position <= self.input.len(),
                number_end(input, self.cursor(), has_dot) == number_end(
                    input,
                    start_pos as int,
                    false,
                ),
                seen_digit <==> has_digit(input.subrange(start_pos as int, self.cursor())),
            decreases self.input.len() - self.position,
        {
            let ghost before = input.subrange(start_pos as int, self.cursor());
            let ghost c = input[self.cursor()];
            if is_digit(self.input[self.position]) {
                seen_digit = true;
            } else {
                has_dot = true;
            }
            self.advance();
            proof {
                let after = input.subrange(start_pos as int, self.cursor());
                assert(after =~= before.push(c));
                if is_digit_spec(c) {
                    assert(is_digit_spec(after[after.len() - 1]));
                } else if has_digit(after) {
                    let i = choose|i: int| 0 <= i < after.len() && is_digit_spec(#[trigger] after[i]);
                    assert(is_digit_spec(before[i]));
                }
                if has_digit(before) {
                    let i = choose|i: int|
                        0 <= i < before.len() && is_digit_spec(#[trigger] before[i]);
                    assert(is_digit_spec(after[i]));
                }
            }
        }
        let mut text = String::new();
        push_chars(&mut text, &self.input, start_pos, self.position);
        assert(text@ =~= input.subrange(start_pos as int, self.cursor()));
        if seen_digit {
            Ok(TokenWithPos::new(Token::Number(text), start_pos, self.position - start_pos))
        } else {
            Err(LexError::InvalidNumber(text))
        }
    }

    fn read_identifier(&mut self, start_pos: usize) -> (r: TokenWithPos)
        requires
            old(self).cursor() == start_pos,
            start_pos < old(self).source().len(),
        ensures
            final(self).source() == old(self).source(),
            final(self).cursor() == identifier_end(old(self).source(), start_pos + 1),
            r@ == (TokenWithPos {
                token: Token::Identifier(
                    old(self).source().subrange(start_pos as int, final(self).cursor()),
                ),
                position: start_pos,
                length: (final(self).cursor() - start_pos) as usize,
            }),
    {
        let ghost input = self.source();
        self.advance();
        proof {
            use_type_invariant(&*self);
        }
        while self.position < self.input.len() && (is_alphanumeric(self.input[self.position])
            || self.input[self.position] == '_')
            invariant
                self.source() == input,
                start_pos < self.position <= self.input.len(),
                identifier_end(input, self.cursor()) == identifier_end(input, start_pos + 1),
            decreases self.input.len() - self.position,
        {
            self.advance();
        }
        let mut name = String::new();
        push_chars(&mut name, &self.input, start_pos, self.position);
        assert(name@ =~= input.subrange(start_pos as int, self.cursor()));
        TokenWithPos::new(Token::Identifier(name), start_pos, self.position - start_pos)
    }
}

} // verus!
