//! The parser: recursive descent over the tokens of one line.
//!
//! ```text
//! statement  := IDENTIFIER "=" statement | expression
//! expression := term (("+" | "-") term)*
//! term       := power (("*" | "/") power)*
//! power      := unary ("^" power)?
//! unary      := ("+" | "-")? postfix
//! postfix    := primary "!"?
//! primary    := NUMBER | IDENTIFIER | call | "(" expression ")"
//! call       := IDENTIFIER "(" (expression ("," expression)*)? ")"
//! ```
//!
//! A line is one statement followed by the end marker.  A primary takes at
//! most one `!`; a second one is a syntax error.

use vstd::prelude::*;
use crate::ast::{function_named, terms, BinOp, Expr, Function, Term, UnOp};
use crate::error::ParseError;
use crate::lexer::{lemma_scan_ends_with_one_end_marker, scan, tokens_view, Token, TokenWithPos};
use crate::text::lowercase_of;

verus! {

/// The kind of the token at index `pos`; behind the last token stands the
/// end marker.
pub open spec fn kind(ts: Seq<TokenWithPos<Seq<char>>>, pos: nat) -> Token<Seq<char>> {
    if pos < ts.len() {
        ts[pos as int].token
    } else {
        Token::EOF
    }
}

/// The place in the input of the token at index `pos`; behind the last
/// token, the place of the last token.
pub open spec fn place(ts: Seq<TokenWithPos<Seq<char>>>, pos: nat) -> usize {
    if pos < ts.len() {
        ts[pos as int].position
    } else if ts.len() > 0 {
        ts[ts.len() - 1].position
    } else {
        0
    }
}

/// How many tokens stand at or after index `pos`.
pub open spec fn remaining(ts: Seq<TokenWithPos<Seq<char>>>, pos: nat) -> nat {
    if pos <= ts.len() {
        (ts.len() - pos) as nat
    } else {
        0
    }
}

/// How a token is named in an error message.
pub open spec fn describe(token: Token<Seq<char>>) -> Seq<char> {
    match token {
        Token::Number(text) => text,
        Token::Plus => "+"@,
        Token::Minus => "-"@,
        Token::Asterisk => "*"@,
        Token::Slash => "/"@,
        Token::LParen => "("@,
        Token::RParen => ")"@,
        Token::Caret => "^"@,
        Token::Identifier(name) => name,
        Token::Exclamation => "!"@,
        Token::Comma => ","@,
        Token::Equals => "="@,
        Token::EOF => "end of input"@,
    }
}

/// The error for a token at index `pos` that cannot stand there.
pub open spec fn unexpected(
    ts: Seq<TokenWithPos<Seq<char>>>,
    pos: nat,
    expected: Seq<char>,
) -> ParseError<Seq<char>> {
    if kind(ts, pos) is EOF {
        ParseError::UnexpectedEOF { position: place(ts, pos) }
    } else {
        ParseError::UnexpectedToken {
            expected,
            found: describe(kind(ts, pos)),
            position: place(ts, pos),
        }
    }
}

/// The error for a call of a function that does not exist.
pub open spec fn unknown_function(
    ts: Seq<TokenWithPos<Seq<char>>>,
    pos: nat,
    name: Seq<char>,
) -> ParseError<Seq<char>> {
    ParseError::InvalidExpression {
        message: "Unknown function: "@ + name,
        position: place(ts, pos),
    }
}

/// `statement` from index `pos`: the tree and the number of tokens it
/// takes, or the first error.
pub open spec fn statement(ts: Seq<TokenWithPos<Seq<char>>>, pos: nat) -> Result<
    (Term, nat),
    ParseError<Seq<char>>,
>
    decreases remaining(ts, pos), 11nat,
{
    if kind(ts, pos) is Identifier && kind(ts, pos + 1) is Equals {
        match statement(ts, pos + 2) {
            Err(e) => Err(e),
            Ok((value, n)) => Ok((Term::Assign(kind(ts, pos)->Identifier_0, Box::new(value)), n + 2)),
        }
    } else {
        expression(ts, pos)
    }
}

/// The arguments of a call, from the first one at index `pos` up to, and
/// without, the closing parenthesis.
pub open spec fn arguments(ts: Seq<TokenWithPos<Seq<char>>>, pos: nat) -> Result<
    (Seq<Term>, nat),
    ParseError<Seq<char>>,
>
    decreases remaining(ts, pos), 10nat,
{
    match expression(ts, pos) {
        Err(e) => Err(e),
        Ok((first, n)) => {
            if kind(ts, pos + n) is RParen {
                Ok((seq![first], n))
            } else if kind(ts, pos + n) is Comma {
                match arguments(ts, pos + n + 1) {
                    Err(e) => Err(e),
                    Ok((rest, m)) => Ok((seq![first] + rest, n + 1 + m)),
                }
            } else {
                Err(unexpected(ts, pos + n, "','"@))
            }
        },
    }
}

/// `expression` from index `pos`.
pub open spec fn expression(ts: Seq<TokenWithPos<Seq<char>>>, pos: nat) -> Result<
    (Term, nat),
    ParseError<Seq<char>>,
>
    decreases remaining(ts, pos), 9nat,
{
    match term(ts, pos) {
        Err(e) => Err(e),
        Ok((left, n)) => match expression_tail(ts, pos + n, left) {
            Err(e) => Err(e),
            Ok((whole, m)) => Ok((whole, n + m)),
        },
    }
}

/// The rest of an `expression` whose terms up to index `pos` make `left`.
pub open spec fn expression_tail(ts: Seq<TokenWithPos<Seq<char>>>, pos: nat, left: Term) -> Result<
    (Term, nat),
    ParseError<Seq<char>>,
>
    decreases remaining(ts, pos), 8nat,
{
    if additive(kind(ts, pos)) is Some {
        let op = additive(kind(ts, pos))->0;
        match term(ts, pos + 1) {
            Err(e) => Err(e),
            Ok((right, n)) => match expression_tail(
                ts,
                pos + 1 + n,
                Term::Binary(Box::new(left), op, Box::new(right)),
            ) {
                Err(e) => Err(e),
                Ok((whole, m)) => Ok((whole, 1 + n + m)),
            },
        }
    } else {
        Ok((left, 0))
    }
}

/// `term` from index `pos`.
pub open spec fn term(ts: Seq<TokenWithPos<Seq<char>>>, pos: nat) -> Result<
    (Term, nat),
    ParseError<Seq<char>>,
>
    decreases remaining(ts, pos), 7nat,
{
    match power(ts, pos) {
        Err(e) => Err(e),
        Ok((left, n)) => match term_tail(ts, pos + n, left) {
            Err(e) => Err(e),
            Ok((whole, m)) => Ok((whole, n + m)),
        },
    }
}

/// The rest of a `term` whose factors up to index `pos` make `left`.
pub open spec fn term_tail(ts: Seq<TokenWithPos<Seq<char>>>, pos: nat, left: Term) -> Result<
    (Term, nat),
    ParseError<Seq<char>>,
>
    decreases remaining(ts, pos), 6nat,
{
    if multiplicative(kind(ts, pos)) is Some {
        let op = multiplicative(kind(ts, pos))->0;
        match power(ts, pos + 1) {
            Err(e) => Err(e),
            Ok((right, n)) => match term_tail(
                ts,
                pos + 1 + n,
                Term::Binary(Box::new(left), op, Box::new(right)),
            ) {
                Err(e) => Err(e),
                Ok((whole, m)) => Ok((whole, 1 + n + m)),
            },
        }
    } else {
        Ok((left, 0))
    }
}

/// `power` from index `pos`.
pub open spec fn power(ts: Seq<TokenWithPos<Seq<char>>>, pos: nat) -> Result<
    (Term, nat),
    ParseError<Seq<char>>,
>
    decreases remaining(ts, pos), 5nat,
{
    match unary(ts, pos) {
        Err(e) => Err(e),
        Ok((base, n)) => {
            if kind(ts, pos + n) is Caret {
                match power(ts, pos + n + 1) {
                    Err(e) => Err(e),
                    Ok((exponent, m)) => Ok(
                        (
                            Term::Binary(Box::new(base), BinOp::Power, Box::new(exponent)),
                            n + 1 + m,
                        ),
                    ),
                }
            } else {
                Ok((base, n))
            }
        },
    }
}

/// `unary` from index `pos`.
pub open spec fn unary(ts: Seq<TokenWithPos<Seq<char>>>, pos: nat) -> Result<
    (Term, nat),
    ParseError<Seq<char>>,
>
    decreases remaining(ts, pos), 4nat,
{
    if kind(ts, pos) is Plus || kind(ts, pos) is Minus {
        let op = if kind(ts, pos) is Plus {
            UnOp::Positive
        } else {
            UnOp::Negate
        };
        match postfix(ts, pos + 1) {
            Err(e) => Err(e),
            Ok((operand, n)) => Ok((Term::Unary(op, Box::new(operand)), n + 1)),
        }
    } else {
        postfix(ts, pos)
    }
}

/// `postfix` from index `pos`.
pub open spec fn postfix(ts: Seq<TokenWithPos<Seq<char>>>, pos: nat) -> Result<
    (Term, nat),
    ParseError<Seq<char>>,
>
    decreases remaining(ts, pos), 3nat,
{
    match primary(ts, pos) {
        Err(e) => Err(e),
        Ok((operand, n)) => {
            if kind(ts, pos + n) is Exclamation {
                Ok((Term::Postfix(Box::new(operand), UnOp::Factorial), n + 1))
            } else {
                Ok((operand, n))
            }
        },
    }
}

/// `primary` from index `pos`.
pub open spec fn primary(ts: Seq<TokenWithPos<Seq<char>>>, pos: nat) -> Result<
    (Term, nat),
    ParseError<Seq<char>>,
>
    decreases remaining(ts, pos), 2nat,
{
    match kind(ts, pos) {
        Token::Number(text) => Ok((Term::Number(text), 1)),
        Token::Identifier(name) => {
            if kind(ts, pos + 1) is LParen {
                call(ts, pos)
            } else {
                Ok((Term::Variable(name), 1))
            }
        },
        Token::LParen => match expression(ts, pos + 1) {
            Err(e) => Err(e),
            Ok((inner, n)) => {
                if kind(ts, pos + 1 + n) is RParen {
                    Ok((inner, n + 2))
                } else {
                    Err(unexpected(ts, pos + 1 + n, "')'"@))
                }
            },
        },
        _ => Err(unexpected(ts, pos, "an expression"@)),
    }
}

/// `call` from index `pos`, where an identifier stands before an opening
/// parenthesis.  The name is looked up when the arguments have been read.
pub open spec fn call(ts: Seq<TokenWithPos<Seq<char>>>, pos: nat) -> Result<
    (Term, nat),
    ParseError<Seq<char>>,
>
    decreases remaining(ts, pos), 1nat,
{
    if kind(ts, pos) is Identifier && kind(ts, pos + 1) is LParen {
        let name = kind(ts, pos)->Identifier_0;
        match call_arguments(ts, pos) {
            Err(e) => Err(e),
            Ok((args, n)) => match function_named(lowercase_of(name)) {
                Some(func) => Ok((Term::Call(func, args), n + 3)),
                None => Err(unknown_function(ts, pos, name)),
            },
        }
    } else {
        Err(unexpected(ts, pos, "a function name"@))
    }
}

/// One line from index `pos`: a statement, with nothing but the end marker
/// behind it.
pub open spec fn parse_line(ts: Seq<TokenWithPos<Seq<char>>>, pos: nat) -> Result<
    Term,
    ParseError<Seq<char>>,
> {
    match statement(ts, pos) {
        Err(e) => Err(e),
        Ok((tree, n)) => {
            if kind(ts, pos + n) is EOF {
                Ok(tree)
            } else {
                Err(unexpected(ts, pos + n, "end of input"@))
            }
        },
    }
}

/// The additive operator that a token writes, if it writes one.
pub open spec fn additive(token: Token<Seq<char>>) -> Option<BinOp> {
    match token {
        Token::Plus => Some(BinOp::Add),
        Token::Minus => Some(BinOp::Subtract),
        _ => None,
    }
}

/// The multiplicative operator that a token writes, if it writes one.
pub open spec fn multiplicative(token: Token<Seq<char>>) -> Option<BinOp> {
    match token {
        Token::Asterisk => Some(BinOp::Multiply),
        Token::Slash => Some(BinOp::Divide),
        _ => None,
    }
}

/// The arguments of the call whose name stands at index `pos`, and the
/// number of tokens between its parentheses.
pub open spec fn call_arguments(ts: Seq<TokenWithPos<Seq<char>>>, pos: nat) -> Result<
    (Seq<Term>, nat),
    ParseError<Seq<char>>,
>
    decreases remaining(ts, pos), 0nat,
{
    if kind(ts, pos + 1) is LParen && !(kind(ts, pos + 2) is RParen) {
        arguments(ts, pos + 2)
    } else {
        Ok((Seq::<Term>::empty(), 0nat))
    }
}

/// Whether none of the `n` tokens from index `pos` on is the end marker.
pub open spec fn no_end_marker(ts: Seq<TokenWithPos<Seq<char>>>, pos: nat, n: nat) -> bool {
    forall|j: nat| pos <= j < pos + n ==> !(#[trigger] kind(ts, j) is EOF)
}

/// A statement takes no end marker.
pub proof fn lemma_statement_takes_no_end_marker(ts: Seq<TokenWithPos<Seq<char>>>, pos: nat)
    ensures
        statement(ts, pos) matches Ok((_, n)) ==> no_end_marker(ts, pos, n),
    decreases remaining(ts, pos), 11nat,
{
    if kind(ts, pos) is Identifier && kind(ts, pos + 1) is Equals {
        lemma_statement_takes_no_end_marker(ts, pos + 2);
    } else {
        lemma_expression_takes_no_end_marker(ts, pos);
    }
}

/// The arguments of a call take no end marker, and a closing parenthesis
/// stands behind them.
pub proof fn lemma_arguments_takes_no_end_marker(ts: Seq<TokenWithPos<Seq<char>>>, pos: nat)
    ensures
        arguments(ts, pos) matches Ok((_, n)) ==> no_end_marker(ts, pos, n) && kind(ts, pos + n)
            is RParen,
    decreases remaining(ts, pos), 10nat,
{
    lemma_expression_takes_no_end_marker(ts, pos);
    if let Ok((first, n)) = expression(ts, pos) {
        if kind(ts, pos + n) is Comma {
            lemma_arguments_takes_no_end_marker(ts, pos + n + 1);
        }
    }
}

/// An expression takes no end marker.
pub proof fn lemma_expression_takes_no_end_marker(ts: Seq<TokenWithPos<Seq<char>>>, pos: nat)
    ensures
        expression(ts, pos) matches Ok((_, n)) ==> no_end_marker(ts, pos, n),
    decreases remaining(ts, pos), 9nat,
{
    lemma_term_takes_no_end_marker(ts, pos);
    if let Ok((left, n)) = term(ts, pos) {
        lemma_expression_tail_takes_no_end_marker(ts, pos + n, left);
    }
}

/// The rest of an expression takes no end marker.
pub proof fn lemma_expression_tail_takes_no_end_marker(ts: Seq<TokenWithPos<Seq<char>>>, pos: nat, left: Term)
    ensures
        expression_tail(ts, pos, left) matches Ok((_, n)) ==> no_end_marker(ts, pos, n),
    decreases remaining(ts, pos), 8nat,
{
    if additive(kind(ts, pos)) is Some {
        lemma_term_takes_no_end_marker(ts, pos + 1);
        if let Ok((right, n)) = term(ts, pos + 1) {
            lemma_expression_tail_takes_no_end_marker(
                ts,
                pos + 1 + n,
                Term::Binary(Box::new(left), additive(kind(ts, pos))->0, Box::new(right)),
            );
        }
    }
}

/// A term takes no end marker.
pub proof fn lemma_term_takes_no_end_marker(ts: Seq<TokenWithPos<Seq<char>>>, pos: nat)
    ensures
        term(ts, pos) matches Ok((_, n)) ==> no_end_marker(ts, pos, n),
    decreases remaining(ts, pos), 7nat,
{
    lemma_power_takes_no_end_marker(ts, pos);
    if let Ok((left, n)) = power(ts, pos) {
        lemma_term_tail_takes_no_end_marker(ts, pos + n, left);
    }
}

/// The rest of a term takes no end marker.
pub proof fn lemma_term_tail_takes_no_end_marker(ts: Seq<TokenWithPos<Seq<char>>>, pos: nat, left: Term)
    ensures
        term_tail(ts, pos, left) matches Ok((_, n)) ==> no_end_marker(ts, pos, n),
    decreases remaining(ts, pos), 6nat,
{
    if multiplicative(kind(ts, pos)) is Some {
        lemma_power_takes_no_end_marker(ts, pos + 1);
        if let Ok((right, n)) = power(ts, pos + 1) {
            lemma_term_tail_takes_no_end_marker(
                ts,
                pos + 1 + n,
                Term::Binary(Box::new(left), multiplicative(kind(ts, pos))->0, Box::new(right)),
            );
        }
    }
}

/// A power takes no end marker.
pub proof fn lemma_power_takes_no_end_marker(ts: Seq<TokenWithPos<Seq<char>>>, pos: nat)
    ensures
        power(ts, pos) matches Ok((_, n)) ==> no_end_marker(ts, pos, n),
    decreases remaining(ts, pos), 5nat,
{
    lemma_unary_takes_no_end_marker(ts, pos);
    if let Ok((base, n)) = unary(ts, pos) {
        if kind(ts, pos + n) is Caret {
            lemma_power_takes_no_end_marker(ts, pos + n + 1);
        }
    }
}

/// A signed operand takes no end marker.
pub proof fn lemma_unary_takes_no_end_marker(ts: Seq<TokenWithPos<Seq<char>>>, pos: nat)
    ensures
        unary(ts, pos) matches Ok((_, n)) ==> no_end_marker(ts, pos, n),
    decreases remaining(ts, pos), 4nat,
{
    if kind(ts, pos) is Plus || kind(ts, pos) is Minus {
        lemma_postfix_takes_no_end_marker(ts, pos + 1);
    } else {
        lemma_postfix_takes_no_end_marker(ts, pos);
    }
}

/// An operand with its factorial sign takes no end marker.
pub proof fn lemma_postfix_takes_no_end_marker(ts: Seq<TokenWithPos<Seq<char>>>, pos: nat)
    ensures
        postfix(ts, pos) matches Ok((_, n)) ==> no_end_marker(ts, pos, n),
    decreases remaining(ts, pos), 3nat,
{
    lemma_primary_takes_no_end_marker(ts, pos);
}

/// A primary takes no end marker.
pub proof fn lemma_primary_takes_no_end_marker(ts: Seq<TokenWithPos<Seq<char>>>, pos: nat)
    ensures
        primary(ts, pos) matches Ok((_, n)) ==> no_end_marker(ts, pos, n),
    decreases remaining(ts, pos), 2nat,
{
    match kind(ts, pos) {
        Token::Identifier(name) => {
            if kind(ts, pos + 1) is LParen {
                lemma_call_takes_no_end_marker(ts, pos);
            }
        },
        Token::LParen => {
            lemma_expression_takes_no_end_marker(ts, pos + 1);
            if let Ok((inner, n)) = expression(ts, pos + 1) {
                if kind(ts, pos + 1 + n) is RParen {
                    assert(primary(ts, pos) == Ok::<_, ParseError<Seq<char>>>((inner, n + 2)));
                    assert forall|j: nat| pos <= j < pos + n + 2 implies !(#[trigger] kind(ts, j)
                        is EOF) by {
                        if j == pos {
                        } else if j == pos + 1 + n {
                        } else {
                            assert(pos + 1 <= j < pos + 1 + n);
                        }
                    }
                }
            }
        },
        _ => {},
    }
}

/// A call takes no end marker.
pub proof fn lemma_call_takes_no_end_marker(ts: Seq<TokenWithPos<Seq<char>>>, pos: nat)
    ensures
        call(ts, pos) matches Ok((_, n)) ==> no_end_marker(ts, pos, n),
    decreases remaining(ts, pos), 1nat,
{
    if kind(ts, pos) is Identifier && kind(ts, pos + 1) is LParen {
        lemma_call_arguments_takes_no_end_marker(ts, pos);
        if let Ok((args, n)) = call_arguments(ts, pos) {
            if call(ts, pos) is Ok {
                assert(call(ts, pos)->Ok_0.1 == n + 3);
                assert forall|j: nat| pos <= j < pos + n + 3 implies !(#[trigger] kind(ts, j)
                    is EOF) by {
                    if j == pos {
                    } else if j == pos + 1 {
                    } else if j == pos + 2 + n {
                    } else {
                        assert(pos + 2 <= j < pos + 2 + n);
                    }
                }
            }
        }
    }
}

/// What stands between the parentheses of a call holds no end marker, and
/// the closing parenthesis stands behind it.
pub proof fn lemma_call_arguments_takes_no_end_marker(ts: Seq<TokenWithPos<Seq<char>>>, pos: nat)
    requires
        kind(ts, pos + 1) is LParen,
    ensures
        call_arguments(ts, pos) matches Ok((_, n)) ==> no_end_marker(ts, pos + 2, n) && kind(
            ts,
            pos + 2 + n,
        ) is RParen,
    decreases remaining(ts, pos), 0nat,
{
    if !(kind(ts, pos + 2) is RParen) {
        lemma_arguments_takes_no_end_marker(ts, pos + 2);
    }
}

/// A line that parses is a statement that ends where the first end marker
/// stands: every token before the marker belongs to the tree, none is left
/// over, and none behind the marker is read.
pub proof fn lemma_parsed_line_takes_every_token(ts: Seq<TokenWithPos<Seq<char>>>, pos: nat)
    ensures
        parse_line(ts, pos) matches Ok(tree) ==> (statement(ts, pos) matches Ok((t, n)) && {
            &&& t == tree
            &&& no_end_marker(ts, pos, n)
            &&& kind(ts, pos + n) is EOF
        }),
{
    lemma_statement_takes_no_end_marker(ts, pos);
}

/// The tree of an input takes all its tokens: where the tokens of an input
/// parse, the statement reaches from the first token to the end marker,
/// which is the last.
pub proof fn lemma_parsed_input_is_read_whole(input: Seq<char>)
    requires
        input.len() <= usize::MAX,
    ensures
        scan(input, 0) matches Ok(ts) ==> (parse_line(ts, 0) matches Ok(tree) ==> statement(ts, 0)
            == Ok::<_, ParseError<Seq<char>>>((tree, (ts.len() - 1) as nat))),
{
    lemma_scan_ends_with_one_end_marker(input, 0);
    if let Ok(ts) = scan(input, 0) {
        lemma_parsed_line_takes_every_token(ts, 0);
        if let Ok(tree) = parse_line(ts, 0) {
            let n = statement(ts, 0)->Ok_0.1;
            assert(kind(ts, (ts.len() - 1) as nat) is EOF);
            if n > ts.len() - 1 {
                assert(!(kind(ts, (ts.len() - 1) as nat) is EOF));
            }
            if n < ts.len() - 1 {
                assert(!(ts[n as int].token is EOF));
            }
        }
    }
}

/// Whether what a parsing function returned, and where it left the cursor,
/// is what the grammar says of the tokens from index `start`.
pub open spec fn agrees(
    r: Result<Expr, ParseError>,
    end: nat,
    expected: Result<(Term, nat), ParseError<Seq<char>>>,
    start: nat,
) -> bool {
    match expected {
        Ok((tree, n)) => r matches Ok(e) && e@ == tree && end == start + n,
        Err(x) => r matches Err(e) && e@ == x,
    }
}

/// The view of a call node is the call of the views of its arguments.
pub proof fn lemma_call_view(func: Function, args: Vec<Expr>)
    ensures
        (Expr::FunctionCall { func, args })@ == Term::Call(func, terms(args@)),
{
    let e = Expr::FunctionCall { func, args };
    assert(e@ matches Term::Call(f, s) && f == func && s =~= terms(args@));
}

/// How a token is named in an error message.
pub fn describe_token(token: &Token) -> (r: String)
    ensures
        r@ == describe(token@),
{
    match token {
        Token::Number(text) => text.clone(),
        Token::Plus => String::from_str("+"),
        Token::Minus => String::from_str("-"),
        Token::Asterisk => String::from_str("*"),
        Token::Slash => String::from_str("/"),
        Token::LParen => String::from_str("("),
        Token::RParen => String::from_str(")"),
        Token::Caret => String::from_str("^"),
        Token::Identifier(name) => name.clone(),
        Token::Exclamation => String::from_str("!"),
        Token::Comma => String::from_str(","),
        Token::Equals => String::from_str("="),
        Token::EOF => String::from_str("end of input"),
    }
}

/// The parser's state: the tokens of one line and the index of the next one
/// to read.
pub struct Parser {
    tokens: Vec<TokenWithPos>,
    position: usize,
}

impl Parser {
    /// The tokens being parsed.
    pub closed spec fn tokens(&self) -> Seq<TokenWithPos<Seq<char>>> {
        tokens_view(self.tokens@)
    }

    /// The index of the next token to read.
    pub closed spec fn cursor(&self) -> nat {
        self.position as nat
    }

    /// A parser at the first of `tokens`.
    pub fn new(tokens: Vec<TokenWithPos>) -> (parser: Self)
        ensures
            parser.tokens() == tokens_view(tokens@),
            parser.cursor() == 0,
    {
        Parser { tokens, position: 0 }
    }

    fn current_token(&self) -> (r: &Token)
        ensures
            r@ == kind(self.tokens(), self.cursor()),
    {
        if self.position < self.tokens.len() {
            &self.tokens[self.position].token
        } else {
            &Token::EOF
        }
    }

    fn peek_token(&self) -> (r: &Token)
        ensures
            r@ == kind(self.tokens(), self.cursor() + 1),
    {
        if self.position < self.tokens.len() && self.position + 1 < self.tokens.len() {
            &self.tokens[self.position + 1].token
        } else {
            &Token::EOF
        }
    }

    fn current_place(&self) -> (r: usize)
        ensures
            r == place(self.tokens(), self.cursor()),
    {
        if self.position < self.tokens.len() {
            self.tokens[self.position].position
        } else if self.tokens.len() > 0 {
            self.tokens[self.tokens.len() - 1].position
        } else {
            0
        }
    }

    fn advance(&mut self)
        requires
            old(self).cursor() < old(self).tokens().len(),
        ensures
            final(self).tokens() == old(self).tokens(),
            final(self).cursor() == old(self).cursor() + 1,
    {
        if self.position < self.tokens.len() {
            self.position += 1;
        }
    }

    fn unexpected(&self, expected: &str) -> (r: ParseError)
        ensures
            r@ == unexpected(self.tokens(), self.cursor(), expected@),
    {
        let position = self.current_place();
        match self.current_token() {
            Token::EOF => ParseError::UnexpectedEOF { position },
            token => ParseError::UnexpectedToken {
                expected: String::from_str(expected),
                found: describe_token(token),
                position,
            },
        }
    }

    /// Parses one line: a statement with nothing but the end marker behind
    /// it.
    pub fn parse(&mut self) -> (r: Result<Expr, ParseError>)
        ensures
            final(self).tokens() == old(self).tokens(),
            match parse_line(old(self).tokens(), old(self).cursor()) {
                Ok(tree) => r matches Ok(e) && e@ == tree,
                Err(x) => r matches Err(e) && e@ == x,
            },
            r is Ok ==> kind(old(self).tokens(), final(self).cursor()) is EOF && no_end_marker(
                old(self).tokens(),
                old(self).cursor(),
                (final(self).cursor() - old(self).cursor()) as nat,
            ),
    {
        proof {
            lemma_parsed_line_takes_every_token(self.tokens(), self.cursor());
        }
        let tree = match self.parse_statement() {
            Ok(tree) => tree,
            Err(e) => {
                return Err(e);
            },
        };
        match self.current_token() {
            Token::EOF => Ok(tree),
            _ => Err(self.unexpected("end of input")),
        }
    }

    fn parse_statement(&mut self) -> (r: Result<Expr, ParseError>)
        ensures
            final(self).tokens() == old(self).tokens(),
            agrees(
                r,
                final(self).cursor(),
                statement(old(self).tokens(), old(self).cursor()),
                old(self).cursor(),
            ),
        decreases remaining(old(self).tokens(), old(self).cursor()), 11nat,
    {
        let name = match self.current_token() {
            Token::Identifier(name) => {
                match self.peek_token() {
                    Token::Equals => Some(name.clone()),
                    _ => None,
                }
            },
            _ => None,
        };
        match name {
            Some(name) => {
                self.advance();
                self.advance();
                let value = match self.parse_statement() {
                    Ok(value) => value,
                    Err(e) => {
                        return Err(e);
                    },
                };
                Ok(Expr::Assignment { name, value: Box::new(value) })
            },
            None => self.parse_expression(),
        }
    }

    fn parse_expression(&mut self) -> (r: Result<Expr, ParseError>)
        ensures
            final(self).tokens() == old(self).tokens(),
            agrees(
                r,
                final(self).cursor(),
                expression(old(self).tokens(), old(self).cursor()),
                old(self).cursor(),
            ),
        decreases remaining(old(self).tokens(), old(self).cursor()), 9nat,
    {
        let ghost ts = self.tokens();
        let ghost start = self.cursor();
        let mut left = match self.parse_term() {
            Ok(left) => left,
            Err(e) => {
                return Err(e);
            },
        };
        let mut op = self.additive_operator();
        while op.is_some()
            invariant
                ts == old(self).tokens(),
                start == old(self).cursor(),
                self.tokens() == ts,
                start <= self.cursor(),
                op == additive(kind(ts, self.cursor())),
                match expression_tail(ts, self.cursor(), left@) {
                    Ok((whole, m)) => expression(ts, start) == Ok::<_, ParseError<Seq<char>>>(
                        (whole, (self.cursor() - start + m) as nat),
                    ),
                    Err(e) => expression(ts, start) == Err::<(Term, nat), _>(e),
                },
            decreases remaining(ts, self.cursor()),
        {
            self.advance();
            let right = match self.parse_term() {
                Ok(right) => right,
                Err(e) => {
                    return Err(e);
                },
            };
            left = Expr::BinaryOp { left: Box::new(left), op: op.unwrap(), right: Box::new(right) };
            op = self.additive_operator();
        }
        Ok(left)
    }

    fn additive_operator(&self) -> (r: Option<BinOp>)
        ensures
            r == additive(kind(self.tokens(), self.cursor())),
    {
        match self.current_token() {
            Token::Plus => Some(BinOp::Add),
            Token::Minus => Some(BinOp::Subtract),
            _ => None,
        }
    }

    fn multiplicative_operator(&self) -> (r: Option<BinOp>)
        ensures
            r == multiplicative(kind(self.tokens(), self.cursor())),
    {
        match self.current_token() {
            Token::Asterisk => Some(BinOp::Multiply),
            Token::Slash => Some(BinOp::Divide),
            _ => None,
        }
    }

    fn parse_term(&mut self) -> (r: Result<Expr, ParseError>)
        ensures
            final(self).tokens() == old(self).tokens(),
            agrees(
                r,
                final(self).cursor(),
                term(old(self).tokens(), old(self).cursor()),
                old(self).cursor(),
            ),
        decreases remaining(old(self).tokens(), old(self).cursor()), 7nat,
    {
        let ghost ts = self.tokens();
        let ghost start = self.cursor();
        let mut left = match self.parse_factor() {
            Ok(left) => left,
            Err(e) => {
                return Err(e);
            },
        };
        let mut op = self.multiplicative_operator();
        while op.is_some()
            invariant
                ts == old(self).tokens(),
                start == old(self).cursor(),
                self.tokens() == ts,
                start <= self.cursor(),
                op == multiplicative(kind(ts, self.cursor())),
                match term_tail(ts, self.cursor(), left@) {
                    Ok((whole, m)) => term(ts, start) == Ok::<_, ParseError<Seq<char>>>(
                        (whole, (self.cursor() - start + m) as nat),
                    ),
                    Err(e) => term(ts, start) == Err::<(Term, nat), _>(e),
                },
            decreases remaining(ts, self.cursor()),
        {
            self.advance();
            let right = match self.parse_factor() {
                Ok(right) => right,
                Err(e) => {
                    return Err(e);
                },
            };
            left = Expr::BinaryOp { left: Box::new(left), op: op.unwrap(), right: Box::new(right) };
            op = self.multiplicative_operator();
        }
        Ok(left)
    }

    fn parse_factor(&mut self) -> (r: Result<Expr, ParseError>)
        ensures
            final(self).tokens() == old(self).tokens(),
            agrees(
                r,
                final(self).cursor(),
                power(old(self).tokens(), old(self).cursor()),
                old(self).cursor(),
            ),
        decreases remaining(old(self).tokens(), old(self).cursor()), 6nat,
    {
        self.parse_power()
    }

    fn parse_power(&mut self) -> (r: Result<Expr, ParseError>)
        ensures
            final(self).tokens() == old(self).tokens(),
            agrees(
                r,
                final(self).cursor(),
                power(old(self).tokens(), old(self).cursor()),
                old(self).cursor(),
            ),
        decreases remaining(old(self).tokens(), old(self).cursor()), 5nat,
    {
        let base = match self.parse_unary() {
            Ok(base) => base,
            Err(e) => {
                return Err(e);
            },
        };
        match self.current_token() {
            Token::Caret => {
                self.advance();
                let exponent = match self.parse_power() {
                    Ok(exponent) => exponent,
                    Err(e) => {
                        return Err(e);
                    },
                };
                Ok(
                    Expr::BinaryOp {
                        left: Box::new(base),
                        op: BinOp::Power,
                        right: Box::new(exponent),
                    },
                )
            },
            _ => Ok(base),
        }
    }

    fn parse_unary(&mut self) -> (r: Result<Expr, ParseError>)
        ensures
            final(self).tokens() == old(self).tokens(),
            agrees(
                r,
                final(self).cursor(),
                unary(old(self).tokens(), old(self).cursor()),
                old(self).cursor(),
            ),
        decreases remaining(old(self).tokens(), old(self).cursor()), 4nat,
    {
        let sign = match self.current_token() {
            Token::Plus => Some(UnOp::Positive),
            Token::Minus => Some(UnOp::Negate),
            _ => None,
        };
        match sign {
            Some(op) => {
                self.advance();
                let expr = match self.parse_postfix() {
                    Ok(expr) => expr,
                    Err(e) => {
                        return Err(e);
                    },
                };
                Ok(Expr::UnaryOp { op, expr: Box::new(expr) })
            },
            None => self.parse_postfix(),
        }
    }

    fn parse_postfix(&mut self) -> (r: Result<Expr, ParseError>)
        ensures
            final(self).tokens() == old(self).tokens(),
            agrees(
                r,
                final(self).cursor(),
                postfix(old(self).tokens(), old(self).cursor()),
                old(self).cursor(),
            ),
        decreases remaining(old(self).tokens(), old(self).cursor()), 3nat,
    {
        let operand = match self.parse_primary() {
            Ok(operand) => operand,
            Err(e) => {
                return Err(e);
            },
        };
        match self.current_token() {
            Token::Exclamation => {
                self.advance();
                Ok(Expr::PostfixOp { expr: Box::new(operand), op: UnOp::Factorial })
            },
            _ => Ok(operand),
        }
    }

    fn parse_primary(&mut self) -> (r: Result<Expr, ParseError>)
        ensures
            final(self).tokens() == old(self).tokens(),
            agrees(
                r,
                final(self).cursor(),
                primary(old(self).tokens(), old(self).cursor()),
                old(self).cursor(),
            ),
        decreases remaining(old(self).tokens(), old(self).cursor()), 2nat,
    {
        match self.current_token() {
            Token::Number(text) => {
                let text = text.clone();
                self.advance();
                Ok(Expr::Number(text))
            },
            Token::Identifier(name) => {
                match self.peek_token() {
                    Token::LParen => self.parse_function_call(),
                    _ => {
                        let name = name.clone();
                        self.advance();
                        Ok(Expr::Variable(name))
                    },
                }
            },
            Token::LParen => {
                self.advance();
                let inner = match self.parse_expression() {
                    Ok(inner) => inner,
                    Err(e) => {
                        return Err(e);
                    },
                };
                match self.current_token() {
                    Token::RParen => {
                        self.advance();
                        Ok(inner)
                    },
                    _ => Err(self.unexpected("')'")),
                }
            },
            _ => Err(self.unexpected("an expression")),
        }
    }

    fn parse_arguments(&mut self, args: &mut Vec<Expr>) -> (r: Result<(), ParseError>)
        ensures
            final(self).tokens() == old(self).tokens(),
            match arguments(old(self).tokens(), old(self).cursor()) {
                Ok((rest, n)) => {
                    &&& r is Ok
                    &&& terms(final(args)@) == terms(old(args)@) + rest
                    &&& final(self).cursor() == old(self).cursor() + n
                    &&& kind(old(self).tokens(), final(self).cursor()) is RParen
                },
                Err(x) => r matches Err(e) && e@ == x,
            },
        decreases remaining(old(self).tokens(), old(self).cursor()), 10nat,
    {
        let ghost ts = self.tokens();
        let ghost before = terms(args@);
        let arg = match self.parse_expression() {
            Ok(arg) => arg,
            Err(e) => {
                return Err(e);
            },
        };
        let ghost first = arg@;
        args.push(arg);
        assert(terms(args@) =~= before + seq![first]);
        match self.current_token() {
            Token::RParen => Ok(()),
            Token::Comma => {
                self.advance();
                let ghost here = self.cursor();
                let r = self.parse_arguments(args);
                proof {
                    match arguments(ts, here) {
                        Ok((rest, m)) => {
                            assert(before + (seq![first] + rest) =~= (before + seq![first])
                                + rest);
                        },
                        Err(e) => {},
                    }
                }
                r
            },
            _ => Err(self.unexpected("','")),
        }
    }

    fn parse_function_call(&mut self) -> (r: Result<Expr, ParseError>)
        ensures
            final(self).tokens() == old(self).tokens(),
            agrees(
                r,
                final(self).cursor(),
                call(old(self).tokens(), old(self).cursor()),
                old(self).cursor(),
            ),
        decreases remaining(old(self).tokens(), old(self).cursor()), 1nat,
    {
        let ghost ts = self.tokens();
        let ghost start = self.cursor();
        let named = match self.current_token() {
            Token::Identifier(name) => {
                match self.peek_token() {
                    Token::LParen => Some(name.clone()),
                    _ => None,
                }
            },
            _ => None,
        };
        let func_name = match named {
            Some(name) => name,
            None => {
                return Err(self.unexpected("a function name"));
            },
        };
        let position = self.current_place();
        self.advance();
        self.advance();
        let mut args: Vec<Expr> = Vec::new();
        assert(terms(args@) =~= Seq::<Term>::empty());
        match self.current_token() {
            Token::RParen => {},
            _ => {
                match self.parse_arguments(&mut args) {
                    Ok(()) => {
                        assert(Seq::<Term>::empty() + terms(args@) =~= terms(args@));
                    },
                    Err(e) => {
                        return Err(e);
                    },
                }
            },
        }
        self.advance();
        match Function::from_str(func_name.as_str()) {
            Some(func) => {
                proof {
                    lemma_call_view(func, args);
                }
                Ok(Expr::FunctionCall { func, args })
            },
            None => {
                let mut message = String::from_str("Unknown function: ");
                message.append(func_name.as_str());
                Err(ParseError::InvalidExpression { message, position })
            },
        }
    }
}

} // verus!
