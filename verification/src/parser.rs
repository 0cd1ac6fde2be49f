//! The parser: from text to syntax.
//!
//! A text is split into tokens and the tokens are read by recursive descent.
//! What each function returns is fixed by the grammar in
//! [`crate::grammar`].

use vstd::prelude::*;
use crate::ast::{
    Definition, DefinitionView, Expr, Op, Prototype, Syntax, definitions_view, exprs_view,
    names_view,
};
use crate::grammar::{
    LEVELS, name_at, operator, operator_at, parse_binary, parse_calls, parse_definition,
    parse_definitions, parse_expr, parse_exprs, parse_names, parse_operands, parse_primary,
    symbol_at,
};
use crate::lexer::{ParseError, Symbol, Token, lexemes, tokenize, tokens_view};

verus! {

/// The expression that a text stands for: its tokens, read as one
/// expression with nothing left over.
pub open spec fn expression_of(text: Seq<char>) -> Result<Syntax, ParseError> {
    match lexemes(text) {
        None => Err(ParseError::InvalidToken),
        Some(ts) => match parse_expr(ts, 0) {
            Some((syntax, end)) => if end == ts.len() {
                Ok(syntax)
            } else {
                Err(ParseError::UnrecognizedToken)
            },
            None => Err(ParseError::UnrecognizedToken),
        },
    }
}

/// The definition that a text stands for: its tokens, read as one
/// definition with nothing left over.
pub open spec fn definition_of(text: Seq<char>) -> Result<DefinitionView, ParseError> {
    match lexemes(text) {
        None => Err(ParseError::InvalidToken),
        Some(ts) => match parse_definition(ts, 0) {
            Some((definition, end)) => if end == ts.len() {
                Ok(definition)
            } else {
                Err(ParseError::UnrecognizedToken)
            },
            None => Err(ParseError::UnrecognizedToken),
        },
    }
}

/// The program that a text stands for: its tokens, read as one definition
/// after the other.
pub open spec fn program_of(text: Seq<char>) -> Result<Seq<DefinitionView>, ParseError> {
    match lexemes(text) {
        None => Err(ParseError::InvalidToken),
        Some(ts) => match parse_definitions(ts, 0, Seq::empty()) {
            Some(definitions) => Ok(definitions),
            None => Err(ParseError::UnrecognizedToken),
        },
    }
}

/// The result `r` of reading an expression at `pos` is what the grammar
/// gives there.
pub open spec fn reads_expr(
    r: Result<(Box<Expr>, usize), ParseError>,
    expected: Option<(Syntax, int)>,
    pos: usize,
    len: nat,
) -> bool {
    match expected {
        Some((syntax, next)) => r matches Ok((e, end)) && (*e).syntax() == syntax && end == next && pos
            < next <= len,
        None => r == Err::<(Box<Expr>, usize), ParseError>(ParseError::UnrecognizedToken),
    }
}

/// Whether the token at `pos` is the given symbol.
fn is_symbol(tokens: &Vec<Token>, pos: usize, symbol: Symbol) -> (r: bool)
    ensures
        r == symbol_at(tokens_view(tokens@), pos as int, symbol),
{
    if pos < tokens.len() {
        match &tokens[pos] {
            Token::Symbol(s) => *s == symbol,
            _ => false,
        }
    } else {
        false
    }
}

/// The name at `pos`, if a name stands there.
fn name_of(tokens: &Vec<Token>, pos: usize) -> (r: Option<String>)
    ensures
        r is Some == name_at(tokens_view(tokens@), pos as int) is Some,
        r is Some ==> r->0@ == name_at(tokens_view(tokens@), pos as int)->0,
{
    if pos < tokens.len() {
        match &tokens[pos] {
            Token::Name(s) => Some(s.clone()),
            _ => None,
        }
    } else {
        None
    }
}

/// The operator that `symbol` is on the given level, if it is one there.
fn operator_of(symbol: Symbol, level: u8) -> (r: Option<Op>)
    ensures
        r == operator(symbol, level as int),
{
    match (level, symbol) {
        (0, Symbol::Bar) => Some(Op::Pipe),
        (1, Symbol::Or) => Some(Op::Or),
        (2, Symbol::And) => Some(Op::And),
        (3, Symbol::Greater) => Some(Op::Greater),
        (3, Symbol::Less) => Some(Op::Lesser),
        (3, Symbol::Equal) => Some(Op::Equals),
        (4, Symbol::Plus) => Some(Op::Plus),
        (4, Symbol::Minus) => Some(Op::Minus),
        (5, Symbol::Star) => Some(Op::Times),
        (5, Symbol::Slash) => Some(Op::Slash),
        (5, Symbol::Percent) => Some(Op::Percent),
        _ => None,
    }
}

/// The operator of the given level at `pos`, if one stands there.
fn operator_here(tokens: &Vec<Token>, pos: usize, level: u8) -> (r: Option<Op>)
    ensures
        r == operator_at(tokens_view(tokens@), pos as int, level as int),
{
    if pos < tokens.len() {
        match &tokens[pos] {
            Token::Symbol(s) => operator_of(*s, level),
            _ => None,
        }
    } else {
        None
    }
}

/// Reads a list of names up to the symbol `close`.
fn names(tokens: &Vec<Token>, pos: usize, close: Symbol, seen: Vec<String>) -> (r: Result<
    (Vec<String>, usize),
    ParseError,
>)
    requires
        pos <= tokens.len(),
    ensures
        match parse_names(tokens_view(tokens@), pos as int, close, names_view(seen@)) {
            Some((all, next)) => r matches Ok((found, end)) && names_view(found@) == all && end == next
                && pos < next <= tokens.len(),
            None => r == Err::<(Vec<String>, usize), ParseError>(ParseError::UnrecognizedToken),
        },
    decreases tokens.len() - pos,
{
    if is_symbol(tokens, pos, close) {
        return Ok((seen, pos + 1));
    }
    match name_of(tokens, pos) {
        Some(name) => {
            let ghost before = names_view(seen@);
            let mut seen = seen;
            let ghost text = name@;
            seen.push(name);
            proof {
                assert(names_view(seen@) =~= before.push(text));
            }
            if is_symbol(tokens, pos + 1, close) {
                Ok((seen, pos + 2))
            } else if is_symbol(tokens, pos + 1, Symbol::Comma) {
                names(tokens, pos + 2, close, seen)
            } else {
                Err(ParseError::UnrecognizedToken)
            }
        },
        None => Err(ParseError::UnrecognizedToken),
    }
}

/// Reads an expression.
fn expr(tokens: &Vec<Token>, pos: usize) -> (r: Result<(Box<Expr>, usize), ParseError>)
    ensures
        reads_expr(r, parse_expr(tokens_view(tokens@), pos as int), pos, tokens@.len()),
    decreases tokens.len() - pos, 10int,
{
    if pos >= tokens.len() {
        return Err(ParseError::UnrecognizedToken);
    }
    let ghost ts = tokens_view(tokens@);
    if is_symbol(tokens, pos + 1, Symbol::Assign) {
        match name_of(tokens, pos) {
            Some(name) => {
                return match expr(tokens, pos + 2) {
                    Ok((value, end)) => Ok((Box::new(Expr::Assignment(name, value)), end)),
                    Err(e) => Err(e),
                };
            },
            None => {},
        }
    }
    if is_symbol(tokens, pos + 1, Symbol::Arrow) {
        match name_of(tokens, pos) {
            Some(name) => {
                return match expr(tokens, pos + 2) {
                    Ok((body, end)) => {
                        let ghost text = name@;
                        let mut params: Vec<String> = Vec::new();
                        params.push(name);
                        proof {
                            assert(names_view(params@) =~= seq![text]);
                        }
                        Ok((Box::new(Expr::Lambda(params, body)), end))
                    },
                    Err(e) => Err(e),
                };
            },
            None => {},
        }
    }
    if is_symbol(tokens, pos, Symbol::Bar) {
        let empty: Vec<String> = Vec::new();
        proof {
            assert(names_view(empty@) =~= Seq::<Seq<char>>::empty());
        }
        match names(tokens, pos + 1, Symbol::Bar, empty) {
            Ok((params, arrow)) => {
                if is_symbol(tokens, arrow, Symbol::Arrow) {
                    match expr(tokens, arrow + 1) {
                        Ok((body, end)) => Ok((Box::new(Expr::Lambda(params, body)), end)),
                        Err(e) => Err(e),
                    }
                } else {
                    Err(ParseError::UnrecognizedToken)
                }
            },
            Err(e) => Err(e),
        }
    } else if is_symbol(tokens, pos, Symbol::Push) {
        match expr(tokens, pos + 1) {
            Ok((value, end)) => Ok((Box::new(Expr::Push(value)), end)),
            Err(e) => Err(e),
        }
    } else if is_symbol(tokens, pos, Symbol::Return) {
        match expr(tokens, pos + 1) {
            Ok((value, end)) => Ok((Box::new(Expr::Return(value)), end)),
            Err(e) => Err(e),
        }
    } else if is_symbol(tokens, pos, Symbol::If) {
        match expr(tokens, pos + 1) {
            Ok((cond, then_at)) => {
                if !is_symbol(tokens, then_at, Symbol::Then) {
                    return Err(ParseError::UnrecognizedToken);
                }
                match expr(tokens, then_at + 1) {
                    Ok((then, else_at)) => {
                        if !is_symbol(tokens, else_at, Symbol::Else) {
                            return Err(ParseError::UnrecognizedToken);
                        }
                        match expr(tokens, else_at + 1) {
                            Ok((otherwise, end)) => Ok((Box::new(Expr::If(cond, then, otherwise)), end)),
                            Err(e) => Err(e),
                        }
                    },
                    Err(e) => Err(e),
                }
            },
            Err(e) => Err(e),
        }
    } else if is_symbol(tokens, pos, Symbol::While) {
        match expr(tokens, pos + 1) {
            Ok((cond, do_at)) => {
                if !is_symbol(tokens, do_at, Symbol::Do) {
                    return Err(ParseError::UnrecognizedToken);
                }
                match expr(tokens, do_at + 1) {
                    Ok((body, end)) => Ok((Box::new(Expr::While(cond, body)), end)),
                    Err(e) => Err(e),
                }
            },
            Err(e) => Err(e),
        }
    } else {
        binary(tokens, pos, 0)
    }
}

/// Reads a chain of operands joined by the operators of one level.
fn binary(tokens: &Vec<Token>, pos: usize, level: u8) -> (r: Result<(Box<Expr>, usize), ParseError>)
    requires
        level <= LEVELS,
    ensures
        reads_expr(r, parse_binary(tokens_view(tokens@), pos as int, level as int), pos, tokens@.len()),
    decreases tokens.len() - pos, 9 - level,
{
    if pos >= tokens.len() {
        return Err(ParseError::UnrecognizedToken);
    }
    if level == LEVELS {
        match primary(tokens, pos) {
            Ok((callee, next)) => calls(tokens, callee, next, Ghost(pos)),
            Err(e) => Err(e),
        }
    } else {
        match binary(tokens, pos, level + 1) {
            Ok((left, next)) => operands(tokens, left, next, level, Ghost(pos)),
            Err(e) => Err(e),
        }
    }
}

/// Reads the operators of one level that follow the operand `left`, each
/// with its right operand.
fn operands(tokens: &Vec<Token>, left: Box<Expr>, pos: usize, level: u8, Ghost(start): Ghost<usize>) -> (r:
    Result<(Box<Expr>, usize), ParseError>)
    requires
        level < LEVELS,
        start < pos <= tokens.len(),
    ensures
        reads_expr(
            r,
            parse_operands(tokens_view(tokens@), (*left).syntax(), pos as int, level as int),
            start,
            tokens@.len(),
        ),
    decreases tokens.len() - pos, 0int,
{
    match operator_here(tokens, pos, level) {
        Some(op) => {
            match binary(tokens, pos + 1, level + 1) {
                Ok((right, next)) => operands(
                    tokens,
                    Box::new(Expr::Binary(left, op, right)),
                    next,
                    level,
                    Ghost(start),
                ),
                Err(e) => Err(e),
            }
        },
        None => Ok((left, pos)),
    }
}

/// Reads the argument lists that follow the expression `callee`.
fn calls(tokens: &Vec<Token>, callee: Box<Expr>, pos: usize, Ghost(start): Ghost<usize>) -> (r: Result<
    (Box<Expr>, usize),
    ParseError,
>)
    requires
        start < pos <= tokens.len(),
    ensures
        reads_expr(
            r,
            parse_calls(tokens_view(tokens@), (*callee).syntax(), pos as int),
            start,
            tokens@.len(),
        ),
    decreases tokens.len() - pos, 0int,
{
    if is_symbol(tokens, pos, Symbol::LParen) {
        let empty: Vec<Box<Expr>> = Vec::new();
        proof {
            assert(exprs_view(empty@) =~= Seq::<Syntax>::empty());
        }
        match exprs(tokens, pos + 1, Symbol::Comma, Symbol::RParen, empty) {
            Ok((args, next)) => {
                calls(tokens, Box::new(Expr::Call(callee, args)), next, Ghost(start))
            },
            Err(e) => Err(e),
        }
    } else {
        Ok((callee, pos))
    }
}

/// Reads a literal, a name, an expression in parentheses or a block.
fn primary(tokens: &Vec<Token>, pos: usize) -> (r: Result<(Box<Expr>, usize), ParseError>)
    requires
        pos < tokens.len(),
    ensures
        reads_expr(r, parse_primary(tokens_view(tokens@), pos as int), pos, tokens@.len()),
    decreases tokens.len() - pos, 2int,
{
    match &tokens[pos] {
        Token::Number(d) => Ok((Box::new(Expr::Number(*d)), pos + 1)),
        Token::Name(name) => Ok((Box::new(Expr::Name(name.clone())), pos + 1)),
        Token::Symbol(Symbol::True) => Ok((Box::new(Expr::Bool(true)), pos + 1)),
        Token::Symbol(Symbol::False) => Ok((Box::new(Expr::Bool(false)), pos + 1)),
        Token::Symbol(Symbol::Pull) => Ok((Box::new(Expr::Pull), pos + 1)),
        Token::Symbol(Symbol::FinishedPipe) => Ok((Box::new(Expr::FinishedPipe), pos + 1)),
        Token::Symbol(Symbol::LParen) => {
            match expr(tokens, pos + 1) {
                Ok((inner, close)) => {
                    if is_symbol(tokens, close, Symbol::RParen) {
                        Ok((inner, close + 1))
                    } else {
                        Err(ParseError::UnrecognizedToken)
                    }
                },
                Err(e) => Err(e),
            }
        },
        Token::Symbol(Symbol::LBrace) => {
            let empty: Vec<Box<Expr>> = Vec::new();
            proof {
                assert(exprs_view(empty@) =~= Seq::<Syntax>::empty());
            }
            match exprs(tokens, pos + 1, Symbol::Semicolon, Symbol::RBrace, empty) {
                Ok((items, next)) => Ok((Box::new(Expr::Block(items)), next)),
                Err(e) => Err(e),
            }
        },
        _ => Err(ParseError::UnrecognizedToken),
    }
}

/// Reads a list of expressions up to the symbol `close`.
fn exprs(tokens: &Vec<Token>, pos: usize, separator: Symbol, close: Symbol, seen: Vec<Box<Expr>>) -> (r:
    Result<(Vec<Box<Expr>>, usize), ParseError>)
    requires
        pos <= tokens.len(),
    ensures
        match parse_exprs(tokens_view(tokens@), pos as int, separator, close, exprs_view(seen@)) {
            Some((all, next)) => r matches Ok((found, end)) && exprs_view(found@) == all && end == next
                && pos < next <= tokens.len(),
            None => r == Err::<(Vec<Box<Expr>>, usize), ParseError>(ParseError::UnrecognizedToken),
        },
    decreases tokens.len() - pos, 11int,
{
    if pos >= tokens.len() {
        return Err(ParseError::UnrecognizedToken);
    }
    if is_symbol(tokens, pos, close) {
        return Ok((seen, pos + 1));
    }
    match expr(tokens, pos) {
        Ok((item, next)) => {
            let ghost before = exprs_view(seen@);
            let ghost syntax = (*item).syntax();
            let mut seen = seen;
            seen.push(item);
            proof {
                assert(exprs_view(seen@) =~= before.push(syntax));
            }
            if is_symbol(tokens, next, close) {
                Ok((seen, next + 1))
            } else if is_symbol(tokens, next, separator) {
                exprs(tokens, next + 1, separator, close, seen)
            } else {
                Err(ParseError::UnrecognizedToken)
            }
        },
        Err(e) => Err(e),
    }
}

/// Reads a definition.
fn definition(tokens: &Vec<Token>, pos: usize) -> (r: Result<(Definition, usize), ParseError>)
    ensures
        match parse_definition(tokens_view(tokens@), pos as int) {
            Some((expected, next)) => r matches Ok((d, end)) && d@ == expected && end == next && pos
                < next <= tokens.len(),
            None => r == Err::<(Definition, usize), ParseError>(ParseError::UnrecognizedToken),
        },
{
    if pos >= tokens.len() {
        return Err(ParseError::UnrecognizedToken);
    }
    match name_of(tokens, pos) {
        Some(name) => {
            if !is_symbol(tokens, pos + 1, Symbol::LParen) {
                return Err(ParseError::UnrecognizedToken);
            }
            let empty: Vec<String> = Vec::new();
            proof {
                assert(names_view(empty@) =~= Seq::<Seq<char>>::empty());
            }
            match names(tokens, pos + 2, Symbol::RParen, empty) {
                Ok((params, arrow)) => {
                    if !is_symbol(tokens, arrow, Symbol::FatArrow) {
                        return Err(ParseError::UnrecognizedToken);
                    }
                    match expr(tokens, arrow + 1) {
                        Ok((body, end)) => Ok((Definition::new(Prototype::new(name, params), body), end)),
                        Err(e) => Err(e),
                    }
                },
                Err(e) => Err(e),
            }
        },
        None => Err(ParseError::UnrecognizedToken),
    }
}

/// Reads an expression from a text.
///
/// The result is the expression that the grammar gives for the tokens of
/// the text. The error is `InvalidToken` where the text has no tokens, and
/// `UnrecognizedToken` where the tokens are not one expression.
#[allow(non_snake_case)]
pub fn parse_Expr(text: &str) -> (r: Result<Box<Expr>, ParseError>)
    ensures
        match expression_of(text@) {
            Ok(syntax) => r matches Ok(e) && (*e).syntax() == syntax,
            Err(error) => r == Err::<Box<Expr>, ParseError>(error),
        },
{
    match tokenize(text) {
        Err(e) => Err(e),
        Ok(tokens) => {
            match expr(&tokens, 0) {
                Ok((e, end)) => {
                    if end == tokens.len() {
                        Ok(e)
                    } else {
                        Err(ParseError::UnrecognizedToken)
                    }
                },
                Err(e) => Err(e),
            }
        },
    }
}

/// Reads one definition from a text.
///
/// The error is `InvalidToken` where the text has no tokens, and
/// `UnrecognizedToken` where the tokens are not one definition.
#[allow(non_snake_case)]
pub fn parse_Definition(text: &str) -> (r: Result<Definition, ParseError>)
    ensures
        match definition_of(text@) {
            Ok(expected) => r matches Ok(d) && d@ == expected,
            Err(error) => r == Err::<Definition, ParseError>(error),
        },
{
    match tokenize(text) {
        Err(e) => Err(e),
        Ok(tokens) => {
            match definition(&tokens, 0) {
                Ok((d, end)) => {
                    if end == tokens.len() {
                        Ok(d)
                    } else {
                        Err(ParseError::UnrecognizedToken)
                    }
                },
                Err(e) => Err(e),
            }
        },
    }
}

/// Reads a program, which is any number of definitions, from a text.
///
/// The error is `InvalidToken` where the text has no tokens, and
/// `UnrecognizedToken` where the tokens are not a sequence of definitions.
#[allow(non_snake_case)]
pub fn parse_Program(text: &str) -> (r: Result<Vec<Definition>, ParseError>)
    ensures
        match program_of(text@) {
            Ok(expected) => r matches Ok(ds) && definitions_view(ds@) == expected,
            Err(error) => r == Err::<Vec<Definition>, ParseError>(error),
        },
{
    match tokenize(text) {
        Err(e) => Err(e),
        Ok(tokens) => {
            let ghost ts = tokens_view(tokens@);
            let mut found: Vec<Definition> = Vec::new();
            let mut pos: usize = 0;
            proof {
                assert(definitions_view(found@) =~= Seq::<DefinitionView>::empty());
            }
            while pos < tokens.len()
                invariant
                    lexemes(text@) == Some(ts),
                    ts == tokens_view(tokens@),
                    pos <= tokens.len(),
                    parse_definitions(ts, 0, Seq::empty()) == parse_definitions(
                        ts,
                        pos as int,
                        definitions_view(found@),
                    ),
                decreases tokens.len() - pos,
            {
                match definition(&tokens, pos) {
                    Ok((d, next)) => {
                        let ghost before = definitions_view(found@);
                        let ghost view = d@;
                        found.push(d);
                        proof {
                            assert(definitions_view(found@) =~= before.push(view));
                        }
                        pos = next;
                    },
                    Err(e) => {
                        return Err(e);
                    },
                }
            }
            Ok(found)
        },
    }
}

} // verus!
