//! The grammar of the language, as functions from tokens to syntax.
//!
//! Every function here reads a phrase that begins at the token `pos` and
//! gives the syntax it stands for together with the position behind it, or
//! nothing where no such phrase begins there.
//!
//! ```text
//! program     := definition*
//! definition  := NAME "(" names ")" "=>" expr
//! expr        := NAME ":=" expr | NAME "->" expr | "|" names "|" "->" expr
//!              | "push" expr | "return" expr
//!              | "if" expr "then" expr "else" expr | "while" expr "do" expr
//!              | binary(0)
//! binary(n)   := binary(n+1) (operator(n) binary(n+1))*      for n < 6
//! binary(6)   := primary ("(" exprs ")")*
//! primary     := NUMBER | NAME | "true" | "false" | "pull" | "FinishedPipe"
//!              | "(" expr ")" | "{" exprs "}"
//! ```
//!
//! The operators, loosest first: `|`; `or`; `and`; `>` `<` `=`; `+` `-`;
//! `*` `/` `%`. All of them group to the left. Lists are separated by `,`
//! (by `;` in a block), may be empty, and may end in a separator.

use vstd::prelude::*;
use crate::ast::{DefinitionView, Op, PrototypeView, Syntax};
use crate::lexer::{Lexeme, Symbol};

verus! {

/// The number of levels of binary operators.
pub const LEVELS: u8 = 6;

/// The operator that `symbol` is on the given level, if it is one there.
pub open spec fn operator(symbol: Symbol, level: int) -> Option<Op> {
    if level == 0 && symbol == Symbol::Bar {
        Some(Op::Pipe)
    } else if level == 1 && symbol == Symbol::Or {
        Some(Op::Or)
    } else if level == 2 && symbol == Symbol::And {
        Some(Op::And)
    } else if level == 3 && symbol == Symbol::Greater {
        Some(Op::Greater)
    } else if level == 3 && symbol == Symbol::Less {
        Some(Op::Lesser)
    } else if level == 3 && symbol == Symbol::Equal {
        Some(Op::Equals)
    } else if level == 4 && symbol == Symbol::Plus {
        Some(Op::Plus)
    } else if level == 4 && symbol == Symbol::Minus {
        Some(Op::Minus)
    } else if level == 5 && symbol == Symbol::Star {
        Some(Op::Times)
    } else if level == 5 && symbol == Symbol::Slash {
        Some(Op::Slash)
    } else if level == 5 && symbol == Symbol::Percent {
        Some(Op::Percent)
    } else {
        None
    }
}

/// The token at `pos` is the given symbol.
pub open spec fn symbol_at(ts: Seq<Lexeme>, pos: int, symbol: Symbol) -> bool {
    0 <= pos < ts.len() && ts[pos] == Lexeme::Symbol(symbol)
}

/// The operator of the given level that stands at `pos`.
pub open spec fn operator_at(ts: Seq<Lexeme>, pos: int, level: int) -> Option<Op> {
    if 0 <= pos < ts.len() && ts[pos] is Symbol {
        operator(ts[pos]->Symbol_0, level)
    } else {
        None
    }
}

/// The name that stands at `pos`.
pub open spec fn name_at(ts: Seq<Lexeme>, pos: int) -> Option<Seq<char>> {
    if 0 <= pos < ts.len() && ts[pos] is Name {
        Some(ts[pos]->Name_0)
    } else {
        None
    }
}

/// A list of names up to the symbol `close`, behind the names `seen`.
pub open spec fn parse_names(ts: Seq<Lexeme>, pos: int, close: Symbol, seen: Seq<Seq<char>>) -> Option<
    (Seq<Seq<char>>, int),
>
    decreases ts.len() - pos,
{
    if symbol_at(ts, pos, close) {
        Some((seen, pos + 1))
    } else {
        match name_at(ts, pos) {
            Some(name) => {
                if symbol_at(ts, pos + 1, close) {
                    Some((seen.push(name), pos + 2))
                } else if symbol_at(ts, pos + 1, Symbol::Comma) {
                    parse_names(ts, pos + 2, close, seen.push(name))
                } else {
                    None
                }
            },
            None => None,
        }
    }
}

/// An expression.
pub open spec fn parse_expr(ts: Seq<Lexeme>, pos: int) -> Option<(Syntax, int)>
    decreases ts.len() - pos, 10int,
{
    if !(0 <= pos < ts.len()) {
        None
    } else if name_at(ts, pos) is Some && symbol_at(ts, pos + 1, Symbol::Assign) {
        match parse_expr(ts, pos + 2) {
            Some((value, end)) => Some((Syntax::Assignment(name_at(ts, pos)->0, Box::new(value)), end)),
            None => None,
        }
    } else if name_at(ts, pos) is Some && symbol_at(ts, pos + 1, Symbol::Arrow) {
        match parse_expr(ts, pos + 2) {
            Some((body, end)) => Some((Syntax::Lambda(seq![name_at(ts, pos)->0], Box::new(body)), end)),
            None => None,
        }
    } else if symbol_at(ts, pos, Symbol::Bar) {
        match parse_names(ts, pos + 1, Symbol::Bar, Seq::empty()) {
            Some((params, arrow)) => {
                if symbol_at(ts, arrow, Symbol::Arrow) && arrow > pos {
                    match parse_expr(ts, arrow + 1) {
                        Some((body, end)) => Some((Syntax::Lambda(params, Box::new(body)), end)),
                        None => None,
                    }
                } else {
                    None
                }
            },
            None => None,
        }
    } else if symbol_at(ts, pos, Symbol::Push) {
        match parse_expr(ts, pos + 1) {
            Some((value, end)) => Some((Syntax::Push(Box::new(value)), end)),
            None => None,
        }
    } else if symbol_at(ts, pos, Symbol::Return) {
        match parse_expr(ts, pos + 1) {
            Some((value, end)) => Some((Syntax::Return(Box::new(value)), end)),
            None => None,
        }
    } else if symbol_at(ts, pos, Symbol::If) {
        match parse_expr(ts, pos + 1) {
            Some((cond, then_at)) => {
                if symbol_at(ts, then_at, Symbol::Then) && then_at > pos {
                    match parse_expr(ts, then_at + 1) {
                        Some((then, else_at)) => {
                            if symbol_at(ts, else_at, Symbol::Else) && else_at > then_at {
                                match parse_expr(ts, else_at + 1) {
                                    Some((otherwise, end)) => Some(
                                        (
                                            Syntax::If(
                                                Box::new(cond),
                                                Box::new(then),
                                                Box::new(otherwise),
                                            ),
                                            end,
                                        ),
                                    ),
                                    None => None,
                                }
                            } else {
                                None
                            }
                        },
                        None => None,
                    }
                } else {
                    None
                }
            },
            None => None,
        }
    } else if symbol_at(ts, pos, Symbol::While) {
        match parse_expr(ts, pos + 1) {
            Some((cond, do_at)) => {
                if symbol_at(ts, do_at, Symbol::Do) && do_at > pos {
                    match parse_expr(ts, do_at + 1) {
                        Some((body, end)) => Some((Syntax::While(Box::new(cond), Box::new(body)), end)),
                        None => None,
                    }
                } else {
                    None
                }
            },
            None => None,
        }
    } else {
        parse_binary(ts, pos, 0)
    }
}

/// A chain of operands joined by the operators of one level; on the level
/// behind the last one, a primary expression with the calls made on it.
pub open spec fn parse_binary(ts: Seq<Lexeme>, pos: int, level: int) -> Option<(Syntax, int)>
    decreases ts.len() - pos, 9 - level,
{
    if !(0 <= pos < ts.len()) || level < 0 || level > LEVELS {
        None
    } else if level == LEVELS {
        match parse_primary(ts, pos) {
            Some((callee, next)) => {
                if pos < next <= ts.len() {
                    parse_calls(ts, callee, next)
                } else {
                    None
                }
            },
            None => None,
        }
    } else {
        match parse_binary(ts, pos, level + 1) {
            Some((left, next)) => {
                if pos < next <= ts.len() {
                    parse_operands(ts, left, next, level)
                } else {
                    None
                }
            },
            None => None,
        }
    }
}

/// What follows the operand `left`: as many operators of the level, each
/// with its right operand, as there are.
pub open spec fn parse_operands(ts: Seq<Lexeme>, left: Syntax, pos: int, level: int) -> Option<
    (Syntax, int),
>
    decreases ts.len() - pos, 0int,
{
    match operator_at(ts, pos, level) {
        Some(op) => {
            match parse_binary(ts, pos + 1, level + 1) {
                Some((right, next)) => {
                    if pos < next <= ts.len() {
                        parse_operands(ts, Syntax::Binary(Box::new(left), op, Box::new(right)), next, level)
                    } else {
                        None
                    }
                },
                None => None,
            }
        },
        None => Some((left, pos)),
    }
}

/// What follows the expression `callee`: as many argument lists as there
/// are, each a call of what stands before it.
pub open spec fn parse_calls(ts: Seq<Lexeme>, callee: Syntax, pos: int) -> Option<(Syntax, int)>
    decreases ts.len() - pos, 0int,
{
    if symbol_at(ts, pos, Symbol::LParen) {
        match parse_exprs(ts, pos + 1, Symbol::Comma, Symbol::RParen, Seq::empty()) {
            Some((args, next)) => {
                if pos < next <= ts.len() {
                    parse_calls(ts, Syntax::Call(Box::new(callee), args), next)
                } else {
                    None
                }
            },
            None => None,
        }
    } else {
        Some((callee, pos))
    }
}

/// A literal, a name, an expression in parentheses or a block.
pub open spec fn parse_primary(ts: Seq<Lexeme>, pos: int) -> Option<(Syntax, int)>
    decreases ts.len() - pos, 2int,
{
    if !(0 <= pos < ts.len()) {
        None
    } else {
        match ts[pos] {
            Lexeme::Number(d) => Some((Syntax::Number(d), pos + 1)),
            Lexeme::Name(name) => Some((Syntax::Name(name), pos + 1)),
            Lexeme::Symbol(Symbol::True) => Some((Syntax::Bool(true), pos + 1)),
            Lexeme::Symbol(Symbol::False) => Some((Syntax::Bool(false), pos + 1)),
            Lexeme::Symbol(Symbol::Pull) => Some((Syntax::Pull, pos + 1)),
            Lexeme::Symbol(Symbol::FinishedPipe) => Some((Syntax::FinishedPipe, pos + 1)),
            Lexeme::Symbol(Symbol::LParen) => {
                match parse_expr(ts, pos + 1) {
                    Some((inner, close)) => {
                        if symbol_at(ts, close, Symbol::RParen) {
                            Some((inner, close + 1))
                        } else {
                            None
                        }
                    },
                    None => None,
                }
            },
            Lexeme::Symbol(Symbol::LBrace) => {
                match parse_exprs(ts, pos + 1, Symbol::Semicolon, Symbol::RBrace, Seq::empty()) {
                    Some((items, next)) => Some((Syntax::Block(items), next)),
                    None => None,
                }
            },
            _ => None,
        }
    }
}

/// A list of expressions up to the symbol `close`, behind the expressions
/// `seen`.
pub open spec fn parse_exprs(
    ts: Seq<Lexeme>,
    pos: int,
    separator: Symbol,
    close: Symbol,
    seen: Seq<Syntax>,
) -> Option<(Seq<Syntax>, int)>
    decreases ts.len() - pos, 11int,
{
    if !(0 <= pos < ts.len()) {
        None
    } else if symbol_at(ts, pos, close) {
        Some((seen, pos + 1))
    } else {
        match parse_expr(ts, pos) {
            Some((item, next)) => {
                if symbol_at(ts, next, close) {
                    Some((seen.push(item), next + 1))
                } else if symbol_at(ts, next, separator) && next >= pos {
                    parse_exprs(ts, next + 1, separator, close, seen.push(item))
                } else {
                    None
                }
            },
            None => None,
        }
    }
}

/// A definition: a name, its parameters in parentheses, `=>` and the body.
pub open spec fn parse_definition(ts: Seq<Lexeme>, pos: int) -> Option<(DefinitionView, int)> {
    match name_at(ts, pos) {
        Some(name) => {
            if symbol_at(ts, pos + 1, Symbol::LParen) {
                match parse_names(ts, pos + 2, Symbol::RParen, Seq::empty()) {
                    Some((params, arrow)) => {
                        if symbol_at(ts, arrow, Symbol::FatArrow) {
                            match parse_expr(ts, arrow + 1) {
                                Some((body, end)) => Some(
                                    (
                                        DefinitionView {
                                            prototype: PrototypeView { name: name, args: params },
                                            body: body,
                                        },
                                        end,
                                    ),
                                ),
                                None => None,
                            }
                        } else {
                            None
                        }
                    },
                    None => None,
                }
            } else {
                None
            }
        },
        None => None,
    }
}

/// Definitions up to the end of the tokens, behind the definitions `seen`.
pub open spec fn parse_definitions(ts: Seq<Lexeme>, pos: int, seen: Seq<DefinitionView>) -> Option<
    Seq<DefinitionView>,
>
    decreases ts.len() - pos,
{
    if pos >= ts.len() || pos < 0 {
        Some(seen)
    } else {
        match parse_definition(ts, pos) {
            Some((definition, next)) => {
                if pos < next <= ts.len() {
                    parse_definitions(ts, next, seen.push(definition))
                } else {
                    None
                }
            },
            None => None,
        }
    }
}

} // verus!
