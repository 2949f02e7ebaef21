//! Recursive-descent parsing of the full grammar: a token stream ending in
//! the end-of-input token becomes a program node, or the first parse
//! diagnostic.
//!
//! The grammar is pinned down by a family of specification functions, one
//! per production, each mapping a position in the token stream to the
//! parsed construct and the position just past it. Newline tokens are
//! skipped wherever statement sequencing is expected; no other token is
//! skipped. Expressions use precedence climbing, lowest to highest:
//! `||`, `&&`, equality, comparison, additive, multiplicative, unary
//! prefix, postfix chains, primaries. A type is a base type followed by
//! any number of `[]` suffixes.

use vstd::prelude::*;

use crate::ast::{AstModel, AstNode, BinaryOperator, KururiType, TypeModel, UnaryOperator};
use crate::error::{CompilerError, ErrorModel};
use crate::text;
use crate::token::{spec_token_debug, Token, TokenModel};

verus! {

// ---------------------------------------------------------------------------
// Cursor primitives
// ---------------------------------------------------------------------------
/// The token at a position, if any.
pub open spec fn at(t: Seq<TokenModel>, i: int) -> Option<TokenModel> {
    if 0 <= i < t.len() {
        Some(t[i])
    } else {
        None
    }
}

/// The debug rendering of an optional token.
pub open spec fn spec_opt_token_debug(o: Option<TokenModel>) -> Seq<char> {
    match o {
        Some(tk) => "Some("@ + spec_token_debug(tk) + ")"@,
        None => "None"@,
    }
}

/// The message of a failed `consume`.
pub open spec fn consume_message(expected: TokenModel, found: Option<TokenModel>) -> Seq<char> {
    "Expected "@ + spec_token_debug(expected) + ", found "@ + spec_opt_token_debug(found)
}

/// The message of an unexpected primary token.
pub open spec fn unexpected_token_message(found: Option<TokenModel>) -> Seq<char> {
    "Unexpected token: "@ + spec_opt_token_debug(found)
}

/// Consuming one expected token: the next position, or the diagnostic.
pub open spec fn sp_consume(t: Seq<TokenModel>, i: int, expected: TokenModel) -> Result<
    int,
    Seq<char>,
> {
    if 0 <= i < t.len() && t[i] == expected {
        Ok(i + 1)
    } else {
        Err(consume_message(expected, at(t, i)))
    }
}

/// The tokens remaining at a position (never negative).
pub open spec fn rem(t: Seq<TokenModel>, i: int) -> int {
    if i < t.len() {
        t.len() - i
    } else {
        0
    }
}

/// Clamps a successor position so that it strictly advances; the clamp
/// never bites on positions a successful parse hands back.
pub open spec fn adv(i: int, j: int) -> int {
    if j > i {
        j
    } else {
        i + 1
    }
}

/// An identifier token's payload.
pub open spec fn sp_identifier(t: Seq<TokenModel>, i: int) -> Result<(Seq<char>, int), Seq<char>> {
    if 0 <= i < t.len() && (t[i] is Identifier) {
        Ok((t[i]->Identifier_0, i + 1))
    } else {
        Err("Expected identifier"@)
    }
}

// ---------------------------------------------------------------------------
// Types
// ---------------------------------------------------------------------------
/// Array suffixes `[]*` applied to an already parsed base type.
pub open spec fn sp_type_suffix(t: Seq<TokenModel>, i: int, base: TypeModel) -> Result<
    (TypeModel, int),
    Seq<char>,
>
    decreases rem(t, i), 40int,
{
    if 0 <= i < t.len() && (t[i] is LeftBracket) {
        match sp_consume(t, i + 1, TokenModel::RightBracket) {
            Ok(j) => sp_type_suffix(t, adv(i, j), TypeModel::Array(Box::new(base))),
            Err(m) => Err(m),
        }
    } else {
        Ok((base, i))
    }
}

/// A type: `string`, `number`, `void` or a class name, then `[]*`.
pub open spec fn sp_type(t: Seq<TokenModel>, i: int) -> Result<(TypeModel, int), Seq<char>>
    decreases rem(t, i), 50int,
{
    if 0 <= i < t.len() {
        match t[i] {
            TokenModel::StringType => sp_type_suffix(t, i + 1, TypeModel::String),
            TokenModel::NumberType => sp_type_suffix(t, i + 1, TypeModel::Number),
            TokenModel::VoidType => sp_type_suffix(t, i + 1, TypeModel::Void),
            TokenModel::Identifier(name) => sp_type_suffix(t, i + 1, TypeModel::Class(name)),
            _ => Err("Expected type"@),
        }
    } else {
        Err("Expected type"@)
    }
}

// ---------------------------------------------------------------------------
// Expressions
// ---------------------------------------------------------------------------
/// A whole expression: the lowest precedence level.
pub open spec fn sp_expression(t: Seq<TokenModel>, i: int) -> Result<(AstModel, int), Seq<char>>
    decreases rem(t, i), 200int,
{
    sp_logical_or(t, i)
}

pub open spec fn sp_logical_or(t: Seq<TokenModel>, i: int) -> Result<(AstModel, int), Seq<char>>
    decreases rem(t, i), 190int,
{
    match sp_logical_and(t, i) {
        Ok(ej) => sp_or_chain(t, adv(i, ej.1), ej.0),
        Err(m) => Err(m),
    }
}

pub open spec fn sp_or_chain(t: Seq<TokenModel>, i: int, left: AstModel) -> Result<
    (AstModel, int),
    Seq<char>,
>
    decreases rem(t, i), 185int,
{
    if 0 <= i < t.len() && (t[i] is Or) {
        match sp_logical_and(t, i + 1) {
            Ok(rj) => sp_or_chain(
                t,
                adv(i, rj.1),
                AstModel::BinaryExpression {
                    left: Box::new(left),
                    operator: BinaryOperator::Or,
                    right: Box::new(rj.0),
                },
            ),
            Err(m) => Err(m),
        }
    } else {
        Ok((left, i))
    }
}

pub open spec fn sp_logical_and(t: Seq<TokenModel>, i: int) -> Result<(AstModel, int), Seq<char>>
    decreases rem(t, i), 180int,
{
    match sp_equality(t, i) {
        Ok(ej) => sp_and_chain(t, adv(i, ej.1), ej.0),
        Err(m) => Err(m),
    }
}

pub open spec fn sp_and_chain(t: Seq<TokenModel>, i: int, left: AstModel) -> Result<
    (AstModel, int),
    Seq<char>,
>
    decreases rem(t, i), 175int,
{
    if 0 <= i < t.len() && (t[i] is And) {
        match sp_equality(t, i + 1) {
            Ok(rj) => sp_and_chain(
                t,
                adv(i, rj.1),
                AstModel::BinaryExpression {
                    left: Box::new(left),
                    operator: BinaryOperator::And,
                    right: Box::new(rj.0),
                },
            ),
            Err(m) => Err(m),
        }
    } else {
        Ok((left, i))
    }
}

/// The equality operator at a position, if any.
pub open spec fn eq_op_at(t: Seq<TokenModel>, i: int) -> Option<BinaryOperator> {
    if 0 <= i < t.len() {
        match t[i] {
            TokenModel::Equal => Some(BinaryOperator::Equal),
            TokenModel::NotEqual => Some(BinaryOperator::NotEqual),
            _ => None,
        }
    } else {
        None
    }
}

pub open spec fn sp_equality(t: Seq<TokenModel>, i: int) -> Result<(AstModel, int), Seq<char>>
    decreases rem(t, i), 170int,
{
    match sp_comparison(t, i) {
        Ok(ej) => sp_eq_chain(t, adv(i, ej.1), ej.0),
        Err(m) => Err(m),
    }
}

pub open spec fn sp_eq_chain(t: Seq<TokenModel>, i: int, left: AstModel) -> Result<
    (AstModel, int),
    Seq<char>,
>
    decreases rem(t, i), 165int,
{
    match eq_op_at(t, i) {
        Some(op) => match sp_comparison(t, i + 1) {
            Ok(rj) => sp_eq_chain(
                t,
                adv(i, rj.1),
                AstModel::BinaryExpression {
                    left: Box::new(left),
                    operator: op,
                    right: Box::new(rj.0),
                },
            ),
            Err(m) => Err(m),
        },
        None => Ok((left, i)),
    }
}

/// The comparison operator at a position, if any.
pub open spec fn cmp_op_at(t: Seq<TokenModel>, i: int) -> Option<BinaryOperator> {
    if 0 <= i < t.len() {
        match t[i] {
            TokenModel::LessThan => Some(BinaryOperator::LessThan),
            TokenModel::LessThanOrEqual => Some(BinaryOperator::LessThanOrEqual),
            TokenModel::GreaterThan => Some(BinaryOperator::GreaterThan),
            TokenModel::GreaterThanOrEqual => Some(BinaryOperator::GreaterThanOrEqual),
            _ => None,
        }
    } else {
        None
    }
}

pub open spec fn sp_comparison(t: Seq<TokenModel>, i: int) -> Result<(AstModel, int), Seq<char>>
    decreases rem(t, i), 160int,
{
    match sp_term(t, i) {
        Ok(ej) => sp_cmp_chain(t, adv(i, ej.1), ej.0),
        Err(m) => Err(m),
    }
}

pub open spec fn sp_cmp_chain(t: Seq<TokenModel>, i: int, left: AstModel) -> Result<
    (AstModel, int),
    Seq<char>,
>
    decreases rem(t, i), 155int,
{
    match cmp_op_at(t, i) {
        Some(op) => match sp_term(t, i + 1) {
            Ok(rj) => sp_cmp_chain(
                t,
                adv(i, rj.1),
                AstModel::BinaryExpression {
                    left: Box::new(left),
                    operator: op,
                    right: Box::new(rj.0),
                },
            ),
            Err(m) => Err(m),
        },
        None => Ok((left, i)),
    }
}

/// The additive operator at a position, if any.
pub open spec fn term_op_at(t: Seq<TokenModel>, i: int) -> Option<BinaryOperator> {
    if 0 <= i < t.len() {
        match t[i] {
            TokenModel::Plus => Some(BinaryOperator::Add),
            TokenModel::Minus => Some(BinaryOperator::Subtract),
            _ => None,
        }
    } else {
        None
    }
}

pub open spec fn sp_term(t: Seq<TokenModel>, i: int) -> Result<(AstModel, int), Seq<char>>
    decreases rem(t, i), 150int,
{
    match sp_factor(t, i) {
        Ok(ej) => sp_term_chain(t, adv(i, ej.1), ej.0),
        Err(m) => Err(m),
    }
}

pub open spec fn sp_term_chain(t: Seq<TokenModel>, i: int, left: AstModel) -> Result<
    (AstModel, int),
    Seq<char>,
>
    decreases rem(t, i), 145int,
{
    match term_op_at(t, i) {
        Some(op) => match sp_factor(t, i + 1) {
            Ok(rj) => sp_term_chain(
                t,
                adv(i, rj.1),
                AstModel::BinaryExpression {
                    left: Box::new(left),
                    operator: op,
                    right: Box::new(rj.0),
                },
            ),
            Err(m) => Err(m),
        },
        None => Ok((left, i)),
    }
}

/// The multiplicative operator at a position, if any.
pub open spec fn factor_op_at(t: Seq<TokenModel>, i: int) -> Option<BinaryOperator> {
    if 0 <= i < t.len() {
        match t[i] {
            TokenModel::Multiply => Some(BinaryOperator::Multiply),
            TokenModel::Divide => Some(BinaryOperator::Divide),
            _ => None,
        }
    } else {
        None
    }
}

pub open spec fn sp_factor(t: Seq<TokenModel>, i: int) -> Result<(AstModel, int), Seq<char>>
    decreases rem(t, i), 140int,
{
    match sp_unary(t, i) {
        Ok(ej) => sp_factor_chain(t, adv(i, ej.1), ej.0),
        Err(m) => Err(m),
    }
}

pub open spec fn sp_factor_chain(t: Seq<TokenModel>, i: int, left: AstModel) -> Result<
    (AstModel, int),
    Seq<char>,
>
    decreases rem(t, i), 135int,
{
    match factor_op_at(t, i) {
        Some(op) => match sp_unary(t, i + 1) {
            Ok(rj) => sp_factor_chain(
                t,
                adv(i, rj.1),
                AstModel::BinaryExpression {
                    left: Box::new(left),
                    operator: op,
                    right: Box::new(rj.0),
                },
            ),
            Err(m) => Err(m),
        },
        None => Ok((left, i)),
    }
}

pub open spec fn sp_unary(t: Seq<TokenModel>, i: int) -> Result<(AstModel, int), Seq<char>>
    decreases rem(t, i), 130int,
{
    if 0 <= i < t.len() && (t[i] is Not) {
        match sp_unary(t, i + 1) {
            Ok(ej) => Ok(
                (
                    AstModel::UnaryExpression {
                        operator: UnaryOperator::Not,
                        operand: Box::new(ej.0),
                    },
                    ej.1,
                ),
            ),
            Err(m) => Err(m),
        }
    } else if 0 <= i < t.len() && (t[i] is Minus) {
        match sp_unary(t, i + 1) {
            Ok(ej) => Ok(
                (
                    AstModel::UnaryExpression {
                        operator: UnaryOperator::Minus,
                        operand: Box::new(ej.0),
                    },
                    ej.1,
                ),
            ),
            Err(m) => Err(m),
        }
    } else {
        sp_postfix(t, i)
    }
}

pub open spec fn sp_postfix(t: Seq<TokenModel>, i: int) -> Result<(AstModel, int), Seq<char>>
    decreases rem(t, i), 120int,
{
    match sp_primary(t, i) {
        Ok(ej) => sp_postfix_chain(t, adv(i, ej.1), ej.0),
        Err(m) => Err(m),
    }
}

/// The postfix chain: calls, indexing and member access, left to right.
/// A call applied to an identifier yields a call by name; applied to a
/// member access it yields a method call; applied to anything else it is a
/// parse diagnostic.
pub open spec fn sp_postfix_chain(t: Seq<TokenModel>, i: int, e: AstModel) -> Result<
    (AstModel, int),
    Seq<char>,
>
    decreases rem(t, i), 115int,
{
    if 0 <= i < t.len() && (t[i] is LeftParen) {
        match sp_call_args(t, i + 1) {
            Ok(aj) => match sp_consume(t, aj.1, TokenModel::RightParen) {
                Ok(j) => match e {
                    AstModel::Identifier(name) => sp_postfix_chain(
                        t,
                        adv(i, j),
                        AstModel::FunctionCall { name, args: aj.0 },
                    ),
                    AstModel::PropertyAccess { object, property } => sp_postfix_chain(
                        t,
                        adv(i, j),
                        AstModel::MethodCall { object, method: property, args: aj.0 },
                    ),
                    _ => Err("Invalid function call"@),
                },
                Err(m) => Err(m),
            },
            Err(m) => Err(m),
        }
    } else if 0 <= i < t.len() && (t[i] is LeftBracket) {
        match sp_expression(t, i + 1) {
            Ok(xj) => match sp_consume(t, xj.1, TokenModel::RightBracket) {
                Ok(j) => sp_postfix_chain(
                    t,
                    adv(i, j),
                    AstModel::ArrayAccess { array: Box::new(e), index: Box::new(xj.0) },
                ),
                Err(m) => Err(m),
            },
            Err(m) => Err(m),
        }
    } else if 0 <= i < t.len() && (t[i] is Dot) {
        match sp_identifier(t, i + 1) {
            Ok(pj) => sp_postfix_chain(
                t,
                adv(i, pj.1),
                AstModel::PropertyAccess { object: Box::new(e), property: pj.0 },
            ),
            Err(m) => Err(m),
        }
    } else {
        Ok((e, i))
    }
}

/// Call arguments up to the closing parenthesis (not consumed): empty, or
/// one or more comma-separated elements with no trailing comma.
pub open spec fn sp_call_args(t: Seq<TokenModel>, i: int) -> Result<
    (Seq<AstModel>, int),
    Seq<char>,
>
    decreases rem(t, i), 300int,
{
    if i >= t.len() || (0 <= i && t[i] is RightParen) {
        Ok((Seq::empty(), i))
    } else {
        sp_call_args_some(t, i)
    }
}

/// One or more comma-separated call arguments: after a comma another
/// element is required, so a trailing comma is a parse diagnostic.
pub open spec fn sp_call_args_some(t: Seq<TokenModel>, i: int) -> Result<
    (Seq<AstModel>, int),
    Seq<char>,
>
    decreases rem(t, i), 290int,
{
    match sp_expression(t, i) {
        Ok(ej) => if 0 <= i < t.len() && 0 <= ej.1 < t.len() && (t[ej.1] is Comma) {
            match sp_call_args_some(t, adv(i, ej.1 + 1)) {
                Ok(rj) => Ok((seq![ej.0] + rj.0, rj.1)),
                Err(m) => Err(m),
            }
        } else {
            Ok((seq![ej.0], ej.1))
        },
        Err(m) => Err(m),
    }
}

/// Array-literal elements up to the closing bracket (not consumed):
/// empty, or one or more comma-separated elements with no trailing comma.
pub open spec fn sp_array_elems(t: Seq<TokenModel>, i: int) -> Result<
    (Seq<AstModel>, int),
    Seq<char>,
>
    decreases rem(t, i), 300int,
{
    if i >= t.len() || (0 <= i && t[i] is RightBracket) {
        Ok((Seq::empty(), i))
    } else {
        sp_array_elems_some(t, i)
    }
}

/// One or more comma-separated array elements: after a comma another
/// element is required, so a trailing comma is a parse diagnostic.
pub open spec fn sp_array_elems_some(t: Seq<TokenModel>, i: int) -> Result<
    (Seq<AstModel>, int),
    Seq<char>,
>
    decreases rem(t, i), 290int,
{
    match sp_expression(t, i) {
        Ok(ej) => if 0 <= i < t.len() && 0 <= ej.1 < t.len() && (t[ej.1] is Comma) {
            match sp_array_elems_some(t, adv(i, ej.1 + 1)) {
                Ok(rj) => Ok((seq![ej.0] + rj.0, rj.1)),
                Err(m) => Err(m),
            }
        } else {
            Ok((seq![ej.0], ej.1))
        },
        Err(m) => Err(m),
    }
}

/// A primary: a literal, an identifier, a parenthesized expression, an
/// array literal, or a zero-argument `new`.
pub open spec fn sp_primary(t: Seq<TokenModel>, i: int) -> Result<(AstModel, int), Seq<char>>
    decreases rem(t, i), 110int,
{
    if i < 0 || i >= t.len() {
        Err(unexpected_token_message(at(t, i)))
    } else {
        match t[i] {
            TokenModel::StringLiteral(v) => Ok((AstModel::StringLiteral(v), i + 1)),
            TokenModel::NumberLiteral(v) => Ok((AstModel::NumberLiteral(v), i + 1)),
            TokenModel::True => Ok((AstModel::BooleanLiteral(true), i + 1)),
            TokenModel::False => Ok((AstModel::BooleanLiteral(false), i + 1)),
            TokenModel::Identifier(name) => Ok((AstModel::Identifier(name), i + 1)),
            TokenModel::LeftParen => match sp_expression(t, i + 1) {
                Ok(ej) => match sp_consume(t, ej.1, TokenModel::RightParen) {
                    Ok(j) => Ok((ej.0, j)),
                    Err(m) => Err(m),
                },
                Err(m) => Err(m),
            },
            TokenModel::LeftBracket => match sp_array_elems(t, i + 1) {
                Ok(aj) => match sp_consume(t, aj.1, TokenModel::RightBracket) {
                    Ok(j) => Ok((AstModel::ArrayLiteral(aj.0), j)),
                    Err(m) => Err(m),
                },
                Err(m) => Err(m),
            },
            TokenModel::New => match sp_identifier(t, i + 1) {
                Ok(nj) => Ok(
                    (
                        AstModel::NewExpression { class_name: nj.0, args: Seq::empty() },
                        nj.1,
                    ),
                ),
                Err(m) => Err(m),
            },
            _ => Err(unexpected_token_message(at(t, i))),
        }
    }
}

// ---------------------------------------------------------------------------
// Statements
// ---------------------------------------------------------------------------
/// Statements up to a closing brace or the end of the stream (the brace is
/// not consumed); newline separators are skipped.
pub open spec fn sp_block(t: Seq<TokenModel>, i: int) -> Result<(Seq<AstModel>, int), Seq<char>>
    decreases rem(t, i), 600int,
{
    if i < 0 || i >= t.len() || (t[i] is RightBrace) {
        Ok((Seq::empty(), i))
    } else if t[i] is Newline {
        sp_block(t, i + 1)
    } else {
        match sp_statement(t, i) {
            Ok(sj) => match sp_block(t, adv(i, sj.1)) {
                Ok(rj) => Ok((seq![sj.0] + rj.0, rj.1)),
                Err(m) => Err(m),
            },
            Err(m) => Err(m),
        }
    }
}

/// Top-level statements up to the end-of-input token; newline separators
/// are skipped.
pub open spec fn sp_program_items(t: Seq<TokenModel>, i: int) -> Result<
    (Seq<AstModel>, int),
    Seq<char>,
>
    decreases rem(t, i), 610int,
{
    if i < 0 || i >= t.len() || (t[i] is Eof) {
        Ok((Seq::empty(), i))
    } else if t[i] is Newline {
        sp_program_items(t, i + 1)
    } else {
        match sp_statement(t, i) {
            Ok(sj) => match sp_program_items(t, adv(i, sj.1)) {
                Ok(rj) => Ok((seq![sj.0] + rj.0, rj.1)),
                Err(m) => Err(m),
            },
            Err(m) => Err(m),
        }
    }
}

/// One statement, dispatched on its leading token.
pub open spec fn sp_statement(t: Seq<TokenModel>, i: int) -> Result<(AstModel, int), Seq<char>>
    decreases rem(t, i), 500int,
{
    if 0 <= i < t.len() {
        match t[i] {
            TokenModel::Function => sp_function_decl(t, i),
            TokenModel::Class => sp_class_decl(t, i),
            TokenModel::Let => sp_var_decl(t, i),
            TokenModel::Const => sp_var_decl(t, i),
            TokenModel::If => sp_if_statement(t, i),
            TokenModel::While => sp_while_statement(t, i),
            TokenModel::For => sp_for_statement(t, i),
            TokenModel::Foreach => sp_foreach_statement(t, i),
            TokenModel::Return => sp_return_statement(t, i),
            _ => sp_expression(t, i),
        }
    } else {
        sp_expression(t, i)
    }
}

/// Function parameters up to the closing parenthesis (not consumed):
/// empty, or one or more comma-separated `Ident ':' Type` pairs with no
/// trailing comma.
pub open spec fn sp_params(t: Seq<TokenModel>, i: int) -> Result<
    (Seq<(Seq<char>, TypeModel)>, int),
    Seq<char>,
>
    decreases rem(t, i), 300int,
{
    if i >= t.len() || (0 <= i && t[i] is RightParen) {
        Ok((Seq::empty(), i))
    } else {
        sp_params_some(t, i)
    }
}

/// One or more comma-separated parameters: after a comma another parameter
/// is required, so a trailing comma is a parse diagnostic.
pub open spec fn sp_params_some(t: Seq<TokenModel>, i: int) -> Result<
    (Seq<(Seq<char>, TypeModel)>, int),
    Seq<char>,
>
    decreases rem(t, i), 290int,
{
    match sp_identifier(t, i) {
        Ok(nj) => match sp_consume(t, nj.1, TokenModel::Colon) {
            Ok(j1) => match sp_type(t, adv(i, j1)) {
                Ok(tj) => if 0 <= i < t.len() && 0 <= tj.1 < t.len() && (t[tj.1] is Comma) {
                    match sp_params_some(t, adv(i, tj.1 + 1)) {
                        Ok(rj) => Ok((seq![(nj.0, tj.0)] + rj.0, rj.1)),
                        Err(m) => Err(m),
                    }
                } else {
                    Ok((seq![(nj.0, tj.0)], tj.1))
                },
                Err(m) => Err(m),
            },
            Err(m) => Err(m),
        },
        Err(m) => Err(m),
    }
}

/// `function Ident '(' params? ')' ':' Type '{' stmts '}'`.
pub open spec fn sp_function_decl(t: Seq<TokenModel>, i: int) -> Result<
    (AstModel, int),
    Seq<char>,
>
    decreases rem(t, i), 450int,
{
    match sp_consume(t, i, TokenModel::Function) {
        Ok(i1) => match sp_identifier(t, i1) {
            Ok(nj) => match sp_consume(t, nj.1, TokenModel::LeftParen) {
                Ok(i3) => match sp_params(t, adv(i, i3)) {
                    Ok(pj) => match sp_consume(t, pj.1, TokenModel::RightParen) {
                        Ok(i5) => match sp_consume(t, i5, TokenModel::Colon) {
                            Ok(i6) => match sp_type(t, adv(i, i6)) {
                                Ok(tj) => match sp_consume(t, tj.1, TokenModel::LeftBrace) {
                                    Ok(i8) => match sp_block(t, adv(i, i8)) {
                                        Ok(bj) => match sp_consume(
                                            t,
                                            bj.1,
                                            TokenModel::RightBrace,
                                        ) {
                                            Ok(i10) => Ok(
                                                (
                                                    AstModel::FunctionDeclaration {
                                                        name: nj.0,
                                                        params: pj.0,
                                                        return_type: tj.0,
                                                        body: bj.0,
                                                        is_public: false,
                                                    },
                                                    i10,
                                                ),
                                            ),
                                            Err(m) => Err(m),
                                        },
                                        Err(m) => Err(m),
                                    },
                                    Err(m) => Err(m),
                                },
                                Err(m) => Err(m),
                            },
                            Err(m) => Err(m),
                        },
                        Err(m) => Err(m),
                    },
                    Err(m) => Err(m),
                },
                Err(m) => Err(m),
            },
            Err(m) => Err(m),
        },
        Err(m) => Err(m),
    }
}

/// One class field: `Ident ':' Type '=' Expr`.
pub open spec fn sp_class_field(t: Seq<TokenModel>, i: int) -> Result<
    ((Seq<char>, TypeModel, AstModel), int),
    Seq<char>,
>
    decreases rem(t, i), 540int,
{
    match sp_identifier(t, i) {
        Ok(nj) => match sp_consume(t, nj.1, TokenModel::Colon) {
            Ok(j1) => match sp_type(t, adv(i, j1)) {
                Ok(tj) => match sp_consume(t, tj.1, TokenModel::Assign) {
                    Ok(j2) => match sp_expression(t, adv(i, j2)) {
                        Ok(ej) => Ok(((nj.0, tj.0, ej.0), ej.1)),
                        Err(m) => Err(m),
                    },
                    Err(m) => Err(m),
                },
                Err(m) => Err(m),
            },
            Err(m) => Err(m),
        },
        Err(m) => Err(m),
    }
}

/// The same declaration with its `public` flag set.
pub open spec fn set_public(m: AstModel) -> AstModel {
    match m {
        AstModel::FunctionDeclaration { name, params, return_type, body, .. } => {
            AstModel::FunctionDeclaration { name, params, return_type, body, is_public: true }
        },
        _ => m,
    }
}

/// Class members up to the closing brace (not consumed): methods introduced
/// by `function`, public methods introduced by `public function`, fields
/// otherwise.
pub open spec fn sp_members(t: Seq<TokenModel>, i: int) -> Result<
    ((Seq<(Seq<char>, TypeModel, AstModel)>, Seq<AstModel>), int),
    Seq<char>,
>
    decreases rem(t, i), 550int,
{
    if i < 0 || i >= t.len() || (t[i] is RightBrace) {
        Ok(((Seq::empty(), Seq::empty()), i))
    } else if t[i] is Newline {
        sp_members(t, i + 1)
    } else if t[i] is Function {
        match sp_function_decl(t, i) {
            Ok(mj) => match sp_members(t, adv(i, mj.1)) {
                Ok(rj) => Ok(((rj.0.0, seq![mj.0] + rj.0.1), rj.1)),
                Err(m) => Err(m),
            },
            Err(m) => Err(m),
        }
    } else if t[i] is Public {
        match sp_function_decl(t, i + 1) {
            Ok(mj) => match sp_members(t, adv(i, mj.1)) {
                Ok(rj) => Ok(((rj.0.0, seq![set_public(mj.0)] + rj.0.1), rj.1)),
                Err(m) => Err(m),
            },
            Err(m) => Err(m),
        }
    } else {
        match sp_class_field(t, i) {
            Ok(fj) => match sp_members(t, adv(i, fj.1)) {
                Ok(rj) => Ok(((seq![fj.0] + rj.0.0, rj.0.1), rj.1)),
                Err(m) => Err(m),
            },
            Err(m) => Err(m),
        }
    }
}

/// The member loop's invariant: what was collected so far, joined with
/// the remaining members, is the whole member list.
pub open spec fn members_inv(
    t: Seq<TokenModel>,
    mstart: int,
    pos: int,
    facc: Seq<(Seq<char>, TypeModel, AstModel)>,
    macc: Seq<AstModel>,
) -> bool {
    match sp_members(t, pos) {
        Ok(mj) => sp_members(t, mstart) == Ok::<
            ((Seq<(Seq<char>, TypeModel, AstModel)>, Seq<AstModel>), int),
            Seq<char>,
        >(((facc + mj.0.0, macc + mj.0.1), mj.1)),
        Err(m) => sp_members(t, mstart) == Err::<
            ((Seq<(Seq<char>, TypeModel, AstModel)>, Seq<AstModel>), int),
            Seq<char>,
        >(m),
    }
}

proof fn lemma_members_method_step(
    t: Seq<TokenModel>,
    mstart: int,
    i: int,
    facc: Seq<(Seq<char>, TypeModel, AstModel)>,
    macc: Seq<AstModel>,
    mm: AstModel,
    j: int,
)
    requires
        0 <= i < t.len(),
        !(t[i] is RightBrace),
        !(t[i] is Newline),
        t[i] is Function,
        members_inv(t, mstart, i, facc, macc),
        sp_function_decl(t, i) == Ok::<(AstModel, int), Seq<char>>((mm, j)),
        i < j,
    ensures
        members_inv(t, mstart, j, facc, macc.push(mm)),
{
    match sp_members(t, j) {
        Ok(rj) => {
            assert(macc + (seq![mm] + rj.0.1) =~= macc.push(mm) + rj.0.1);
        },
        Err(_) => {},
    }
}

proof fn lemma_members_public_step(
    t: Seq<TokenModel>,
    mstart: int,
    i: int,
    facc: Seq<(Seq<char>, TypeModel, AstModel)>,
    macc: Seq<AstModel>,
    mm: AstModel,
    j: int,
)
    requires
        0 <= i < t.len(),
        !(t[i] is RightBrace),
        !(t[i] is Newline),
        !(t[i] is Function),
        t[i] is Public,
        members_inv(t, mstart, i, facc, macc),
        sp_function_decl(t, i + 1) == Ok::<(AstModel, int), Seq<char>>((mm, j)),
        i < j,
    ensures
        members_inv(t, mstart, j, facc, macc.push(set_public(mm))),
{
    match sp_members(t, j) {
        Ok(rj) => {
            assert(macc + (seq![set_public(mm)] + rj.0.1) =~= macc.push(set_public(mm)) + rj.0.1);
        },
        Err(_) => {},
    }
}

proof fn lemma_members_field_step(
    t: Seq<TokenModel>,
    mstart: int,
    i: int,
    facc: Seq<(Seq<char>, TypeModel, AstModel)>,
    macc: Seq<AstModel>,
    ff: (Seq<char>, TypeModel, AstModel),
    j: int,
)
    requires
        0 <= i < t.len(),
        !(t[i] is RightBrace),
        !(t[i] is Newline),
        !(t[i] is Function),
        !(t[i] is Public),
        members_inv(t, mstart, i, facc, macc),
        sp_class_field(t, i) == Ok::<((Seq<char>, TypeModel, AstModel), int), Seq<char>>((ff, j)),
        i < j,
    ensures
        members_inv(t, mstart, j, facc.push(ff), macc),
{
    match sp_members(t, j) {
        Ok(rj) => {
            assert(facc + (seq![ff] + rj.0.0) =~= facc.push(ff) + rj.0.0);
        },
        Err(_) => {},
    }
}

/// `class Ident '{' members '}'`.
pub open spec fn sp_class_decl(t: Seq<TokenModel>, i: int) -> Result<(AstModel, int), Seq<char>>
    decreases rem(t, i), 450int,
{
    match sp_consume(t, i, TokenModel::Class) {
        Ok(i1) => match sp_identifier(t, i1) {
            Ok(nj) => match sp_consume(t, nj.1, TokenModel::LeftBrace) {
                Ok(i3) => match sp_members(t, adv(i, i3)) {
                    Ok(mj) => match sp_consume(t, mj.1, TokenModel::RightBrace) {
                        Ok(i5) => Ok(
                            (
                                AstModel::ClassDeclaration {
                                    name: nj.0,
                                    fields: mj.0.0,
                                    methods: mj.0.1,
                                },
                                i5,
                            ),
                        ),
                        Err(m) => Err(m),
                    },
                    Err(m) => Err(m),
                },
                Err(m) => Err(m),
            },
            Err(m) => Err(m),
        },
        Err(m) => Err(m),
    }
}

/// `(let | const) Ident ':' Type '=' Expr`.
pub open spec fn sp_var_decl(t: Seq<TokenModel>, i: int) -> Result<(AstModel, int), Seq<char>>
    decreases rem(t, i), 450int,
{
    let is_const = 0 <= i < t.len() && (t[i] is Const);
    match sp_identifier(t, i + 1) {
        Ok(nj) => match sp_consume(t, nj.1, TokenModel::Colon) {
            Ok(j1) => match sp_type(t, adv(i, j1)) {
                Ok(tj) => match sp_consume(t, tj.1, TokenModel::Assign) {
                    Ok(j2) => match sp_expression(t, adv(i, j2)) {
                        Ok(ej) => Ok(
                            (
                                AstModel::VariableDeclaration {
                                    is_const,
                                    name: nj.0,
                                    var_type: tj.0,
                                    value: Box::new(ej.0),
                                },
                                ej.1,
                            ),
                        ),
                        Err(m) => Err(m),
                    },
                    Err(m) => Err(m),
                },
                Err(m) => Err(m),
            },
            Err(m) => Err(m),
        },
        Err(m) => Err(m),
    }
}

/// `elseif Expr '{' stmts '}'` chains.
pub open spec fn sp_elseifs(t: Seq<TokenModel>, i: int) -> Result<
    (Seq<(AstModel, Seq<AstModel>)>, int),
    Seq<char>,
>
    decreases rem(t, i), 440int,
{
    if 0 <= i < t.len() && (t[i] is Elseif) {
        match sp_expression(t, i + 1) {
            Ok(cj) => match sp_consume(t, cj.1, TokenModel::LeftBrace) {
                Ok(j1) => match sp_block(t, adv(i, j1)) {
                    Ok(bj) => match sp_consume(t, bj.1, TokenModel::RightBrace) {
                        Ok(j2) => match sp_elseifs(t, adv(i, j2)) {
                            Ok(rj) => Ok((seq![(cj.0, bj.0)] + rj.0, rj.1)),
                            Err(m) => Err(m),
                        },
                        Err(m) => Err(m),
                    },
                    Err(m) => Err(m),
                },
                Err(m) => Err(m),
            },
            Err(m) => Err(m),
        }
    } else {
        Ok((Seq::empty(), i))
    }
}

/// `if Expr '{' stmts '}' (elseif …)* (else '{' stmts '}')?`.
pub open spec fn sp_if_statement(t: Seq<TokenModel>, i: int) -> Result<(AstModel, int), Seq<char>>
    decreases rem(t, i), 450int,
{
    match sp_consume(t, i, TokenModel::If) {
        Ok(i1) => match sp_expression(t, adv(i, i1)) {
            Ok(cj) => match sp_consume(t, cj.1, TokenModel::LeftBrace) {
                Ok(j1) => match sp_block(t, adv(i, j1)) {
                    Ok(bj) => match sp_consume(t, bj.1, TokenModel::RightBrace) {
                        Ok(j2) => match sp_elseifs(t, adv(i, j2)) {
                            Ok(ej) => if 0 <= ej.1 < t.len() && (t[ej.1] is Else) {
                                match sp_consume(t, ej.1 + 1, TokenModel::LeftBrace) {
                                    Ok(j3) => match sp_block(t, adv(i, j3)) {
                                        Ok(ebj) => match sp_consume(
                                            t,
                                            ebj.1,
                                            TokenModel::RightBrace,
                                        ) {
                                            Ok(j4) => Ok(
                                                (
                                                    AstModel::IfStatement {
                                                        condition: Box::new(cj.0),
                                                        then_body: bj.0,
                                                        elseif_branches: ej.0,
                                                        else_body: Some(ebj.0),
                                                    },
                                                    j4,
                                                ),
                                            ),
                                            Err(m) => Err(m),
                                        },
                                        Err(m) => Err(m),
                                    },
                                    Err(m) => Err(m),
                                }
                            } else {
                                Ok(
                                    (
                                        AstModel::IfStatement {
                                            condition: Box::new(cj.0),
                                            then_body: bj.0,
                                            elseif_branches: ej.0,
                                            else_body: None,
                                        },
                                        ej.1,
                                    ),
                                )
                            },
                            Err(m) => Err(m),
                        },
                        Err(m) => Err(m),
                    },
                    Err(m) => Err(m),
                },
                Err(m) => Err(m),
            },
            Err(m) => Err(m),
        },
        Err(m) => Err(m),
    }
}

/// `while Expr '{' stmts '}'`.
pub open spec fn sp_while_statement(t: Seq<TokenModel>, i: int) -> Result<
    (AstModel, int),
    Seq<char>,
>
    decreases rem(t, i), 450int,
{
    match sp_consume(t, i, TokenModel::While) {
        Ok(i1) => match sp_expression(t, adv(i, i1)) {
            Ok(cj) => match sp_consume(t, cj.1, TokenModel::LeftBrace) {
                Ok(j1) => match sp_block(t, adv(i, j1)) {
                    Ok(bj) => match sp_consume(t, bj.1, TokenModel::RightBrace) {
                        Ok(j2) => Ok(
                            (
                                AstModel::WhileStatement {
                                    condition: Box::new(cj.0),
                                    body: bj.0,
                                },
                                j2,
                            ),
                        ),
                        Err(m) => Err(m),
                    },
                    Err(m) => Err(m),
                },
                Err(m) => Err(m),
            },
            Err(m) => Err(m),
        },
        Err(m) => Err(m),
    }
}

/// `for Ident Expr '{' stmts '}'`.
pub open spec fn sp_for_statement(t: Seq<TokenModel>, i: int) -> Result<
    (AstModel, int),
    Seq<char>,
>
    decreases rem(t, i), 450int,
{
    match sp_consume(t, i, TokenModel::For) {
        Ok(i1) => match sp_identifier(t, i1) {
            Ok(nj) => match sp_expression(t, adv(i, nj.1)) {
                Ok(cj) => match sp_consume(t, cj.1, TokenModel::LeftBrace) {
                    Ok(j1) => match sp_block(t, adv(i, j1)) {
                        Ok(bj) => match sp_consume(t, bj.1, TokenModel::RightBrace) {
                            Ok(j2) => Ok(
                                (
                                    AstModel::ForStatement {
                                        counter_var: nj.0,
                                        condition: Box::new(cj.0),
                                        body: bj.0,
                                    },
                                    j2,
                                ),
                            ),
                            Err(m) => Err(m),
                        },
                        Err(m) => Err(m),
                    },
                    Err(m) => Err(m),
                },
                Err(m) => Err(m),
            },
            Err(m) => Err(m),
        },
        Err(m) => Err(m),
    }
}

/// `foreach Ident in Expr '{' stmts '}'`.
pub open spec fn sp_foreach_statement(t: Seq<TokenModel>, i: int) -> Result<
    (AstModel, int),
    Seq<char>,
>
    decreases rem(t, i), 450int,
{
    match sp_consume(t, i, TokenModel::Foreach) {
        Ok(i1) => match sp_identifier(t, i1) {
            Ok(nj) => match sp_consume(t, nj.1, TokenModel::In) {
                Ok(j1) => match sp_expression(t, adv(i, j1)) {
                    Ok(ej) => match sp_consume(t, ej.1, TokenModel::LeftBrace) {
                        Ok(j2) => match sp_block(t, adv(i, j2)) {
                            Ok(bj) => match sp_consume(t, bj.1, TokenModel::RightBrace) {
                                Ok(j3) => Ok(
                                    (
                                        AstModel::ForeachStatement {
                                            var_name: nj.0,
                                            iterable: Box::new(ej.0),
                                            body: bj.0,
                                        },
                                        j3,
                                    ),
                                ),
                                Err(m) => Err(m),
                            },
                            Err(m) => Err(m),
                        },
                        Err(m) => Err(m),
                    },
                    Err(m) => Err(m),
                },
                Err(m) => Err(m),
            },
            Err(m) => Err(m),
        },
        Err(m) => Err(m),
    }
}

/// `return Expr?`: the expression is present unless the next token is a
/// newline, a closing brace or end of input.
pub open spec fn sp_return_statement(t: Seq<TokenModel>, i: int) -> Result<
    (AstModel, int),
    Seq<char>,
>
    decreases rem(t, i), 450int,
{
    match sp_consume(t, i, TokenModel::Return) {
        Ok(i1) => if 0 <= i1 < t.len() && ((t[i1] is Newline) || (t[i1] is RightBrace) || (
        t[i1] is Eof)) {
            Ok((AstModel::ReturnStatement(None), i1))
        } else {
            match sp_expression(t, adv(i, i1)) {
                Ok(ej) => Ok((AstModel::ReturnStatement(Some(Box::new(ej.0))), ej.1)),
                Err(m) => Err(m),
            }
        },
        Err(m) => Err(m),
    }
}

/// The whole grammar on a token stream: the program node, or the first
/// parse diagnostic; an empty stream is rejected.
pub open spec fn spec_parse(t: Seq<TokenModel>) -> Result<AstModel, Seq<char>> {
    if t.len() == 0 {
        Err("No tokens to parse"@)
    } else {
        match sp_program_items(t, 0) {
            Ok(sj) => Ok(AstModel::Program(sj.0)),
            Err(m) => Err(m),
        }
    }
}


// ---------------------------------------------------------------------------
// The executable parser
// ---------------------------------------------------------------------------
/// A token without a payload; `consume` compares only such tokens.
pub open spec fn is_simple_token(t: TokenModel) -> bool {
    &&& !(t is Identifier)
    &&& !(t is StringLiteral)
    &&& !(t is NumberLiteral)
}

/// Compares a stream token against an expected payload-free token.
fn token_matches_simple(actual: &Token, expected: &Token) -> (r: bool)
    requires
        is_simple_token(expected.deep_view()),
    ensures
        r == (actual.deep_view() == expected.deep_view()),
{
    match expected {
        Token::Const => matches!(actual, Token::Const),
        Token::Let => matches!(actual, Token::Let),
        Token::Function => matches!(actual, Token::Function),
        Token::Class => matches!(actual, Token::Class),
        Token::Public => matches!(actual, Token::Public),
        Token::If => matches!(actual, Token::If),
        Token::Elseif => matches!(actual, Token::Elseif),
        Token::Else => matches!(actual, Token::Else),
        Token::While => matches!(actual, Token::While),
        Token::For => matches!(actual, Token::For),
        Token::Foreach => matches!(actual, Token::Foreach),
        Token::In => matches!(actual, Token::In),
        Token::Return => matches!(actual, Token::Return),
        Token::New => matches!(actual, Token::New),
        Token::True => matches!(actual, Token::True),
        Token::False => matches!(actual, Token::False),
        Token::StringType => matches!(actual, Token::StringType),
        Token::NumberType => matches!(actual, Token::NumberType),
        Token::VoidType => matches!(actual, Token::VoidType),
        Token::Plus => matches!(actual, Token::Plus),
        Token::Minus => matches!(actual, Token::Minus),
        Token::Multiply => matches!(actual, Token::Multiply),
        Token::Divide => matches!(actual, Token::Divide),
        Token::Assign => matches!(actual, Token::Assign),
        Token::Equal => matches!(actual, Token::Equal),
        Token::NotEqual => matches!(actual, Token::NotEqual),
        Token::LessThan => matches!(actual, Token::LessThan),
        Token::LessThanOrEqual => matches!(actual, Token::LessThanOrEqual),
        Token::GreaterThan => matches!(actual, Token::GreaterThan),
        Token::GreaterThanOrEqual => matches!(actual, Token::GreaterThanOrEqual),
        Token::And => matches!(actual, Token::And),
        Token::Or => matches!(actual, Token::Or),
        Token::Not => matches!(actual, Token::Not),
        Token::LeftParen => matches!(actual, Token::LeftParen),
        Token::RightParen => matches!(actual, Token::RightParen),
        Token::LeftBrace => matches!(actual, Token::LeftBrace),
        Token::RightBrace => matches!(actual, Token::RightBrace),
        Token::LeftBracket => matches!(actual, Token::LeftBracket),
        Token::RightBracket => matches!(actual, Token::RightBracket),
        Token::Comma => matches!(actual, Token::Comma),
        Token::Colon => matches!(actual, Token::Colon),
        Token::Dot => matches!(actual, Token::Dot),
        Token::Newline => matches!(actual, Token::Newline),
        Token::Eof => matches!(actual, Token::Eof),
        _ => false,
    }
}

/// The walking state of one parse: the stream and a cursor.
struct ParserWalk<'a> {
    tokens: &'a [Token],
    position: usize,
}

impl<'a> ParserWalk<'a> {
    /// The stream as its model.
    spec fn toks(&self) -> Seq<TokenModel> {
        self.tokens.deep_view()
    }

    /// The cursor stays inside or just past the stream.
    spec fn wf(&self) -> bool {
        self.position <= self.tokens@.len()
    }

    proof fn lemma_tok_at(&self, i: int)
        requires
            0 <= i < self.tokens@.len(),
        ensures
            self.toks()[i] == self.tokens@[i].deep_view(),
            self.toks().len() == self.tokens@.len(),
    {
    }

    /// Advances the cursor unless it already passed the last token.
    fn advance(&mut self)
        requires
            old(self).wf(),
        ensures
            final(self).wf(),
            final(self).tokens == old(self).tokens,
            old(self).position < old(self).tokens@.len() ==> final(self).position == old(self).position + 1,
            old(self).position >= old(self).tokens@.len() ==> final(self).position == old(self).position,
    {
        if self.position < self.tokens.len() {
            self.position = self.position + 1;
        }
    }

    /// Renders the token under the cursor as `Some(…)` or `None`.
    fn push_current_debug(&self, out: &mut Vec<char>)
        requires
            self.wf(),
        ensures
            final(out)@ == old(out)@ + spec_opt_token_debug(
                at(self.toks(), self.position as int),
            ),
    {
        if self.position < self.tokens.len() {
            proof {
                self.lemma_tok_at(self.position as int);
            }
            text::push_str_chars(out, "Some(");
            self.tokens[self.position].push_debug(out);
            text::push_str_chars(out, ")");
            proof {
                assert(out@ =~= old(out)@ + spec_opt_token_debug(
                    at(self.toks(), self.position as int),
                ));
            }
        } else {
            text::push_str_chars(out, "None");
        }
    }

    /// Consumes one expected token or reports what stands in its place.
    fn consume(&mut self, expected: Token) -> (r: Result<(), CompilerError>)
        requires
            old(self).wf(),
            is_simple_token(expected.deep_view()),
        ensures
            final(self).wf(),
            final(self).tokens == old(self).tokens,
            old(self).position <= final(self).position,
            match sp_consume(old(self).toks(), old(self).position as int, expected.deep_view()) {
                Ok(j) => r is Ok && final(self).position == j && old(self).position < final(self).position,
                Err(m) => (r matches Err(e) && e.deep_view() == ErrorModel::Parse(m) && final(self).position == old(self).position),
            },
    {
        if self.position < self.tokens.len() && token_matches_simple(
            &self.tokens[self.position],
            &expected,
        ) {
            proof {
                self.lemma_tok_at(self.position as int);
            }
            self.advance();
            Ok(())
        } else {
            proof {
                if self.position < self.tokens.len() {
                    self.lemma_tok_at(self.position as int);
                }
            }
            let mut msg: Vec<char> = Vec::new();
            text::push_str_chars(&mut msg, "Expected ");
            expected.push_debug(&mut msg);
            text::push_str_chars(&mut msg, ", found ");
            self.push_current_debug(&mut msg);
            proof {
                assert(msg@ =~= consume_message(
                    expected.deep_view(),
                    at(self.toks(), self.position as int),
                ));
            }
            Err(CompilerError::ParseError(text::chars_to_string(&msg)))
        }
    }

    /// The diagnostic for a token no primary can start with.
    fn unexpected_token_error(&self) -> (r: CompilerError)
        requires
            self.wf(),
        ensures
            r.deep_view() == ErrorModel::Parse(
                unexpected_token_message(at(self.toks(), self.position as int)),
            ),
    {
        let mut msg: Vec<char> = Vec::new();
        text::push_str_chars(&mut msg, "Unexpected token: ");
        self.push_current_debug(&mut msg);
        proof {
            assert(msg@ =~= unexpected_token_message(at(self.toks(), self.position as int)));
        }
        CompilerError::ParseError(text::chars_to_string(&msg))
    }

    /// Reads an identifier token's payload.
    fn parse_identifier(&mut self) -> (r: Result<String, CompilerError>)
        requires
            old(self).wf(),
        ensures
            final(self).wf(),
            final(self).tokens == old(self).tokens,
            old(self).position <= final(self).position,
            match sp_identifier(old(self).toks(), old(self).position as int) {
                Ok(nj) => (r matches Ok(name) && name@ == nj.0 && final(self).position == nj.1
                    && old(self).position < final(self).position),
                Err(m) => (r matches Err(e) && e.deep_view() == ErrorModel::Parse(m)),
            },
    {
        if self.position < self.tokens.len() {
            proof {
                self.lemma_tok_at(self.position as int);
            }
            match &self.tokens[self.position] {
                Token::Identifier(name) => {
                    let n = name.clone();
                    self.advance();
                    Ok(n)
                },
                _ => Err(CompilerError::ParseError(String::from_str("Expected identifier"))),
            }
        } else {
            Err(CompilerError::ParseError(String::from_str("Expected identifier")))
        }
    }

    /// Parses the `[]*` suffixes of a type.
    fn parse_type_suffix(&mut self, base: KururiType) -> (r: Result<KururiType, CompilerError>)
        requires
            old(self).wf(),
        ensures
            final(self).wf(),
            final(self).tokens == old(self).tokens,
            old(self).position <= final(self).position,
            match sp_type_suffix(old(self).toks(), old(self).position as int, base.model()) {
                Ok(tj) => (r matches Ok(ty) && ty.model() == tj.0 && final(self).position == tj.1),
                Err(m) => (r matches Err(e) && e.deep_view() == ErrorModel::Parse(m)),
            },
        decreases rem(self.toks(), self.position as int), 40int,
    {
        if self.position < self.tokens.len() && matches!(
            &self.tokens[self.position],
            Token::LeftBracket,
        ) {
            proof {
                self.lemma_tok_at(self.position as int);
            }
            self.advance();
            match self.consume(Token::RightBracket) {
                Ok(_) => self.parse_type_suffix(KururiType::Array(Box::new(base))),
                Err(e) => Err(e),
            }
        } else {
            proof {
                if self.position < self.tokens.len() {
                    self.lemma_tok_at(self.position as int);
                }
            }
            Ok(base)
        }
    }

    /// Parses a type.
    fn parse_type(&mut self) -> (r: Result<KururiType, CompilerError>)
        requires
            old(self).wf(),
        ensures
            final(self).wf(),
            final(self).tokens == old(self).tokens,
            old(self).position <= final(self).position,
            match sp_type(old(self).toks(), old(self).position as int) {
                Ok(tj) => (r matches Ok(ty) && ty.model() == tj.0 && final(self).position == tj.1
                    && old(self).position < final(self).position),
                Err(m) => (r matches Err(e) && e.deep_view() == ErrorModel::Parse(m)),
            },
        decreases rem(self.toks(), self.position as int), 50int,
    {
        if self.position < self.tokens.len() {
            proof {
                self.lemma_tok_at(self.position as int);
            }
            match &self.tokens[self.position] {
                Token::StringType => {
                    self.advance();
                    self.parse_type_suffix(KururiType::String)
                },
                Token::NumberType => {
                    self.advance();
                    self.parse_type_suffix(KururiType::Number)
                },
                Token::VoidType => {
                    self.advance();
                    self.parse_type_suffix(KururiType::Void)
                },
                Token::Identifier(name) => {
                    let n = name.clone();
                    self.advance();
                    self.parse_type_suffix(KururiType::Class(n))
                },
                _ => Err(CompilerError::ParseError(String::from_str("Expected type"))),
            }
        } else {
            Err(CompilerError::ParseError(String::from_str("Expected type")))
        }
    }
}


impl<'a> ParserWalk<'a> {
    /// Reports whether the cursor stands on `||`.
    fn at_or(&self) -> (r: bool)
        requires
            self.wf(),
        ensures
            r == (0 <= self.position < self.toks().len() && (self.toks()[self.position as int]
                is Or)),
    {
        if self.position < self.tokens.len() {
            proof {
                self.lemma_tok_at(self.position as int);
            }
            matches!(&self.tokens[self.position], Token::Or)
        } else {
            false
        }
    }

    /// Reports whether the cursor stands on `&&`.
    fn at_and(&self) -> (r: bool)
        requires
            self.wf(),
        ensures
            r == (0 <= self.position < self.toks().len() && (self.toks()[self.position as int]
                is And)),
    {
        if self.position < self.tokens.len() {
            proof {
                self.lemma_tok_at(self.position as int);
            }
            matches!(&self.tokens[self.position], Token::And)
        } else {
            false
        }
    }

    /// The equality operator under the cursor, if any.
    fn peek_eq_op(&self) -> (r: Option<BinaryOperator>)
        requires
            self.wf(),
        ensures
            r == eq_op_at(self.toks(), self.position as int),
    {
        if self.position < self.tokens.len() {
            proof {
                self.lemma_tok_at(self.position as int);
            }
            match &self.tokens[self.position] {
                Token::Equal => Some(BinaryOperator::Equal),
                Token::NotEqual => Some(BinaryOperator::NotEqual),
                _ => None,
            }
        } else {
            None
        }
    }

    /// The comparison operator under the cursor, if any.
    fn peek_cmp_op(&self) -> (r: Option<BinaryOperator>)
        requires
            self.wf(),
        ensures
            r == cmp_op_at(self.toks(), self.position as int),
    {
        if self.position < self.tokens.len() {
            proof {
                self.lemma_tok_at(self.position as int);
            }
            match &self.tokens[self.position] {
                Token::LessThan => Some(BinaryOperator::LessThan),
                Token::LessThanOrEqual => Some(BinaryOperator::LessThanOrEqual),
                Token::GreaterThan => Some(BinaryOperator::GreaterThan),
                Token::GreaterThanOrEqual => Some(BinaryOperator::GreaterThanOrEqual),
                _ => None,
            }
        } else {
            None
        }
    }

    /// The additive operator under the cursor, if any.
    fn peek_term_op(&self) -> (r: Option<BinaryOperator>)
        requires
            self.wf(),
        ensures
            r == term_op_at(self.toks(), self.position as int),
    {
        if self.position < self.tokens.len() {
            proof {
                self.lemma_tok_at(self.position as int);
            }
            match &self.tokens[self.position] {
                Token::Plus => Some(BinaryOperator::Add),
                Token::Minus => Some(BinaryOperator::Subtract),
                _ => None,
            }
        } else {
            None
        }
    }

    /// The multiplicative operator under the cursor, if any.
    fn peek_factor_op(&self) -> (r: Option<BinaryOperator>)
        requires
            self.wf(),
        ensures
            r == factor_op_at(self.toks(), self.position as int),
    {
        if self.position < self.tokens.len() {
            proof {
                self.lemma_tok_at(self.position as int);
            }
            match &self.tokens[self.position] {
                Token::Multiply => Some(BinaryOperator::Multiply),
                Token::Divide => Some(BinaryOperator::Divide),
                _ => None,
            }
        } else {
            None
        }
    }

    /// Parses a whole expression.
    fn parse_expression(&mut self) -> (r: Result<AstNode, CompilerError>)
        requires
            old(self).wf(),
        ensures
            final(self).wf(),
            final(self).tokens == old(self).tokens,
            old(self).position <= final(self).position,
            match sp_expression(old(self).toks(), old(self).position as int) {
                Ok(nj) => (r matches Ok(n) && n.model() == nj.0 && final(self).position == nj.1
                    && old(self).position < final(self).position),
                Err(m) => (r matches Err(e) && e.deep_view() == ErrorModel::Parse(m)),
            },
        decreases rem(self.toks(), self.position as int), 200int,
    {
        self.parse_logical_or()
    }

    /// Parses the logical-or level.
    #[verifier::loop_isolation(false)]
    #[verifier::rlimit(60)]
    fn parse_logical_or(&mut self) -> (r: Result<AstNode, CompilerError>)
        requires
            old(self).wf(),
        ensures
            final(self).wf(),
            final(self).tokens == old(self).tokens,
            old(self).position <= final(self).position,
            match sp_logical_or(old(self).toks(), old(self).position as int) {
                Ok(nj) => (r matches Ok(n) && n.model() == nj.0 && final(self).position == nj.1
                    && old(self).position < final(self).position),
                Err(m) => (r matches Err(e) && e.deep_view() == ErrorModel::Parse(m)),
            },
        decreases rem(self.toks(), self.position as int), 190int,
    {
        let ghost t = self.toks();
        let ghost i0 = self.position as int;
        let mut left = match self.parse_logical_and() {
            Ok(n) => n,
            Err(e) => {
                return Err(e);
            },
        };
        proof {
            assert(adv(i0, self.position as int) == self.position as int);
        }
        while self.at_or()
            invariant
                self.wf(),
                self.tokens == old(self).tokens,
                i0 < self.position,
                sp_or_chain(t, self.position as int, left.model()) == sp_logical_or(t, i0),
            decreases self.tokens@.len() - self.position,
        {
            let ghost pos0 = self.position as int;
            
            self.advance();
            let right = match self.parse_logical_and() {
                Ok(n) => n,
                Err(e) => {
                    return Err(e);
                },
            };
            proof {
                assert(adv(pos0, self.position as int) == self.position as int);
            }
            left = AstNode::BinaryExpression {
                left: Box::new(left),
                operator: BinaryOperator::Or,
                right: Box::new(right),
            };
        }
        Ok(left)
    }

    /// Parses the logical-and level.
    #[verifier::loop_isolation(false)]
    #[verifier::rlimit(60)]
    fn parse_logical_and(&mut self) -> (r: Result<AstNode, CompilerError>)
        requires
            old(self).wf(),
        ensures
            final(self).wf(),
            final(self).tokens == old(self).tokens,
            old(self).position <= final(self).position,
            match sp_logical_and(old(self).toks(), old(self).position as int) {
                Ok(nj) => (r matches Ok(n) && n.model() == nj.0 && final(self).position == nj.1
                    && old(self).position < final(self).position),
                Err(m) => (r matches Err(e) && e.deep_view() == ErrorModel::Parse(m)),
            },
        decreases rem(self.toks(), self.position as int), 180int,
    {
        let ghost t = self.toks();
        let ghost i0 = self.position as int;
        let mut left = match self.parse_equality() {
            Ok(n) => n,
            Err(e) => {
                return Err(e);
            },
        };
        proof {
            assert(adv(i0, self.position as int) == self.position as int);
        }
        while self.at_and()
            invariant
                self.wf(),
                self.tokens == old(self).tokens,
                i0 < self.position,
                sp_and_chain(t, self.position as int, left.model()) == sp_logical_and(t, i0),
            decreases self.tokens@.len() - self.position,
        {
            let ghost pos0 = self.position as int;
            
            self.advance();
            let right = match self.parse_equality() {
                Ok(n) => n,
                Err(e) => {
                    return Err(e);
                },
            };
            proof {
                assert(adv(pos0, self.position as int) == self.position as int);
            }
            left = AstNode::BinaryExpression {
                left: Box::new(left),
                operator: BinaryOperator::And,
                right: Box::new(right),
            };
        }
        Ok(left)
    }

    /// Parses the equality level.
    #[verifier::loop_isolation(false)]
    #[verifier::rlimit(60)]
    fn parse_equality(&mut self) -> (r: Result<AstNode, CompilerError>)
        requires
            old(self).wf(),
        ensures
            final(self).wf(),
            final(self).tokens == old(self).tokens,
            old(self).position <= final(self).position,
            match sp_equality(old(self).toks(), old(self).position as int) {
                Ok(nj) => (r matches Ok(n) && n.model() == nj.0 && final(self).position == nj.1
                    && old(self).position < final(self).position),
                Err(m) => (r matches Err(e) && e.deep_view() == ErrorModel::Parse(m)),
            },
        decreases rem(self.toks(), self.position as int), 170int,
    {
        let ghost t = self.toks();
        let ghost i0 = self.position as int;
        let mut left = match self.parse_comparison() {
            Ok(n) => n,
            Err(e) => {
                return Err(e);
            },
        };
        proof {
            assert(adv(i0, self.position as int) == self.position as int);
        }
        while self.peek_eq_op().is_some()
            invariant
                self.wf(),
                self.tokens == old(self).tokens,
                i0 < self.position,
                sp_eq_chain(t, self.position as int, left.model()) == sp_equality(t, i0),
            decreases self.tokens@.len() - self.position,
        {
            let ghost pos0 = self.position as int;
            let op = self.peek_eq_op().unwrap();
            self.advance();
            let right = match self.parse_comparison() {
                Ok(n) => n,
                Err(e) => {
                    return Err(e);
                },
            };
            proof {
                assert(adv(pos0, self.position as int) == self.position as int);
            }
            left = AstNode::BinaryExpression {
                left: Box::new(left),
                operator: op,
                right: Box::new(right),
            };
        }
        Ok(left)
    }

    /// Parses the comparison level.
    #[verifier::loop_isolation(false)]
    #[verifier::rlimit(60)]
    fn parse_comparison(&mut self) -> (r: Result<AstNode, CompilerError>)
        requires
            old(self).wf(),
        ensures
            final(self).wf(),
            final(self).tokens == old(self).tokens,
            old(self).position <= final(self).position,
            match sp_comparison(old(self).toks(), old(self).position as int) {
                Ok(nj) => (r matches Ok(n) && n.model() == nj.0 && final(self).position == nj.1
                    && old(self).position < final(self).position),
                Err(m) => (r matches Err(e) && e.deep_view() == ErrorModel::Parse(m)),
            },
        decreases rem(self.toks(), self.position as int), 160int,
    {
        let ghost t = self.toks();
        let ghost i0 = self.position as int;
        let mut left = match self.parse_term() {
            Ok(n) => n,
            Err(e) => {
                return Err(e);
            },
        };
        proof {
            assert(adv(i0, self.position as int) == self.position as int);
        }
        while self.peek_cmp_op().is_some()
            invariant
                self.wf(),
                self.tokens == old(self).tokens,
                i0 < self.position,
                sp_cmp_chain(t, self.position as int, left.model()) == sp_comparison(t, i0),
            decreases self.tokens@.len() - self.position,
        {
            let ghost pos0 = self.position as int;
            let op = self.peek_cmp_op().unwrap();
            self.advance();
            let right = match self.parse_term() {
                Ok(n) => n,
                Err(e) => {
                    return Err(e);
                },
            };
            proof {
                assert(adv(pos0, self.position as int) == self.position as int);
            }
            left = AstNode::BinaryExpression {
                left: Box::new(left),
                operator: op,
                right: Box::new(right),
            };
        }
        Ok(left)
    }

    /// Parses the additive level.
    #[verifier::loop_isolation(false)]
    #[verifier::rlimit(60)]
    fn parse_term(&mut self) -> (r: Result<AstNode, CompilerError>)
        requires
            old(self).wf(),
        ensures
            final(self).wf(),
            final(self).tokens == old(self).tokens,
            old(self).position <= final(self).position,
            match sp_term(old(self).toks(), old(self).position as int) {
                Ok(nj) => (r matches Ok(n) && n.model() == nj.0 && final(self).position == nj.1
                    && old(self).position < final(self).position),
                Err(m) => (r matches Err(e) && e.deep_view() == ErrorModel::Parse(m)),
            },
        decreases rem(self.toks(), self.position as int), 150int,
    {
        let ghost t = self.toks();
        let ghost i0 = self.position as int;
        let mut left = match self.parse_factor() {
            Ok(n) => n,
            Err(e) => {
                return Err(e);
            },
        };
        proof {
            assert(adv(i0, self.position as int) == self.position as int);
        }
        while self.peek_term_op().is_some()
            invariant
                self.wf(),
                self.tokens == old(self).tokens,
                i0 < self.position,
                sp_term_chain(t, self.position as int, left.model()) == sp_term(t, i0),
            decreases self.tokens@.len() - self.position,
        {
            let ghost pos0 = self.position as int;
            let op = self.peek_term_op().unwrap();
            self.advance();
            let right = match self.parse_factor() {
                Ok(n) => n,
                Err(e) => {
                    return Err(e);
                },
            };
            proof {
                assert(adv(pos0, self.position as int) == self.position as int);
            }
            left = AstNode::BinaryExpression {
                left: Box::new(left),
                operator: op,
                right: Box::new(right),
            };
        }
        Ok(left)
    }

    /// Parses the multiplicative level.
    #[verifier::loop_isolation(false)]
    #[verifier::rlimit(60)]
    fn parse_factor(&mut self) -> (r: Result<AstNode, CompilerError>)
        requires
            old(self).wf(),
        ensures
            final(self).wf(),
            final(self).tokens == old(self).tokens,
            old(self).position <= final(self).position,
            match sp_factor(old(self).toks(), old(self).position as int) {
                Ok(nj) => (r matches Ok(n) && n.model() == nj.0 && final(self).position == nj.1
                    && old(self).position < final(self).position),
                Err(m) => (r matches Err(e) && e.deep_view() == ErrorModel::Parse(m)),
            },
        decreases rem(self.toks(), self.position as int), 140int,
    {
        let ghost t = self.toks();
        let ghost i0 = self.position as int;
        let mut left = match self.parse_unary() {
            Ok(n) => n,
            Err(e) => {
                return Err(e);
            },
        };
        proof {
            assert(adv(i0, self.position as int) == self.position as int);
        }
        while self.peek_factor_op().is_some()
            invariant
                self.wf(),
                self.tokens == old(self).tokens,
                i0 < self.position,
                sp_factor_chain(t, self.position as int, left.model()) == sp_factor(t, i0),
            decreases self.tokens@.len() - self.position,
        {
            let ghost pos0 = self.position as int;
            let op = self.peek_factor_op().unwrap();
            self.advance();
            let right = match self.parse_unary() {
                Ok(n) => n,
                Err(e) => {
                    return Err(e);
                },
            };
            proof {
                assert(adv(pos0, self.position as int) == self.position as int);
            }
            left = AstNode::BinaryExpression {
                left: Box::new(left),
                operator: op,
                right: Box::new(right),
            };
        }
        Ok(left)
    }

    /// Parses a unary prefix expression.
    fn parse_unary(&mut self) -> (r: Result<AstNode, CompilerError>)
        requires
            old(self).wf(),
        ensures
            final(self).wf(),
            final(self).tokens == old(self).tokens,
            old(self).position <= final(self).position,
            match sp_unary(old(self).toks(), old(self).position as int) {
                Ok(nj) => (r matches Ok(n) && n.model() == nj.0 && final(self).position == nj.1
                    && old(self).position < final(self).position),
                Err(m) => (r matches Err(e) && e.deep_view() == ErrorModel::Parse(m)),
            },
        decreases rem(self.toks(), self.position as int), 130int,
    {
        proof {
            if self.position < self.tokens.len() {
                self.lemma_tok_at(self.position as int);
            }
        }
        if self.position < self.tokens.len() && matches!(&self.tokens[self.position], Token::Not) {
            self.advance();
            match self.parse_unary() {
                Ok(operand) => Ok(
                    AstNode::UnaryExpression {
                        operator: UnaryOperator::Not,
                        operand: Box::new(operand),
                    },
                ),
                Err(e) => Err(e),
            }
        } else if self.position < self.tokens.len() && matches!(
            &self.tokens[self.position],
            Token::Minus,
        ) {
            self.advance();
            match self.parse_unary() {
                Ok(operand) => Ok(
                    AstNode::UnaryExpression {
                        operator: UnaryOperator::Minus,
                        operand: Box::new(operand),
                    },
                ),
                Err(e) => Err(e),
            }
        } else {
            self.parse_postfix()
        }
    }

    /// Parses a postfix chain over a primary.
    #[verifier::loop_isolation(false)]
    #[verifier::rlimit(60)]
    fn parse_postfix(&mut self) -> (r: Result<AstNode, CompilerError>)
        requires
            old(self).wf(),
        ensures
            final(self).wf(),
            final(self).tokens == old(self).tokens,
            old(self).position <= final(self).position,
            match sp_postfix(old(self).toks(), old(self).position as int) {
                Ok(nj) => (r matches Ok(n) && n.model() == nj.0 && final(self).position == nj.1
                    && old(self).position < final(self).position),
                Err(m) => (r matches Err(e) && e.deep_view() == ErrorModel::Parse(m)),
            },
        decreases rem(self.toks(), self.position as int), 120int,
    {
        let ghost t = self.toks();
        let ghost i0 = self.position as int;
        let mut expr = match self.parse_primary() {
            Ok(n) => n,
            Err(e) => {
                return Err(e);
            },
        };
        proof {
            assert(adv(i0, self.position as int) == self.position as int);
        }
        while self.at_postfix()
            invariant
                self.wf(),
                self.tokens == old(self).tokens,
                i0 < self.position,
                sp_postfix_chain(t, self.position as int, expr.model()) == sp_postfix(t, i0),
            decreases self.tokens@.len() - self.position,
        {
            let ghost pos0 = self.position as int;
            let ghost expr0 = expr.model();
            proof {
                self.lemma_tok_at(self.position as int);
            }
            match &self.tokens[self.position] {
                Token::LeftParen => {
                    self.advance();
                    let args = match self.parse_call_args() {
                        Ok(a) => a,
                        Err(e) => {
                            return Err(e);
                        },
                    };
                    match self.consume(Token::RightParen) {
                        Ok(_) => {},
                        Err(e) => {
                            return Err(e);
                        },
                    }
                    let ghost args_model = AstNode::models(args@);
                    expr = match expr {
                        AstNode::Identifier(name) => AstNode::FunctionCall { name, args },
                        AstNode::PropertyAccess { object, property } => AstNode::MethodCall {
                            object,
                            method: property,
                            args,
                        },
                        _ => {
                            return Err(
                                CompilerError::ParseError(String::from_str("Invalid function call")),
                            );
                        },
                    };
                    proof {
                        assert(adv(pos0, self.position as int) == self.position as int);
                    }
                },
                Token::LeftBracket => {
                    self.advance();
                    let index = match self.parse_expression() {
                        Ok(n) => n,
                        Err(e) => {
                            return Err(e);
                        },
                    };
                    match self.consume(Token::RightBracket) {
                        Ok(_) => {},
                        Err(e) => {
                            return Err(e);
                        },
                    }
                    expr = AstNode::ArrayAccess { array: Box::new(expr), index: Box::new(index) };
                    proof {
                        assert(adv(pos0, self.position as int) == self.position as int);
                    }
                },
                Token::Dot => {
                    self.advance();
                    let property = match self.parse_identifier() {
                        Ok(p) => p,
                        Err(e) => {
                            return Err(e);
                        },
                    };
                    expr = AstNode::PropertyAccess { object: Box::new(expr), property };
                    proof {
                        assert(adv(pos0, self.position as int) == self.position as int);
                    }
                },
                _ => {
                    proof {
                        assert(false);
                    }
                },
            }
        }
        Ok(expr)
    }

    /// Reports whether the cursor stands on a postfix opener.
    fn at_postfix(&self) -> (r: bool)
        requires
            self.wf(),
        ensures
            r == (0 <= self.position < self.toks().len() && ((self.toks()[self.position as int]
                is LeftParen) || (self.toks()[self.position as int] is LeftBracket) || (
            self.toks()[self.position as int] is Dot))),
    {
        if self.position < self.tokens.len() {
            proof {
                self.lemma_tok_at(self.position as int);
            }
            matches!(
                &self.tokens[self.position],
                Token::LeftParen | Token::LeftBracket | Token::Dot,
            )
        } else {
            false
        }
    }

    /// Reports whether the cursor stands on the given closing token kind.
    fn at_rparen(&self) -> (r: bool)
        requires
            self.wf(),
        ensures
            r == (0 <= self.position < self.toks().len() && (self.toks()[self.position as int]
                is RightParen)),
    {
        if self.position < self.tokens.len() {
            proof {
                self.lemma_tok_at(self.position as int);
            }
            matches!(&self.tokens[self.position], Token::RightParen)
        } else {
            false
        }
    }

    /// As [`ParserWalk::at_rparen`], for `]`.
    fn at_rbracket(&self) -> (r: bool)
        requires
            self.wf(),
        ensures
            r == (0 <= self.position < self.toks().len() && (self.toks()[self.position as int]
                is RightBracket)),
    {
        if self.position < self.tokens.len() {
            proof {
                self.lemma_tok_at(self.position as int);
            }
            matches!(&self.tokens[self.position], Token::RightBracket)
        } else {
            false
        }
    }

    /// As [`ParserWalk::at_rparen`], for `}`.
    fn at_rbrace(&self) -> (r: bool)
        requires
            self.wf(),
        ensures
            r == (0 <= self.position < self.toks().len() && (self.toks()[self.position as int]
                is RightBrace)),
    {
        if self.position < self.tokens.len() {
            proof {
                self.lemma_tok_at(self.position as int);
            }
            matches!(&self.tokens[self.position], Token::RightBrace)
        } else {
            false
        }
    }

    /// As [`ParserWalk::at_rparen`], for `,`.
    fn at_comma(&self) -> (r: bool)
        requires
            self.wf(),
        ensures
            r == (0 <= self.position < self.toks().len() && (self.toks()[self.position as int]
                is Comma)),
    {
        if self.position < self.tokens.len() {
            proof {
                self.lemma_tok_at(self.position as int);
            }
            matches!(&self.tokens[self.position], Token::Comma)
        } else {
            false
        }
    }

    /// Parses a primary.
    #[verifier::rlimit(60)]
    fn parse_primary(&mut self) -> (r: Result<AstNode, CompilerError>)
        requires
            old(self).wf(),
        ensures
            final(self).wf(),
            final(self).tokens == old(self).tokens,
            old(self).position <= final(self).position,
            match sp_primary(old(self).toks(), old(self).position as int) {
                Ok(nj) => (r matches Ok(n) && n.model() == nj.0 && final(self).position == nj.1
                    && old(self).position < final(self).position),
                Err(m) => (r matches Err(e) && e.deep_view() == ErrorModel::Parse(m)),
            },
        decreases rem(self.toks(), self.position as int), 110int,
    {
        if self.position >= self.tokens.len() {
            return Err(self.unexpected_token_error());
        }
        proof {
            self.lemma_tok_at(self.position as int);
        }
        match &self.tokens[self.position] {
            Token::StringLiteral(value) => {
                let v = value.clone();
                self.advance();
                Ok(AstNode::StringLiteral(v))
            },
            Token::NumberLiteral(value) => {
                let v = value.clone();
                self.advance();
                Ok(AstNode::NumberLiteral(v))
            },
            Token::True => {
                self.advance();
                Ok(AstNode::BooleanLiteral(true))
            },
            Token::False => {
                self.advance();
                Ok(AstNode::BooleanLiteral(false))
            },
            Token::Identifier(name) => {
                let n = name.clone();
                self.advance();
                Ok(AstNode::Identifier(n))
            },
            Token::LeftParen => {
                self.advance();
                let inner = match self.parse_expression() {
                    Ok(n) => n,
                    Err(e) => {
                        return Err(e);
                    },
                };
                match self.consume(Token::RightParen) {
                    Ok(_) => Ok(inner),
                    Err(e) => Err(e),
                }
            },
            Token::LeftBracket => {
                self.advance();
                let elements = match self.parse_array_elems() {
                    Ok(a) => a,
                    Err(e) => {
                        return Err(e);
                    },
                };
                match self.consume(Token::RightBracket) {
                    Ok(_) => {
                        let ghost elems_model = AstNode::models(elements@);
                        Ok(AstNode::ArrayLiteral(elements))
                    },
                    Err(e) => Err(e),
                }
            },
            Token::New => {
                self.advance();
                let class_name = match self.parse_identifier() {
                    Ok(n) => n,
                    Err(e) => {
                        return Err(e);
                    },
                };
                let args: Vec<AstNode> = Vec::new();
                proof {
                    assert(AstNode::models(args@) =~= Seq::<AstModel>::empty());
                }
                Ok(AstNode::NewExpression { class_name, args })
            },
            _ => Err(self.unexpected_token_error()),
        }
    }
}


impl<'a> ParserWalk<'a> {

    /// Parses call arguments up to the closing parenthesis (not consumed); after a
    /// comma another element is required.
    #[verifier::loop_isolation(false)]
    #[verifier::rlimit(60)]
    fn parse_call_args(&mut self) -> (r: Result<Vec<AstNode>, CompilerError>)
        requires
            old(self).wf(),
        ensures
            final(self).wf(),
            final(self).tokens == old(self).tokens,
            old(self).position <= final(self).position,
            match sp_call_args(old(self).toks(), old(self).position as int) {
                Ok(aj) => (r matches Ok(l) && AstNode::models(l@) == aj.0 && final(self).position
                    == aj.1),
                Err(m) => (r matches Err(e) && e.deep_view() == ErrorModel::Parse(m)),
            },
        decreases rem(self.toks(), self.position as int), 300int,
    {
        let ghost t = self.toks();
        let ghost i0 = self.position as int;
        if self.position >= self.tokens.len() || self.at_rparen() {
            let items: Vec<AstNode> = Vec::new();
            proof {
                crate::ast::lemma_models_index(items@);
                assert(AstNode::models(items@) =~= Seq::<AstModel>::empty());
            }
            return Ok(items);
        }
        let mut items: Vec<AstNode> = Vec::new();
        let mut done: bool = false;
        proof {
            crate::ast::lemma_models_index(items@);
            assert(AstNode::models(items@) =~= Seq::<AstModel>::empty());
            match sp_call_args_some(t, i0) {
                Ok(aj) => {
                    assert(Seq::<AstModel>::empty() + aj.0 =~= aj.0);
                },
                Err(_) => {},
            }
        }
        while !done
            invariant
                self.wf(),
                self.tokens == old(self).tokens,
                i0 <= self.position,
                !done ==> (match sp_call_args_some(t, self.position as int) {
                    Ok(aj) => sp_call_args_some(t, i0) == Ok::<(Seq<AstModel>, int), Seq<char>>(
                        (AstNode::models(items@) + aj.0, aj.1),
                    ),
                    Err(m) => sp_call_args_some(t, i0) == Err::<(Seq<AstModel>, int), Seq<char>>(m),
                }),
                done ==> sp_call_args_some(t, i0) == Ok::<(Seq<AstModel>, int), Seq<char>>(
                    (AstNode::models(items@), self.position as int),
                ),
            decreases self.tokens@.len() - self.position,
        {
            let ghost pos0 = self.position as int;
            let ghost acc = AstNode::models(items@);
            let item = match self.parse_expression() {
                Ok(n) => n,
                Err(e) => {
                    return Err(e);
                },
            };
            let ghost item_model = item.model();
            let ghost old_items = items@;
            items.push(item);
            proof {
                crate::ast::lemma_models_index(old_items);
                crate::ast::lemma_models_index(items@);
                assert(AstNode::models(items@) =~= acc.push(item_model));
            }
            if self.at_comma() {
                self.advance();
                proof {
                    assert(adv(pos0, self.position as int) == self.position as int);
                    match sp_call_args_some(t, self.position as int) {
                        Ok(aj) => {
                            assert(acc + (seq![item_model] + aj.0) =~= acc.push(item_model)
                                + aj.0);
                        },
                        Err(_) => {},
                    }
                }
            } else {
                done = true;
                proof {
                    assert(acc + seq![item_model] =~= acc.push(item_model));
                }
            }
        }
        Ok(items)
    }

    /// Parses array-literal elements up to the closing bracket (not consumed); after a
    /// comma another element is required.
    #[verifier::loop_isolation(false)]
    #[verifier::rlimit(60)]
    fn parse_array_elems(&mut self) -> (r: Result<Vec<AstNode>, CompilerError>)
        requires
            old(self).wf(),
        ensures
            final(self).wf(),
            final(self).tokens == old(self).tokens,
            old(self).position <= final(self).position,
            match sp_array_elems(old(self).toks(), old(self).position as int) {
                Ok(aj) => (r matches Ok(l) && AstNode::models(l@) == aj.0 && final(self).position
                    == aj.1),
                Err(m) => (r matches Err(e) && e.deep_view() == ErrorModel::Parse(m)),
            },
        decreases rem(self.toks(), self.position as int), 300int,
    {
        let ghost t = self.toks();
        let ghost i0 = self.position as int;
        if self.position >= self.tokens.len() || self.at_rbracket() {
            let items: Vec<AstNode> = Vec::new();
            proof {
                crate::ast::lemma_models_index(items@);
                assert(AstNode::models(items@) =~= Seq::<AstModel>::empty());
            }
            return Ok(items);
        }
        let mut items: Vec<AstNode> = Vec::new();
        let mut done: bool = false;
        proof {
            crate::ast::lemma_models_index(items@);
            assert(AstNode::models(items@) =~= Seq::<AstModel>::empty());
            match sp_array_elems_some(t, i0) {
                Ok(aj) => {
                    assert(Seq::<AstModel>::empty() + aj.0 =~= aj.0);
                },
                Err(_) => {},
            }
        }
        while !done
            invariant
                self.wf(),
                self.tokens == old(self).tokens,
                i0 <= self.position,
                !done ==> (match sp_array_elems_some(t, self.position as int) {
                    Ok(aj) => sp_array_elems_some(t, i0) == Ok::<(Seq<AstModel>, int), Seq<char>>(
                        (AstNode::models(items@) + aj.0, aj.1),
                    ),
                    Err(m) => sp_array_elems_some(t, i0) == Err::<(Seq<AstModel>, int), Seq<char>>(m),
                }),
                done ==> sp_array_elems_some(t, i0) == Ok::<(Seq<AstModel>, int), Seq<char>>(
                    (AstNode::models(items@), self.position as int),
                ),
            decreases self.tokens@.len() - self.position,
        {
            let ghost pos0 = self.position as int;
            let ghost acc = AstNode::models(items@);
            let item = match self.parse_expression() {
                Ok(n) => n,
                Err(e) => {
                    return Err(e);
                },
            };
            let ghost item_model = item.model();
            let ghost old_items = items@;
            items.push(item);
            proof {
                crate::ast::lemma_models_index(old_items);
                crate::ast::lemma_models_index(items@);
                assert(AstNode::models(items@) =~= acc.push(item_model));
            }
            if self.at_comma() {
                self.advance();
                proof {
                    assert(adv(pos0, self.position as int) == self.position as int);
                    match sp_array_elems_some(t, self.position as int) {
                        Ok(aj) => {
                            assert(acc + (seq![item_model] + aj.0) =~= acc.push(item_model)
                                + aj.0);
                        },
                        Err(_) => {},
                    }
                }
            } else {
                done = true;
                proof {
                    assert(acc + seq![item_model] =~= acc.push(item_model));
                }
            }
        }
        Ok(items)
    }

    /// Parses function parameters up to the closing parenthesis (not
    /// consumed); after a comma another parameter is required.
    #[verifier::loop_isolation(false)]
    #[verifier::rlimit(60)]
    fn parse_params(&mut self) -> (r: Result<Vec<(String, KururiType)>, CompilerError>)
        requires
            old(self).wf(),
        ensures
            final(self).wf(),
            final(self).tokens == old(self).tokens,
            old(self).position <= final(self).position,
            match sp_params(old(self).toks(), old(self).position as int) {
                Ok(pj) => (r matches Ok(l) && AstNode::params_model(l@) == pj.0 && final(self).position == pj.1),
                Err(m) => (r matches Err(e) && e.deep_view() == ErrorModel::Parse(m)),
            },
        decreases rem(self.toks(), self.position as int), 300int,
    {
        let ghost t = self.toks();
        let ghost i0 = self.position as int;
        if self.position >= self.tokens.len() || self.at_rparen() {
            let params: Vec<(String, KururiType)> = Vec::new();
            proof {
                assert(AstNode::params_model(params@) =~= Seq::<(Seq<char>, TypeModel)>::empty());
            }
            return Ok(params);
        }
        let mut params: Vec<(String, KururiType)> = Vec::new();
        let mut done: bool = false;
        proof {
            assert(AstNode::params_model(params@) =~= Seq::<(Seq<char>, TypeModel)>::empty());
            match sp_params_some(t, i0) {
                Ok(pj) => {
                    assert(Seq::<(Seq<char>, TypeModel)>::empty() + pj.0 =~= pj.0);
                },
                Err(_) => {},
            }
        }
        while !done
            invariant
                self.wf(),
                self.tokens == old(self).tokens,
                i0 <= self.position,
                !done ==> (match sp_params_some(t, self.position as int) {
                    Ok(pj) => sp_params_some(t, i0) == Ok::<
                        (Seq<(Seq<char>, TypeModel)>, int),
                        Seq<char>,
                    >((AstNode::params_model(params@) + pj.0, pj.1)),
                    Err(m) => sp_params_some(t, i0) == Err::<
                        (Seq<(Seq<char>, TypeModel)>, int),
                        Seq<char>,
                    >(m),
                }),
                done ==> sp_params_some(t, i0) == Ok::<
                    (Seq<(Seq<char>, TypeModel)>, int),
                    Seq<char>,
                >((AstNode::params_model(params@), self.position as int)),
            decreases self.tokens@.len() - self.position,
        {
            let ghost pos0 = self.position as int;
            let ghost acc = AstNode::params_model(params@);
            let param_name = match self.parse_identifier() {
                Ok(n) => n,
                Err(e) => {
                    return Err(e);
                },
            };
            match self.consume(Token::Colon) {
                Ok(_) => {},
                Err(e) => {
                    return Err(e);
                },
            }
            proof {
                assert(adv(pos0, self.position as int) == self.position as int);
            }
            let param_type = match self.parse_type() {
                Ok(ty) => ty,
                Err(e) => {
                    return Err(e);
                },
            };
            let ghost entry_model = (param_name@, param_type.model());
            params.push((param_name, param_type));
            proof {
                assert(AstNode::params_model(params@) =~= acc.push(entry_model));
            }
            if self.at_comma() {
                self.advance();
                proof {
                    assert(adv(pos0, self.position as int) == self.position as int);
                    match sp_params_some(t, self.position as int) {
                        Ok(pj) => {
                            assert(acc + (seq![entry_model] + pj.0) =~= acc.push(entry_model)
                                + pj.0);
                        },
                        Err(_) => {},
                    }
                }
            } else {
                done = true;
                proof {
                    assert(acc + seq![entry_model] =~= acc.push(entry_model));
                }
            }
        }
        Ok(params)
    }

    /// Reports whether the cursor stands on a newline separator.
    fn at_newline(&self) -> (r: bool)
        requires
            self.wf(),
        ensures
            r == (0 <= self.position < self.toks().len() && (self.toks()[self.position as int]
                is Newline)),
    {
        if self.position < self.tokens.len() {
            proof {
                self.lemma_tok_at(self.position as int);
            }
            matches!(&self.tokens[self.position], Token::Newline)
        } else {
            false
        }
    }

    /// As [`ParserWalk::at_newline`], for the end-of-input token.
    fn at_eof(&self) -> (r: bool)
        requires
            self.wf(),
        ensures
            r == (0 <= self.position < self.toks().len() && (self.toks()[self.position as int]
                is Eof)),
    {
        if self.position < self.tokens.len() {
            proof {
                self.lemma_tok_at(self.position as int);
            }
            matches!(&self.tokens[self.position], Token::Eof)
        } else {
            false
        }
    }

    /// Parses statements up to a closing brace or the end of the stream.
    #[verifier::loop_isolation(false)]
    #[verifier::rlimit(60)]
    fn parse_block_statements(&mut self) -> (r: Result<Vec<AstNode>, CompilerError>)
        requires
            old(self).wf(),
        ensures
            final(self).wf(),
            final(self).tokens == old(self).tokens,
            old(self).position <= final(self).position,
            match sp_block(old(self).toks(), old(self).position as int) {
                Ok(bj) => (r matches Ok(l) && AstNode::models(l@) == bj.0 && final(self).position
                    == bj.1),
                Err(m) => (r matches Err(e) && e.deep_view() == ErrorModel::Parse(m)),
            },
        decreases rem(self.toks(), self.position as int), 600int,
    {
        let ghost t = self.toks();
        let ghost i0 = self.position as int;
        let mut statements: Vec<AstNode> = Vec::new();
        proof {
            crate::ast::lemma_models_index(statements@);
            assert(AstNode::models(statements@) =~= Seq::<AstModel>::empty());
            match sp_block(t, i0) {
                Ok(bj) => {
                    assert(Seq::<AstModel>::empty() + bj.0 =~= bj.0);
                },
                Err(_) => {},
            }
        }
        while self.position < self.tokens.len() && !self.at_rbrace()
            invariant
                self.wf(),
                self.tokens == old(self).tokens,
                i0 <= self.position,
                match sp_block(t, self.position as int) {
                    Ok(bj) => sp_block(t, i0) == Ok::<(Seq<AstModel>, int), Seq<char>>(
                        (AstNode::models(statements@) + bj.0, bj.1),
                    ),
                    Err(m) => sp_block(t, i0) == Err::<(Seq<AstModel>, int), Seq<char>>(m),
                },
            decreases self.tokens@.len() - self.position,
        {
            let ghost pos0 = self.position as int;
            let ghost acc = AstNode::models(statements@);
            if self.at_newline() {
                self.advance();
                continue;
            }
            let stmt = match self.parse_statement() {
                Ok(n) => n,
                Err(e) => {
                    return Err(e);
                },
            };
            proof {
                assert(adv(pos0, self.position as int) == self.position as int);
            }
            let ghost stmt_model = stmt.model();
            let ghost old_stmts = statements@;
            statements.push(stmt);
            proof {
                crate::ast::lemma_models_index(old_stmts);
                crate::ast::lemma_models_index(statements@);
                assert(AstNode::models(statements@) =~= acc.push(stmt_model));
                match sp_block(t, self.position as int) {
                    Ok(bj) => {
                        assert(acc + (seq![stmt_model] + bj.0) =~= acc.push(stmt_model) + bj.0);
                    },
                    Err(_) => {},
                }
            }
        }
        proof {
            assert(sp_block(t, self.position as int) == Ok::<(Seq<AstModel>, int), Seq<char>>(
                (Seq::<AstModel>::empty(), self.position as int),
            ));
            assert(AstNode::models(statements@) + Seq::<AstModel>::empty() =~= AstNode::models(
                statements@,
            ));
        }
        Ok(statements)
    }

    /// Parses top-level statements up to the end-of-input token.
    #[verifier::loop_isolation(false)]
    #[verifier::rlimit(60)]
    fn parse_program_items(&mut self) -> (r: Result<Vec<AstNode>, CompilerError>)
        requires
            old(self).wf(),
        ensures
            final(self).wf(),
            final(self).tokens == old(self).tokens,
            old(self).position <= final(self).position,
            match sp_program_items(old(self).toks(), old(self).position as int) {
                Ok(bj) => (r matches Ok(l) && AstNode::models(l@) == bj.0 && final(self).position
                    == bj.1),
                Err(m) => (r matches Err(e) && e.deep_view() == ErrorModel::Parse(m)),
            },
        decreases rem(self.toks(), self.position as int), 610int,
    {
        let ghost t = self.toks();
        let ghost i0 = self.position as int;
        let mut statements: Vec<AstNode> = Vec::new();
        proof {
            crate::ast::lemma_models_index(statements@);
            assert(AstNode::models(statements@) =~= Seq::<AstModel>::empty());
            match sp_program_items(t, i0) {
                Ok(bj) => {
                    assert(Seq::<AstModel>::empty() + bj.0 =~= bj.0);
                },
                Err(_) => {},
            }
        }
        while self.position < self.tokens.len() && !self.at_eof()
            invariant
                self.wf(),
                self.tokens == old(self).tokens,
                i0 <= self.position,
                match sp_program_items(t, self.position as int) {
                    Ok(bj) => sp_program_items(t, i0) == Ok::<(Seq<AstModel>, int), Seq<char>>(
                        (AstNode::models(statements@) + bj.0, bj.1),
                    ),
                    Err(m) => sp_program_items(t, i0) == Err::<(Seq<AstModel>, int), Seq<char>>(
                        m,
                    ),
                },
            decreases self.tokens@.len() - self.position,
        {
            let ghost pos0 = self.position as int;
            let ghost acc = AstNode::models(statements@);
            if self.at_newline() {
                self.advance();
                continue;
            }
            let stmt = match self.parse_statement() {
                Ok(n) => n,
                Err(e) => {
                    return Err(e);
                },
            };
            proof {
                assert(adv(pos0, self.position as int) == self.position as int);
            }
            let ghost stmt_model = stmt.model();
            let ghost old_stmts = statements@;
            statements.push(stmt);
            proof {
                crate::ast::lemma_models_index(old_stmts);
                crate::ast::lemma_models_index(statements@);
                assert(AstNode::models(statements@) =~= acc.push(stmt_model));
                match sp_program_items(t, self.position as int) {
                    Ok(bj) => {
                        assert(acc + (seq![stmt_model] + bj.0) =~= acc.push(stmt_model) + bj.0);
                    },
                    Err(_) => {},
                }
            }
        }
        proof {
            assert(sp_program_items(t, self.position as int) == Ok::<
                (Seq<AstModel>, int),
                Seq<char>,
            >((Seq::<AstModel>::empty(), self.position as int)));
            assert(AstNode::models(statements@) + Seq::<AstModel>::empty() =~= AstNode::models(
                statements@,
            ));
        }
        Ok(statements)
    }
}



impl<'a> ParserWalk<'a> {
    /// Parses one statement by its leading token.
    #[verifier::rlimit(100)]
    #[verifier::spinoff_prover]
    fn parse_statement(&mut self) -> (r: Result<AstNode, CompilerError>)
        requires
            old(self).wf(),
        ensures
            final(self).wf(),
            final(self).tokens == old(self).tokens,
            old(self).position <= final(self).position,
            match sp_statement(old(self).toks(), old(self).position as int) {
                Ok(nj) => (r matches Ok(n) && n.model() == nj.0 && final(self).position == nj.1
                    && old(self).position < final(self).position),
                Err(m) => (r matches Err(e) && e.deep_view() == ErrorModel::Parse(m)),
            },
        decreases rem(self.toks(), self.position as int), 500int,
    {
        if self.position < self.tokens.len() {
            proof {
                self.lemma_tok_at(self.position as int);
            }
            match &self.tokens[self.position] {
                Token::Function => self.parse_function_declaration(),
                Token::Class => self.parse_class_declaration(),
                Token::Let => self.parse_variable_declaration(),
                Token::Const => self.parse_variable_declaration(),
                Token::If => self.parse_if_statement(),
                Token::While => self.parse_while_statement(),
                Token::For => self.parse_for_statement(),
                Token::Foreach => self.parse_foreach_statement(),
                Token::Return => self.parse_return_statement(),
                _ => self.parse_expression(),
            }
        } else {
            self.parse_expression()
        }
    }

    /// Parses a function declaration.
    #[verifier::rlimit(100)]
    fn parse_function_declaration(&mut self) -> (r: Result<AstNode, CompilerError>)
        requires
            old(self).wf(),
        ensures
            final(self).wf(),
            final(self).tokens == old(self).tokens,
            old(self).position <= final(self).position,
            match sp_function_decl(old(self).toks(), old(self).position as int) {
                Ok(nj) => (r matches Ok(n) && n.model() == nj.0 && final(self).position == nj.1
                    && old(self).position < final(self).position),
                Err(m) => (r matches Err(e) && e.deep_view() == ErrorModel::Parse(m)),
            },
        decreases rem(self.toks(), self.position as int), 450int,
    {
        let ghost i0 = self.position as int;
        match self.consume(Token::Function) {
            Ok(_) => {},
            Err(e) => {
                return Err(e);
            },
        }
        let name = match self.parse_identifier() {
            Ok(n) => n,
            Err(e) => {
                return Err(e);
            },
        };
        match self.consume(Token::LeftParen) {
            Ok(_) => {},
            Err(e) => {
                return Err(e);
            },
        }
        proof {
            assert(adv(i0, self.position as int) == self.position as int);
        }
        let params = match self.parse_params() {
            Ok(p) => p,
            Err(e) => {
                return Err(e);
            },
        };
        match self.consume(Token::RightParen) {
            Ok(_) => {},
            Err(e) => {
                return Err(e);
            },
        }
        match self.consume(Token::Colon) {
            Ok(_) => {},
            Err(e) => {
                return Err(e);
            },
        }
        proof {
            assert(adv(i0, self.position as int) == self.position as int);
        }
        let return_type = match self.parse_type() {
            Ok(ty) => ty,
            Err(e) => {
                return Err(e);
            },
        };
        match self.consume(Token::LeftBrace) {
            Ok(_) => {},
            Err(e) => {
                return Err(e);
            },
        }
        proof {
            assert(adv(i0, self.position as int) == self.position as int);
        }
        let body = match self.parse_block_statements() {
            Ok(b) => b,
            Err(e) => {
                return Err(e);
            },
        };
        match self.consume(Token::RightBrace) {
            Ok(_) => {},
            Err(e) => {
                return Err(e);
            },
        }
        Ok(
            AstNode::FunctionDeclaration {
                name,
                params,
                return_type,
                body,
                is_public: false,
            },
        )
    }

    /// Parses one class field.
    #[verifier::rlimit(100)]
    fn parse_class_field(&mut self) -> (r: Result<(String, KururiType, AstNode), CompilerError>)
        requires
            old(self).wf(),
        ensures
            final(self).wf(),
            final(self).tokens == old(self).tokens,
            old(self).position <= final(self).position,
            match sp_class_field(old(self).toks(), old(self).position as int) {
                Ok(fj) => (r matches Ok(f) && f.0@ == fj.0.0 && f.1.model() == fj.0.1
                    && f.2.model() == fj.0.2 && final(self).position == fj.1 && old(self).position
                    < final(self).position),
                Err(m) => (r matches Err(e) && e.deep_view() == ErrorModel::Parse(m)),
            },
        decreases rem(self.toks(), self.position as int), 540int,
    {
        let ghost i0 = self.position as int;
        let field_name = match self.parse_identifier() {
            Ok(n) => n,
            Err(e) => {
                return Err(e);
            },
        };
        match self.consume(Token::Colon) {
            Ok(_) => {},
            Err(e) => {
                return Err(e);
            },
        }
        proof {
            assert(adv(i0, self.position as int) == self.position as int);
        }
        let field_type = match self.parse_type() {
            Ok(ty) => ty,
            Err(e) => {
                return Err(e);
            },
        };
        match self.consume(Token::Assign) {
            Ok(_) => {},
            Err(e) => {
                return Err(e);
            },
        }
        proof {
            assert(adv(i0, self.position as int) == self.position as int);
        }
        let default_value = match self.parse_expression() {
            Ok(n) => n,
            Err(e) => {
                return Err(e);
            },
        };
        Ok((field_name, field_type, default_value))
    }

    /// Parses a `public function …` class member: the `public` keyword,
    /// then the declaration with its public flag set.
    #[verifier::rlimit(60)]
    fn parse_public_method(&mut self) -> (r: Result<AstNode, CompilerError>)
        requires
            old(self).wf(),
            old(self).position < old(self).tokens@.len(),
            old(self).tokens@[old(self).position as int].deep_view() is Public,
        ensures
            final(self).wf(),
            final(self).tokens == old(self).tokens,
            old(self).position <= final(self).position,
            match sp_function_decl(old(self).toks(), old(self).position as int + 1) {
                Ok(mj) => (r matches Ok(n) && n.model() == set_public(mj.0) && final(self).position == mj.1 && old(self).position < final(self).position),
                Err(m) => (r matches Err(e) && e.deep_view() == ErrorModel::Parse(m)),
            },
        decreases rem(self.toks(), self.position as int), 460int,
    {
        self.advance();
        let method = match self.parse_function_declaration() {
            Ok(m) => m,
            Err(e) => {
                return Err(e);
            },
        };
        let ghost method_model = method.model();
        match method {
            AstNode::FunctionDeclaration { name, params, return_type, body, .. } => {
                let node = AstNode::FunctionDeclaration {
                    name,
                    params,
                    return_type,
                    body,
                    is_public: true,
                };
                proof {
                    assert(node.model() == set_public(method_model));
                }
                Ok(node)
            },
            _ => {
                proof {
                    assert(false);
                }
                Err(CompilerError::ParseError(String::from_str("Invalid function call")))
            },
        }
    }

    /// Parses class members up to the closing brace (not consumed).
    #[verifier::loop_isolation(false)]
    #[verifier::rlimit(100)]
    #[verifier::spinoff_prover]
    fn parse_class_members(&mut self) -> (r: Result<
        (Vec<(String, KururiType, AstNode)>, Vec<AstNode>),
        CompilerError,
    >)
        requires
            old(self).wf(),
        ensures
            final(self).wf(),
            final(self).tokens == old(self).tokens,
            old(self).position <= final(self).position,
            match sp_members(old(self).toks(), old(self).position as int) {
                Ok(mj) => (r matches Ok(fm) && AstNode::fields_model(fm.0@) == mj.0.0
                    && AstNode::models(fm.1@) == mj.0.1 && final(self).position == mj.1),
                Err(m) => (r matches Err(e) && e.deep_view() == ErrorModel::Parse(m)),
            },
        decreases rem(self.toks(), self.position as int), 550int,
    {
        let ghost t = self.toks();
        let ghost mstart = self.position as int;
        let mut fields: Vec<(String, KururiType, AstNode)> = Vec::new();
        let mut methods: Vec<AstNode> = Vec::new();
        proof {
            crate::ast::lemma_models_index(methods@);
            assert(AstNode::fields_model(fields@) =~= Seq::<
                (Seq<char>, TypeModel, AstModel),
            >::empty());
            assert(AstNode::models(methods@) =~= Seq::<AstModel>::empty());
            match sp_members(t, mstart) {
                Ok(mj) => {
                    assert(Seq::<(Seq<char>, TypeModel, AstModel)>::empty() + mj.0.0 =~= mj.0.0);
                    assert(Seq::<AstModel>::empty() + mj.0.1 =~= mj.0.1);
                },
                Err(_) => {},
            }
        }
        while self.position < self.tokens.len() && !self.at_rbrace()
            invariant
                self.wf(),
                self.tokens == old(self).tokens,
                mstart <= self.position,
                members_inv(
                    t,
                    mstart,
                    self.position as int,
                    AstNode::fields_model(fields@),
                    AstNode::models(methods@),
                ),
            decreases self.tokens@.len() - self.position,
        {
            let ghost pos0 = self.position as int;
            let ghost facc = AstNode::fields_model(fields@);
            let ghost macc = AstNode::models(methods@);
            if self.at_newline() {
                self.advance();
                continue;
            }
            proof {
                self.lemma_tok_at(self.position as int);
            }
            if matches!(&self.tokens[self.position], Token::Function) {
                let method = match self.parse_function_declaration() {
                    Ok(m) => m,
                    Err(e) => {
                        return Err(e);
                    },
                };
                let ghost method_model = method.model();
                proof {
                    lemma_members_method_step(
                        t,
                        mstart,
                        pos0,
                        facc,
                        macc,
                        method_model,
                        self.position as int,
                    );
                }
                let ghost old_methods = methods@;
                methods.push(method);
                proof {
                    crate::ast::lemma_models_index(old_methods);
                    crate::ast::lemma_models_index(methods@);
                    assert(AstNode::models(methods@) =~= macc.push(method_model));
                }
            } else if matches!(&self.tokens[self.position], Token::Public) {
                let method = match self.parse_public_method() {
                    Ok(m) => m,
                    Err(e) => {
                        return Err(e);
                    },
                };
                let ghost method_model = method.model();
                proof {
                    match sp_function_decl(t, pos0 + 1) {
                        Ok(mj) => {
                            lemma_members_public_step(
                                t,
                                mstart,
                                pos0,
                                facc,
                                macc,
                                mj.0,
                                self.position as int,
                            );
                        },
                        Err(_) => {},
                    }
                }
                let ghost old_methods = methods@;
                methods.push(method);
                proof {
                    crate::ast::lemma_models_index(old_methods);
                    crate::ast::lemma_models_index(methods@);
                    assert(AstNode::models(methods@) =~= macc.push(method_model));
                }
            } else {
                let field = match self.parse_class_field() {
                    Ok(f) => f,
                    Err(e) => {
                        return Err(e);
                    },
                };
                let ghost entry_model = (field.0@, field.1.model(), field.2.model());
                proof {
                    lemma_members_field_step(
                        t,
                        mstart,
                        pos0,
                        facc,
                        macc,
                        entry_model,
                        self.position as int,
                    );
                }
                let ghost old_fields = fields@;
                fields.push(field);
                proof {
                    crate::ast::lemma_fields_model_index(old_fields);
                    crate::ast::lemma_fields_model_index(fields@);
                    assert(AstNode::fields_model(fields@) =~= facc.push(entry_model));
                }
            }
        }
        proof {
            assert(sp_members(t, self.position as int) == Ok::<
                ((Seq<(Seq<char>, TypeModel, AstModel)>, Seq<AstModel>), int),
                Seq<char>,
            >(((Seq::empty(), Seq::empty()), self.position as int)));
            assert(AstNode::fields_model(fields@) + Seq::<
                (Seq<char>, TypeModel, AstModel),
            >::empty() =~= AstNode::fields_model(fields@));
            assert(AstNode::models(methods@) + Seq::<AstModel>::empty() =~= AstNode::models(
                methods@,
            ));
        }
        Ok((fields, methods))
    }

    /// Parses a class declaration: methods after `function` or `public`,
    /// fields otherwise.
    #[verifier::loop_isolation(false)]
    #[verifier::rlimit(100)]
    #[verifier::spinoff_prover]
    fn parse_class_declaration(&mut self) -> (r: Result<AstNode, CompilerError>)
        requires
            old(self).wf(),
        ensures
            final(self).wf(),
            final(self).tokens == old(self).tokens,
            old(self).position <= final(self).position,
            match sp_class_decl(old(self).toks(), old(self).position as int) {
                Ok(nj) => (r matches Ok(n) && n.model() == nj.0 && final(self).position == nj.1
                    && old(self).position < final(self).position),
                Err(m) => (r matches Err(e) && e.deep_view() == ErrorModel::Parse(m)),
            },
        decreases rem(self.toks(), self.position as int), 450int,
    {
        let ghost t = self.toks();
        let ghost i0 = self.position as int;
        match self.consume(Token::Class) {
            Ok(_) => {},
            Err(e) => {
                return Err(e);
            },
        }
        let name = match self.parse_identifier() {
            Ok(n) => n,
            Err(e) => {
                return Err(e);
            },
        };
        match self.consume(Token::LeftBrace) {
            Ok(_) => {},
            Err(e) => {
                return Err(e);
            },
        }
        proof {
            assert(adv(i0, self.position as int) == self.position as int);
        }
        let (fields, methods) = match self.parse_class_members() {
            Ok(fm) => fm,
            Err(e) => {
                return Err(e);
            },
        };
        match self.consume(Token::RightBrace) {
            Ok(_) => {},
            Err(e) => {
                return Err(e);
            },
        }
        Ok(AstNode::ClassDeclaration { name, fields, methods })
    }

    /// Parses a variable declaration.
    #[verifier::rlimit(100)]
    fn parse_variable_declaration(&mut self) -> (r: Result<AstNode, CompilerError>)
        requires
            old(self).wf(),
        ensures
            final(self).wf(),
            final(self).tokens == old(self).tokens,
            old(self).position <= final(self).position,
            match sp_var_decl(old(self).toks(), old(self).position as int) {
                Ok(nj) => (r matches Ok(n) && n.model() == nj.0 && final(self).position == nj.1
                    && old(self).position < final(self).position),
                Err(m) => (r matches Err(e) && e.deep_view() == ErrorModel::Parse(m)),
            },
        decreases rem(self.toks(), self.position as int), 450int,
    {
        let ghost i0 = self.position as int;
        proof {
            if self.position < self.tokens.len() {
                self.lemma_tok_at(self.position as int);
            }
        }
        let is_const = self.position < self.tokens.len() && matches!(
            &self.tokens[self.position],
            Token::Const,
        );
        self.advance();
        let name = match self.parse_identifier() {
            Ok(n) => n,
            Err(e) => {
                return Err(e);
            },
        };
        match self.consume(Token::Colon) {
            Ok(_) => {},
            Err(e) => {
                return Err(e);
            },
        }
        proof {
            assert(adv(i0, self.position as int) == self.position as int);
        }
        let var_type = match self.parse_type() {
            Ok(ty) => ty,
            Err(e) => {
                return Err(e);
            },
        };
        match self.consume(Token::Assign) {
            Ok(_) => {},
            Err(e) => {
                return Err(e);
            },
        }
        proof {
            assert(adv(i0, self.position as int) == self.position as int);
        }
        let value = match self.parse_expression() {
            Ok(n) => n,
            Err(e) => {
                return Err(e);
            },
        };
        Ok(
            AstNode::VariableDeclaration {
                is_const,
                name,
                var_type,
                value: Box::new(value),
            },
        )
    }

    /// Parses an `if` statement with its `elseif` chain and optional
    /// `else`.
    #[verifier::loop_isolation(false)]
    #[verifier::rlimit(100)]
    fn parse_if_statement(&mut self) -> (r: Result<AstNode, CompilerError>)
        requires
            old(self).wf(),
        ensures
            final(self).wf(),
            final(self).tokens == old(self).tokens,
            old(self).position <= final(self).position,
            match sp_if_statement(old(self).toks(), old(self).position as int) {
                Ok(nj) => (r matches Ok(n) && n.model() == nj.0 && final(self).position == nj.1
                    && old(self).position < final(self).position),
                Err(m) => (r matches Err(e) && e.deep_view() == ErrorModel::Parse(m)),
            },
        decreases rem(self.toks(), self.position as int), 450int,
    {
        let ghost t = self.toks();
        let ghost i0 = self.position as int;
        match self.consume(Token::If) {
            Ok(_) => {},
            Err(e) => {
                return Err(e);
            },
        }
        proof {
            assert(adv(i0, self.position as int) == self.position as int);
        }
        let condition = match self.parse_expression() {
            Ok(n) => n,
            Err(e) => {
                return Err(e);
            },
        };
        match self.consume(Token::LeftBrace) {
            Ok(_) => {},
            Err(e) => {
                return Err(e);
            },
        }
        proof {
            assert(adv(i0, self.position as int) == self.position as int);
        }
        let then_body = match self.parse_block_statements() {
            Ok(b) => b,
            Err(e) => {
                return Err(e);
            },
        };
        match self.consume(Token::RightBrace) {
            Ok(_) => {},
            Err(e) => {
                return Err(e);
            },
        }
        proof {
            assert(adv(i0, self.position as int) == self.position as int);
        }
        let ghost estart = self.position as int;
        let mut elseif_branches: Vec<(AstNode, Vec<AstNode>)> = Vec::new();
        proof {
            crate::ast::lemma_branches_model_index(elseif_branches@);
            assert(AstNode::branches_model(elseif_branches@) =~= Seq::<
                (AstModel, Seq<AstModel>),
            >::empty());
            match sp_elseifs(t, estart) {
                Ok(ej) => {
                    assert(Seq::<(AstModel, Seq<AstModel>)>::empty() + ej.0 =~= ej.0);
                },
                Err(_) => {},
            }
        }
        while self.at_elseif()
            invariant
                self.wf(),
                self.tokens == old(self).tokens,
                estart <= self.position,
                match sp_elseifs(t, self.position as int) {
                    Ok(ej) => sp_elseifs(t, estart) == Ok::<
                        (Seq<(AstModel, Seq<AstModel>)>, int),
                        Seq<char>,
                    >((AstNode::branches_model(elseif_branches@) + ej.0, ej.1)),
                    Err(m) => sp_elseifs(t, estart) == Err::<
                        (Seq<(AstModel, Seq<AstModel>)>, int),
                        Seq<char>,
                    >(m),
                },
            decreases self.tokens@.len() - self.position,
        {
            let ghost pos0 = self.position as int;
            let ghost acc = AstNode::branches_model(elseif_branches@);
            self.advance();
            let elseif_condition = match self.parse_expression() {
                Ok(n) => n,
                Err(e) => {
                    return Err(e);
                },
            };
            match self.consume(Token::LeftBrace) {
                Ok(_) => {},
                Err(e) => {
                    return Err(e);
                },
            }
            proof {
                assert(adv(pos0, self.position as int) == self.position as int);
            }
            let elseif_body = match self.parse_block_statements() {
                Ok(b) => b,
                Err(e) => {
                    return Err(e);
                },
            };
            match self.consume(Token::RightBrace) {
                Ok(_) => {},
                Err(e) => {
                    return Err(e);
                },
            }
            proof {
                assert(adv(pos0, self.position as int) == self.position as int);
            }
            let ghost branch_model = (elseif_condition.model(), AstNode::models(elseif_body@));
            let ghost old_branches = elseif_branches@;
            elseif_branches.push((elseif_condition, elseif_body));
            proof {
                crate::ast::lemma_branches_model_index(old_branches);
                crate::ast::lemma_branches_model_index(elseif_branches@);
                assert(AstNode::branches_model(elseif_branches@) =~= acc.push(branch_model));
                match sp_elseifs(t, self.position as int) {
                    Ok(ej) => {
                        assert(acc + (seq![branch_model] + ej.0) =~= acc.push(branch_model)
                            + ej.0);
                    },
                    Err(_) => {},
                }
            }
        }
        proof {
            assert(sp_elseifs(t, self.position as int) == Ok::<
                (Seq<(AstModel, Seq<AstModel>)>, int),
                Seq<char>,
            >((Seq::empty(), self.position as int)));
            assert(AstNode::branches_model(elseif_branches@) + Seq::<
                (AstModel, Seq<AstModel>),
            >::empty() =~= AstNode::branches_model(elseif_branches@));
        }
        if self.at_else() {
            self.advance();
            match self.consume(Token::LeftBrace) {
                Ok(_) => {},
                Err(e) => {
                    return Err(e);
                },
            }
            proof {
                assert(adv(i0, self.position as int) == self.position as int);
            }
            let else_statements = match self.parse_block_statements() {
                Ok(b) => b,
                Err(e) => {
                    return Err(e);
                },
            };
            match self.consume(Token::RightBrace) {
                Ok(_) => {},
                Err(e) => {
                    return Err(e);
                },
            }
            Ok(
                AstNode::IfStatement {
                    condition: Box::new(condition),
                    then_body,
                    elseif_branches,
                    else_body: Some(else_statements),
                },
            )
        } else {
            Ok(
                AstNode::IfStatement {
                    condition: Box::new(condition),
                    then_body,
                    elseif_branches,
                    else_body: None,
                },
            )
        }
    }

    /// Reports whether the cursor stands on `elseif`.
    fn at_elseif(&self) -> (r: bool)
        requires
            self.wf(),
        ensures
            r == (0 <= self.position < self.toks().len() && (self.toks()[self.position as int]
                is Elseif)),
    {
        if self.position < self.tokens.len() {
            proof {
                self.lemma_tok_at(self.position as int);
            }
            matches!(&self.tokens[self.position], Token::Elseif)
        } else {
            false
        }
    }

    /// Reports whether the cursor stands on `else`.
    fn at_else(&self) -> (r: bool)
        requires
            self.wf(),
        ensures
            r == (0 <= self.position < self.toks().len() && (self.toks()[self.position as int]
                is Else)),
    {
        if self.position < self.tokens.len() {
            proof {
                self.lemma_tok_at(self.position as int);
            }
            matches!(&self.tokens[self.position], Token::Else)
        } else {
            false
        }
    }

    /// Parses a `while` statement.
    #[verifier::rlimit(100)]
    fn parse_while_statement(&mut self) -> (r: Result<AstNode, CompilerError>)
        requires
            old(self).wf(),
        ensures
            final(self).wf(),
            final(self).tokens == old(self).tokens,
            old(self).position <= final(self).position,
            match sp_while_statement(old(self).toks(), old(self).position as int) {
                Ok(nj) => (r matches Ok(n) && n.model() == nj.0 && final(self).position == nj.1
                    && old(self).position < final(self).position),
                Err(m) => (r matches Err(e) && e.deep_view() == ErrorModel::Parse(m)),
            },
        decreases rem(self.toks(), self.position as int), 450int,
    {
        let ghost i0 = self.position as int;
        match self.consume(Token::While) {
            Ok(_) => {},
            Err(e) => {
                return Err(e);
            },
        }
        proof {
            assert(adv(i0, self.position as int) == self.position as int);
        }
        let condition = match self.parse_expression() {
            Ok(n) => n,
            Err(e) => {
                return Err(e);
            },
        };
        match self.consume(Token::LeftBrace) {
            Ok(_) => {},
            Err(e) => {
                return Err(e);
            },
        }
        proof {
            assert(adv(i0, self.position as int) == self.position as int);
        }
        let body = match self.parse_block_statements() {
            Ok(b) => b,
            Err(e) => {
                return Err(e);
            },
        };
        match self.consume(Token::RightBrace) {
            Ok(_) => {},
            Err(e) => {
                return Err(e);
            },
        }
        Ok(AstNode::WhileStatement { condition: Box::new(condition), body })
    }

    /// Parses a `for` statement.
    #[verifier::rlimit(100)]
    fn parse_for_statement(&mut self) -> (r: Result<AstNode, CompilerError>)
        requires
            old(self).wf(),
        ensures
            final(self).wf(),
            final(self).tokens == old(self).tokens,
            old(self).position <= final(self).position,
            match sp_for_statement(old(self).toks(), old(self).position as int) {
                Ok(nj) => (r matches Ok(n) && n.model() == nj.0 && final(self).position == nj.1
                    && old(self).position < final(self).position),
                Err(m) => (r matches Err(e) && e.deep_view() == ErrorModel::Parse(m)),
            },
        decreases rem(self.toks(), self.position as int), 450int,
    {
        let ghost i0 = self.position as int;
        match self.consume(Token::For) {
            Ok(_) => {},
            Err(e) => {
                return Err(e);
            },
        }
        let counter_var = match self.parse_identifier() {
            Ok(n) => n,
            Err(e) => {
                return Err(e);
            },
        };
        proof {
            assert(adv(i0, self.position as int) == self.position as int);
        }
        let condition = match self.parse_expression() {
            Ok(n) => n,
            Err(e) => {
                return Err(e);
            },
        };
        match self.consume(Token::LeftBrace) {
            Ok(_) => {},
            Err(e) => {
                return Err(e);
            },
        }
        proof {
            assert(adv(i0, self.position as int) == self.position as int);
        }
        let body = match self.parse_block_statements() {
            Ok(b) => b,
            Err(e) => {
                return Err(e);
            },
        };
        match self.consume(Token::RightBrace) {
            Ok(_) => {},
            Err(e) => {
                return Err(e);
            },
        }
        Ok(AstNode::ForStatement { counter_var, condition: Box::new(condition), body })
    }

    /// Parses a `foreach` statement.
    #[verifier::rlimit(100)]
    fn parse_foreach_statement(&mut self) -> (r: Result<AstNode, CompilerError>)
        requires
            old(self).wf(),
        ensures
            final(self).wf(),
            final(self).tokens == old(self).tokens,
            old(self).position <= final(self).position,
            match sp_foreach_statement(old(self).toks(), old(self).position as int) {
                Ok(nj) => (r matches Ok(n) && n.model() == nj.0 && final(self).position == nj.1
                    && old(self).position < final(self).position),
                Err(m) => (r matches Err(e) && e.deep_view() == ErrorModel::Parse(m)),
            },
        decreases rem(self.toks(), self.position as int), 450int,
    {
        let ghost i0 = self.position as int;
        match self.consume(Token::Foreach) {
            Ok(_) => {},
            Err(e) => {
                return Err(e);
            },
        }
        let var_name = match self.parse_identifier() {
            Ok(n) => n,
            Err(e) => {
                return Err(e);
            },
        };
        match self.consume(Token::In) {
            Ok(_) => {},
            Err(e) => {
                return Err(e);
            },
        }
        proof {
            assert(adv(i0, self.position as int) == self.position as int);
        }
        let iterable = match self.parse_expression() {
            Ok(n) => n,
            Err(e) => {
                return Err(e);
            },
        };
        match self.consume(Token::LeftBrace) {
            Ok(_) => {},
            Err(e) => {
                return Err(e);
            },
        }
        proof {
            assert(adv(i0, self.position as int) == self.position as int);
        }
        let body = match self.parse_block_statements() {
            Ok(b) => b,
            Err(e) => {
                return Err(e);
            },
        };
        match self.consume(Token::RightBrace) {
            Ok(_) => {},
            Err(e) => {
                return Err(e);
            },
        }
        Ok(
            AstNode::ForeachStatement {
                var_name,
                iterable: Box::new(iterable),
                body,
            },
        )
    }

    /// Parses a `return` statement with its optional expression.
    #[verifier::rlimit(100)]
    fn parse_return_statement(&mut self) -> (r: Result<AstNode, CompilerError>)
        requires
            old(self).wf(),
        ensures
            final(self).wf(),
            final(self).tokens == old(self).tokens,
            old(self).position <= final(self).position,
            match sp_return_statement(old(self).toks(), old(self).position as int) {
                Ok(nj) => (r matches Ok(n) && n.model() == nj.0 && final(self).position == nj.1
                    && old(self).position < final(self).position),
                Err(m) => (r matches Err(e) && e.deep_view() == ErrorModel::Parse(m)),
            },
        decreases rem(self.toks(), self.position as int), 450int,
    {
        let ghost i0 = self.position as int;
        match self.consume(Token::Return) {
            Ok(_) => {},
            Err(e) => {
                return Err(e);
            },
        }
        proof {
            if self.position < self.tokens.len() {
                self.lemma_tok_at(self.position as int);
            }
        }
        if self.position < self.tokens.len() && matches!(
            &self.tokens[self.position],
            Token::Newline | Token::RightBrace | Token::Eof,
        ) {
            Ok(AstNode::ReturnStatement(None))
        } else {
            proof {
                assert(adv(i0, self.position as int) == self.position as int);
            }
            match self.parse_expression() {
                Ok(value) => Ok(AstNode::ReturnStatement(Some(Box::new(value)))),
                Err(e) => Err(e),
            }
        }
    }
}


/// The recursive-descent parser over a borrowed token stream.
#[derive(Debug)]
pub struct Parser;

impl Parser {
    /// Creates the parser.
    pub fn new() -> (r: Parser) {
        Parser
    }

    /// Parses a whole token stream into a program node, as [`spec_parse`]
    /// says; an empty stream is a parse diagnostic.
    pub fn parse(&self, tokens: &[Token]) -> (r: Result<AstNode, CompilerError>)
        ensures
            match spec_parse(tokens.deep_view()) {
                Ok(m) => (r matches Ok(ast) && ast.model() == m),
                Err(msg) => (r matches Err(e) && e.deep_view() == ErrorModel::Parse(msg)),
            },
    {
        if tokens.is_empty() {
            return Err(CompilerError::ParseError(String::from_str("No tokens to parse")));
        }
        let mut walk = ParserWalk { tokens, position: 0 };
        match walk.parse_program_items() {
            Ok(stmts) => {
                let ghost stmts_model = AstNode::models(stmts@);
                let program = AstNode::Program(stmts);
                proof {
                    assert(program.model() == AstModel::Program(stmts_model));
                }
                Ok(program)
            },
            Err(e) => Err(e),
        }
    }

    /// Passes the older token shape through unchanged; an empty list is a
    /// parse diagnostic.
    pub fn parse_tokens(&self, tokens: &[String]) -> (r: Result<Vec<String>, CompilerError>)
        ensures
            tokens@.len() == 0 ==> (r matches Err(e) && e.deep_view() == ErrorModel::Parse(
                "No tokens to parse"@,
            )),
            tokens@.len() != 0 ==> (r matches Ok(v) && v.deep_view() == tokens.deep_view()),
    {
        if tokens.is_empty() {
            return Err(CompilerError::ParseError(String::from_str("No tokens to parse")));
        }
        Ok(crate::semantic::copy_strings(tokens))
    }
}

impl Default for Parser {
    /// A fresh parser, as [`Parser::new`] gives.
    fn default() -> (r: Parser) {
        Parser::new()
    }
}

} // verus!
