use crate::alum::ast::{
    global_binding, local_binding, SpecBinding, SpecExpression, SpecStatement,
};
use crate::alum::number::is_float_literal;
use crate::alum::token::{op_prec, token_op, Op, SpecToken, Token};
use vstd::prelude::*;

verus! {

/// Why a token stream does not parse.
#[derive(Debug, Clone, Copy, PartialEq, Eq, Structural)]
pub enum ParseError {
    /// A token was needed past the end of the tokens.
    UnexpectedEnd,
    /// A name was needed where the token is neither a number nor an identifier.
    ExpectedName,
    /// `=` was needed after the name of a `let` or `global`.
    ExpectedAssign,
    /// `(` was needed after the name of a function.
    ExpectedParamsParen,
    /// `,` or `)` was needed after a parameter.
    ExpectedParamComma,
    /// `{` was needed to open a function body.
    ExpectedBody,
    /// An expression was needed.
    ExpectedExpression,
    /// A number literal that `f64` does not accept.
    InvalidNumber,
    /// A variable that nothing bound before.
    UnknownVariable,
    /// `,` or `)` was needed after a call argument.
    ExpectedArgComma,
    /// `)` was needed to close `(`.
    ExpectedCloseParen,
    /// `:` was needed after a dictionary key.
    ExpectedColon,
    /// `,` or `}` was needed after a dictionary value.
    ExpectedEntryComma,
    /// An operator was needed.
    ExpectedOperator,
    /// The tokens ended right after an operator.
    EndInOperation,
    /// A step did not move forward. No parse ever ends so: the parser proves
    /// that each of its steps moves forward.
    Stalled,
}

/// The state of a parser between two of its steps.
pub struct ParseState {
    /// The position of the current token.
    pub top: int,
    /// The bindings known so far, by name.
    pub table: Map<Seq<char>, SpecBinding>,
    /// The block depth.
    pub depth: int,
    /// The function depth.
    pub function_depth: int,
    /// Whether an operation is being parsed, so that operators are not chained
    /// from a nested operand.
    pub in_operation: bool,
}

/// The state with the next token current.
pub open spec fn adv(s: ParseState) -> ParseState {
    ParseState { top: s.top + 1, ..s }
}

/// The state with another table.
pub open spec fn with_table(s: ParseState, table: Map<Seq<char>, SpecBinding>) -> ParseState {
    ParseState { table, ..s }
}

/// The state with another operation flag.
pub open spec fn with_in_operation(s: ParseState, b: bool) -> ParseState {
    ParseState { in_operation: b, ..s }
}

/// The state with both depths changed by `k`.
pub open spec fn with_depths_moved(s: ParseState, k: int) -> ParseState {
    ParseState { depth: s.depth + k, function_depth: s.function_depth + k, ..s }
}

/// The current token.
pub open spec fn current(toks: Seq<SpecToken>, s: ParseState) -> Result<SpecToken, ParseError> {
    if 0 <= s.top < toks.len() {
        Ok(toks[s.top])
    } else {
        Err(ParseError::UnexpectedEnd)
    }
}

/// The text of the current token, where it is a number or an identifier.
pub open spec fn current_name(toks: Seq<SpecToken>, s: ParseState) -> Result<
    Seq<char>,
    ParseError,
> {
    match current(toks, s) {
        Err(e) => Err(e),
        Ok(Token::Number(n)) => Ok(n),
        Ok(Token::Ident(n)) => Ok(n),
        Ok(_) => Err(ParseError::ExpectedName),
    }
}

/// The number of tokens from the current one on.
pub open spec fn remaining(toks: Seq<SpecToken>, s: ParseState) -> int {
    if s.top > toks.len() {
        0
    } else {
        toks.len() - s.top
    }
}

/// Whether `s2` lies after `s`, and no further than one past the end.
pub open spec fn moved_on(toks: Seq<SpecToken>, s: ParseState, s2: ParseState) -> bool {
    s.top < s2.top <= toks.len() + 1
}

/// `acc`, with `x` after it where there is one.
pub open spec fn push_opt<A>(acc: Seq<A>, x: Option<A>) -> Seq<A> {
    match x {
        Some(x) => acc.push(x),
        None => acc,
    }
}

/// The operand stack with its two top operands joined by the top operator.
pub open spec fn fold_top(es: Seq<SpecExpression>, ops: Seq<Op>) -> Seq<SpecExpression> {
    es.drop_last().drop_last().push(
        SpecExpression::Binary(Box::new(es[es.len() - 2]), ops.last(), Box::new(es.last())),
    )
}

/// The single expression left once every operator of the stack is folded,
/// from the top down.
pub open spec fn reduce(es: Seq<SpecExpression>, ops: Seq<Op>) -> SpecExpression
    decreases ops.len(),
{
    if ops.len() == 0 {
        es.last()
    } else {
        reduce(fold_top(es, ops), ops.drop_last())
    }
}

/// The parameter names of a function, from the current token up to `)`,
/// each bound as a local.
pub open spec fn params(toks: Seq<SpecToken>, s: ParseState, acc: Seq<Seq<char>>) -> Result<
    (Seq<Seq<char>>, ParseState),
    ParseError,
>
    decreases toks.len() + 2 - s.top,
{
    match current(toks, s) {
        Err(e) => Err(e),
        Ok(Token::RParen) => Ok((acc, s)),
        Ok(_) => match current_name(toks, s) {
            Err(e) => Err(e),
            Ok(name) => {
                let s1 = adv(
                    with_table(
                        s,
                        s.table.insert(name, local_binding(name, s.depth, s.function_depth)),
                    ),
                );
                let acc1 = acc.push(name);
                match current(toks, s1) {
                    Err(e) => Err(e),
                    Ok(Token::RParen) => Ok((acc1, s1)),
                    Ok(Token::Comma) => params(toks, adv(s1), acc1),
                    Ok(_) => Err(ParseError::ExpectedParamComma),
                }
            },
        },
    }
}

/// A statement, or nothing for a lone `;`.
pub open spec fn statement(toks: Seq<SpecToken>, s: ParseState) -> Result<
    (Option<SpecStatement>, ParseState),
    ParseError,
>
    decreases toks.len() + 2 - s.top, 4int,
{
    match current(toks, s) {
        Err(e) => Err(e),
        Ok(Token::Global) => global_statement(toks, s),
        Ok(Token::Let) => let_statement(toks, s),
        Ok(Token::Fun) => fun_statement(toks, s),
        Ok(Token::Return) => return_statement(toks, s),
        Ok(Token::Semicolon) => Ok((None, adv(s))),
        Ok(_) => match expression(toks, s) {
            Err(e) => Err(e),
            Ok((e, s1)) => Ok((Some(SpecStatement::Expression(e)), s1)),
        },
    }
}

/// `global name = expression`: the name is bound as a global once the
/// expression is parsed.
pub open spec fn global_statement(toks: Seq<SpecToken>, s: ParseState) -> Result<
    (Option<SpecStatement>, ParseState),
    ParseError,
>
    decreases toks.len() + 2 - s.top, 3int,
{
    if s.top >= toks.len() {
        Err(ParseError::UnexpectedEnd)
    } else {
        let s1 = adv(s);
        match current_name(toks, s1) {
            Err(e) => Err(e),
            Ok(name) => {
                let s2 = adv(s1);
                match current(toks, s2) {
                    Err(e) => Err(e),
                    Ok(Token::Assign) => match expression(toks, adv(s2)) {
                        Err(e) => Err(e),
                        Ok((right, s3)) => Ok(
                            (
                                Some(SpecStatement::Global(name, right)),
                                with_table(s3, s3.table.insert(name, global_binding(name))),
                            ),
                        ),
                    },
                    Ok(_) => Err(ParseError::ExpectedAssign),
                }
            },
        }
    }
}

/// `let name = expression`: the name is bound as a local once the
/// expression is parsed.
pub open spec fn let_statement(toks: Seq<SpecToken>, s: ParseState) -> Result<
    (Option<SpecStatement>, ParseState),
    ParseError,
>
    decreases toks.len() + 2 - s.top, 3int,
{
    if s.top >= toks.len() {
        Err(ParseError::UnexpectedEnd)
    } else {
        let s1 = adv(s);
        match current_name(toks, s1) {
            Err(e) => Err(e),
            Ok(name) => {
                let s2 = adv(s1);
                match current(toks, s2) {
                    Err(e) => Err(e),
                    Ok(Token::Assign) => match expression(toks, adv(s2)) {
                        Err(e) => Err(e),
                        Ok((right, s3)) => {
                            let b = local_binding(name, s3.depth, s3.function_depth);
                            Ok(
                                (
                                    Some(SpecStatement::Let(name, right, b)),
                                    with_table(s3, s3.table.insert(name, b)),
                                ),
                            )
                        },
                    },
                    Ok(_) => Err(ParseError::ExpectedAssign),
                }
            },
        }
    }
}

/// `fun name(params) { body }`: the name is bound as a local before the
/// parameters; the parameters and the body sit one depth deeper.
pub open spec fn fun_statement(toks: Seq<SpecToken>, s: ParseState) -> Result<
    (Option<SpecStatement>, ParseState),
    ParseError,
>
    decreases toks.len() + 2 - s.top, 3int,
{
    if s.top >= toks.len() {
        Err(ParseError::UnexpectedEnd)
    } else {
        let s1 = adv(s);
        match current_name(toks, s1) {
            Err(e) => Err(e),
            Ok(name) => {
                let b = local_binding(name, s1.depth, s1.function_depth);
                let s2 = adv(with_table(s1, s1.table.insert(name, b)));
                match current(toks, s2) {
                    Err(e) => Err(e),
                    Ok(Token::LParen) => {
                        let s3 = with_depths_moved(adv(s2), 1);
                        match params(toks, s3, seq![]) {
                            Err(e) => Err(e),
                            Ok((ps, s4)) => if !moved_on(toks, s, s4) {
                                Err(ParseError::Stalled)
                            } else {
                                match body(toks, adv(s4)) {
                                    Err(e) => Err(e),
                                    Ok((stmts, s5)) => Ok(
                                        (
                                            Some(SpecStatement::Fun(name, ps, stmts, b)),
                                            with_depths_moved(s5, -1),
                                        ),
                                    ),
                                }
                            },
                        }
                    },
                    Ok(_) => Err(ParseError::ExpectedParamsParen),
                }
            },
        }
    }
}

/// `return`, with the expression that follows unless `;` follows.
pub open spec fn return_statement(toks: Seq<SpecToken>, s: ParseState) -> Result<
    (Option<SpecStatement>, ParseState),
    ParseError,
>
    decreases toks.len() + 2 - s.top, 3int,
{
    if s.top >= toks.len() {
        Err(ParseError::UnexpectedEnd)
    } else {
        let s1 = adv(s);
        match current(toks, s1) {
            Err(e) => Err(e),
            Ok(Token::Semicolon) => Ok((Some(SpecStatement::Return(None)), s1)),
            Ok(_) => match expression(toks, s1) {
                Err(e) => Err(e),
                Ok((e, s2)) => Ok((Some(SpecStatement::Return(Some(e))), s2)),
            },
        }
    }
}

/// A body: `{`, statements, `}`.
pub open spec fn body(toks: Seq<SpecToken>, s: ParseState) -> Result<
    (Seq<SpecStatement>, ParseState),
    ParseError,
>
    decreases toks.len() + 2 - s.top, 6int,
{
    match current(toks, s) {
        Err(e) => Err(e),
        Ok(Token::LCurly) => statements(toks, adv(s), seq![]),
        Ok(_) => Err(ParseError::ExpectedBody),
    }
}

/// The statements of a body, from the current token up to and past `}`.
pub open spec fn statements(
    toks: Seq<SpecToken>,
    s: ParseState,
    acc: Seq<SpecStatement>,
) -> Result<(Seq<SpecStatement>, ParseState), ParseError>
    decreases toks.len() + 2 - s.top, 5int,
{
    match current(toks, s) {
        Err(e) => Err(e),
        Ok(Token::RCurly) => Ok((acc, adv(s))),
        Ok(_) => match statement(toks, s) {
            Err(e) => Err(e),
            Ok((st, s1)) => if !moved_on(toks, s, s1) {
                Err(ParseError::Stalled)
            } else {
                statements(toks, s1, push_opt(acc, st))
            },
        },
    }
}

/// Whether a token starts an expression: a number, an identifier, `(` or
/// `{`. The parser passes over any other token before it fails there.
pub open spec fn starts_expression(t: SpecToken) -> bool {
    match t {
        Token::Number(_) => true,
        Token::Ident(_) => true,
        Token::LParen => true,
        Token::LCurly => true,
        _ => false,
    }
}

/// An expression.
pub open spec fn expression(toks: Seq<SpecToken>, s: ParseState) -> Result<
    (SpecExpression, ParseState),
    ParseError,
>
    decreases toks.len() + 2 - s.top, 2int,
{
    match current(toks, s) {
        Err(e) => Err(e),
        Ok(Token::Number(n)) => if is_float_literal(n) {
            after_operand(toks, s, SpecExpression::Number(n), s)
        } else {
            Err(ParseError::InvalidNumber)
        },
        Ok(Token::Ident(n)) => variable(toks, s, n),
        Ok(Token::LParen) => group(toks, s),
        Ok(Token::LCurly) => dict(toks, s),
        Ok(_) => Err(ParseError::ExpectedExpression),
    }
}

/// The binding with which a variable is used where its name is bound to
/// `b`: a local is used at the current depth.
pub open spec fn use_binding(b: SpecBinding, s: ParseState) -> SpecBinding {
    if b.depth is Some {
        SpecBinding { name: b.name, depth: Some(s.depth), function_depth: b.function_depth }
    } else {
        b
    }
}

/// An expression that starts with the identifier `n`: a variable, or a call
/// where `(` follows.
///
/// The token after the identifier is looked at to tell a call from a
/// variable, and `after_operand` then passes over the token after that one
/// too: a variable operand passes over the token that follows it. So
/// `return test + x;` parses as `return test;` and then `x;`.
pub open spec fn variable(toks: Seq<SpecToken>, s: ParseState, n: Seq<char>) -> Result<
    (SpecExpression, ParseState),
    ParseError,
>
    decreases toks.len() + 2 - s.top, 1int,
{
    if !s.table.contains_key(n) {
        Err(ParseError::UnknownVariable)
    } else {
        let var = SpecExpression::Var(n, use_binding(s.table[n], s));
        let s1 = adv(s);
        match current(toks, s1) {
            Err(e) => Err(e),
            Ok(Token::LParen) => if s1.top >= toks.len() {
                Err(ParseError::UnexpectedEnd)
            } else {
                match arguments(toks, adv(s1), seq![]) {
                    Err(e) => Err(e),
                    Ok((args, s2)) => after_operand(
                        toks,
                        s,
                        SpecExpression::Call(Box::new(var), args),
                        adv(s2),
                    ),
                }
            },
            Ok(_) => after_operand(toks, s, var, s1),
        }
    }
}

/// An expression in parentheses, parsed as an operand of its own.
pub open spec fn group(toks: Seq<SpecToken>, s: ParseState) -> Result<
    (SpecExpression, ParseState),
    ParseError,
>
    decreases toks.len() + 2 - s.top, 1int,
{
    if s.top >= toks.len() {
        Err(ParseError::UnexpectedEnd)
    } else {
        match expression(toks, with_in_operation(adv(s), false)) {
            Err(e) => Err(e),
            Ok((e, s2)) => {
                let s3 = with_in_operation(s2, s.in_operation);
                match current(toks, s3) {
                    Err(err) => Err(err),
                    Ok(Token::RParen) => after_operand(toks, s, e, s3),
                    Ok(_) => Err(ParseError::ExpectedCloseParen),
                }
            },
        }
    }
}

/// A dictionary: keys and values in `{` `}`.
pub open spec fn dict(toks: Seq<SpecToken>, s: ParseState) -> Result<
    (SpecExpression, ParseState),
    ParseError,
>
    decreases toks.len() + 2 - s.top, 1int,
{
    if s.top >= toks.len() {
        Err(ParseError::UnexpectedEnd)
    } else {
        match entries(toks, adv(s), seq![], seq![]) {
            Err(e) => Err(e),
            Ok(((ks, vs), s2)) => after_operand(toks, s, SpecExpression::Dict(ks, vs), s2),
        }
    }
}

/// What follows an operand `e` that an expression starting at `s0` parsed up
/// to `s`: the token after it is passed over, and an operation follows where
/// an operator comes next outside of an operation.
pub open spec fn after_operand(
    toks: Seq<SpecToken>,
    s0: ParseState,
    e: SpecExpression,
    s: ParseState,
) -> Result<(SpecExpression, ParseState), ParseError>
    decreases toks.len() + 2 - s0.top, 0int,
{
    let s1 = adv(s);
    if remaining(toks, s1) == 0 {
        Ok((e, s1))
    } else if token_op(toks[s1.top]) is Some && !s1.in_operation {
        if !moved_on(toks, s0, s1) {
            Err(ParseError::Stalled)
        } else {
            binary(toks, e, s1)
        }
    } else {
        Ok((e, s1))
    }
}

/// The arguments of a call, from the current token up to `)`.
pub open spec fn arguments(
    toks: Seq<SpecToken>,
    s: ParseState,
    acc: Seq<SpecExpression>,
) -> Result<(Seq<SpecExpression>, ParseState), ParseError>
    decreases toks.len() + 2 - s.top, 3int,
{
    match current(toks, s) {
        Err(e) => Err(e),
        Ok(Token::RParen) => Ok((acc, s)),
        Ok(_) => match expression(toks, s) {
            Err(e) => Err(e),
            Ok((a, s1)) => if !moved_on(toks, s, s1) {
                Err(ParseError::Stalled)
            } else {
                let acc1 = acc.push(a);
                match current(toks, s1) {
                    Err(e) => Err(e),
                    Ok(Token::RParen) => Ok((acc1, s1)),
                    Ok(Token::Comma) => arguments(toks, adv(s1), acc1),
                    Ok(_) => Err(ParseError::ExpectedArgComma),
                }
            },
        },
    }
}

/// The entries of a dictionary, from the current token up to `}`.
pub open spec fn entries(
    toks: Seq<SpecToken>,
    s: ParseState,
    keys: Seq<SpecExpression>,
    vals: Seq<SpecExpression>,
) -> Result<((Seq<SpecExpression>, Seq<SpecExpression>), ParseState), ParseError>
    decreases toks.len() + 2 - s.top, 3int,
{
    match current(toks, s) {
        Err(e) => Err(e),
        Ok(Token::RCurly) => Ok(((keys, vals), s)),
        Ok(_) => match expression(toks, s) {
            Err(e) => Err(e),
            Ok((k, s1)) => if !moved_on(toks, s, s1) {
                Err(ParseError::Stalled)
            } else {
                match current(toks, s1) {
                    Err(e) => Err(e),
                    Ok(Token::Colon) => match expression(toks, adv(s1)) {
                        Err(e) => Err(e),
                        Ok((v, s2)) => if !moved_on(toks, s, s2) {
                            Err(ParseError::Stalled)
                        } else {
                            let keys1 = keys.push(k);
                            let vals1 = vals.push(v);
                            match current(toks, s2) {
                                Err(e) => Err(e),
                                Ok(Token::RCurly) => Ok(((keys1, vals1), s2)),
                                Ok(Token::Comma) => entries(toks, adv(s2), keys1, vals1),
                                Ok(_) => Err(ParseError::ExpectedEntryComma),
                            }
                        },
                    },
                    Ok(_) => Err(ParseError::ExpectedColon),
                }
            },
        },
    }
}

/// An operation whose first operand is `left` and whose first operator is the
/// current token.
pub open spec fn binary(toks: Seq<SpecToken>, left: SpecExpression, s: ParseState) -> Result<
    (SpecExpression, ParseState),
    ParseError,
>
    decreases toks.len() + 2 - s.top, 0int,
{
    match current(toks, s) {
        Err(e) => Err(e),
        Ok(t) => match token_op(t) {
            None => Err(ParseError::ExpectedOperator),
            Some(op) => match expression(toks, with_in_operation(adv(s), true)) {
                Err(e) => Err(e),
                Ok((right, s2)) => if !moved_on(toks, s, s2) {
                    Err(ParseError::Stalled)
                } else {
                    match operators(toks, seq![left, right], seq![op], s2) {
                        Err(e) => Err(e),
                        Ok(((es, ops), s3)) => Ok((reduce(es, ops), with_in_operation(s3, false))),
                    }
                },
            },
        },
    }
}

/// The further operators and operands of an operation, on an operand stack
/// `es` and an operator stack `ops`: an operator that binds no tighter than
/// the top operator first folds the top of the stacks.
///
/// Only that one top operator is folded per new operator, however many of
/// those below it bind as tightly; the rest wait for `reduce`, which folds
/// from the top down. So `1 - 2 * 3 + 4;` groups as `1 - ((2 * 3) + 4)`.
pub open spec fn operators(
    toks: Seq<SpecToken>,
    es: Seq<SpecExpression>,
    ops: Seq<Op>,
    s: ParseState,
) -> Result<((Seq<SpecExpression>, Seq<Op>), ParseState), ParseError>
    decreases toks.len() + 2 - s.top, 0int,
{
    match current(toks, s) {
        Err(e) => Err(e),
        Ok(t) => match token_op(t) {
            None => Ok(((es, ops), s)),
            Some(op) => {
                let s1 = adv(s);
                let folds = op_prec(op) <= op_prec(ops.last());
                if folds && remaining(toks, s1) == 0 {
                    Err(ParseError::EndInOperation)
                } else {
                    match expression(toks, s1) {
                        Err(e) => Err(e),
                        Ok((e, s2)) => if !moved_on(toks, s, s2) {
                            Err(ParseError::Stalled)
                        } else if folds {
                            operators(toks, fold_top(es, ops).push(e), ops.drop_last().push(op), s2)
                        } else {
                            operators(toks, es.push(e), ops.push(op), s2)
                        },
                    }
                }
            },
        },
    }
}

/// The statements of a program, from the current token to the end.
pub open spec fn program(toks: Seq<SpecToken>, s: ParseState, acc: Seq<SpecStatement>) -> Result<
    (Seq<SpecStatement>, ParseState),
    ParseError,
>
    decreases toks.len() + 2 - s.top,
{
    if remaining(toks, s) == 0 {
        Ok((acc, s))
    } else {
        match statement(toks, s) {
            Err(e) => Err(e),
            Ok((st, s1)) => if !moved_on(toks, s, s1) {
                Err(ParseError::Stalled)
            } else {
                program(toks, s1, push_opt(acc, st))
            },
        }
    }
}

/// A program that parses is parsed up to the end of its tokens.
pub proof fn law_parse_reaches_end(toks: Seq<SpecToken>, s: ParseState, acc: Seq<SpecStatement>)
    ensures
        program(toks, s, acc) is Ok ==> remaining(toks, program(toks, s, acc)->Ok_0.1) == 0,
    decreases toks.len() + 2 - s.top,
{
    if remaining(toks, s) != 0 {
        match statement(toks, s) {
            Err(_) => {},
            Ok((st, s1)) => if moved_on(toks, s, s1) {
                law_parse_reaches_end(toks, s1, push_opt(acc, st));
            },
        }
    }
}

/// Once a program has parsed, parsing on from where it ended adds nothing
/// and leaves the state as it is.
pub proof fn law_parse_again(toks: Seq<SpecToken>, s: ParseState, acc: Seq<SpecStatement>)
    requires
        program(toks, s, acc) is Ok,
    ensures
        program(toks, program(toks, s, acc)->Ok_0.1, program(toks, s, acc)->Ok_0.0) == program(
            toks,
            s,
            acc,
        ),
{
    law_parse_reaches_end(toks, s, acc);
}

/// The state of a fresh parser.
pub open spec fn initial_state() -> ParseState {
    ParseState {
        top: 0,
        table: Map::empty(),
        depth: 0,
        function_depth: 0,
        in_operation: false,
    }
}

} // verus!
