use crate::alum::ast::SpecExpression;
use crate::alum::grammar::{
    adv, after_operand, arguments, binary, body, current, current_name, dict, entries,
    expression, fold_top, fun_statement, global_statement, group, let_statement, moved_on,
    operators, params, remaining, return_statement, statement, statements, variable,
    with_depths_moved, with_in_operation, with_table, ParseState,
};
use crate::alum::number::is_float_literal;
use crate::alum::token::{op_prec, token_op, Op, SpecToken, Token};
use vstd::prelude::*;

verus! {

/// Whether `s2` has the bindings, the depths and the operation flag of `s`.
pub open spec fn same_scope(s: ParseState, s2: ParseState) -> bool {
    &&& s2.table == s.table
    &&& s2.depth == s.depth
    &&& s2.function_depth == s.function_depth
    &&& s2.in_operation == s.in_operation
}

/// Whether `s2` has the depths and the operation flag of `s`, and binds
/// every name that `s` binds.
pub open spec fn grown_scope(s: ParseState, s2: ParseState) -> bool {
    &&& s.table.dom().subset_of(s2.table.dom())
    &&& s2.depth == s.depth
    &&& s2.function_depth == s.function_depth
    &&& s2.in_operation == s.in_operation
}

proof fn lemma_expression(toks: Seq<SpecToken>, s: ParseState)
    ensures
        expression(toks, s) is Ok ==> same_scope(s, expression(toks, s)->Ok_0.1),
    decreases toks.len() + 2 - s.top, 2int,
{
    match current(toks, s) {
        Ok(Token::Number(n)) => if is_float_literal(n) {
            lemma_after_operand(toks, s, SpecExpression::Number(n), s);
        },
        Ok(Token::Ident(n)) => lemma_variable(toks, s, n),
        Ok(Token::LParen) => lemma_group(toks, s),
        Ok(Token::LCurly) => lemma_dict(toks, s),
        _ => {},
    }
}

proof fn lemma_variable(toks: Seq<SpecToken>, s: ParseState, n: Seq<char>)
    ensures
        variable(toks, s, n) is Ok ==> same_scope(s, variable(toks, s, n)->Ok_0.1),
    decreases toks.len() + 2 - s.top, 1int,
{
    if s.table.contains_key(n) {
        let var = SpecExpression::Var(n, crate::alum::grammar::use_binding(s.table[n], s));
        let s1 = adv(s);
        match current(toks, s1) {
            Ok(Token::LParen) => if s1.top < toks.len() {
                lemma_arguments(toks, adv(s1), seq![]);
                match arguments(toks, adv(s1), seq![]) {
                    Ok((args, s2)) => lemma_after_operand(
                        toks,
                        s,
                        SpecExpression::Call(Box::new(var), args),
                        adv(s2),
                    ),
                    Err(_) => {},
                }
            },
            Ok(_) => lemma_after_operand(toks, s, var, s1),
            Err(_) => {},
        }
    }
}

proof fn lemma_group(toks: Seq<SpecToken>, s: ParseState)
    ensures
        group(toks, s) is Ok ==> same_scope(s, group(toks, s)->Ok_0.1),
    decreases toks.len() + 2 - s.top, 1int,
{
    if s.top < toks.len() {
        let s1 = with_in_operation(adv(s), false);
        lemma_expression(toks, s1);
        match expression(toks, s1) {
            Ok((e, s2)) => {
                let s3 = with_in_operation(s2, s.in_operation);
                if current(toks, s3) == Ok::<SpecToken, crate::alum::grammar::ParseError>(
                    Token::RParen,
                ) {
                    lemma_after_operand(toks, s, e, s3);
                }
            },
            Err(_) => {},
        }
    }
}

proof fn lemma_dict(toks: Seq<SpecToken>, s: ParseState)
    ensures
        dict(toks, s) is Ok ==> same_scope(s, dict(toks, s)->Ok_0.1),
    decreases toks.len() + 2 - s.top, 1int,
{
    if s.top < toks.len() {
        lemma_entries(toks, adv(s), seq![], seq![]);
        match entries(toks, adv(s), seq![], seq![]) {
            Ok(((ks, vs), s2)) => lemma_after_operand(toks, s, SpecExpression::Dict(ks, vs), s2),
            Err(_) => {},
        }
    }
}

proof fn lemma_after_operand(
    toks: Seq<SpecToken>,
    s0: ParseState,
    e: SpecExpression,
    s: ParseState,
)
    ensures
        after_operand(toks, s0, e, s) is Ok ==> same_scope(
            s,
            after_operand(toks, s0, e, s)->Ok_0.1,
        ),
    decreases toks.len() + 2 - s0.top, 0int,
{
    let s1 = adv(s);
    if remaining(toks, s1) != 0 && token_op(toks[s1.top]) is Some && !s1.in_operation
        && moved_on(toks, s0, s1) {
        lemma_binary(toks, e, s1);
    }
}

proof fn lemma_binary(toks: Seq<SpecToken>, left: SpecExpression, s: ParseState)
    ensures
        binary(toks, left, s) is Ok ==> same_scope(
            with_in_operation(s, false),
            binary(toks, left, s)->Ok_0.1,
        ),
    decreases toks.len() + 2 - s.top, 0int,
{
    match current(toks, s) {
        Ok(t) => match token_op(t) {
            Some(op) => {
                let s1 = with_in_operation(adv(s), true);
                lemma_expression(toks, s1);
                match expression(toks, s1) {
                    Ok((right, s2)) => if moved_on(toks, s, s2) {
                        lemma_operators(toks, seq![left, right], seq![op], s2);
                    },
                    Err(_) => {},
                }
            },
            None => {},
        },
        Err(_) => {},
    }
}

proof fn lemma_operators(
    toks: Seq<SpecToken>,
    es: Seq<SpecExpression>,
    ops: Seq<Op>,
    s: ParseState,
)
    ensures
        operators(toks, es, ops, s) is Ok ==> same_scope(s, operators(toks, es, ops, s)->Ok_0.1),
    decreases toks.len() + 2 - s.top, 0int,
{
    match current(toks, s) {
        Ok(t) => match token_op(t) {
            Some(op) => {
                let s1 = adv(s);
                let folds = op_prec(op) <= op_prec(ops.last());
                if !(folds && remaining(toks, s1) == 0) {
                    lemma_expression(toks, s1);
                    match expression(toks, s1) {
                        Ok((e, s2)) => if moved_on(toks, s, s2) {
                            if folds {
                                lemma_operators(
                                    toks,
                                    fold_top(es, ops).push(e),
                                    ops.drop_last().push(op),
                                    s2,
                                );
                            } else {
                                lemma_operators(toks, es.push(e), ops.push(op), s2);
                            }
                        },
                        Err(_) => {},
                    }
                }
            },
            None => {},
        },
        Err(_) => {},
    }
}

proof fn lemma_arguments(toks: Seq<SpecToken>, s: ParseState, acc: Seq<SpecExpression>)
    ensures
        arguments(toks, s, acc) is Ok ==> same_scope(s, arguments(toks, s, acc)->Ok_0.1),
    decreases toks.len() + 2 - s.top, 3int,
{
    match current(toks, s) {
        Ok(Token::RParen) => {},
        Ok(_) => {
            lemma_expression(toks, s);
            match expression(toks, s) {
                Ok((a, s1)) => if moved_on(toks, s, s1) {
                    if current(toks, s1) == Ok::<SpecToken, crate::alum::grammar::ParseError>(
                        Token::Comma,
                    ) {
                        lemma_arguments(toks, adv(s1), acc.push(a));
                    }
                },
                Err(_) => {},
            }
        },
        Err(_) => {},
    }
}

proof fn lemma_entries(
    toks: Seq<SpecToken>,
    s: ParseState,
    keys: Seq<SpecExpression>,
    vals: Seq<SpecExpression>,
)
    ensures
        entries(toks, s, keys, vals) is Ok ==> same_scope(
            s,
            entries(toks, s, keys, vals)->Ok_0.1,
        ),
    decreases toks.len() + 2 - s.top, 3int,
{
    match current(toks, s) {
        Ok(Token::RCurly) => {},
        Ok(_) => {
            lemma_expression(toks, s);
            match expression(toks, s) {
                Ok((k, s1)) => if moved_on(toks, s, s1) {
                    if current(toks, s1) == Ok::<SpecToken, crate::alum::grammar::ParseError>(
                        Token::Colon,
                    ) {
                        lemma_expression(toks, adv(s1));
                        match expression(toks, adv(s1)) {
                            Ok((v, s2)) => if moved_on(toks, s, s2) {
                                if current(toks, s2) == Ok::<
                                    SpecToken,
                                    crate::alum::grammar::ParseError,
                                >(Token::Comma) {
                                    lemma_entries(toks, adv(s2), keys.push(k), vals.push(v));
                                }
                            },
                            Err(_) => {},
                        }
                    }
                },
                Err(_) => {},
            }
        },
        Err(_) => {},
    }
}

/// An expression leaves the bindings, the depths and the operation flag as
/// it found them: it binds nothing, and an operation inside it ends with the
/// flag as it was.
pub proof fn law_expression_keeps_scope(toks: Seq<SpecToken>, s: ParseState)
    requires
        expression(toks, s) is Ok,
    ensures
        same_scope(s, expression(toks, s)->Ok_0.1),
{
    lemma_expression(toks, s);
}

proof fn lemma_params(toks: Seq<SpecToken>, s: ParseState, acc: Seq<Seq<char>>)
    ensures
        params(toks, s, acc) is Ok ==> grown_scope(s, params(toks, s, acc)->Ok_0.1),
    decreases toks.len() + 2 - s.top,
{
    match current(toks, s) {
        Ok(Token::RParen) => {},
        Ok(_) => match current_name(toks, s) {
            Ok(name) => {
                let s1 = adv(
                    with_table(
                        s,
                        s.table.insert(
                            name,
                            crate::alum::ast::local_binding(name, s.depth, s.function_depth),
                        ),
                    ),
                );
                if current(toks, s1) == Ok::<SpecToken, crate::alum::grammar::ParseError>(
                    Token::Comma,
                ) {
                    lemma_params(toks, adv(s1), acc.push(name));
                }
            },
            Err(_) => {},
        },
        Err(_) => {},
    }
}

proof fn lemma_statement(toks: Seq<SpecToken>, s: ParseState)
    ensures
        statement(toks, s) is Ok ==> grown_scope(s, statement(toks, s)->Ok_0.1),
    decreases toks.len() + 2 - s.top, 4int,
{
    match current(toks, s) {
        Ok(Token::Global) => lemma_global(toks, s),
        Ok(Token::Let) => lemma_let(toks, s),
        Ok(Token::Fun) => lemma_fun(toks, s),
        Ok(Token::Return) => lemma_return(toks, s),
        Ok(Token::Semicolon) => {},
        Ok(_) => lemma_expression(toks, s),
        Err(_) => {},
    }
}

proof fn lemma_global(toks: Seq<SpecToken>, s: ParseState)
    ensures
        global_statement(toks, s) is Ok ==> grown_scope(s, global_statement(toks, s)->Ok_0.1),
    decreases toks.len() + 2 - s.top, 3int,
{
    if s.top < toks.len() {
        let s2 = adv(adv(s));
        if current(toks, s2) == Ok::<SpecToken, crate::alum::grammar::ParseError>(Token::Assign) {
            lemma_expression(toks, adv(s2));
        }
    }
}

proof fn lemma_let(toks: Seq<SpecToken>, s: ParseState)
    ensures
        let_statement(toks, s) is Ok ==> grown_scope(s, let_statement(toks, s)->Ok_0.1),
    decreases toks.len() + 2 - s.top, 3int,
{
    if s.top < toks.len() {
        let s2 = adv(adv(s));
        if current(toks, s2) == Ok::<SpecToken, crate::alum::grammar::ParseError>(Token::Assign) {
            lemma_expression(toks, adv(s2));
        }
    }
}

proof fn lemma_fun(toks: Seq<SpecToken>, s: ParseState)
    ensures
        fun_statement(toks, s) is Ok ==> grown_scope(s, fun_statement(toks, s)->Ok_0.1),
    decreases toks.len() + 2 - s.top, 3int,
{
    if s.top < toks.len() {
        let s1 = adv(s);
        match current_name(toks, s1) {
            Ok(name) => {
                let b = crate::alum::ast::local_binding(name, s1.depth, s1.function_depth);
                let s2 = adv(with_table(s1, s1.table.insert(name, b)));
                if current(toks, s2) == Ok::<SpecToken, crate::alum::grammar::ParseError>(
                    Token::LParen,
                ) {
                    let s3 = with_depths_moved(adv(s2), 1);
                    lemma_params(toks, s3, seq![]);
                    match params(toks, s3, seq![]) {
                        Ok((ps, s4)) => if moved_on(toks, s, s4) {
                            lemma_body(toks, adv(s4));
                        },
                        Err(_) => {},
                    }
                }
            },
            Err(_) => {},
        }
    }
}

proof fn lemma_return(toks: Seq<SpecToken>, s: ParseState)
    ensures
        return_statement(toks, s) is Ok ==> grown_scope(s, return_statement(toks, s)->Ok_0.1),
    decreases toks.len() + 2 - s.top, 3int,
{
    if s.top < toks.len() {
        lemma_expression(toks, adv(s));
    }
}

proof fn lemma_body(toks: Seq<SpecToken>, s: ParseState)
    ensures
        body(toks, s) is Ok ==> grown_scope(s, body(toks, s)->Ok_0.1),
    decreases toks.len() + 2 - s.top, 6int,
{
    if current(toks, s) == Ok::<SpecToken, crate::alum::grammar::ParseError>(Token::LCurly) {
        lemma_statements(toks, adv(s), seq![]);
    }
}

proof fn lemma_statements(
    toks: Seq<SpecToken>,
    s: ParseState,
    acc: Seq<crate::alum::ast::SpecStatement>,
)
    ensures
        statements(toks, s, acc) is Ok ==> grown_scope(s, statements(toks, s, acc)->Ok_0.1),
    decreases toks.len() + 2 - s.top, 5int,
{
    match current(toks, s) {
        Ok(Token::RCurly) => {},
        Ok(_) => {
            lemma_statement(toks, s);
            match statement(toks, s) {
                Ok((st, s1)) => if moved_on(toks, s, s1) {
                    lemma_statements(toks, s1, crate::alum::grammar::push_opt(acc, st));
                },
                Err(_) => {},
            }
        },
        Err(_) => {},
    }
}

/// A body leaves the depths and the operation flag as it found them, and
/// drops no binding.
pub proof fn law_body_keeps_scope(toks: Seq<SpecToken>, s: ParseState)
    requires
        body(toks, s) is Ok,
    ensures
        grown_scope(s, body(toks, s)->Ok_0.1),
{
    lemma_body(toks, s);
}

/// A statement leaves the depths and the operation flag as it found them,
/// and drops no binding: a function's body sits one depth deeper, and the
/// depth comes back once the body ends.
pub proof fn law_statement_keeps_scope(toks: Seq<SpecToken>, s: ParseState)
    requires
        statement(toks, s) is Ok,
    ensures
        grown_scope(s, statement(toks, s)->Ok_0.1),
{
    lemma_statement(toks, s);
}

} // verus!
