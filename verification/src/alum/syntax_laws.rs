use crate::alum::ast::{SpecBinding, SpecExpression, SpecStatement};
use crate::alum::grammar::{
    adv, after_operand, arguments, binary, expression, fun_statement, global_statement,
    let_statement, operators, reduce, statement, with_in_operation, with_table, ParseState,
};
use crate::alum::number::is_float_literal;
use crate::alum::scope::law_expression_keeps_scope;
use crate::alum::token::{token_op, Op, SpecToken, Token};
use vstd::prelude::*;

verus! {

/// Once `global name = expression` parses, the name is bound as a global:
/// no depth, function depth 0, whatever the depths of the parser.
pub proof fn law_global_binds_global(toks: Seq<SpecToken>, s: ParseState, name: Seq<char>)
    requires
        0 <= s.top,
        s.top + 1 < toks.len(),
        toks[s.top] == Token::<Seq<char>>::Global,
        toks[s.top + 1] == Token::<Seq<char>>::Ident(name),
        statement(toks, s) is Ok,
    ensures
        statement(toks, s)->Ok_0.1.table.contains_key(name),
        statement(toks, s)->Ok_0.1.table[name] == (SpecBinding {
            name: name,
            depth: None,
            function_depth: 0,
        }),
        statement(toks, s)->Ok_0.0 matches Some(SpecStatement::Global(n, _)) && n == name,
{
    assert(statement(toks, s) == global_statement(toks, s));
}

/// Once `let name = expression` parses, the name is bound as a local at the
/// depths at which the statement began.
pub proof fn law_let_binds_local(toks: Seq<SpecToken>, s: ParseState, name: Seq<char>)
    requires
        0 <= s.top,
        s.top + 1 < toks.len(),
        toks[s.top] == Token::<Seq<char>>::Let,
        toks[s.top + 1] == Token::<Seq<char>>::Ident(name),
        statement(toks, s) is Ok,
    ensures
        statement(toks, s)->Ok_0.1.table.contains_key(name),
        statement(toks, s)->Ok_0.1.table[name] == (SpecBinding {
            name: name,
            depth: Some(s.depth),
            function_depth: s.function_depth,
        }),
{
    assert(statement(toks, s) == let_statement(toks, s));
    let s3 = adv(adv(adv(s)));
    law_expression_keeps_scope(toks, s3);
}

/// The name of a function is bound, to the local at the depths where the
/// function stands, before its parameters and body are parsed: binding it
/// so beforehand changes nothing, so a use of the name in the body resolves.
pub proof fn law_fun_name_bound_in_body(toks: Seq<SpecToken>, s: ParseState, name: Seq<char>)
    requires
        0 <= s.top,
        s.top + 1 < toks.len(),
        toks[s.top] == Token::<Seq<char>>::Fun,
        toks[s.top + 1] == Token::<Seq<char>>::Ident(name),
    ensures
        statement(toks, s) == statement(
            toks,
            with_table(
                s,
                s.table.insert(
                    name,
                    SpecBinding { name: name, depth: Some(s.depth), function_depth: s.function_depth },
                ),
            ),
        ),
{
    let b = SpecBinding { name: name, depth: Some(s.depth), function_depth: s.function_depth };
    let t = with_table(s, s.table.insert(name, b));
    assert(statement(toks, s) == fun_statement(toks, s));
    assert(statement(toks, t) == fun_statement(toks, t));
    let s1 = adv(s);
    let t1 = adv(t);
    assert(s1.table.insert(name, b) =~= t1.table.insert(name, b));
    assert(adv(with_table(s1, s1.table.insert(name, b))) == adv(
        with_table(t1, t1.table.insert(name, b)),
    ));
}

/// The number operands `ns` as expressions.
pub open spec fn numbers(ns: Seq<Seq<char>>) -> Seq<SpecExpression> {
    ns.map_values(|n: Seq<char>| SpecExpression::Number(n))
}

/// The arguments of a call keep their order: for `n1, ..., nk )` with
/// numbers `ni`, the arguments come after those already parsed, in source
/// order, and the parser stops at `)`.
pub proof fn law_call_arguments_in_order(
    toks: Seq<SpecToken>,
    s: ParseState,
    ns: Seq<Seq<char>>,
    acc: Seq<SpecExpression>,
)
    requires
        ns.len() > 0,
        0 <= s.top,
        s.top + 2 * ns.len() <= toks.len(),
        forall|i: int|
            0 <= i < ns.len() ==> toks[s.top + 2 * i] == Token::<Seq<char>>::Number(#[trigger] ns[i])
                && is_float_literal(ns[i]),
        forall|i: int|
            0 <= i < ns.len() - 1 ==> #[trigger] toks[s.top + 2 * i + 1]
                == Token::<Seq<char>>::Comma,
        toks[s.top + 2 * ns.len() - 1] == Token::<Seq<char>>::RParen,
    ensures
        arguments(toks, s, acc) == Ok::<(Seq<SpecExpression>, ParseState), crate::alum::grammar::ParseError>(
            (acc + numbers(ns), ParseState { top: s.top + 2 * ns.len() - 1, ..s }),
        ),
    decreases ns.len(),
{
    let n0 = ns[0];
    assert(toks[s.top] == Token::<Seq<char>>::Number(n0));
    let s1 = adv(s);
    let sep = toks[s.top + 1];
    if ns.len() > 1 {
        assert(sep == Token::<Seq<char>>::Comma);
    }
    assert(token_op(sep) is None);
    assert(after_operand(toks, s, SpecExpression::Number(n0), s) == Ok::<
        (SpecExpression, ParseState),
        crate::alum::grammar::ParseError,
    >((SpecExpression::Number(n0), s1)));
    assert(expression(toks, s) == Ok::<
        (SpecExpression, ParseState),
        crate::alum::grammar::ParseError,
    >((SpecExpression::Number(n0), s1)));
    let acc1 = acc.push(SpecExpression::Number(n0));
    if ns.len() == 1 {
        assert(numbers(ns) =~= seq![SpecExpression::Number(n0)]);
        assert(acc + numbers(ns) =~= acc1);
    } else {
        let rest = ns.drop_first();
        let s2 = adv(s1);
        assert forall|i: int| 0 <= i < rest.len() implies toks[s2.top + 2 * i]
            == Token::<Seq<char>>::Number(#[trigger] rest[i]) && is_float_literal(rest[i]) by {
            assert(rest[i] == ns[i + 1]);
            assert(s2.top + 2 * i == s.top + 2 * (i + 1));
        }
        assert forall|i: int| 0 <= i < rest.len() - 1 implies #[trigger] toks[s2.top + 2 * i + 1]
            == Token::<Seq<char>>::Comma by {
            assert(s2.top + 2 * i + 1 == s.top + 2 * (i + 1) + 1);
        }
        law_call_arguments_in_order(toks, s2, rest, acc1);
        assert(acc1 + numbers(rest) =~= acc + numbers(ns));
    }
}

/// Whether two operators bind alike: both additive, or both multiplicative.
pub open spec fn bind_alike(o1: Op, o2: Op) -> bool {
    ||| (o1 == Op::Add || o1 == Op::Sub) && (o2 == Op::Add || o2 == Op::Sub)
    ||| (o1 == Op::Mul || o1 == Op::Div || o1 == Op::Rem) && (o2 == Op::Mul || o2 == Op::Div
        || o2 == Op::Rem)
    ||| o1 == Op::Index && o2 == Op::Index
}

/// Whether `o2` binds tighter than `o1`.
pub open spec fn binds_tighter(o2: Op, o1: Op) -> bool {
    ||| (o1 == Op::Add || o1 == Op::Sub) && o2 != Op::Add && o2 != Op::Sub
    ||| (o1 == Op::Mul || o1 == Op::Div || o1 == Op::Rem) && o2 == Op::Index
}

proof fn lemma_two_operations(
    toks: Seq<SpecToken>,
    s: ParseState,
    a: Seq<char>,
    b: Seq<char>,
    c: Seq<char>,
    o1: Op,
    o2: Op,
)
    requires
        0 <= s.top,
        s.top + 5 < toks.len(),
        toks[s.top] == Token::<Seq<char>>::Number(a),
        toks[s.top + 2] == Token::<Seq<char>>::Number(b),
        toks[s.top + 4] == Token::<Seq<char>>::Number(c),
        token_op(toks[s.top + 1]) == Some(o1),
        token_op(toks[s.top + 3]) == Some(o2),
        token_op(toks[s.top + 5]) is None,
        is_float_literal(a),
        is_float_literal(b),
        is_float_literal(c),
        !s.in_operation,
    ensures
        expression(toks, s) == Ok::<(SpecExpression, ParseState), crate::alum::grammar::ParseError>(
            (
                if crate::alum::token::op_prec(o2) <= crate::alum::token::op_prec(o1) {
                    SpecExpression::Binary(
                        Box::new(
                            SpecExpression::Binary(
                                Box::new(SpecExpression::Number(a)),
                                o1,
                                Box::new(SpecExpression::Number(b)),
                            ),
                        ),
                        o2,
                        Box::new(SpecExpression::Number(c)),
                    )
                } else {
                    SpecExpression::Binary(
                        Box::new(SpecExpression::Number(a)),
                        o1,
                        Box::new(
                            SpecExpression::Binary(
                                Box::new(SpecExpression::Number(b)),
                                o2,
                                Box::new(SpecExpression::Number(c)),
                            ),
                        ),
                    )
                },
                ParseState { top: s.top + 5, ..s },
            ),
        ),
{
    let na = SpecExpression::Number(a);
    let nb = SpecExpression::Number(b);
    let nc = SpecExpression::Number(c);
    let p1 = adv(s);
    // The operand `b`, inside the operation.
    let q2 = with_in_operation(adv(p1), true);
    let q3 = adv(q2);
    assert(after_operand(toks, q2, nb, q2) == Ok::<(SpecExpression, ParseState), crate::alum::grammar::ParseError>((nb, q3)));
    assert(expression(toks, q2) == Ok::<(SpecExpression, ParseState), crate::alum::grammar::ParseError>((nb, q3)));
    // The operand `c`.
    let q4 = adv(q3);
    let q5 = adv(q4);
    assert(after_operand(toks, q4, nc, q4) == Ok::<(SpecExpression, ParseState), crate::alum::grammar::ParseError>((nc, q5)));
    assert(expression(toks, q4) == Ok::<(SpecExpression, ParseState), crate::alum::grammar::ParseError>((nc, q5)));
    let folds = crate::alum::token::op_prec(o2) <= crate::alum::token::op_prec(o1);
    let es0 = seq![na, nb];
    let ops0 = seq![o1];
    let (es1, ops1) = if folds {
        (crate::alum::grammar::fold_top(es0, ops0).push(nc), ops0.drop_last().push(o2))
    } else {
        (es0.push(nc), ops0.push(o2))
    };
    assert(operators(toks, es1, ops1, q5) == Ok::<
        ((Seq<SpecExpression>, Seq<Op>), ParseState),
        crate::alum::grammar::ParseError,
    >(((es1, ops1), q5)));
    assert(operators(toks, es0, ops0, q3) == Ok::<
        ((Seq<SpecExpression>, Seq<Op>), ParseState),
        crate::alum::grammar::ParseError,
    >(((es1, ops1), q5)));
    assert(binary(toks, na, p1) == Ok::<(SpecExpression, ParseState), crate::alum::grammar::ParseError>((reduce(es1, ops1), with_in_operation(q5, false))));
    if folds {
        let f = crate::alum::grammar::fold_top(es1, ops1);
        assert(reduce(f, ops1.drop_last()) == f.last());
    } else {
        let f = crate::alum::grammar::fold_top(es1, ops1);
        let g = crate::alum::grammar::fold_top(f, ops1.drop_last());
        assert(reduce(g, ops1.drop_last().drop_last()) == g.last());
        assert(reduce(f, ops1.drop_last()) == reduce(g, ops1.drop_last().drop_last()));
    }
    assert(with_in_operation(q5, false) == ParseState { top: s.top + 5, ..s });
    assert(after_operand(toks, s, na, s) == binary(toks, na, p1));
}

/// Operators that bind alike group to the left: `a o1 b o2 c` is
/// `(a o1 b) o2 c`.
pub proof fn law_alike_operators_group_left(
    toks: Seq<SpecToken>,
    s: ParseState,
    a: Seq<char>,
    b: Seq<char>,
    c: Seq<char>,
    o1: Op,
    o2: Op,
)
    requires
        0 <= s.top,
        s.top + 5 < toks.len(),
        toks[s.top] == Token::<Seq<char>>::Number(a),
        toks[s.top + 2] == Token::<Seq<char>>::Number(b),
        toks[s.top + 4] == Token::<Seq<char>>::Number(c),
        token_op(toks[s.top + 1]) == Some(o1),
        token_op(toks[s.top + 3]) == Some(o2),
        token_op(toks[s.top + 5]) is None,
        is_float_literal(a),
        is_float_literal(b),
        is_float_literal(c),
        !s.in_operation,
        bind_alike(o1, o2),
    ensures
        expression(toks, s) is Ok,
        expression(toks, s)->Ok_0.0 == SpecExpression::Binary(
            Box::new(
                SpecExpression::Binary(
                    Box::new(SpecExpression::Number(a)),
                    o1,
                    Box::new(SpecExpression::Number(b)),
                ),
            ),
            o2,
            Box::new(SpecExpression::Number(c)),
        ),
{
    lemma_two_operations(toks, s, a, b, c, o1, o2);
}

/// An operator that binds tighter than the one before it groups to the
/// right: `a o1 b o2 c` is `a o1 (b o2 c)`.
pub proof fn law_tighter_operator_groups_right(
    toks: Seq<SpecToken>,
    s: ParseState,
    a: Seq<char>,
    b: Seq<char>,
    c: Seq<char>,
    o1: Op,
    o2: Op,
)
    requires
        0 <= s.top,
        s.top + 5 < toks.len(),
        toks[s.top] == Token::<Seq<char>>::Number(a),
        toks[s.top + 2] == Token::<Seq<char>>::Number(b),
        toks[s.top + 4] == Token::<Seq<char>>::Number(c),
        token_op(toks[s.top + 1]) == Some(o1),
        token_op(toks[s.top + 3]) == Some(o2),
        token_op(toks[s.top + 5]) is None,
        is_float_literal(a),
        is_float_literal(b),
        is_float_literal(c),
        !s.in_operation,
        binds_tighter(o2, o1),
    ensures
        expression(toks, s) is Ok,
        expression(toks, s)->Ok_0.0 == SpecExpression::Binary(
            Box::new(SpecExpression::Number(a)),
            o1,
            Box::new(
                SpecExpression::Binary(
                    Box::new(SpecExpression::Number(b)),
                    o2,
                    Box::new(SpecExpression::Number(c)),
                ),
            ),
        ),
{
    lemma_two_operations(toks, s, a, b, c, o1, o2);
}

} // verus!
