use crate::alum::ast::{
    clone_statements, exprs_view, lemma_exprs_view, lemma_exprs_view_push,
    lemma_stmts_view_push, names_view, stmts_view, Binding, Expression, SpecExpression,
    SpecStatement, Statement,
};
use crate::alum::grammar::{
    adv, after_operand, arguments, binary, body, current, current_name, dict, entries,
    expression, fold_top, fun_statement, global_statement, group, initial_state, let_statement,
    moved_on, operators, params, program, reduce, remaining, return_statement, statement,
    starts_expression, statements, variable, ParseError, ParseState,
};
use crate::alum::number::is_float_text;
use crate::alum::scope::{
    grown_scope, law_body_keeps_scope, law_expression_keeps_scope, law_statement_keeps_scope,
    same_scope,
};
use crate::alum::symbols::SymbolTable;
use crate::alum::token::{
    kind_of, lemma_token_view, token_op, tokens_view, Op, SpecToken, Token, TokenKind,
};
use vstd::prelude::*;

verus! {

/// Whether `r` is what the specification `spec` says, with `after` the state
/// that it leaves.
pub open spec fn expr_outcome(
    spec: Result<(SpecExpression, ParseState), ParseError>,
    r: Result<Expression, ParseError>,
    after: ParseState,
) -> bool {
    match spec {
        Ok((v, s2)) => r is Ok && r->Ok_0@ == v && after == s2,
        Err(e) => r == Err::<Expression, ParseError>(e),
    }
}

/// Whether `r` is anything but a stall.
pub open spec fn not_stalled<T>(r: Result<T, ParseError>) -> bool {
    r is Err ==> r->Err_0 != ParseError::Stalled
}

/// The view of a statement that may be missing.
pub open spec fn opt_stmt_view(o: Option<Statement>) -> Option<SpecStatement> {
    match o {
        Some(st) => Some(st@),
        None => None,
    }
}

/// Whether `r` is what the specification `spec` of a statement says, with
/// `after` the state that it leaves.
pub open spec fn stmt_outcome(
    spec: Result<(Option<SpecStatement>, ParseState), ParseError>,
    r: Result<Option<Statement>, ParseError>,
    after: ParseState,
) -> bool {
    match spec {
        Ok((v, s2)) => r is Ok && opt_stmt_view(r->Ok_0) == v && after == s2,
        Err(e) => r == Err::<Option<Statement>, ParseError>(e),
    }
}

/// A parser for the language: it turns tokens into statements.
pub struct Parser {
    tokens: Vec<Token<String>>,
    ast: Vec<Statement>,
    top: usize,
    depth_table: SymbolTable,
    depth: usize,
    function_depth: usize,
    in_operation: bool,
}

impl Parser {
    /// The tokens, as the specifications see them.
    pub closed spec fn toks(&self) -> Seq<SpecToken> {
        tokens_view(self.tokens@)
    }

    /// The state of the parser.
    pub closed spec fn state(&self) -> ParseState {
        ParseState {
            top: self.top as int,
            table: self.depth_table@,
            depth: self.depth as int,
            function_depth: self.function_depth as int,
            in_operation: self.in_operation,
        }
    }

    /// The invariant of a parser.
    pub closed spec fn wf(&self) -> bool {
        &&& self.depth_table.wf()
        &&& self.tokens@.len() + 3 <= usize::MAX
        &&& self.top <= self.tokens@.len() + 1
        &&& self.depth <= self.top
        &&& self.function_depth <= self.top
    }

    /// The statements parsed so far.
    pub closed spec fn ast(&self) -> Seq<SpecStatement> {
        stmts_view(self.ast@)
    }

    /// Whether `self` has the tokens and statements of `other`.
    pub closed spec fn same_input(&self, other: &Self) -> bool {
        self.tokens@ == other.tokens@ && self.ast@ == other.ast@
    }

    /// A parser for `tokens`, at the first token, with nothing bound and
    /// nothing parsed yet.
    pub fn new(tokens: Vec<Token<String>>) -> (p: Self)
        requires
            tokens@.len() + 3 <= usize::MAX,
        ensures
            p.wf(),
            p.toks() == tokens_view(tokens@),
            p.state() == initial_state(),
            p.ast() == Seq::<SpecStatement>::empty(),
    {
        let p = Parser {
            tokens,
            ast: Vec::new(),
            top: 0,
            depth_table: SymbolTable::new(),
            depth: 0,
            function_depth: 0,
            in_operation: false,
        };
        assert(p.ast() =~= Seq::<SpecStatement>::empty());
        p
    }

    /// Parses the statements from the current token to the end of the
    /// tokens, adds them to the statements parsed before, and returns a copy
    /// of all of them; or says why the tokens do not parse.
    #[verifier::loop_isolation(false)]
    pub fn try_parse(&mut self) -> (r: Result<Vec<Statement>, ParseError>)
        requires
            old(self).wf(),
        ensures
            final(self).wf(),
            final(self).toks() == old(self).toks(),
            match program(old(self).toks(), old(self).state(), old(self).ast()) {
                Ok((all, s2)) => r is Ok && stmts_view(r->Ok_0@) == all && final(self).ast() == all
                    && final(self).state() == s2,
                Err(e) => r == Err::<Vec<Statement>, ParseError>(e),
            },
            not_stalled(r),
    {
        let ghost s = self.state();
        let ghost toks = self.toks();
        let ghost ast0 = self.ast();
        while self.remaining() > 0
            invariant
                self.wf(),
                self.tokens@ == old(self).tokens@,
                program(toks, s, ast0) == program(toks, self.state(), self.ast()),
            decreases self.tokens@.len() + 2 - self.top,
        {
            let st = match self.parse_statement() {
                Ok(st) => st,
                Err(e) => return Err(e),
            };
            match st {
                Some(st) => {
                    proof {
                        lemma_stmts_view_push(self.ast@, st);
                    }
                    self.ast.push(st);
                },
                None => {},
            }
        }
        Ok(clone_statements(&self.ast))
    }

    /// Parses the statements from the current token to the end of the
    /// tokens, adds them to the statements parsed before, and returns a copy
    /// of all of them. The tokens must parse: `try_parse` says why they do
    /// not.
    pub fn parse(&mut self) -> (r: Vec<Statement>)
        requires
            old(self).wf(),
            program(old(self).toks(), old(self).state(), old(self).ast()) is Ok,
        ensures
            final(self).wf(),
            final(self).toks() == old(self).toks(),
            stmts_view(r@) == program(old(self).toks(), old(self).state(), old(self).ast())->Ok_0.0,
            final(self).ast() == program(old(self).toks(), old(self).state(), old(self).ast())->Ok_0.0,
            final(self).state() == program(old(self).toks(), old(self).state(), old(self).ast())->Ok_0.1,
    {
        match self.try_parse() {
            Ok(all) => all,
            Err(_) => {
                proof {
                    assert(false);
                }
                Vec::new()
            },
        }
    }

    fn next(&mut self)
        requires
            old(self).wf(),
            old(self).top <= old(self).tokens@.len(),
        ensures
            final(self).wf(),
            final(self).same_input(old(self)),
            final(self).depth == old(self).depth,
            final(self).function_depth == old(self).function_depth,
            final(self).state() == adv(old(self).state()),
    {
        self.top = self.top + 1;
    }

    fn remaining(&self) -> (r: usize)
        requires
            self.wf(),
        ensures
            r == remaining(self.toks(), self.state()),
    {
        if self.top > self.tokens.len() {
            return 0;
        }
        self.tokens.len() - self.top
    }

    fn current_kind(&self) -> (r: Result<TokenKind, ParseError>)
        ensures
            match current(self.toks(), self.state()) {
                Ok(t) => r == Ok::<TokenKind, ParseError>(kind_of(t)),
                Err(e) => r == Err::<TokenKind, ParseError>(e),
            },
    {
        if self.top < self.tokens.len() {
            proof {
                lemma_token_view(self.tokens@[self.top as int]);
            }
            Ok(self.tokens[self.top].kind())
        } else {
            Err(ParseError::UnexpectedEnd)
        }
    }

    fn current_op(&self) -> (r: Result<Option<Op>, ParseError>)
        ensures
            match current(self.toks(), self.state()) {
                Ok(t) => r == Ok::<Option<Op>, ParseError>(token_op(t)),
                Err(e) => r == Err::<Option<Op>, ParseError>(e),
            },
    {
        if self.top < self.tokens.len() {
            proof {
                lemma_token_view(self.tokens@[self.top as int]);
            }
            Ok(self.tokens[self.top].to_op())
        } else {
            Err(ParseError::UnexpectedEnd)
        }
    }

    fn current_slice(&self) -> (r: Result<String, ParseError>)
        ensures
            match current_name(self.toks(), self.state()) {
                Ok(n) => r is Ok && r->Ok_0@ == n,
                Err(e) => r == Err::<String, ParseError>(e),
            },
    {
        if self.top < self.tokens.len() {
            match &self.tokens[self.top] {
                Token::Number(s) => Ok(s.clone()),
                Token::Ident(s) => Ok(s.clone()),
                _ => Err(ParseError::ExpectedName),
            }
        } else {
            Err(ParseError::UnexpectedEnd)
        }
    }

    /// Parses an expression from the current token.
    pub fn parse_expression(&mut self) -> (r: Result<Expression, ParseError>)
        requires
            old(self).wf(),
        ensures
            final(self).wf(),
            final(self).same_input(old(self)),
            final(self).state().depth == old(self).state().depth,
            final(self).state().function_depth == old(self).state().function_depth,
            expr_outcome(expression(old(self).toks(), old(self).state()), r, final(self).state()),
            r is Ok ==> moved_on(old(self).toks(), old(self).state(), final(self).state()),
            r is Ok ==> same_scope(old(self).state(), final(self).state()),
            current(old(self).toks(), old(self).state()) is Ok && !starts_expression(
                current(old(self).toks(), old(self).state())->Ok_0,
            ) ==> final(self).state().top == old(self).state().top + 1,
            not_stalled(r),
        decreases old(self).toks().len() + 2 - old(self).state().top, 2int,
    {
        proof {
            if expression(self.toks(), self.state()) is Ok {
                law_expression_keeps_scope(self.toks(), self.state());
            }
        }
        let ghost s = self.state();
        let kind = match self.current_kind() {
            Ok(k) => k,
            Err(e) => return Err(e),
        };
        match kind {
            TokenKind::Number => {
                let text = match self.current_slice() {
                    Ok(n) => n,
                    Err(e) => return Err(e),
                };
                if !is_float_text(text.as_str()) {
                    return Err(ParseError::InvalidNumber);
                }
                self.finish_operand(Expression::Number(text), Ghost(s))
            },
            TokenKind::Ident => {
                let name = match self.current_slice() {
                    Ok(n) => n,
                    Err(e) => return Err(e),
                };
                self.parse_variable(name)
            },
            TokenKind::LParen => self.parse_group(),
            TokenKind::LCurly => self.parse_dict(),
            _ => {
                self.next();
                Err(ParseError::ExpectedExpression)
            },
        }
    }

    fn parse_variable(&mut self, name: String) -> (r: Result<Expression, ParseError>)
        requires
            old(self).wf(),
            old(self).top < old(self).tokens@.len(),
        ensures
            final(self).wf(),
            final(self).same_input(old(self)),
            final(self).depth == old(self).depth,
            final(self).function_depth == old(self).function_depth,
            expr_outcome(variable(old(self).toks(), old(self).state(), name@), r, final(self).state()),
            r is Ok ==> moved_on(old(self).toks(), old(self).state(), final(self).state()),
            not_stalled(r),
        decreases old(self).tokens@.len() + 2 - old(self).top, 1int,
    {
        let ghost s = self.state();
        let mut binding = match self.depth_table.get(&name) {
            Some(b) => b.clone(),
            None => return Err(ParseError::UnknownVariable),
        };
        if binding.depth.is_some() {
            binding.depth = Some(self.depth);
        }
        let var = Expression::Var(name, binding);
        self.next();
        match self.current_kind() {
            Err(e) => Err(e),
            Ok(TokenKind::LParen) => {
                self.next();
                let args = match self.parse_arguments() {
                    Ok(args) => args,
                    Err(e) => return Err(e),
                };
                self.next();
                self.finish_operand(Expression::Call(Box::new(var), args), Ghost(s))
            },
            Ok(_) => self.finish_operand(var, Ghost(s)),
        }
    }

    fn parse_group(&mut self) -> (r: Result<Expression, ParseError>)
        requires
            old(self).wf(),
            old(self).top < old(self).tokens@.len(),
        ensures
            final(self).wf(),
            final(self).same_input(old(self)),
            final(self).depth == old(self).depth,
            final(self).function_depth == old(self).function_depth,
            expr_outcome(group(old(self).toks(), old(self).state()), r, final(self).state()),
            r is Ok ==> moved_on(old(self).toks(), old(self).state(), final(self).state()),
            not_stalled(r),
        decreases old(self).tokens@.len() + 2 - old(self).top, 1int,
    {
        let ghost s = self.state();
        self.next();
        let flag = self.in_operation;
        self.in_operation = false;
        let e = match self.parse_expression() {
            Ok(e) => e,
            Err(err) => return Err(err),
        };
        self.in_operation = flag;
        match self.current_kind() {
            Err(err) => Err(err),
            Ok(TokenKind::RParen) => self.finish_operand(e, Ghost(s)),
            Ok(_) => Err(ParseError::ExpectedCloseParen),
        }
    }

    fn parse_dict(&mut self) -> (r: Result<Expression, ParseError>)
        requires
            old(self).wf(),
            old(self).top < old(self).tokens@.len(),
        ensures
            final(self).wf(),
            final(self).same_input(old(self)),
            final(self).depth == old(self).depth,
            final(self).function_depth == old(self).function_depth,
            expr_outcome(dict(old(self).toks(), old(self).state()), r, final(self).state()),
            r is Ok ==> moved_on(old(self).toks(), old(self).state(), final(self).state()),
            not_stalled(r),
        decreases old(self).tokens@.len() + 2 - old(self).top, 1int,
    {
        let ghost s = self.state();
        self.next();
        let (keys, vals) = match self.parse_entries() {
            Ok(kv) => kv,
            Err(e) => return Err(e),
        };
        self.finish_operand(Expression::Dict(keys, vals), Ghost(s))
    }

    #[verifier::loop_isolation(false)]
    fn parse_arguments(&mut self) -> (r: Result<Vec<Expression>, ParseError>)
        requires
            old(self).wf(),
        ensures
            final(self).wf(),
            final(self).same_input(old(self)),
            final(self).depth == old(self).depth,
            final(self).function_depth == old(self).function_depth,
            match arguments(old(self).toks(), old(self).state(), seq![]) {
                Ok((v, s2)) => r is Ok && exprs_view(r->Ok_0@) == v && final(self).state() == s2,
                Err(e) => r == Err::<Vec<Expression>, ParseError>(e),
            },
            r is Ok ==> old(self).top <= final(self).top < final(self).tokens@.len(),
            not_stalled(r),
        decreases old(self).tokens@.len() + 2 - old(self).top, 3int,
    {
        let ghost s = self.state();
        let ghost toks = self.toks();
        let mut args: Vec<Expression> = Vec::new();
        assert(exprs_view(args@) =~= Seq::<SpecExpression>::empty());
        loop
            invariant
                self.wf(),
                self.same_input(old(self)),
                self.depth == old(self).depth,
                self.function_depth == old(self).function_depth,
                s.top <= self.top <= self.tokens@.len() + 1,
                arguments(toks, s, seq![]) == arguments(toks, self.state(), exprs_view(args@)),
            decreases self.tokens@.len() + 2 - self.top,
        {
            match self.current_kind() {
                Err(e) => return Err(e),
                Ok(TokenKind::RParen) => break,
                Ok(_) => {},
            }
            let a = match self.parse_expression() {
                Ok(a) => a,
                Err(e) => return Err(e),
            };
            proof {
                lemma_exprs_view_push(args@, a);
            }
            args.push(a);
            match self.current_kind() {
                Err(e) => return Err(e),
                Ok(TokenKind::RParen) => break,
                Ok(TokenKind::Comma) => {},
                Ok(_) => return Err(ParseError::ExpectedArgComma),
            }
            self.next();
        }
        Ok(args)
    }

    #[verifier::loop_isolation(false)]
    fn parse_entries(&mut self) -> (r: Result<(Vec<Expression>, Vec<Expression>), ParseError>)
        requires
            old(self).wf(),
        ensures
            final(self).wf(),
            final(self).same_input(old(self)),
            final(self).depth == old(self).depth,
            final(self).function_depth == old(self).function_depth,
            match entries(old(self).toks(), old(self).state(), seq![], seq![]) {
                Ok(((ks, vs), s2)) => r is Ok && exprs_view(r->Ok_0.0@) == ks && exprs_view(
                    r->Ok_0.1@,
                ) == vs && final(self).state() == s2,
                Err(e) => r == Err::<(Vec<Expression>, Vec<Expression>), ParseError>(e),
            },
            r is Ok ==> old(self).top <= final(self).top < final(self).tokens@.len(),
            not_stalled(r),
        decreases old(self).tokens@.len() + 2 - old(self).top, 3int,
    {
        let ghost s = self.state();
        let ghost toks = self.toks();
        let mut keys: Vec<Expression> = Vec::new();
        let mut vals: Vec<Expression> = Vec::new();
        assert(exprs_view(keys@) =~= Seq::<SpecExpression>::empty());
        loop
            invariant
                self.wf(),
                self.same_input(old(self)),
                self.depth == old(self).depth,
                self.function_depth == old(self).function_depth,
                s.top <= self.top <= self.tokens@.len() + 1,
                entries(toks, s, seq![], seq![]) == entries(
                    toks,
                    self.state(),
                    exprs_view(keys@),
                    exprs_view(vals@),
                ),
            decreases self.tokens@.len() + 2 - self.top,
        {
            match self.current_kind() {
                Err(e) => return Err(e),
                Ok(TokenKind::RCurly) => break,
                Ok(_) => {},
            }
            let k = match self.parse_expression() {
                Ok(k) => k,
                Err(e) => return Err(e),
            };
            match self.current_kind() {
                Err(e) => return Err(e),
                Ok(TokenKind::Colon) => {},
                Ok(_) => return Err(ParseError::ExpectedColon),
            }
            self.next();
            let v = match self.parse_expression() {
                Ok(v) => v,
                Err(e) => return Err(e),
            };
            proof {
                lemma_exprs_view_push(keys@, k);
                lemma_exprs_view_push(vals@, v);
            }
            keys.push(k);
            vals.push(v);
            match self.current_kind() {
                Err(e) => return Err(e),
                Ok(TokenKind::RCurly) => break,
                Ok(TokenKind::Comma) => {},
                Ok(_) => return Err(ParseError::ExpectedEntryComma),
            }
            self.next();
        }
        Ok((keys, vals))
    }

    fn finish_operand(&mut self, e: Expression, Ghost(s0): Ghost<ParseState>) -> (r: Result<
        Expression,
        ParseError,
    >)
        requires
            old(self).wf(),
            s0.top <= old(self).top <= old(self).tokens@.len(),
        ensures
            final(self).wf(),
            final(self).same_input(old(self)),
            final(self).depth == old(self).depth,
            final(self).function_depth == old(self).function_depth,
            expr_outcome(after_operand(old(self).toks(), s0, e@, old(self).state()), r, final(self).state()),
            r is Ok ==> moved_on(old(self).toks(), s0, final(self).state()),
            not_stalled(r),
        decreases old(self).tokens@.len() + 2 - s0.top, 0int,
    {
        self.next();
        if self.remaining() == 0 {
            return Ok(e);
        }
        proof {
            lemma_token_view(self.tokens@[self.top as int]);
        }
        let op = self.tokens[self.top].to_op();
        if op.is_some() && !self.in_operation {
            self.parse_binary(e)
        } else {
            Ok(e)
        }
    }

    #[verifier::loop_isolation(false)]
    fn parse_binary(&mut self, left: Expression) -> (r: Result<Expression, ParseError>)
        requires
            old(self).wf(),
        ensures
            final(self).wf(),
            final(self).same_input(old(self)),
            final(self).depth == old(self).depth,
            final(self).function_depth == old(self).function_depth,
            expr_outcome(binary(old(self).toks(), left@, old(self).state()), r, final(self).state()),
            r is Ok ==> moved_on(old(self).toks(), old(self).state(), final(self).state()),
            not_stalled(r),
        decreases old(self).tokens@.len() + 2 - old(self).top, 0int,
    {
        let ghost s = self.state();
        let ghost toks = self.toks();
        let ghost left_v = left@;
        let op = match self.current_op() {
            Err(e) => return Err(e),
            Ok(None) => return Err(ParseError::ExpectedOperator),
            Ok(Some(op)) => op,
        };
        self.next();
        self.in_operation = true;
        let right = match self.parse_expression() {
            Ok(e) => e,
            Err(e) => return Err(e),
        };
        let ghost s2 = self.state();
        let ghost es0 = seq![left@, right@];
        let mut es: Vec<Expression> = Vec::new();
        es.push(left);
        es.push(right);
        let mut ops: Vec<Op> = Vec::new();
        ops.push(op);
        proof {
            lemma_exprs_view_push(Seq::empty(), es@[0]);
            assert(Seq::<Expression>::empty().push(es@[0]) =~= es@.drop_last());
            lemma_exprs_view_push(es@.drop_last(), es@[1]);
            assert(es@.drop_last().push(es@[1]) =~= es@);
            assert(exprs_view(Seq::<Expression>::empty()) =~= Seq::<SpecExpression>::empty());
            assert(exprs_view(es@) =~= es0);
        }
        loop
            invariant
                self.wf(),
                self.same_input(old(self)),
                self.depth == old(self).depth,
                self.function_depth == old(self).function_depth,
                s.top < self.top <= self.tokens@.len() + 1,
                es@.len() == ops@.len() + 1,
                ops@.len() >= 1,
                operators(toks, es0, seq![op], s2) == operators(
                    toks,
                    exprs_view(es@),
                    ops@,
                    self.state(),
                ),
            decreases self.tokens@.len() + 2 - self.top,
        {
            let ghost s_it = self.state();
            let ghost es_it = exprs_view(es@);
            let ghost ops_it = ops@;
            let next_op = match self.current_op() {
                Err(e) => return Err(e),
                Ok(None) => break,
                Ok(Some(o)) => o,
            };
            self.next();
            let folds = next_op.prec() <= ops[ops.len() - 1].prec();
            if folds {
                let ghost es_before = es@;
                let r = es.pop().unwrap();
                let l = es.pop().unwrap();
                let o = ops.pop().unwrap();
                let joined = Expression::Binary(Box::new(l), o, Box::new(r));
                proof {
                    lemma_exprs_view(es_before);
                    lemma_exprs_view_push(es@, joined);
                    assert(es_before.drop_last().drop_last() =~= es@);
                    assert(exprs_view(es_before).drop_last().drop_last() =~= exprs_view(es@)) by {
                        lemma_exprs_view(es@);
                    }
                }
                es.push(joined);
                proof {
                    assert(exprs_view(es@) =~= fold_top(es_it, ops_it));
                }
                if self.remaining() == 0 {
                    return Err(ParseError::EndInOperation);
                }
                let e = match self.parse_expression() {
                    Ok(e) => e,
                    Err(err) => return Err(err),
                };
                proof {
                    lemma_exprs_view_push(es@, e);
                }
                es.push(e);
                ops.push(next_op);
                proof {
                    assert(ops@ =~= ops_it.drop_last().push(next_op));
                }
            } else {
                let e = match self.parse_expression() {
                    Ok(e) => e,
                    Err(err) => return Err(err),
                };
                proof {
                    lemma_exprs_view_push(es@, e);
                }
                es.push(e);
                ops.push(next_op);
            }
        }
        let ghost es_end = exprs_view(es@);
        let ghost ops_end = ops@;
        while ops.len() > 0
            invariant
                es@.len() == ops@.len() + 1,
                reduce(es_end, ops_end) == reduce(exprs_view(es@), ops@),
            decreases ops@.len(),
        {
            let ghost es_before = es@;
            let ghost es_it = exprs_view(es@);
            let ghost ops_it = ops@;
            let r = es.pop().unwrap();
            let l = es.pop().unwrap();
            let o = ops.pop().unwrap();
            let joined = Expression::Binary(Box::new(l), o, Box::new(r));
            proof {
                lemma_exprs_view(es_before);
                lemma_exprs_view(es@);
                lemma_exprs_view_push(es@, joined);
                assert(es_before.drop_last().drop_last() =~= es@);
            }
            es.push(joined);
            proof {
                assert(exprs_view(es@) =~= fold_top(es_it, ops_it));
            }
        }
        self.in_operation = false;
        proof {
            lemma_exprs_view(es@);
        }
        let result = es.pop().unwrap();
        Ok(result)
    }
    /// Parses a statement from the current token: `None` for a lone `;`.
    pub fn parse_statement(&mut self) -> (r: Result<Option<Statement>, ParseError>)
        requires
            old(self).wf(),
        ensures
            final(self).wf(),
            final(self).same_input(old(self)),
            stmt_outcome(statement(old(self).toks(), old(self).state()), r, final(self).state()),
            r is Ok ==> moved_on(old(self).toks(), old(self).state(), final(self).state()),
            r is Ok ==> grown_scope(old(self).state(), final(self).state()),
            r is Ok ==> final(self).state().depth == old(self).state().depth && final(self).state().function_depth
                == old(self).state().function_depth,
            not_stalled(r),
        decreases old(self).toks().len() + 2 - old(self).state().top, 4int,
    {
        proof {
            if statement(self.toks(), self.state()) is Ok {
                law_statement_keeps_scope(self.toks(), self.state());
            }
        }
        let kind = match self.current_kind() {
            Ok(k) => k,
            Err(e) => return Err(e),
        };
        match kind {
            TokenKind::Global => self.parse_global(),
            TokenKind::Let => self.parse_let(),
            TokenKind::Fun => self.parse_fun(),
            TokenKind::Return => self.parse_return(),
            TokenKind::Semicolon => {
                self.next();
                Ok(None)
            },
            _ => match self.parse_expression() {
                Ok(e) => Ok(Some(Statement::Expression(e))),
                Err(e) => Err(e),
            },
        }
    }

    fn parse_global(&mut self) -> (r: Result<Option<Statement>, ParseError>)
        requires
            old(self).wf(),
            old(self).top < old(self).tokens@.len(),
        ensures
            final(self).wf(),
            final(self).same_input(old(self)),
            stmt_outcome(global_statement(old(self).toks(), old(self).state()), r, final(self).state()),
            r is Ok ==> moved_on(old(self).toks(), old(self).state(), final(self).state()),
            r is Ok ==> final(self).depth == old(self).depth && final(self).function_depth
                == old(self).function_depth,
            not_stalled(r),
        decreases old(self).tokens@.len() + 2 - old(self).top, 3int,
    {
        self.next();
        let name = match self.current_slice() {
            Ok(n) => n,
            Err(e) => return Err(e),
        };
        self.next();
        match self.current_kind() {
            Err(e) => return Err(e),
            Ok(TokenKind::Assign) => {},
            Ok(_) => return Err(ParseError::ExpectedAssign),
        }
        self.next();
        let right = match self.parse_expression() {
            Ok(e) => e,
            Err(e) => return Err(e),
        };
        self.depth_table.insert(name.clone(), Binding::global(name.clone()));
        Ok(Some(Statement::Global(name, right)))
    }

    fn parse_let(&mut self) -> (r: Result<Option<Statement>, ParseError>)
        requires
            old(self).wf(),
            old(self).top < old(self).tokens@.len(),
        ensures
            final(self).wf(),
            final(self).same_input(old(self)),
            stmt_outcome(let_statement(old(self).toks(), old(self).state()), r, final(self).state()),
            r is Ok ==> moved_on(old(self).toks(), old(self).state(), final(self).state()),
            r is Ok ==> final(self).depth == old(self).depth && final(self).function_depth
                == old(self).function_depth,
            not_stalled(r),
        decreases old(self).tokens@.len() + 2 - old(self).top, 3int,
    {
        self.next();
        let name = match self.current_slice() {
            Ok(n) => n,
            Err(e) => return Err(e),
        };
        self.next();
        match self.current_kind() {
            Err(e) => return Err(e),
            Ok(TokenKind::Assign) => {},
            Ok(_) => return Err(ParseError::ExpectedAssign),
        }
        self.next();
        let right = match self.parse_expression() {
            Ok(e) => e,
            Err(e) => return Err(e),
        };
        let binding = Binding::local(name.clone(), self.depth, self.function_depth);
        self.depth_table.insert(name.clone(), binding.clone());
        Ok(Some(Statement::Let(name, right, binding)))
    }

    #[verifier::loop_isolation(false)]
    fn parse_params(&mut self) -> (r: Result<Vec<String>, ParseError>)
        requires
            old(self).wf(),
        ensures
            final(self).wf(),
            final(self).same_input(old(self)),
            final(self).depth == old(self).depth,
            final(self).function_depth == old(self).function_depth,
            match params(old(self).toks(), old(self).state(), seq![]) {
                Ok((ps, s2)) => r is Ok && names_view(r->Ok_0@) == ps && final(self).state() == s2,
                Err(e) => r == Err::<Vec<String>, ParseError>(e),
            },
            r is Ok ==> old(self).top <= final(self).top < final(self).tokens@.len(),
            not_stalled(r),
    {
        let ghost s = self.state();
        let ghost toks = self.toks();
        let mut names: Vec<String> = Vec::new();
        assert(names_view(names@) =~= Seq::<Seq<char>>::empty());
        loop
            invariant
                self.wf(),
                self.same_input(old(self)),
                self.depth == old(self).depth,
                self.function_depth == old(self).function_depth,
                s.top <= self.top <= self.tokens@.len() + 1,
                params(toks, s, seq![]) == params(toks, self.state(), names_view(names@)),
            decreases self.tokens@.len() + 2 - self.top,
        {
            match self.current_kind() {
                Err(e) => return Err(e),
                Ok(TokenKind::RParen) => break,
                Ok(_) => {},
            }
            let name = match self.current_slice() {
                Ok(n) => n,
                Err(e) => return Err(e),
            };
            let ghost before = names@;
            names.push(name.clone());
            proof {
                assert(names_view(names@) =~= names_view(before).push(name@));
            }
            let binding = Binding::local(name.clone(), self.depth, self.function_depth);
            self.depth_table.insert(name, binding);
            self.next();
            match self.current_kind() {
                Err(e) => return Err(e),
                Ok(TokenKind::RParen) => break,
                Ok(TokenKind::Comma) => {},
                Ok(_) => return Err(ParseError::ExpectedParamComma),
            }
            self.next();
        }
        Ok(names)
    }

    fn parse_fun(&mut self) -> (r: Result<Option<Statement>, ParseError>)
        requires
            old(self).wf(),
            old(self).top < old(self).tokens@.len(),
        ensures
            final(self).wf(),
            final(self).same_input(old(self)),
            stmt_outcome(fun_statement(old(self).toks(), old(self).state()), r, final(self).state()),
            r is Ok ==> moved_on(old(self).toks(), old(self).state(), final(self).state()),
            r is Ok ==> final(self).depth == old(self).depth && final(self).function_depth
                == old(self).function_depth,
            not_stalled(r),
        decreases old(self).tokens@.len() + 2 - old(self).top, 3int,
    {
        let ghost s = self.state();
        self.next();
        let name = match self.current_slice() {
            Ok(n) => n,
            Err(e) => return Err(e),
        };
        let binding = Binding::local(name.clone(), self.depth, self.function_depth);
        self.depth_table.insert(name.clone(), binding.clone());
        self.next();
        match self.current_kind() {
            Err(e) => return Err(e),
            Ok(TokenKind::LParen) => {},
            Ok(_) => return Err(ParseError::ExpectedParamsParen),
        }
        self.next();
        self.depth = self.depth + 1;
        self.function_depth = self.function_depth + 1;
        let params = match self.parse_params() {
            Ok(ps) => ps,
            Err(e) => return Err(e),
        };
        self.next();
        let body = match self.parse_body() {
            Ok(b) => b,
            Err(e) => return Err(e),
        };
        self.depth = self.depth - 1;
        self.function_depth = self.function_depth - 1;
        Ok(Some(Statement::Fun(name, params, body, binding)))
    }

    fn parse_return(&mut self) -> (r: Result<Option<Statement>, ParseError>)
        requires
            old(self).wf(),
            old(self).top < old(self).tokens@.len(),
        ensures
            final(self).wf(),
            final(self).same_input(old(self)),
            stmt_outcome(return_statement(old(self).toks(), old(self).state()), r, final(self).state()),
            r is Ok ==> moved_on(old(self).toks(), old(self).state(), final(self).state()),
            r is Ok ==> final(self).depth == old(self).depth && final(self).function_depth
                == old(self).function_depth,
            not_stalled(r),
        decreases old(self).tokens@.len() + 2 - old(self).top, 3int,
    {
        self.next();
        match self.current_kind() {
            Err(e) => Err(e),
            Ok(TokenKind::Semicolon) => Ok(Some(Statement::Return(None))),
            Ok(_) => match self.parse_expression() {
                Ok(e) => Ok(Some(Statement::Return(Some(e)))),
                Err(e) => Err(e),
            },
        }
    }

    #[verifier::loop_isolation(false)]
    /// Parses a body, `{` statements `}`, from the current token.
    pub fn parse_body(&mut self) -> (r: Result<Vec<Statement>, ParseError>)
        requires
            old(self).wf(),
        ensures
            final(self).wf(),
            final(self).same_input(old(self)),
            match body(old(self).toks(), old(self).state()) {
                Ok((v, s2)) => r is Ok && stmts_view(r->Ok_0@) == v && final(self).state() == s2,
                Err(e) => r == Err::<Vec<Statement>, ParseError>(e),
            },
            r is Ok ==> moved_on(old(self).toks(), old(self).state(), final(self).state()),
            r is Ok ==> grown_scope(old(self).state(), final(self).state()),
            r is Ok ==> final(self).state().depth == old(self).state().depth && final(self).state().function_depth
                == old(self).state().function_depth,
            not_stalled(r),
        decreases old(self).toks().len() + 2 - old(self).state().top, 6int,
    {
        proof {
            if body(self.toks(), self.state()) is Ok {
                law_body_keeps_scope(self.toks(), self.state());
            }
        }
        let ghost s = self.state();
        let ghost toks = self.toks();
        match self.current_kind() {
            Err(e) => return Err(e),
            Ok(TokenKind::LCurly) => {},
            Ok(_) => return Err(ParseError::ExpectedBody),
        }
        self.next();
        let ghost s1 = self.state();
        let mut body: Vec<Statement> = Vec::new();
        assert(stmts_view(body@) =~= Seq::<SpecStatement>::empty());
        loop
            invariant
                self.wf(),
                self.same_input(old(self)),
                self.depth == old(self).depth,
                self.function_depth == old(self).function_depth,
                s.top < self.top <= self.tokens@.len() + 1,
                statements(toks, s1, seq![]) == statements(toks, self.state(), stmts_view(body@)),
            decreases self.tokens@.len() + 2 - self.top,
        {
            match self.current_kind() {
                Err(e) => return Err(e),
                Ok(TokenKind::RCurly) => break,
                Ok(_) => {},
            }
            let st = match self.parse_statement() {
                Ok(st) => st,
                Err(e) => return Err(e),
            };
            match st {
                Some(st) => {
                    proof {
                        lemma_stmts_view_push(body@, st);
                    }
                    body.push(st);
                },
                None => {},
            }
        }
        self.next();
        Ok(body)
    }

}

} // verus!
