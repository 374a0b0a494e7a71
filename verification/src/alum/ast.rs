use crate::alum::token::Op;
use vstd::prelude::*;

verus! {

/// Where a variable lives: a global has no depth; a local has the block
/// depth and the function depth at which it is bound or used.
#[derive(Debug)]
pub struct Binding {
    pub name: String,
    pub depth: Option<usize>,
    pub function_depth: usize,
}

/// A binding as the specifications see it.
pub struct SpecBinding {
    pub name: Seq<char>,
    pub depth: Option<int>,
    pub function_depth: int,
}

/// A global binding of `name`.
pub open spec fn global_binding(name: Seq<char>) -> SpecBinding {
    SpecBinding { name, depth: None, function_depth: 0 }
}

/// A local binding of `name` at a block depth and a function depth.
pub open spec fn local_binding(name: Seq<char>, depth: int, function_depth: int) -> SpecBinding {
    SpecBinding { name, depth: Some(depth), function_depth }
}

impl View for Binding {
    type V = SpecBinding;

    open spec fn view(&self) -> SpecBinding {
        SpecBinding {
            name: self.name@,
            depth: match self.depth {
                Some(d) => Some(d as int),
                None => None,
            },
            function_depth: self.function_depth as int,
        }
    }
}

impl Binding {
    /// A global binding of `name`.
    pub fn global(name: String) -> (b: Self)
        ensures
            b@ == global_binding(name@),
    {
        Binding { name, depth: None, function_depth: 0 }
    }

    /// A local binding of `name` at a block depth and a function depth.
    pub fn local(name: String, depth: usize, function_depth: usize) -> (b: Self)
        ensures
            b@ == local_binding(name@, depth as int, function_depth as int),
    {
        Binding { name, depth: Some(depth), function_depth }
    }
}

impl Clone for Binding {
    fn clone(&self) -> (r: Self)
        ensures
            r@ == self@,
    {
        Binding { name: self.name.clone(), depth: self.depth, function_depth: self.function_depth }
    }
}

/// An expression. A number keeps the text of its literal.
#[derive(Debug)]
pub enum Expression {
    Number(String),
    Binary(Box<Expression>, Op, Box<Expression>),
    Array(Vec<Expression>),
    Dict(Vec<Expression>, Vec<Expression>),
    Var(String, Binding),
    Call(Box<Expression>, Vec<Expression>),
}

/// A statement.
#[derive(Debug)]
pub enum Statement {
    Let(String, Expression, Binding),
    Global(String, Expression),
    Fun(String, Vec<String>, Vec<Statement>, Binding),
    If(Expression, Vec<Statement>, Option<Vec<Statement>>),
    While(Expression, Vec<Statement>),
    Assign(Expression, Expression),
    Return(Option<Expression>),
    Expression(Expression),
}

/// An expression as the specifications see it.
pub enum SpecExpression {
    Number(Seq<char>),
    Binary(Box<SpecExpression>, Op, Box<SpecExpression>),
    Array(Seq<SpecExpression>),
    Dict(Seq<SpecExpression>, Seq<SpecExpression>),
    Var(Seq<char>, SpecBinding),
    Call(Box<SpecExpression>, Seq<SpecExpression>),
}

/// A statement as the specifications see it.
pub enum SpecStatement {
    Let(Seq<char>, SpecExpression, SpecBinding),
    Global(Seq<char>, SpecExpression),
    Fun(Seq<char>, Seq<Seq<char>>, Seq<SpecStatement>, SpecBinding),
    If(SpecExpression, Seq<SpecStatement>, Option<Seq<SpecStatement>>),
    While(SpecExpression, Seq<SpecStatement>),
    Assign(SpecExpression, SpecExpression),
    Return(Option<SpecExpression>),
    Expression(SpecExpression),
}

/// The view of an expression.
pub open spec fn expr_view(e: Expression) -> SpecExpression
    decreases e,
{
    match e {
        Expression::Number(s) => SpecExpression::Number(s@),
        Expression::Binary(l, op, r) => SpecExpression::Binary(
            Box::new(expr_view(*l)),
            op,
            Box::new(expr_view(*r)),
        ),
        Expression::Array(v) => SpecExpression::Array(exprs_view(v@)),
        Expression::Dict(k, v) => SpecExpression::Dict(exprs_view(k@), exprs_view(v@)),
        Expression::Var(n, b) => SpecExpression::Var(n@, b@),
        Expression::Call(c, a) => SpecExpression::Call(Box::new(expr_view(*c)), exprs_view(a@)),
    }
}

/// The views of a sequence of expressions.
pub open spec fn exprs_view(v: Seq<Expression>) -> Seq<SpecExpression>
    decreases v,
{
    if v.len() == 0 {
        seq![]
    } else {
        exprs_view(v.drop_last()).push(expr_view(v.last()))
    }
}

/// The views of a sequence of names.
pub open spec fn names_view(v: Seq<String>) -> Seq<Seq<char>> {
    v.map_values(|s: String| s@)
}

/// The view of a statement.
pub open spec fn stmt_view(s: Statement) -> SpecStatement
    decreases s,
{
    match s {
        Statement::Let(n, e, b) => SpecStatement::Let(n@, expr_view(e), b@),
        Statement::Global(n, e) => SpecStatement::Global(n@, expr_view(e)),
        Statement::Fun(n, ps, body, b) => SpecStatement::Fun(
            n@,
            names_view(ps@),
            stmts_view(body@),
            b@,
        ),
        Statement::If(c, t, e) => SpecStatement::If(
            expr_view(c),
            stmts_view(t@),
            match e {
                Some(e) => Some(stmts_view(e@)),
                None => None,
            },
        ),
        Statement::While(c, b) => SpecStatement::While(expr_view(c), stmts_view(b@)),
        Statement::Assign(l, r) => SpecStatement::Assign(expr_view(l), expr_view(r)),
        Statement::Return(e) => SpecStatement::Return(
            match e {
                Some(e) => Some(expr_view(e)),
                None => None,
            },
        ),
        Statement::Expression(e) => SpecStatement::Expression(expr_view(e)),
    }
}

/// The views of a sequence of statements.
pub open spec fn stmts_view(v: Seq<Statement>) -> Seq<SpecStatement>
    decreases v,
{
    if v.len() == 0 {
        seq![]
    } else {
        stmts_view(v.drop_last()).push(stmt_view(v.last()))
    }
}

/// The views of a sequence of expressions, one by one.
pub proof fn lemma_exprs_view(v: Seq<Expression>)
    ensures
        exprs_view(v).len() == v.len(),
        forall|i: int| 0 <= i < v.len() ==> #[trigger] exprs_view(v)[i] == v[i]@,
    decreases v.len(),
{
    if v.len() > 0 {
        lemma_exprs_view(v.drop_last());
    }
}

/// The view of a sequence with one more expression.
pub proof fn lemma_exprs_view_push(v: Seq<Expression>, x: Expression)
    ensures
        exprs_view(v.push(x)) == exprs_view(v).push(x@),
{
    assert(v.push(x).drop_last() =~= v);
}

/// The views of a sequence of statements, one by one.
pub proof fn lemma_stmts_view(v: Seq<Statement>)
    ensures
        stmts_view(v).len() == v.len(),
        forall|i: int| 0 <= i < v.len() ==> #[trigger] stmts_view(v)[i] == v[i]@,
    decreases v.len(),
{
    if v.len() > 0 {
        lemma_stmts_view(v.drop_last());
    }
}

/// The view of a sequence with one more statement.
pub proof fn lemma_stmts_view_push(v: Seq<Statement>, x: Statement)
    ensures
        stmts_view(v.push(x)) == stmts_view(v).push(x@),
{
    assert(v.push(x).drop_last() =~= v);
}

/// A copy of an expression.
pub fn clone_expression(e: &Expression) -> (r: Expression)
    ensures
        r@ == e@,
    decreases e,
{
    match e {
        Expression::Number(s) => Expression::Number(s.clone()),
        Expression::Binary(l, op, r) => Expression::Binary(
            Box::new(clone_expression(l)),
            *op,
            Box::new(clone_expression(r)),
        ),
        Expression::Array(v) => Expression::Array(clone_expressions(v)),
        Expression::Dict(k, v) => Expression::Dict(clone_expressions(k), clone_expressions(v)),
        Expression::Var(n, b) => Expression::Var(n.clone(), b.clone()),
        Expression::Call(c, a) => Expression::Call(Box::new(clone_expression(c)), clone_expressions(a)),
    }
}

/// A copy of a sequence of expressions.
pub fn clone_expressions(v: &Vec<Expression>) -> (r: Vec<Expression>)
    ensures
        exprs_view(r@) == exprs_view(v@),
    decreases v,
{
    let mut out: Vec<Expression> = Vec::new();
    let mut i: usize = 0;
    proof {
        lemma_exprs_view(v@);
        lemma_exprs_view(out@);
    }
    while i < v.len()
        invariant
            i <= v@.len(),
            out@.len() == i,
            forall|j: int| 0 <= j < i ==> #[trigger] out@[j]@ == v@[j]@,
        decreases v@.len() - i,
    {
        proof {
            assert(decreases_to!(v => v@[i as int]));
        }
        let c = clone_expression(&v[i]);
        out.push(c);
        i = i + 1;
    }
    proof {
        lemma_exprs_view(v@);
        lemma_exprs_view(out@);
        assert(exprs_view(out@) =~= exprs_view(v@));
    }
    out
}

/// A copy of a sequence of names.
pub fn clone_names(v: &Vec<String>) -> (r: Vec<String>)
    ensures
        names_view(r@) == names_view(v@),
{
    let mut out: Vec<String> = Vec::new();
    let mut i: usize = 0;
    while i < v.len()
        invariant
            i <= v@.len(),
            out@.len() == i,
            forall|j: int| 0 <= j < i ==> #[trigger] out@[j]@ == v@[j]@,
        decreases v@.len() - i,
    {
        out.push(v[i].clone());
        i = i + 1;
    }
    assert(names_view(out@) =~= names_view(v@));
    out
}

/// A copy of a statement.
pub fn clone_statement(s: &Statement) -> (r: Statement)
    ensures
        r@ == s@,
    decreases s,
{
    match s {
        Statement::Let(n, e, b) => Statement::Let(n.clone(), clone_expression(e), b.clone()),
        Statement::Global(n, e) => Statement::Global(n.clone(), clone_expression(e)),
        Statement::Fun(n, ps, body, b) => Statement::Fun(
            n.clone(),
            clone_names(ps),
            clone_statements(body),
            b.clone(),
        ),
        Statement::If(c, t, e) => Statement::If(
            clone_expression(c),
            clone_statements(t),
            match e {
                Some(e) => Some(clone_statements(e)),
                None => None,
            },
        ),
        Statement::While(c, b) => Statement::While(clone_expression(c), clone_statements(b)),
        Statement::Assign(l, r) => Statement::Assign(clone_expression(l), clone_expression(r)),
        Statement::Return(e) => Statement::Return(
            match e {
                Some(e) => Some(clone_expression(e)),
                None => None,
            },
        ),
        Statement::Expression(e) => Statement::Expression(clone_expression(e)),
    }
}

/// A copy of a sequence of statements.
pub fn clone_statements(v: &Vec<Statement>) -> (r: Vec<Statement>)
    ensures
        stmts_view(r@) == stmts_view(v@),
    decreases v,
{
    let mut out: Vec<Statement> = Vec::new();
    let mut i: usize = 0;
    while i < v.len()
        invariant
            i <= v@.len(),
            out@.len() == i,
            forall|j: int| 0 <= j < i ==> #[trigger] out@[j]@ == v@[j]@,
        decreases v@.len() - i,
    {
        proof {
            assert(decreases_to!(v => v@[i as int]));
        }
        let c = clone_statement(&v[i]);
        out.push(c);
        i = i + 1;
    }
    proof {
        lemma_stmts_view(v@);
        lemma_stmts_view(out@);
        assert(stmts_view(out@) =~= stmts_view(v@));
    }
    out
}

impl Clone for Expression {
    fn clone(&self) -> (r: Self)
        ensures
            r@ == self@,
    {
        clone_expression(self)
    }
}

impl Clone for Statement {
    fn clone(&self) -> (r: Self)
        ensures
            r@ == self@,
    {
        clone_statement(self)
    }
}

impl View for Expression {
    type V = SpecExpression;

    open spec fn view(&self) -> SpecExpression {
        expr_view(*self)
    }
}

impl View for Statement {
    type V = SpecStatement;

    open spec fn view(&self) -> SpecStatement {
        stmt_view(*self)
    }
}

} // verus!
