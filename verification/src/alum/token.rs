use vstd::prelude::*;

verus! {

/// A token of the language. `S` is the type of the text that number and
/// identifier tokens carry: `String` in running code, `Seq<char>` in
/// specifications.
#[derive(Debug, Clone)]
pub enum Token<S> {
    Number(S),
    Ident(S),
    Fun,
    Global,
    Let,
    If,
    While,
    Return,
    LParen,
    RParen,
    LBracket,
    RBracket,
    LCurly,
    RCurly,
    Period,
    Comma,
    Colon,
    Semicolon,
    Add,
    Sub,
    Mul,
    Div,
    Assign,
    Rem,
    Error,
}

/// A token as the specifications see it.
pub type SpecToken = Token<Seq<char>>;

/// The kind of a token, without its text.
#[derive(Debug, Clone, Copy, PartialEq, Eq, Structural)]
pub enum TokenKind {
    Number,
    Ident,
    Fun,
    Global,
    Let,
    If,
    While,
    Return,
    LParen,
    RParen,
    LBracket,
    RBracket,
    LCurly,
    RCurly,
    Period,
    Comma,
    Colon,
    Semicolon,
    Add,
    Sub,
    Mul,
    Div,
    Assign,
    Rem,
    Error,
}

/// The kind of a token.
pub open spec fn kind_of<S>(t: Token<S>) -> TokenKind {
    match t {
        Token::Number(_) => TokenKind::Number,
        Token::Ident(_) => TokenKind::Ident,
        Token::Fun => TokenKind::Fun,
        Token::Global => TokenKind::Global,
        Token::Let => TokenKind::Let,
        Token::If => TokenKind::If,
        Token::While => TokenKind::While,
        Token::Return => TokenKind::Return,
        Token::LParen => TokenKind::LParen,
        Token::RParen => TokenKind::RParen,
        Token::LBracket => TokenKind::LBracket,
        Token::RBracket => TokenKind::RBracket,
        Token::LCurly => TokenKind::LCurly,
        Token::RCurly => TokenKind::RCurly,
        Token::Period => TokenKind::Period,
        Token::Comma => TokenKind::Comma,
        Token::Colon => TokenKind::Colon,
        Token::Semicolon => TokenKind::Semicolon,
        Token::Add => TokenKind::Add,
        Token::Sub => TokenKind::Sub,
        Token::Mul => TokenKind::Mul,
        Token::Div => TokenKind::Div,
        Token::Assign => TokenKind::Assign,
        Token::Rem => TokenKind::Rem,
        Token::Error => TokenKind::Error,
    }
}

impl View for Token<String> {
    type V = SpecToken;

    open spec fn view(&self) -> SpecToken {
        match self {
            Token::Number(s) => Token::Number(s@),
            Token::Ident(s) => Token::Ident(s@),
            Token::Fun => Token::Fun,
            Token::Global => Token::Global,
            Token::Let => Token::Let,
            Token::If => Token::If,
            Token::While => Token::While,
            Token::Return => Token::Return,
            Token::LParen => Token::LParen,
            Token::RParen => Token::RParen,
            Token::LBracket => Token::LBracket,
            Token::RBracket => Token::RBracket,
            Token::LCurly => Token::LCurly,
            Token::RCurly => Token::RCurly,
            Token::Period => Token::Period,
            Token::Comma => Token::Comma,
            Token::Colon => Token::Colon,
            Token::Semicolon => Token::Semicolon,
            Token::Add => Token::Add,
            Token::Sub => Token::Sub,
            Token::Mul => Token::Mul,
            Token::Div => Token::Div,
            Token::Assign => Token::Assign,
            Token::Rem => Token::Rem,
            Token::Error => Token::Error,
        }
    }
}

/// The views of a sequence of tokens.
pub open spec fn tokens_view(ts: Seq<Token<String>>) -> Seq<SpecToken> {
    ts.map_values(|t: Token<String>| t@)
}

/// The operator that a token stands for in an expression, if any.
pub open spec fn token_op<S>(t: Token<S>) -> Option<Op> {
    match t {
        Token::Add => Some(Op::Add),
        Token::Sub => Some(Op::Sub),
        Token::Mul => Some(Op::Mul),
        Token::Div => Some(Op::Div),
        Token::Rem => Some(Op::Rem),
        Token::Period => Some(Op::Index),
        _ => None,
    }
}

/// A token and its view are of one kind and stand for one operator.
pub proof fn lemma_token_view(t: Token<String>)
    ensures
        kind_of(t@) == kind_of(t),
        token_op(t@) == token_op(t),
{
}

impl Token<String> {
    /// The kind of this token.
    pub fn kind(&self) -> (k: TokenKind)
        ensures
            k == kind_of(*self),
    {
        match self {
            Token::Number(_) => TokenKind::Number,
            Token::Ident(_) => TokenKind::Ident,
            Token::Fun => TokenKind::Fun,
            Token::Global => TokenKind::Global,
            Token::Let => TokenKind::Let,
            Token::If => TokenKind::If,
            Token::While => TokenKind::While,
            Token::Return => TokenKind::Return,
            Token::LParen => TokenKind::LParen,
            Token::RParen => TokenKind::RParen,
            Token::LBracket => TokenKind::LBracket,
            Token::RBracket => TokenKind::RBracket,
            Token::LCurly => TokenKind::LCurly,
            Token::RCurly => TokenKind::RCurly,
            Token::Period => TokenKind::Period,
            Token::Comma => TokenKind::Comma,
            Token::Colon => TokenKind::Colon,
            Token::Semicolon => TokenKind::Semicolon,
            Token::Add => TokenKind::Add,
            Token::Sub => TokenKind::Sub,
            Token::Mul => TokenKind::Mul,
            Token::Div => TokenKind::Div,
            Token::Assign => TokenKind::Assign,
            Token::Rem => TokenKind::Rem,
            Token::Error => TokenKind::Error,
        }
    }

    /// The operator that this token stands for in an expression, if any.
    pub fn to_op(&self) -> (r: Option<Op>)
        ensures
            r == token_op(*self),
    {
        match self {
            Token::Add => Some(Op::Add),
            Token::Sub => Some(Op::Sub),
            Token::Mul => Some(Op::Mul),
            Token::Div => Some(Op::Div),
            Token::Rem => Some(Op::Rem),
            Token::Period => Some(Op::Index),
            _ => None,
        }
    }
}

impl PartialEq for Token<String> {
    fn eq(&self, other: &Self) -> (r: bool) {
        match self {
            Token::Number(a) => match other {
                Token::Number(b) => a.eq(b),
                _ => false,
            },
            Token::Ident(a) => match other {
                Token::Ident(b) => a.eq(b),
                _ => false,
            },
            _ => {
                let r = self.kind() == other.kind();
                proof {
                    if r {
                        assert(self@ == other@) by {
                            match other {
                                Token::Number(_) => {},
                                Token::Ident(_) => {},
                                _ => {},
                            }
                        }
                    }
                }
                r
            },
        }
    }
}

impl vstd::std_specs::cmp::PartialEqSpecImpl for Token<String> {
    open spec fn obeys_eq_spec() -> bool {
        true
    }

    open spec fn eq_spec(&self, other: &Self) -> bool {
        self@ == other@
    }
}

/// A binary operator of the surface language.
#[derive(Debug, Clone, Copy, PartialEq, Eq, Structural)]
pub enum Op {
    Add,
    Sub,
    Mul,
    Div,
    Rem,
    Index,
}

/// A binary operator of the intermediate representation.
#[derive(Debug, Clone, Copy, PartialEq, Eq, Structural)]
pub enum BinaryOp {
    Add,
    Sub,
    Mul,
    Div,
    Rem,
    Index,
}

/// The binding strength of an operator: the higher, the tighter.
pub open spec fn op_prec(op: Op) -> nat {
    match op {
        Op::Add => 0,
        Op::Sub => 0,
        Op::Mul => 1,
        Op::Div => 1,
        Op::Rem => 1,
        Op::Index => 4,
    }
}

/// The operator of the intermediate representation that a surface operator
/// stands for.
pub open spec fn op_ir(op: Op) -> BinaryOp {
    match op {
        Op::Add => BinaryOp::Add,
        Op::Sub => BinaryOp::Sub,
        Op::Mul => BinaryOp::Mul,
        Op::Div => BinaryOp::Div,
        Op::Rem => BinaryOp::Rem,
        Op::Index => BinaryOp::Index,
    }
}

impl Op {
    /// The binding strength of this operator.
    pub fn prec(&self) -> (r: usize)
        ensures
            r == op_prec(*self),
    {
        match self {
            Op::Add => 0,
            Op::Sub => 0,
            Op::Mul => 1,
            Op::Div => 1,
            Op::Rem => 1,
            Op::Index => 4,
        }
    }

    /// The operator of the intermediate representation for this operator.
    pub fn to_ir(&self) -> (r: BinaryOp)
        ensures
            r == op_ir(*self),
    {
        match self {
            Op::Add => BinaryOp::Add,
            Op::Sub => BinaryOp::Sub,
            Op::Mul => BinaryOp::Mul,
            Op::Div => BinaryOp::Div,
            Op::Rem => BinaryOp::Rem,
            Op::Index => BinaryOp::Index,
        }
    }
}

} // verus!
