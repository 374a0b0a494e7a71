use quasar::alum::lexer::lex;
use quasar::alum::token::{Op, BinaryOp, Token};

fn s(x: &str) -> String {
    x.to_string()
}

#[test]
fn lex_let_statement() {
    let toks = lex("let x = 1;");
    assert_eq!(
        toks,
        vec![Token::Let, Token::Ident(s("x")), Token::Assign, Token::Number(s("1")), Token::Semicolon]
    );
}

#[test]
fn lex_keywords_and_words() {
    let toks = lex("fun global let if while return funny Let");
    assert_eq!(
        toks,
        vec![
            Token::Fun,
            Token::Global,
            Token::Let,
            Token::If,
            Token::While,
            Token::Return,
            Token::Ident(s("funny")),
            Token::Ident(s("Let")),
        ]
    );
}

#[test]
fn lex_punctuation() {
    let toks = lex("()[]{}@,:;+-*/=%");
    assert_eq!(
        toks,
        vec![
            Token::LParen,
            Token::RParen,
            Token::LBracket,
            Token::RBracket,
            Token::LCurly,
            Token::RCurly,
            Token::Period,
            Token::Comma,
            Token::Colon,
            Token::Semicolon,
            Token::Add,
            Token::Sub,
            Token::Mul,
            Token::Div,
            Token::Assign,
            Token::Rem,
        ]
    );
}

#[test]
fn lex_numbers_runs_and_errors() {
    let toks = lex("12abc 1.2.3 . x\r?é\t\n\u{c}y");
    assert_eq!(
        toks,
        vec![
            Token::Number(s("12")),
            Token::Ident(s("abc")),
            Token::Number(s("1.2.3")),
            Token::Number(s(".")),
            Token::Ident(s("x")),
            Token::Error,
            Token::Error,
            Token::Error,
            Token::Ident(s("y")),
        ]
    );
}

#[test]
fn lex_empty_and_blank() {
    assert_eq!(lex(""), vec![]);
    assert_eq!(lex(" \t\n "), vec![]);
}

#[test]
fn lex_blank_separated_text_lexes_in_parts() {
    let a = "let x = 5";
    let b = "x+1;";
    let mut joined = String::from(a);
    joined.push(' ');
    joined.push_str(b);
    let mut parts = lex(a);
    parts.extend(lex(b));
    assert_eq!(lex(&joined), parts);
}

#[test]
fn lex_tokens_are_well_formed() {
    for t in lex("abc 12.5 fun x9y") {
        match t {
            Token::Number(n) => assert!(!n.is_empty() && n.chars().all(|c| c.is_ascii_digit() || c == '.')),
            Token::Ident(w) => {
                assert!(!w.is_empty() && w.chars().all(|c| c.is_ascii_alphabetic()));
                assert!(!["fun", "global", "let", "if", "while", "return"].contains(&w.as_str()));
            },
            _ => {},
        }
    }
}

#[test]
fn token_ops_and_precedence() {
    assert_eq!(Token::<String>::Add.to_op(), Some(Op::Add));
    assert_eq!(Token::<String>::Sub.to_op(), Some(Op::Sub));
    assert_eq!(Token::<String>::Mul.to_op(), Some(Op::Mul));
    assert_eq!(Token::<String>::Div.to_op(), Some(Op::Div));
    assert_eq!(Token::<String>::Rem.to_op(), Some(Op::Rem));
    assert_eq!(Token::<String>::Period.to_op(), Some(Op::Index));
    assert_eq!(Token::<String>::Assign.to_op(), None);
    assert_eq!(Token::Ident(s("x")).to_op(), None);
    assert_eq!(Op::Add.prec(), 0);
    assert_eq!(Op::Sub.prec(), 0);
    assert_eq!(Op::Mul.prec(), 1);
    assert_eq!(Op::Div.prec(), 1);
    assert_eq!(Op::Rem.prec(), 1);
    assert_eq!(Op::Index.prec(), 4);
    assert_eq!(Op::Add.to_ir(), BinaryOp::Add);
    assert_eq!(Op::Sub.to_ir(), BinaryOp::Sub);
    assert_eq!(Op::Mul.to_ir(), BinaryOp::Mul);
    assert_eq!(Op::Div.to_ir(), BinaryOp::Div);
    assert_eq!(Op::Rem.to_ir(), BinaryOp::Rem);
    assert_eq!(Op::Index.to_ir(), BinaryOp::Index);
}

#[test]
fn token_equality_compares_text() {
    assert_eq!(Token::Number(s("1")), Token::Number(s("1")));
    assert_ne!(Token::Number(s("1")), Token::Number(s("2")));
    assert_ne!(Token::Number(s("x")), Token::Ident(s("x")));
    assert_eq!(Token::<String>::Comma, Token::Comma);
    assert_ne!(Token::<String>::Comma, Token::Colon);
}
