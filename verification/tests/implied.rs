use std::collections::VecDeque;
use vpratt::Associativity::{Left, Right};
use vpratt::{LedCall, NudCall, Table, VprattCore, VprattError};

#[derive(Debug, Clone, Copy, PartialEq, Eq)]
enum Kind {
    Num,
    Ident,
    Plus,
    Caret,
    LParen,
    RParen,
}

#[derive(Debug, Clone, PartialEq)]
struct Tok {
    kind: Kind,
    text: String,
}

#[derive(Debug, Clone, PartialEq)]
enum Expr {
    Leaf(String),
    Add(Box<Expr>, Box<Expr>),
    Mul(Box<Expr>, Box<Expr>),
    Pow(Box<Expr>, Box<Expr>),
}

#[derive(Debug, Clone, Copy, PartialEq)]
enum H {
    Leaf,
    Group,
    Add,
    Pow,
    ImpliedMul,
    GroupMul,
}

struct Math {
    tokens: VecDeque<Tok>,
    last: Option<Tok>,
    table: Table<Math, H>,
}

fn table() -> Table<Math, H> {
    Table::new()
        .terminal(Kind::Num, H::Leaf)
        .terminal(Kind::Ident, H::Leaf)
        .group(Kind::LParen, Kind::RParen, H::Group)
        .infix(20, Left, Kind::Plus, H::Add)
        .implied(30, Left, Kind::Ident, H::ImpliedMul)
        .juxt(30, Kind::LParen, Kind::RParen, H::GroupMul)
        .infix(50, Right, Kind::Caret, H::Pow)
}

impl VprattCore for Math {
    type Item = Tok;
    type PrattToken = Kind;
    type Output = Expr;
    type Error = VprattError<Tok, Kind>;

    fn __next__(&mut self) -> Option<Tok> {
        let t = self.tokens.pop_front();
        if let Some(x) = &t {
            self.last = Some(x.clone());
        }
        t
    }

    fn __last__(&self) -> Option<Tok> {
        self.last.clone()
    }

    fn __peek__(&mut self) -> Option<Kind> {
        self.tokens.front().map(|t| t.kind)
    }

    fn __extract__(token: &Tok) -> Kind {
        token.kind
    }

    fn __kind__(token: &Kind) -> u64 {
        *token as u64
    }

    fn __lbp__(token: &Kind) -> u16 {
        table().binding_power(token)
    }

    fn __nud__(&mut self, token: Tok) -> Result<Expr, Self::Error> {
        match self.table.nud_call(token) {
            Ok(NudCall::Terminal(_, ctx)) => Ok(Expr::Leaf(ctx.consumed.token.text)),
            Ok(NudCall::Group(_, ctx)) => Ok(ctx.enclosed.parse(self)?.0),
            Ok(_) => unreachable!(),
            Err(e) => Err(e),
        }
    }

    fn __led__(&mut self, lhs: Expr, token: Tok) -> Result<Expr, Self::Error> {
        match self.table.led_call(lhs, token) {
            LedCall::Infix(H::Add, ctx) => {
                Ok(Expr::Add(Box::new(ctx.lhs), Box::new(ctx.rhs.parse(self)?)))
            }
            LedCall::Infix(_, ctx) => {
                Ok(Expr::Pow(Box::new(ctx.lhs), Box::new(ctx.rhs.parse(self)?)))
            }
            LedCall::Implied(_, ctx) => {
                let arg = ctx.seed.parse(self, ctx.consumed.token)?;
                let full = ctx.resume.parse(self, arg)?;
                Ok(Expr::Mul(Box::new(ctx.lhs), Box::new(full)))
            }
            LedCall::Juxt(_, ctx) => {
                let (inner, _) = ctx.enclosed.parse(self)?;
                let node = ctx.resume.parse(self, inner)?;
                Ok(Expr::Mul(Box::new(ctx.lhs), Box::new(node)))
            }
            LedCall::Postfix(_, _) => unreachable!(),
        }
    }

    fn __convert_error__(err: VprattError<Tok, Kind>) -> Self::Error {
        err
    }
}

fn lex(src: &str) -> VecDeque<Tok> {
    src.split_whitespace()
        .map(|w| {
            let kind = match w {
                "+" => Kind::Plus,
                "^" => Kind::Caret,
                "(" => Kind::LParen,
                ")" => Kind::RParen,
                _ if w.chars().all(|c| c.is_ascii_digit()) => Kind::Num,
                _ => Kind::Ident,
            };
            Tok { kind, text: w.to_string() }
        })
        .collect()
}

fn parse(src: &str) -> Result<Expr, VprattError<Tok, Kind>> {
    Math { tokens: lex(src), last: None, table: table() }.pratt_parse()
}

fn leaf(s: &str) -> Box<Expr> {
    Box::new(Expr::Leaf(s.to_string()))
}

#[test]
fn implied_multiplication_lets_power_bind_first() {
    // 2x^3  ->  Mul(2, Pow(x, 3))
    assert_eq!(
        parse("2 x ^ 3"),
        Ok(Expr::Mul(leaf("2"), Box::new(Expr::Pow(leaf("x"), leaf("3")))))
    );
}

#[test]
fn implied_multiplication_binds_tighter_than_addition() {
    assert_eq!(
        parse("2 x + 1"),
        Ok(Expr::Add(Box::new(Expr::Mul(leaf("2"), leaf("x"))), leaf("1")))
    );
}

#[test]
fn implied_multiplication_chains_to_the_left() {
    assert_eq!(
        parse("2 x y"),
        Ok(Expr::Mul(Box::new(Expr::Mul(leaf("2"), leaf("x"))), leaf("y")))
    );
}

#[test]
fn group_juxtaposition_resumes_before_collapsing() {
    // 2(a + b)^2: the group's result resumes at level 30, so `^` binds to it first.
    assert_eq!(
        parse("2 ( a + b ) ^ 2"),
        Ok(Expr::Mul(
            leaf("2"),
            Box::new(Expr::Pow(Box::new(Expr::Add(leaf("a"), leaf("b"))), leaf("2")))
        ))
    );
}

#[test]
fn unclosed_juxtaposed_group_fails() {
    // A missing closer names the item taken before the end of input.
    assert_eq!(
        parse("2 ( a + b"),
        Err(VprattError::UnmatchedDelimiter(Kind::RParen, Tok { kind: Kind::Ident, text: "b".to_string() }))
    );
    assert_eq!(
        parse("2 ( a x"),
        Err(VprattError::UnmatchedDelimiter(Kind::RParen, Tok { kind: Kind::Ident, text: "x".to_string() }))
    );
    assert_eq!(
        parse("2 ( a + b 7"),
        Err(VprattError::UnmatchedDelimiter(Kind::RParen, Tok { kind: Kind::Num, text: "7".to_string() }))
    );
}

#[test]
fn math_table_validates() {
    assert_eq!(vpratt::validate(&table()), Ok(()));
}
