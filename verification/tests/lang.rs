use std::collections::VecDeque;
use std::marker::PhantomData;
use vpratt::config::{parser, ConfigArg, ConfigError, ErrorChoice, ParserError};
use vpratt::Associativity::{Left, Right};
use vpratt::{
    Consumed, CtxUtils, LedCall, NudCall, Phase, Table, TableError, TerminalCtx, VprattCore,
    VprattError,
};

#[derive(Debug, Clone, Copy, PartialEq, Eq)]
enum Kind {
    Ident,
    Num,
    Let,
    Rec,
    In,
    Eq,
    If,
    Then,
    Else,
    LParen,
    RParen,
    Comma,
    Plus,
    Star,
    Caret,
}

#[derive(Debug, Clone, PartialEq)]
struct Tok {
    kind: Kind,
    text: String,
}

#[derive(Debug, Clone, PartialEq)]
enum Expr {
    Var(String),
    Num(i64),
    Bin(char, Box<Expr>, Box<Expr>),
    App(Box<Expr>, Box<Expr>),
    Let { rec: bool, names: Vec<String>, value: Box<Expr>, body: Box<Expr> },
    If(Box<Expr>, Box<Expr>, Box<Expr>),
}

#[derive(Debug, Clone, Copy, PartialEq)]
enum H {
    Literal,
    Group,
    Let,
    If,
    Binary,
    Apply,
    Call,
}

struct Lang {
    tokens: VecDeque<Tok>,
    last: Option<Tok>,
    table: Table<Lang, H>,
}

fn table() -> Table<Lang, H> {
    Table::new()
        .terminal(Kind::Ident, H::Literal)
        .terminal(Kind::Num, H::Literal)
        .group(Kind::LParen, Kind::RParen, H::Group)
        .structural(Kind::Let, H::Let)
        .structural(Kind::If, H::If)
        .infix(20, Left, Kind::Plus, H::Binary)
        .infix(30, Left, Kind::Star, H::Binary)
        .infix(50, Right, Kind::Caret, H::Binary)
        .implied(80, Left, Kind::Ident, H::Apply)
        .implied(80, Left, Kind::Num, H::Apply)
        .juxt(80, Kind::LParen, Kind::RParen, H::Call)
}

fn literal(tok: &Tok) -> Expr {
    match tok.kind {
        Kind::Num => Expr::Num(tok.text.parse().unwrap()),
        _ => Expr::Var(tok.text.clone()),
    }
}

fn var_name(e: Expr) -> String {
    match e {
        Expr::Var(name) => name,
        other => format!("{:?}", other),
    }
}

fn op_char(k: Kind) -> char {
    match k {
        Kind::Plus => '+',
        Kind::Star => '*',
        Kind::Caret => '^',
        _ => '?',
    }
}

impl Lang {
    fn parse_let(&mut self, ctx: vpratt::StructuralCtx<Lang>) -> vpratt::Result<Lang> {
        let rec = ctx.accept(self, Kind::Rec)?.is_some();
        let names: Vec<String> = if ctx.accept(self, Kind::LParen)?.is_some() {
            ctx.separated(self, Kind::Ident, Kind::Comma, Kind::RParen)?
                .into_iter()
                .map(var_name)
                .collect()
        } else {
            let name = ctx.expect(self, Kind::Ident)?;
            let mut names = vec![name.token.text];
            for e in ctx.series(self, Kind::Ident, Kind::Eq)? {
                names.push(var_name(e));
            }
            names
        };
        ctx.expect(self, Kind::Eq)?;
        let value = ctx.sub.parse(self)?;
        ctx.expect(self, Kind::In)?;
        let body = ctx.sub.parse(self)?;
        Ok(Expr::Let { rec, names, value: Box::new(value), body: Box::new(body) })
    }

    fn parse_if(&mut self, ctx: vpratt::StructuralCtx<Lang>) -> vpratt::Result<Lang> {
        let cond = ctx.sub.parse(self)?;
        ctx.expect(self, Kind::Then)?;
        let then = ctx.sub.parse(self)?;
        ctx.expect(self, Kind::Else)?;
        let otherwise = ctx.sub.parse(self)?;
        Ok(Expr::If(Box::new(cond), Box::new(then), Box::new(otherwise)))
    }
}

impl VprattCore for Lang {
    type Item = Tok;
    type PrattToken = Kind;
    type Output = Expr;
    type Error = VprattError<Tok, Kind>;

    fn __next__(&mut self) -> Option<Tok> {
        let t = self.tokens.pop_front();
        if let Some(x) = &t {
            self.last = Some(x.clone());
        }
        t
    }

    fn __last__(&self) -> Option<Tok> {
        self.last.clone()
    }

    fn __peek__(&mut self) -> Option<Kind> {
        self.tokens.front().map(|t| t.kind)
    }

    fn __extract__(token: &Tok) -> Kind {
        token.kind
    }

    fn __kind__(token: &Kind) -> u64 {
        *token as u64
    }

    fn __lbp__(token: &Kind) -> u16 {
        table().binding_power(token)
    }

    fn __nud__(&mut self, token: Tok) -> Result<Expr, Self::Error> {
        match self.table.nud_call(token) {
            Ok(NudCall::Terminal(_, ctx)) => Ok(literal(&ctx.consumed.token)),
            Ok(NudCall::Group(_, ctx)) => Ok(ctx.enclosed.parse(self)?.0),
            Ok(NudCall::Keyword(H::Let, ctx)) => self.parse_let(ctx),
            Ok(NudCall::Keyword(_, ctx)) => self.parse_if(ctx),
            Ok(NudCall::Prefix(_, _)) => unreachable!(),
            Err(e) => Err(e),
        }
    }

    fn __led__(&mut self, lhs: Expr, token: Tok) -> Result<Expr, Self::Error> {
        match self.table.led_call(lhs, token) {
            LedCall::Infix(_, ctx) => {
                let op = op_char(ctx.consumed.token.kind);
                Ok(Expr::Bin(op, Box::new(ctx.lhs), Box::new(ctx.rhs.parse(self)?)))
            }
            LedCall::Implied(_, ctx) => {
                let arg = ctx.seed.parse(self, ctx.consumed.token)?;
                let full = ctx.resume.parse(self, arg)?;
                Ok(Expr::App(Box::new(ctx.lhs), Box::new(full)))
            }
            LedCall::Juxt(_, ctx) => {
                let (inner, _close) = ctx.enclosed.parse(self)?;
                let node = ctx.resume.parse(self, inner)?;
                Ok(Expr::App(Box::new(ctx.lhs), Box::new(node)))
            }
            LedCall::Postfix(_, _) => unreachable!(),
        }
    }

    fn __convert_error__(err: VprattError<Tok, Kind>) -> Self::Error {
        err
    }
}

fn tok(kind: Kind, text: &str) -> Tok {
    Tok { kind, text: text.to_string() }
}

fn lex(src: &str) -> Vec<Tok> {
    src.split_whitespace()
        .map(|w| match w {
            "let" => tok(Kind::Let, w),
            "rec" => tok(Kind::Rec, w),
            "in" => tok(Kind::In, w),
            "=" => tok(Kind::Eq, w),
            "if" => tok(Kind::If, w),
            "then" => tok(Kind::Then, w),
            "else" => tok(Kind::Else, w),
            "(" => tok(Kind::LParen, w),
            ")" => tok(Kind::RParen, w),
            "," => tok(Kind::Comma, w),
            "+" => tok(Kind::Plus, w),
            "*" => tok(Kind::Star, w),
            "^" => tok(Kind::Caret, w),
            _ if w.chars().all(|c| c.is_ascii_digit()) => tok(Kind::Num, w),
            _ => tok(Kind::Ident, w),
        })
        .collect()
}

fn lang(src: &str) -> Lang {
    Lang { tokens: lex(src).into_iter().collect(), last: None, table: table() }
}

fn parse(src: &str) -> vpratt::Result<Lang> {
    lang(src).pratt_parse()
}

fn var(s: &str) -> Box<Expr> {
    Box::new(Expr::Var(s.to_string()))
}

fn num(v: i64) -> Box<Expr> {
    Box::new(Expr::Num(v))
}

fn app(f: Box<Expr>, a: Box<Expr>) -> Box<Expr> {
    Box::new(Expr::App(f, a))
}

fn ctx() -> TerminalCtx<'static, Lang> {
    TerminalCtx { consumed: Consumed::__new__(tok(Kind::Let, "let")), _marker: PhantomData }
}

#[test]
fn application_is_left_associative() {
    assert_eq!(parse("f a b"), Ok(*app(app(var("f"), var("a")), var("b"))));
}

#[test]
fn application_binds_tighter_than_power() {
    assert_eq!(
        parse("f x ^ 2"),
        Ok(Expr::Bin('^', app(var("f"), var("x")), num(2)))
    );
}

#[test]
fn juxtaposed_group_is_a_call() {
    assert_eq!(
        parse("f ( 1 + 2 ) x"),
        Ok(*app(app(var("f"), Box::new(Expr::Bin('+', num(1), num(2)))), var("x")))
    );
}

#[test]
fn let_with_parameters() {
    let r = parse("let rec f x y = x + y in f 1 2");
    assert_eq!(
        r,
        Ok(Expr::Let {
            rec: true,
            names: vec!["f".to_string(), "x".to_string(), "y".to_string()],
            value: Box::new(Expr::Bin('+', var("x"), var("y"))),
            body: app(app(var("f"), num(1)), num(2)),
        })
    );
}

#[test]
fn let_with_tuple_pattern() {
    let r = parse("let ( a , b , c ) = t in a");
    assert_eq!(
        r,
        Ok(Expr::Let {
            rec: false,
            names: vec!["a".to_string(), "b".to_string(), "c".to_string()],
            value: var("t"),
            body: var("a"),
        })
    );
}

#[test]
fn if_then_else() {
    assert_eq!(
        parse("if c then 1 + 2 else 3"),
        Ok(Expr::If(var("c"), Box::new(Expr::Bin('+', num(1), num(2))), num(3)))
    );
}

#[test]
fn missing_keyword_is_expected_token_mismatch() {
    assert_eq!(
        parse("if c else 3"),
        Err(VprattError::ExpectedTokenMismatch(Kind::Then, tok(Kind::Else, "else")))
    );
}

#[test]
fn expect_consumes_a_matching_item() {
    let mut p = lang("x = 1");
    let c = ctx().expect(&mut p, Kind::Ident);
    assert_eq!(c.map(|c| c.token), Ok(tok(Kind::Ident, "x")));
    assert_eq!(p.tokens.len(), 2);
}

#[test]
fn expect_consumes_and_reports_a_mismatch() {
    let mut p = lang("= 1");
    let c = ctx().expect(&mut p, Kind::Ident);
    assert_eq!(
        c.map(|c| c.token),
        Err(VprattError::ExpectedTokenMismatch(Kind::Ident, tok(Kind::Eq, "=")))
    );
    assert_eq!(p.tokens.len(), 1);
}

#[test]
fn expect_on_empty_stream_is_unexpected_eof() {
    let mut p = lang("");
    assert_eq!(ctx().expect(&mut p, Kind::Ident).map(|c| c.token), Err(VprattError::UnexpectedEOF));
}

#[test]
fn accept_takes_only_a_match() {
    let mut p = lang("rec f");
    assert_eq!(ctx().accept(&mut p, Kind::Ident).map(|o| o.is_some()), Ok(false));
    assert_eq!(p.tokens.len(), 2);
    let got = ctx().accept(&mut p, Kind::Rec).unwrap().map(|c| c.token);
    assert_eq!(got, Some(tok(Kind::Rec, "rec")));
    assert_eq!(p.tokens.len(), 1);
    let mut empty = lang("");
    assert_eq!(ctx().accept(&mut empty, Kind::Rec).map(|o| o.is_some()), Ok(false));
}

#[test]
fn series_stops_before_the_delimiter() {
    let mut p = lang("x y z = 1");
    let items = ctx().series(&mut p, Kind::Ident, Kind::Eq).unwrap();
    // Each item is an atom: its terminal handler's value.
    assert_eq!(items, vec![*var("x"), *var("y"), *var("z")]);
    assert_eq!(p.tokens[0], tok(Kind::Eq, "="));
    assert_eq!(p.tokens.len(), 2);
}

#[test]
fn series_stops_at_another_item_and_can_be_empty() {
    let mut p = lang("x 1 y");
    assert_eq!(ctx().series(&mut p, Kind::Ident, Kind::Eq).unwrap().len(), 1);
    assert_eq!(p.tokens.len(), 2);
    let mut q = lang("= x");
    assert_eq!(ctx().series(&mut q, Kind::Ident, Kind::Eq).unwrap().len(), 0);
    assert_eq!(q.tokens.len(), 2);
    let mut e = lang("x y");
    assert_eq!(ctx().series(&mut e, Kind::Ident, Kind::Eq).unwrap().len(), 2);
    assert!(e.tokens.is_empty());
}

#[test]
fn series_never_takes_the_delimiter() {
    // When the item kind and the delimiter coincide, nothing is taken.
    let mut p = lang("x y =");
    assert_eq!(ctx().series(&mut p, Kind::Ident, Kind::Ident).unwrap().len(), 0);
    assert_eq!(p.tokens.len(), 3);
}

#[test]
fn separated_consumes_the_end_token() {
    let mut p = lang("x , y , z ) rest");
    let items = ctx().separated(&mut p, Kind::Ident, Kind::Comma, Kind::RParen).unwrap();
    assert_eq!(items, vec![*var("x"), *var("y"), *var("z")]);
    assert_eq!(p.tokens.len(), 1);
}

#[test]
fn series_sub_collects_sub_expressions_until_the_delimiter() {
    let mut p = lang("x + 1 let a = 2 in a = 3");
    let items = ctx().series_sub(&mut p, Kind::Eq).unwrap();
    let let_expr = Expr::Let { rec: false, names: vec!["a".to_string()], value: num(2), body: var("a") };
    assert_eq!(items, vec![Expr::Bin('+', var("x"), num(1)), let_expr]);
    assert_eq!(p.tokens.len(), 2);
    assert_eq!(p.tokens[0], tok(Kind::Eq, "="));
    let mut q = lang("= 1");
    assert_eq!(ctx().series_sub(&mut q, Kind::Eq).map(|v| v.len()), Ok(0));
    let mut e = lang("x +");
    assert_eq!(ctx().series_sub(&mut e, Kind::Eq), Err(VprattError::UnexpectedEOF));
}

#[test]
fn separated_sub_collects_separated_sub_expressions() {
    let mut p = lang("a + 1 , f x , b ) rest");
    let items = ctx().separated_sub(&mut p, Kind::Comma, Kind::RParen).unwrap();
    assert_eq!(items, vec![Expr::Bin('+', var("a"), num(1)), *app(var("f"), var("x")), *var("b")]);
    assert_eq!(p.tokens.len(), 1);
    let mut q = lang("a , )");
    assert_eq!(
        ctx().separated_sub(&mut q, Kind::Comma, Kind::RParen),
        Err(VprattError::UnexpectedToken(tok(Kind::RParen, ")")))
    );
    let mut r = lang("a b");
    assert_eq!(ctx().separated_sub(&mut r, Kind::Comma, Kind::RParen), Err(VprattError::UnexpectedEOF));
}

#[test]
fn separated_rejects_a_trailing_separator() {
    let mut p = lang("x , ) rest");
    let r = ctx().separated(&mut p, Kind::Ident, Kind::Comma, Kind::RParen);
    assert_eq!(r.map(|v| v.len()), Err(VprattError::UnexpectedToken(tok(Kind::RParen, ")"))));
    assert_eq!(p.tokens.len(), 1);
}

#[test]
fn separated_rejects_a_leading_separator_and_an_empty_list() {
    let mut p = lang(", x )");
    let r = ctx().separated(&mut p, Kind::Ident, Kind::Comma, Kind::RParen);
    assert_eq!(r.map(|v| v.len()), Err(VprattError::UnexpectedToken(tok(Kind::Comma, ","))));
    let mut q = lang(")");
    let r = ctx().separated(&mut q, Kind::Ident, Kind::Comma, Kind::RParen);
    assert_eq!(r.map(|v| v.len()), Err(VprattError::UnexpectedToken(tok(Kind::RParen, ")"))));
}

#[test]
fn separated_reports_a_missing_separator_and_the_end_of_stream() {
    let mut p = lang("x y )");
    let r = ctx().separated(&mut p, Kind::Ident, Kind::Comma, Kind::RParen);
    assert_eq!(r.map(|v| v.len()), Err(VprattError::UnexpectedToken(tok(Kind::Ident, "y"))));
    assert_eq!(p.tokens.len(), 1);
    let mut q = lang("x ,");
    let r = ctx().separated(&mut q, Kind::Ident, Kind::Comma, Kind::RParen);
    assert_eq!(r.map(|v| v.len()), Err(VprattError::UnexpectedEOF));
    assert!(q.tokens.is_empty());
}

#[test]
fn lang_table_validates_with_shared_tokens_across_phases() {
    // `Ident`, `Num` and `LParen` route in both phases: that is allowed.
    assert_eq!(vpratt::validate(&table()), Ok(()));
}

#[test]
fn duplicate_prefix_route_is_reported() {
    let t: Table<Lang, H> = Table::new()
        .terminal(Kind::Ident, H::Literal)
        .terminal(Kind::Num, H::Literal)
        .structural(Kind::Ident, H::Let);
    assert_eq!(
        vpratt::validate(&t),
        Err(TableError::DuplicateRouting { index: 2, phase: Phase::Prefix, token: Kind::Ident })
    );
}

#[test]
fn duplicate_infix_route_is_reported() {
    let t: Table<Lang, H> = Table::new()
        .infix(20, Left, Kind::Plus, H::Binary)
        .juxt(80, Kind::LParen, Kind::RParen, H::Call)
        .implied(90, Left, Kind::LParen, H::Apply);
    assert_eq!(
        vpratt::validate(&t),
        Err(TableError::DuplicateRouting { index: 2, phase: Phase::Infix, token: Kind::LParen })
    );
}

#[test]
fn mixed_associativity_on_one_level_is_reported() {
    let t: Table<Lang, H> = Table::new()
        .infix(20, Left, Kind::Plus, H::Binary)
        .infix(30, Right, Kind::Caret, H::Binary)
        .implied(20, Right, Kind::Ident, H::Apply);
    assert_eq!(
        vpratt::validate(&t),
        Err(TableError::AssociativityConflict { index: 2, bp: 20, existing: Left })
    );
}

#[test]
fn first_problem_in_declaration_order_wins() {
    let t: Table<Lang, H> = Table::new()
        .infix(20, Left, Kind::Plus, H::Binary)
        .infix(20, Right, Kind::Plus, H::Binary);
    // The associativity clash is checked before the duplicate route.
    assert_eq!(
        vpratt::validate(&t),
        Err(TableError::AssociativityConflict { index: 1, bp: 20, existing: Left })
    );
}

#[test]
fn error_messages() {
    let eof: VprattError<Tok, Kind> = VprattError::UnexpectedEOF;
    assert_eq!(eof.message(), "Syntax error: unexpected end of file");
    let unexpected: VprattError<Kind, Kind> = VprattError::UnexpectedToken(Kind::Star);
    assert_eq!(unexpected.message(), "Syntax error: unexpected token Star");
    let unmatched: VprattError<Kind, Kind> = VprattError::UnmatchedDelimiter(Kind::RParen, Kind::Num);
    assert_eq!(
        unmatched.message(),
        "Syntax error: expected closing delimiter RParen, found Num"
    );
    let mismatch: VprattError<Kind, Kind> = VprattError::ExpectedTokenMismatch(Kind::Then, Kind::Else);
    assert_eq!(mismatch.message(), "Syntax error: expected Then, found Else");
}

fn handler_sigs() -> Vec<vpratt::config::MethodSig> {
    vec![vpratt::config::MethodSig {
        attrs: vec![vec!["vpratt".to_string(), "handler".to_string()]],
        output: Some(vpratt::config::ReturnType {
            text: "Result<Expr, Diag>".to_string(),
            last_segment: Some("Result".to_string()),
            leading_type_args: Some(("Expr".to_string(), "Diag".to_string())),
        }),
    }]
}

#[test]
fn parser_generation_runs_its_stages_in_order() {
    let good_args = vec![ConfigArg { key: "stream".to_string(), value: "self.tokens".to_string() }];
    let core = parser(&good_args, &table(), &handler_sigs(), false).unwrap();
    assert_eq!(core.output, "Expr");
    assert_eq!(core.error, ErrorChoice::Custom("Diag".to_string()));
    assert_eq!(core.entry, "pratt_parse");

    let bad_table: Table<Lang, H> = Table::new()
        .terminal(Kind::Num, H::Literal)
        .terminal(Kind::Num, H::Literal);
    assert_eq!(
        parser(&good_args, &bad_table, &handler_sigs(), false).map(|c| c.output),
        Err(ParserError::Table(TableError::DuplicateRouting {
            index: 1,
            phase: Phase::Prefix,
            token: Kind::Num
        }))
    );
    assert_eq!(
        parser(&vec![], &bad_table, &handler_sigs(), false).map(|c| c.output),
        Err(ParserError::Config(ConfigError::MissingStream))
    );
    assert_eq!(
        parser(&good_args, &table(), &vec![], false).map(|c| c.output),
        Err(ParserError::Infer(vpratt::config::InferError::NoHandler))
    );
}
