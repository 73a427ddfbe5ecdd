use std::collections::VecDeque;
use std::marker::PhantomData;
use vpratt::Associativity::{Left, Right};
use vpratt::config::{generate_core, ConfigArg, ErrorChoice, InferError, MethodSig, ParserConfig, ReturnType};
use vpratt::plan::{LedArm, NudArm};
use vpratt::{Consumed, CtxUtils, LedCall, NudCall, Table, TerminalCtx, VprattCore, VprattError};

// Routing tokens that carry a payload: table entries name a kind with a
// placeholder payload, as in `Num(0)`.
#[derive(Debug, Clone, Copy, PartialEq)]
enum Tk {
    Num(i64),
    Ident(u32),
    Plus,
    Eq,
    LParen,
    RParen,
}

#[derive(Debug, Clone, PartialEq)]
enum Expr {
    Num(i64),
    Var(u32),
    Add(Box<Expr>, Box<Expr>),
}

#[derive(Debug, Clone, Copy, PartialEq)]
enum H {
    Num,
    Var,
    Group,
    Add,
}

struct Mini {
    tokens: VecDeque<Tk>,
    last: Option<Tk>,
    table: Table<Mini, H>,
}

fn table() -> Table<Mini, H> {
    Table::new()
        .terminal(Tk::Num(0), H::Num)
        .terminal(Tk::Ident(0), H::Var)
        .group(Tk::LParen, Tk::RParen, H::Group)
        .infix(10, Left, Tk::Plus, H::Add)
}

impl VprattCore for Mini {
    type Item = Tk;
    type PrattToken = Tk;
    type Output = Expr;
    type Error = VprattError<Tk, Tk>;

    fn __next__(&mut self) -> Option<Tk> {
        let t = self.tokens.pop_front();
        if let Some(x) = &t {
            self.last = Some(x.clone());
        }
        t
    }

    fn __last__(&self) -> Option<Tk> {
        self.last.clone()
    }

    fn __peek__(&mut self) -> Option<Tk> {
        self.tokens.front().copied()
    }

    fn __extract__(token: &Tk) -> Tk {
        *token
    }

    fn __kind__(token: &Tk) -> u64 {
        match token {
            Tk::Num(_) => 0,
            Tk::Ident(_) => 1,
            Tk::Plus => 2,
            Tk::Eq => 3,
            Tk::LParen => 4,
            Tk::RParen => 5,
        }
    }

    fn __lbp__(token: &Tk) -> u16 {
        table().binding_power(token)
    }

    fn __nud__(&mut self, token: Tk) -> Result<Expr, Self::Error> {
        match self.table.nud_call(token) {
            Ok(NudCall::Terminal(H::Num, ctx)) => match ctx.consumed.token {
                Tk::Num(v) => Ok(Expr::Num(v)),
                other => Err(VprattError::UnexpectedToken(other)),
            },
            Ok(NudCall::Terminal(H::Var, ctx)) => match ctx.consumed.token {
                Tk::Ident(v) => Ok(Expr::Var(v)),
                other => Err(VprattError::UnexpectedToken(other)),
            },
            Ok(NudCall::Group(H::Group, ctx)) => Ok(ctx.enclosed.parse(self)?.0),
            Ok(_) => unreachable!(),
            Err(e) => Err(e),
        }
    }

    fn __led__(&mut self, lhs: Expr, token: Tk) -> Result<Expr, Self::Error> {
        match self.table.led_call(lhs, token) {
            LedCall::Infix(H::Add, ctx) => {
                Ok(Expr::Add(Box::new(ctx.lhs), Box::new(ctx.rhs.parse(self)?)))
            }
            _ => unreachable!(),
        }
    }

    fn __convert_error__(err: VprattError<Tk, Tk>) -> Self::Error {
        err
    }
}

fn mini(tokens: Vec<Tk>) -> Mini {
    Mini { tokens: tokens.into_iter().collect(), last: None, table: table() }
}

fn ctx() -> TerminalCtx<'static, Mini> {
    TerminalCtx { consumed: Consumed::__new__(Tk::Eq), _marker: PhantomData }
}

#[test]
fn placeholder_payload_routes_every_token_of_its_kind() {
    let r = mini(vec![Tk::Num(2), Tk::Plus, Tk::Ident(7)]).pratt_parse();
    assert_eq!(r, Ok(Expr::Add(Box::new(Expr::Num(2)), Box::new(Expr::Var(7)))));
}

#[test]
fn binding_power_ignores_payload() {
    let tb = table();
    assert_eq!(tb.binding_power(&Tk::Plus), 10);
    assert_eq!(tb.binding_power(&Tk::Num(5)), 0);
}

#[test]
fn enclosed_closer_matches_by_kind() {
    let r = mini(vec![Tk::LParen, Tk::Num(1), Tk::Plus, Tk::Num(2), Tk::RParen]).pratt_parse();
    assert_eq!(r, Ok(Expr::Add(Box::new(Expr::Num(1)), Box::new(Expr::Num(2)))));
}

#[test]
fn series_collects_items_of_the_kind() {
    let mut p = mini(vec![Tk::Ident(1), Tk::Ident(2), Tk::Ident(3), Tk::Eq, Tk::Num(4)]);
    let items = ctx().series(&mut p, Tk::Ident(0), Tk::Eq).unwrap();
    assert_eq!(items, vec![Expr::Var(1), Expr::Var(2), Expr::Var(3)]);
    assert_eq!(p.tokens.front(), Some(&Tk::Eq));
}

#[test]
fn expect_and_accept_match_by_kind() {
    let mut p = mini(vec![Tk::Ident(9), Tk::Num(1)]);
    assert_eq!(ctx().expect(&mut p, Tk::Ident(0)).map(|c| c.token), Ok(Tk::Ident(9)));
    assert_eq!(ctx().accept(&mut p, Tk::Num(0)).map(|o| o.map(|c| c.token)), Ok(Some(Tk::Num(1))));
}

#[test]
fn duplicate_kind_is_reported_whatever_the_payload() {
    let tb: Table<Mini, H> = Table::new().terminal(Tk::Num(0), H::Num).terminal(Tk::Num(1), H::Num);
    assert_eq!(
        vpratt::validate(&tb),
        Err(vpratt::TableError::DuplicateRouting {
            index: 1,
            phase: vpratt::Phase::Prefix,
            token: Tk::Num(1)
        })
    );
}

fn s(x: &str) -> String {
    x.to_string()
}

fn cfg(pairs: &[(&str, &str)]) -> ParserConfig {
    let args: Vec<ConfigArg> = pairs.iter().map(|(k, v)| ConfigArg { key: s(k), value: s(v) }).collect();
    ParserConfig::parse(&args).unwrap()
}

fn handler(output: ReturnType) -> Vec<MethodSig> {
    vec![MethodSig { attrs: vec![vec![s("vpratt"), s("handler")]], output: Some(output) }]
}

fn bare(text: &str) -> ReturnType {
    ReturnType { text: s(text), last_segment: Some(s(text)), leading_type_args: None }
}

fn result(ok: &str, err: &str) -> ReturnType {
    ReturnType {
        text: format!("Result<{}, {}>", ok, err),
        last_segment: Some(s("Result")),
        leading_type_args: Some((s(ok), s(err))),
    }
}

#[test]
fn generated_core_defaults_and_handler_types() {
    let core = generate_core(&cfg(&[("stream", "self.stream")]), &table(), &handler(bare("Expr")), false).unwrap();
    assert_eq!(core.entry, "pratt_parse");
    assert_eq!(core.token, "Self::Item");
    assert_eq!(core.extract, "|t| t.clone()");
    assert_eq!(core.output, "Expr");
    assert_eq!(core.error, ErrorChoice::Engine);
    assert!(core.wrap_in_ok);
    let core = generate_core(
        &cfg(&[("stream", "self.s"), ("entry", "parse_math"), ("token", "Kind")]),
        &table(),
        &handler(result("E", "D")),
        false,
    )
    .unwrap();
    assert_eq!(core.entry, "parse_math");
    assert_eq!(core.token, "Kind");
    assert_eq!(core.output, "E");
    assert_eq!(core.error, ErrorChoice::Custom(s("D")));
    assert!(!core.wrap_in_ok);
    assert_eq!(
        generate_core(&cfg(&[("stream", "self.s")]), &table(), &vec![], false).map(|c| c.output),
        Err(InferError::NoHandler)
    );
}

#[test]
fn configured_output_and_error_win() {
    let config = cfg(&[("stream", "self.stream"), ("output", "Ast"), ("error", "Diagnostic")]);
    let core = generate_core(&config, &table(), &handler(result("Expr", "D")), false).unwrap();
    assert_eq!(core.output, "Ast");
    assert_eq!(core.error, ErrorChoice::Custom(s("Diagnostic")));
    let core = generate_core(&config, &table(), &handler(bare("Expr")), false).unwrap();
    assert_eq!(core.output, "Ast");
    assert_eq!(core.error, ErrorChoice::Custom(s("Diagnostic")));
}

#[test]
fn token_attribute_supplies_token_and_extract() {
    let core = generate_core(
        &cfg(&[("stream", "self.stream"), ("item", "Token"), ("output", "Expr")]),
        &table(),
        &handler(bare("Expr")),
        true,
    )
    .unwrap();
    assert_eq!(core.token, "<Token as ::vpratt::VprattToken>::PrattToken");
    assert_eq!(core.extract, "<Token as ::vpratt::VprattToken>::extract");
    // Explicit arguments still win over the attribute.
    let core = generate_core(
        &cfg(&[("stream", "self.stream"), ("token", "Kind"), ("extract", "|t: &Token| t.kind")]),
        &table(),
        &handler(bare("Expr")),
        true,
    )
    .unwrap();
    assert_eq!(core.token, "Kind");
    assert_eq!(core.extract, "|t: &Token| t.kind");
}

#[test]
fn generated_core_carries_the_routing_plan() {
    let core = generate_core(&cfg(&[("stream", "self.stream")]), &table(), &handler(bare("Expr")), false).unwrap();
    assert_eq!(
        core.nud_arms,
        vec![
            NudArm::Terminal { token: Tk::Num(0), handler: H::Num },
            NudArm::Terminal { token: Tk::Ident(0), handler: H::Var },
            NudArm::Group { open: Tk::LParen, close: Tk::RParen, handler: H::Group },
        ]
    );
    assert_eq!(core.led_arms, vec![LedArm::Infix { token: Tk::Plus, handler: H::Add, rbp: 10 }]);
    assert_eq!(core.lbp_arms, vec![(Tk::Plus, 10)]);
}

#[test]
fn plan_arms_carry_each_format_context() {
    let tb: Table<Mini, H> = Table::new()
        .structural(Tk::Eq, H::Var)
        .prefix(30, Tk::Plus, H::Add)
        .infix(20, Left, Tk::Plus, H::Add)
        .infix(50, Right, Tk::Eq, H::Add)
        .postfix(60, Tk::Num(0), H::Num)
        .juxt(70, Tk::LParen, Tk::RParen, H::Group)
        .implied(80, Right, Tk::Ident(0), H::Var);
    let core = generate_core(&cfg(&[("stream", "self.stream")]), &tb, &handler(bare("Expr")), false).unwrap();
    assert_eq!(
        core.nud_arms,
        vec![
            NudArm::Keyword { token: Tk::Eq, handler: H::Var },
            NudArm::Prefix { token: Tk::Plus, handler: H::Add, rbp: 30 },
        ]
    );
    assert_eq!(
        core.led_arms,
        vec![
            LedArm::Infix { token: Tk::Plus, handler: H::Add, rbp: 20 },
            LedArm::Infix { token: Tk::Eq, handler: H::Add, rbp: 49 },
            LedArm::Postfix { token: Tk::Num(0), handler: H::Num },
            LedArm::Juxt { open: Tk::LParen, close: Tk::RParen, handler: H::Group, resume: 70 },
            LedArm::Implied { token: Tk::Ident(0), handler: H::Var, resume: 79 },
        ]
    );
    assert_eq!(
        core.lbp_arms,
        vec![(Tk::Plus, 20), (Tk::Eq, 50), (Tk::Num(0), 60), (Tk::LParen, 70), (Tk::Ident(0), 80)]
    );
}

fn alias_result() -> ReturnType {
    // `vpratt::Result<Self>`: a `Result` that names only the parser.
    ReturnType { text: s("vpratt::Result<Self>"), last_segment: Some(s("Result")), leading_type_args: None }
}

#[test]
fn generated_core_item_type() {
    let core = generate_core(&cfg(&[("stream", "self.stream"), ("item", "Token")]), &table(), &handler(bare("Expr")), false)
        .unwrap();
    assert_eq!(core.item, "Token");
    let core = generate_core(&cfg(&[("stream", "self.stream")]), &table(), &handler(bare("Expr")), false).unwrap();
    assert_eq!(core.item, "<std::iter::Peekable<I> as std::iter::Iterator>::Item");
}

#[test]
fn handlers_returning_a_result_are_not_wrapped() {
    let config = cfg(&[("stream", "self.stream"), ("output", "Expr"), ("item", "Tk")]);
    let core = generate_core(&config, &table(), &handler(alias_result()), false).unwrap();
    assert!(!core.wrap_in_ok);
    assert_eq!(core.output, "Expr");
    assert_eq!(core.error, ErrorChoice::Engine);
    // Without a configured output the type cannot be read off `vpratt::Result<Self>`.
    assert_eq!(
        generate_core(&cfg(&[("stream", "self.stream")]), &table(), &handler(alias_result()), false).map(|c| c.output),
        Err(InferError::OutputUnknown)
    );
}

#[test]
fn a_parser_on_an_empty_table_routes_nothing() {
    let empty: Table<Mini, H> = Table::new();
    assert_eq!(empty.binding_power(&Tk::Plus), 0);
    let mut p = Mini { tokens: vec![Tk::Num(1), Tk::Plus].into_iter().collect(), last: None, table: empty };
    assert_eq!(p.pratt_parse(), Err(VprattError::UnexpectedToken(Tk::Num(1))));
    assert_eq!(p.tokens.len(), 1);
}
