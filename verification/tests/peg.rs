use nom_peg::ast::{ActionExpr, Token, Value};
use nom_peg::interp::{remaining, RunOut};
use nom_peg::parser::grammar;

const FUEL: u64 = 1_000_000;

fn id(s: &str) -> Token {
    Token::Ident(s.to_string())
}

fn lit(s: &str) -> Token {
    Token::StrLit(s.to_string())
}

fn ty(s: &str) -> Token {
    Token::TypeName(s.to_string())
}

fn act(a: ActionExpr) -> Token {
    Token::Action(a)
}

fn bound(n: &str) -> ActionExpr {
    ActionExpr::Bound(n.to_string())
}

fn a_add(l: ActionExpr, r: ActionExpr) -> ActionExpr {
    ActionExpr::Add(Box::new(l), Box::new(r))
}

fn a_sub(l: ActionExpr, r: ActionExpr) -> ActionExpr {
    ActionExpr::Sub(Box::new(l), Box::new(r))
}

fn a_mul(l: ActionExpr, r: ActionExpr) -> ActionExpr {
    ActionExpr::Mul(Box::new(l), Box::new(r))
}

fn a_div(l: ActionExpr, r: ActionExpr) -> ActionExpr {
    ActionExpr::Div(Box::new(l), Box::new(r))
}

fn a_field(b: ActionExpr, i: usize) -> ActionExpr {
    ActionExpr::Field(Box::new(b), i)
}

fn a_join(b: ActionExpr) -> ActionExpr {
    ActionExpr::Join(Box::new(b))
}

fn a_to_int(b: ActionExpr) -> ActionExpr {
    ActionExpr::ToInt(Box::new(b))
}

fn a_lit(s: &str) -> ActionExpr {
    ActionExpr::Lit(s.to_string())
}

// parse: i64 = <expr> "="
// expr: i64 = <l: product> "+" <r: expr> => { l + r }
//           | <l: product> "+" <r: expr> => { l - r }
//           | product
// product: i64 = <l: value> "*" <r: product> => { l * r }
//              | <l: value> "/" <r: product> => { l / r }
//              | value
// value: i64 = ("0"|"1"|"2"|"3"|"4"|"5"|"6"|"7"|"8"|"9")+ => { digits as integer }
//            | "(" <expr> ")"
fn arithmetic_tokens() -> Vec<Token> {
    let mut t = vec![
        id("parse"),
        Token::Colon,
        ty("i64"),
        Token::Equals,
        Token::LAngle,
        id("expr"),
        Token::RAngle,
        lit("="),
    ];
    t.extend(vec![
        id("expr"),
        Token::Colon,
        ty("i64"),
        Token::Equals,
        Token::LAngle,
        id("l"),
        Token::Colon,
        id("product"),
        Token::RAngle,
        lit("+"),
        Token::LAngle,
        id("r"),
        Token::Colon,
        id("expr"),
        Token::RAngle,
        Token::FatArrow,
        act(a_add(bound("l"), bound("r"))),
        Token::Pipe,
        Token::LAngle,
        id("l"),
        Token::Colon,
        id("product"),
        Token::RAngle,
        lit("+"),
        Token::LAngle,
        id("r"),
        Token::Colon,
        id("expr"),
        Token::RAngle,
        Token::FatArrow,
        act(a_sub(bound("l"), bound("r"))),
        Token::Pipe,
        id("product"),
    ]);
    t.extend(vec![
        id("product"),
        Token::Colon,
        ty("i64"),
        Token::Equals,
        Token::LAngle,
        id("l"),
        Token::Colon,
        id("value"),
        Token::RAngle,
        lit("*"),
        Token::LAngle,
        id("r"),
        Token::Colon,
        id("product"),
        Token::RAngle,
        Token::FatArrow,
        act(a_mul(bound("l"), bound("r"))),
        Token::Pipe,
        Token::LAngle,
        id("l"),
        Token::Colon,
        id("value"),
        Token::RAngle,
        lit("/"),
        Token::LAngle,
        id("r"),
        Token::Colon,
        id("product"),
        Token::RAngle,
        Token::FatArrow,
        act(a_div(bound("l"), bound("r"))),
        Token::Pipe,
        id("value"),
    ]);
    t.extend(vec![id("value"), Token::Colon, ty("i64"), Token::Equals, Token::LParen]);
    let digits = ["0", "1", "2", "3", "4", "5", "6", "7", "8", "9"];
    for (i, d) in digits.iter().enumerate() {
        if i > 0 {
            t.push(Token::Pipe);
        }
        t.push(lit(d));
    }
    t.extend(vec![
        Token::RParen,
        Token::Plus,
        Token::FatArrow,
        act(a_to_int(a_join(bound("result")))),
        Token::Pipe,
        lit("("),
        Token::LAngle,
        id("expr"),
        Token::RAngle,
        lit(")"),
    ]);
    t
}

// p = &"a"* "a"* => { "yay" }
// q: String = a ("b" | "c") => { result.0 }
//   | a "d" => { result.0 }
// a: String = "a"* => { result.join("") }
fn lookahead_tokens() -> Vec<Token> {
    vec![
        id("p"),
        Token::Equals,
        Token::Amp,
        lit("a"),
        Token::Star,
        lit("a"),
        Token::Star,
        Token::FatArrow,
        act(a_lit("yay")),
        id("q"),
        Token::Colon,
        ty("String"),
        Token::Equals,
        id("a"),
        Token::LParen,
        lit("b"),
        Token::Pipe,
        lit("c"),
        Token::RParen,
        Token::FatArrow,
        act(a_field(bound("result"), 0)),
        Token::Pipe,
        id("a"),
        lit("d"),
        Token::FatArrow,
        act(a_field(bound("result"), 0)),
        id("a"),
        Token::Colon,
        ty("String"),
        Token::Equals,
        lit("a"),
        Token::Star,
        Token::FatArrow,
        act(a_join(bound("result"))),
    ]
}

fn run_ok(g: &nom_peg::ast::Grammar, rule: &str, input: &str) -> (String, Value) {
    match g.run(rule, input, FUEL) {
        RunOut::Parsed(end, v) => (remaining(input, end), v),
        other => panic!("rule {} did not match {}: {:?}", rule, input, other),
    }
}

#[test]
fn peg_test() {
    let toks = arithmetic_tokens();
    let arithmetic = match grammar(&toks) {
        Ok(g) => g,
        Err(e) => panic!("grammar refused: {:?}", e),
    };

    assert_eq!(run_ok(&arithmetic, "parse", "123="), (String::new(), Value::Int(123)));
    assert_eq!(run_ok(&arithmetic, "parse", "1+1="), (String::new(), Value::Int(2)));
    assert_eq!(run_ok(&arithmetic, "parse", "12+(3*7)="), (String::new(), Value::Int(33)));
    // right-associative by construction: 3*(7/2), not (3*7)/2
    assert_eq!(run_ok(&arithmetic, "parse", "3*7/2="), (String::new(), Value::Int(9)));

    let toks2 = lookahead_tokens();
    let parser = match grammar(&toks2) {
        Ok(g) => g,
        Err(e) => panic!("grammar refused: {:?}", e),
    };

    assert_eq!(run_ok(&parser, "p", "abc"), ("bc".to_string(), Value::Text("yay".to_string())));
    assert_eq!(run_ok(&parser, "p", "aaaaaaab"), ("b".to_string(), Value::Text("yay".to_string())));

    assert_eq!(run_ok(&parser, "q", "aaabcc"), ("cc".to_string(), Value::Text("aaa".to_string())));
    assert_eq!(run_ok(&parser, "q", "aac"), (String::new(), Value::Text("aa".to_string())));
}

#[test]
fn peg_scenarios_report_positions() {
    let toks = arithmetic_tokens();
    let arithmetic = grammar(&toks).unwrap();
    match arithmetic.run("parse", "123=", FUEL) {
        RunOut::Parsed(end, v) => {
            assert_eq!(end, 4);
            assert_eq!(v, Value::Int(123));
        },
        other => panic!("unexpected outcome: {:?}", other),
    }
    // no trailing "=": the parse rule itself finds no match
    assert!(matches!(arithmetic.run("parse", "123", FUEL), RunOut::NoParse(_)));
}
