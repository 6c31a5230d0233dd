use nom_peg::ast::{ActionExpr, Expr, Token};
use nom_peg::parser::{grammar, parse_atom, parse_element, parse_expression, Expected, SyntaxError};

fn id(s: &str) -> Token {
    Token::Ident(s.to_string())
}

fn lit(s: &str) -> Token {
    Token::StrLit(s.to_string())
}

fn ty(s: &str) -> Token {
    Token::TypeName(s.to_string())
}

fn term(s: &str) -> Expr {
    Expr::Terminal(s.to_string())
}

fn nt(s: &str) -> Expr {
    Expr::NonTerminal(s.to_string())
}

#[test]
fn rule_boundary_is_found_without_separator() {
    // x = a b   y = c   -- `y` is followed by `=`, so it opens a new rule
    let toks = vec![id("x"), Token::Equals, id("a"), id("b"), id("y"), Token::Equals, id("c")];
    let g = grammar(&toks).unwrap();
    assert_eq!(g.defs.len(), 2);
    assert_eq!(g.defs[0].name, "x");
    assert_eq!(g.defs[0].body, Expr::Sequence(vec![nt("a"), nt("b")], None));
    assert_eq!(g.defs[1].name, "y");
    assert_eq!(g.defs[1].body, nt("c"));
}

#[test]
fn type_annotation_colon_ends_the_previous_rule() {
    // x = a   y: T = b   -- `y` is followed by `:`, so it opens a new rule
    let toks = vec![id("x"), Token::Equals, id("a"), id("y"), Token::Colon, ty("T"),
        Token::Equals, id("b")];
    let g = grammar(&toks).unwrap();
    assert_eq!(g.defs.len(), 2);
    assert_eq!(g.defs[0].body, nt("a"));
    assert_eq!(g.defs[1].decl_type, Some("T".to_string()));
}

#[test]
fn arrow_is_not_a_definition_marker() {
    // x = a => {result}   y = b   -- the arrow stays inside x's rule
    let toks = vec![id("x"), Token::Equals, id("a"), Token::FatArrow,
        Token::Action(ActionExpr::Bound("result".to_string())), id("y"), Token::Equals, id("b")];
    let g = grammar(&toks).unwrap();
    assert_eq!(g.defs.len(), 2);
    assert_eq!(
        g.defs[0].body,
        Expr::Sequence(vec![nt("a")], Some(ActionExpr::Bound("result".to_string())))
    );
}

#[test]
fn singleton_sequence_and_choice_stand_unwrapped() {
    let toks = vec![id("x"), Token::Equals, lit("a")];
    let g = grammar(&toks).unwrap();
    assert_eq!(g.defs[0].body, term("a"));

    let toks2 = vec![id("x"), Token::Equals, lit("a"), Token::Pipe, lit("b")];
    let g2 = grammar(&toks2).unwrap();
    assert_eq!(g2.defs[0].body, Expr::Choice(vec![term("a"), term("b")]));
}

#[test]
fn empty_body_collapses_to_empty() {
    let toks = vec![id("x"), Token::Equals];
    let g = grammar(&toks).unwrap();
    assert_eq!(g.defs[0].body, Expr::Empty);
}

#[test]
fn prefix_wraps_postfix_not_the_other_way() {
    // &"a"*  parses as  Peek(Many0("a"))
    let toks = vec![Token::Amp, lit("a"), Token::Star];
    let r = parse_element(&toks, 0).unwrap();
    assert_eq!(r.0, Expr::Peek(Box::new(Expr::Many0(Box::new(term("a"))))));
    assert_eq!(r.1, 3);

    let toks2 = vec![Token::Bang, lit("a"), Token::Plus];
    let r2 = parse_element(&toks2, 0).unwrap();
    assert_eq!(r2.0, Expr::Not(Box::new(Expr::Many1(Box::new(term("a"))))));

    let toks3 = vec![lit("a"), Token::Question];
    let r3 = parse_element(&toks3, 0).unwrap();
    assert_eq!(r3.0, Expr::Optional(Box::new(term("a"))));
}

#[test]
fn paren_group_is_transparent() {
    let toks = vec![Token::LParen, lit("a"), Token::RParen];
    let r = parse_atom(&toks, 0).unwrap();
    assert_eq!(r.0, term("a"));
    assert_eq!(r.1, 3);
}

#[test]
fn capture_marker_wraps_and_binds() {
    let toks = vec![Token::LAngle, lit("a"), Token::RAngle];
    let r = parse_atom(&toks, 0).unwrap();
    assert_eq!(r.0, Expr::Capture(Box::new(term("a")), None));

    let toks2 = vec![Token::LAngle, id("n"), Token::Colon, lit("a"), Token::RAngle];
    let r2 = parse_atom(&toks2, 0).unwrap();
    assert_eq!(r2.0, Expr::Capture(Box::new(term("a")), Some("n".to_string())));
}

#[test]
fn atom_refuses_identifier_before_definition_marker() {
    // `y =` after the identifier: the atom fails without consuming
    let toks = vec![id("y"), Token::Equals, id("c")];
    let r = parse_atom(&toks, 0);
    assert_eq!(r, Err(SyntaxError { pos: 0, expected: Expected::AtomStart }));

    let toks2 = vec![id("y"), Token::Colon, ty("T")];
    let r2 = parse_atom(&toks2, 0);
    assert_eq!(r2, Err(SyntaxError { pos: 0, expected: Expected::AtomStart }));
}

#[test]
fn errors_carry_the_offending_position() {
    // empty grammar
    assert_eq!(grammar(&vec![]), Err(SyntaxError { pos: 0, expected: Expected::RuleName }));

    // missing equals sign
    let toks = vec![id("x"), lit("a")];
    assert_eq!(grammar(&toks), Err(SyntaxError { pos: 1, expected: Expected::EqualsSign }));

    // missing type after the annotation colon
    let toks2 = vec![id("x"), Token::Colon, Token::Equals, lit("a")];
    assert_eq!(grammar(&toks2), Err(SyntaxError { pos: 2, expected: Expected::TypeAnnotation }));

    // unclosed group
    let toks3 = vec![id("x"), Token::Equals, Token::LParen, lit("a")];
    assert_eq!(grammar(&toks3), Err(SyntaxError { pos: 4, expected: Expected::CloseParen }));

    // unclosed capture
    let toks4 = vec![id("x"), Token::Equals, Token::LAngle, lit("a")];
    assert_eq!(grammar(&toks4), Err(SyntaxError { pos: 4, expected: Expected::CloseAngle }));

    // arrow without a transformation block
    let toks5 = vec![id("x"), Token::Equals, lit("a"), Token::FatArrow, Token::Pipe];
    assert_eq!(grammar(&toks5), Err(SyntaxError { pos: 4, expected: Expected::ActionBlock }));

    // a stray token where a rule should start
    let toks6 = vec![id("x"), Token::Equals, lit("a"), Token::RParen];
    assert_eq!(grammar(&toks6), Err(SyntaxError { pos: 3, expected: Expected::RuleName }));
}

#[test]
fn expression_stops_at_a_non_pipe() {
    let toks = vec![lit("a"), Token::Pipe, lit("b"), Token::RParen];
    let r = parse_expression(&toks, 0).unwrap();
    assert_eq!(r.0, Expr::Choice(vec![term("a"), term("b")]));
    assert_eq!(r.1, 3);
}
