use nom_peg::ast::{ActionExpr, Definition, Expr, Grammar, Value};
use nom_peg::interp::{remaining, AbortKind, RunOut};

const FUEL: u64 = 1_000_000;

fn term(s: &str) -> Expr {
    Expr::Terminal(s.to_string())
}

fn one_rule(name: &str, body: Expr) -> Grammar {
    Grammar { defs: vec![Definition { name: name.to_string(), decl_type: None, body }] }
}

fn text(s: &str) -> Value {
    Value::Text(s.to_string())
}

#[test]
fn choice_commits_to_the_first_success() {
    // r = "ab" | "a"  on "ab": the first alternative wins
    let g = one_rule("r", Expr::Choice(vec![term("ab"), term("a")]));
    assert_eq!(g.run("r", "ab", FUEL), RunOut::Parsed(2, text("ab")));

    // r = "a" | "ab"  on "ab": the first alternative still wins, though the
    // second would match more
    let g2 = one_rule("r", Expr::Choice(vec![term("a"), term("ab")]));
    assert_eq!(g2.run("r", "ab", FUEL), RunOut::Parsed(1, text("a")));

    // every alternative fails: the choice fails at its own position
    let g3 = one_rule("r", Expr::Choice(vec![term("x"), term("y")]));
    assert_eq!(g3.run("r", "ab", FUEL), RunOut::NoParse(0));
}

#[test]
fn many0_never_fails_and_many1_needs_one_match() {
    let g = one_rule("r", Expr::Many0(Box::new(term("x"))));
    assert_eq!(g.run("r", "yyy", FUEL), RunOut::Parsed(0, Value::List(vec![])));
    assert_eq!(
        g.run("r", "xxy", FUEL),
        RunOut::Parsed(2, Value::List(vec![text("x"), text("x")])),
    );

    let g2 = one_rule("r", Expr::Many1(Box::new(term("x"))));
    assert_eq!(g2.run("r", "yyy", FUEL), RunOut::NoParse(0));
    assert_eq!(
        g2.run("r", "xxy", FUEL),
        RunOut::Parsed(2, Value::List(vec![text("x"), text("x")])),
    );
}

#[test]
fn lookahead_never_advances() {
    let g = one_rule("r", Expr::Peek(Box::new(term("ab"))));
    assert_eq!(g.run("r", "abc", FUEL), RunOut::Parsed(0, text("ab")));
    assert_eq!(g.run("r", "xbc", FUEL), RunOut::NoParse(0));

    let g2 = one_rule("r", Expr::Not(Box::new(term("x"))));
    assert_eq!(g2.run("r", "abc", FUEL), RunOut::Parsed(0, Value::Tuple(vec![])));

    let g3 = one_rule("r", Expr::Not(Box::new(term("a"))));
    assert_eq!(g3.run("r", "abc", FUEL), RunOut::NoParse(0));
}

#[test]
fn uncaptured_sequence_exposes_the_full_tuple() {
    let g = one_rule("r", Expr::Sequence(vec![term("a"), term("b")], None));
    assert_eq!(g.run("r", "ab", FUEL), RunOut::Parsed(2, Value::Tuple(vec![text("a"), text("b")])));
    // the sequence fails at its first failing element
    assert_eq!(g.run("r", "ax", FUEL), RunOut::NoParse(1));
}

#[test]
fn named_capture_binds_its_own_slot() {
    // r = "a" <x: "b"> "c" => { x }: x is the second slot's value, whatever
    // stands around it
    let g = one_rule(
        "r",
        Expr::Sequence(
            vec![
                term("a"),
                Expr::Capture(Box::new(term("b")), Some("x".to_string())),
                term("c"),
            ],
            Some(ActionExpr::Bound("x".to_string())),
        ),
    );
    assert_eq!(g.run("r", "abc", FUEL), RunOut::Parsed(3, text("b")));
}

#[test]
fn anonymous_captures_form_the_result() {
    // one anonymous capture stands bare
    let g = one_rule(
        "r",
        Expr::Sequence(vec![term("a"), Expr::Capture(Box::new(term("b")), None)], None),
    );
    assert_eq!(g.run("r", "ab", FUEL), RunOut::Parsed(2, text("b")));

    // two anonymous captures form a tuple; the uncaptured element is matched
    // but discarded
    let g2 = one_rule(
        "r",
        Expr::Sequence(
            vec![
                Expr::Capture(Box::new(term("a")), None),
                term("b"),
                Expr::Capture(Box::new(term("c")), None),
            ],
            None,
        ),
    );
    assert_eq!(g2.run("r", "abc", FUEL), RunOut::Parsed(3, Value::Tuple(vec![text("a"), text("c")])));
}

#[test]
fn optional_yields_presence_or_absence() {
    let g = one_rule("r", Expr::Optional(Box::new(term("a"))));
    assert_eq!(g.run("r", "ab", FUEL), RunOut::Parsed(1, Value::Maybe(Some(Box::new(text("a"))))));
    assert_eq!(g.run("r", "xb", FUEL), RunOut::Parsed(0, Value::Maybe(None)));
}

#[test]
fn empty_matches_zero_width() {
    let g = one_rule("r", Expr::Empty);
    assert_eq!(g.run("r", "ab", FUEL), RunOut::Parsed(0, text("")));
    assert_eq!(g.run("r", "", FUEL), RunOut::Parsed(0, text("")));
}

#[test]
fn forward_and_mutual_references_resolve_by_name() {
    // even = "" | "ab" odd   and   odd = "a" even  (forward reference)
    let g = Grammar {
        defs: vec![
            Definition {
                name: "even".to_string(),
                decl_type: None,
                body: Expr::Choice(vec![
                    Expr::Sequence(
                        vec![term("ab"), Expr::NonTerminal("odd".to_string())],
                        None,
                    ),
                    Expr::Empty,
                ]),
            },
            Definition {
                name: "odd".to_string(),
                decl_type: None,
                body: Expr::Sequence(
                    vec![term("a"), Expr::NonTerminal("even".to_string())],
                    None,
                ),
            },
        ],
    };
    match g.run("even", "abaaba", FUEL) {
        RunOut::Parsed(end, _) => assert_eq!(end, 6),
        other => panic!("unexpected outcome: {:?}", other),
    }
}

#[test]
fn unknown_rule_aborts_the_run() {
    let g = one_rule("r", Expr::NonTerminal("nope".to_string()));
    assert_eq!(g.run("r", "abc", FUEL), RunOut::Aborted(AbortKind::UnknownRule("nope".to_string())));
    assert_eq!(
        g.run("missing", "abc", FUEL),
        RunOut::Aborted(AbortKind::UnknownRule("missing".to_string())),
    );
}

#[test]
fn left_recursion_exhausts_the_fuel() {
    // r = r "a": structurally accepted, never terminates, so the budget ends it
    let g = one_rule(
        "r",
        Expr::Sequence(vec![Expr::NonTerminal("r".to_string()), term("a")], None),
    );
    assert_eq!(g.run("r", "aaa", 1000), RunOut::Aborted(AbortKind::OutOfFuel));
}

#[test]
fn bad_transformation_blocks_abort_the_run() {
    // an unbound name
    let g = one_rule(
        "r",
        Expr::Sequence(vec![term("a")], Some(ActionExpr::Bound("nope".to_string()))),
    );
    assert_eq!(g.run("r", "a", FUEL), RunOut::Aborted(AbortKind::BadAction));

    // division by zero
    let zero = ActionExpr::ToInt(Box::new(ActionExpr::Lit("0".to_string())));
    let one = ActionExpr::ToInt(Box::new(ActionExpr::Lit("1".to_string())));
    let g2 = one_rule(
        "r",
        Expr::Sequence(
            vec![term("a")],
            Some(ActionExpr::Div(Box::new(one), Box::new(zero))),
        ),
    );
    assert_eq!(g2.run("r", "a", FUEL), RunOut::Aborted(AbortKind::BadAction));

    // a projection out of range
    let g3 = one_rule(
        "r",
        Expr::Sequence(
            vec![term("a"), term("b")],
            Some(ActionExpr::Field(Box::new(ActionExpr::Bound("result".to_string())), 7)),
        ),
    );
    assert_eq!(g3.run("r", "ab", FUEL), RunOut::Aborted(AbortKind::BadAction));
}

#[test]
fn arithmetic_actions_compute_exact_values() {
    let num = |s: &str| ActionExpr::ToInt(Box::new(ActionExpr::Lit(s.to_string())));
    let g = one_rule(
        "r",
        Expr::Sequence(
            vec![term("go")],
            Some(ActionExpr::Add(
                Box::new(ActionExpr::Mul(Box::new(num("6")), Box::new(num("7")))),
                Box::new(ActionExpr::Sub(Box::new(num("1")), Box::new(num("43")))),
            )),
        ),
    );
    // 6 * 7 + (1 - 43) == 0
    assert_eq!(g.run("r", "go", FUEL), RunOut::Parsed(2, Value::Int(0)));
}

#[test]
fn remaining_input_is_the_suffix() {
    assert_eq!(remaining("abcdef", 2), "cdef".to_string());
    assert_eq!(remaining("abc", 3), String::new());
    assert_eq!(remaining("abc", 7), String::new());
}

#[test]
fn nested_captures_stay_with_their_own_sequence() {
    // r = "a" ("b" <"c">): the capture sits in the inner sequence, so the
    // outer sequence sees no capture at all and exposes its full tuple; the
    // inner sequence resolves its own capture and stands for "c".
    let inner = Expr::Sequence(
        vec![term("b"), Expr::Capture(Box::new(term("c")), None)],
        None,
    );
    let g = one_rule("r", Expr::Sequence(vec![term("a"), inner], None));
    assert_eq!(
        g.run("r", "abc", FUEL),
        RunOut::Parsed(3, Value::Tuple(vec![text("a"), text("c")])),
    );
}

#[test]
fn repeated_binding_names_shadow_earlier_ones() {
    // r = <x: "a"> <x: "b"> => { x }: the later binding silently shadows
    let g = one_rule(
        "r",
        Expr::Sequence(
            vec![
                Expr::Capture(Box::new(term("a")), Some("x".to_string())),
                Expr::Capture(Box::new(term("b")), Some("x".to_string())),
            ],
            Some(ActionExpr::Bound("x".to_string())),
        ),
    );
    assert_eq!(g.run("r", "ab", FUEL), RunOut::Parsed(2, text("b")));
}

#[test]
fn zero_width_repetition_terminates() {
    // the inner expression matches without consuming: the repetition keeps
    // that one match and stops
    let g = one_rule("r", Expr::Many0(Box::new(Expr::Empty)));
    assert_eq!(
        g.run("r", "abc", FUEL),
        RunOut::Parsed(0, Value::List(vec![text("")])),
    );
}

#[test]
fn runs_can_start_inside_the_input() {
    let g = one_rule("r", term("ab"));
    assert_eq!(g.run_from("r", "xab", 1, FUEL), RunOut::Parsed(3, text("ab")));
    assert_eq!(g.run_from("r", "xab", 2, FUEL), RunOut::NoParse(2));
}
