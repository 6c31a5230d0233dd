//! The grammar parser: a recursive-descent reader that turns the classified
//! token stream of a grammar into its expression tree.
//!
//! The grammar has no separator between one rule definition and the next, so
//! a sequence reads elements greedily until none can start, and an identifier
//! cannot start an element when the token after it is a type-annotation colon
//! or a bare equals sign: that pair of tokens opens a new definition instead.
//! The action-block arrow is its own token, so it is never misread as a
//! definition's equals sign.
//!
//! The parser is specified from two sides. The relation [`parses`] says which
//! trees a stretch of tokens may stand for, and every successful result is
//! proved to stand in it. The deterministic walks [`atom_end`] through
//! [`definitions_end`] and [`atom_err`] through [`grammar_err`] say on which
//! streams success is owed and, on the others, the one diagnostic owed: the
//! first structural violation of a left-to-right scan. [`grammar`] succeeds
//! exactly on the accepted streams, and [`lemma_grammar_parses_accepted`]
//! closes the circle: whatever the relation parses, the parser accepts.

use vstd::prelude::*;

verus! {

use crate::ast::{ActionExpr, Definition, Expr, Grammar, Token};

/// What the parser was looking for when it stopped.
#[derive(Debug, Clone, Copy, PartialEq, Eq)]
pub enum Expected {
    /// The identifier that opens a rule definition.
    RuleName,
    /// The equals sign between a rule's head and its body.
    EqualsSign,
    /// The type after a rule's annotation colon.
    TypeAnnotation,
    /// A token that can open an atom.
    AtomStart,
    /// The closing parenthesis of a group.
    CloseParen,
    /// The closing angle bracket of a capture.
    CloseAngle,
    /// The transformation block after an arrow.
    ActionBlock,
}

/// A fatal grammar-syntax diagnostic: the offending token's position and the
/// construct expected there. Compilation is all or nothing; the first
/// structural violation in a left-to-right scan is reported.
#[derive(Debug, PartialEq)]
pub struct SyntaxError {
    pub pos: usize,
    pub expected: Expected,
}

/// Whether the token at `p` can open a sequence element. An identifier
/// followed by a colon or a bare equals sign cannot: that pair opens the next
/// rule definition, not a non-terminal reference.
pub open spec fn can_start_element(toks: Seq<Token>, p: int) -> bool {
    0 <= p < toks.len() && match toks[p] {
        Token::Ident(_) => !(p + 1 < toks.len() && (toks[p + 1] is Colon || toks[p + 1]
            is Equals)),
        Token::StrLit(_) => true,
        Token::LParen => true,
        Token::LAngle => true,
        Token::Amp => true,
        Token::Bang => true,
        _ => false,
    }
}

/// Whether the token at `p` is the choice bar.
fn at_pipe(toks: &Vec<Token>, p: usize) -> (r: bool)
    ensures
        r == (p < toks@.len() && toks@[p as int] is Pipe),
{
    p < toks.len() && (match &toks[p] {
        Token::Pipe => true,
        _ => false,
    })
}

/// Executable twin of [`can_start_element`].
fn check_element_start(toks: &Vec<Token>, p: usize) -> (r: bool)
    ensures
        r == can_start_element(toks@, p as int),
{
    if p >= toks.len() {
        return false;
    }
    match &toks[p] {
        Token::Ident(_) => !(p + 1 < toks.len() && (match &toks[p + 1] {
            Token::Colon => true,
            Token::Equals => true,
            _ => false,
        })),
        Token::StrLit(_) => true,
        Token::LParen => true,
        Token::LAngle => true,
        Token::Amp => true,
        Token::Bang => true,
        _ => false,
    }
}

/// A structural copy of a transformation block.
fn action_clone(a: &ActionExpr) -> (r: ActionExpr)
    ensures
        r == *a,
    decreases *a,
{
    match a {
        ActionExpr::Bound(n) => ActionExpr::Bound(n.clone()),
        ActionExpr::Field(b, ix) => ActionExpr::Field(Box::new(action_clone(&**b)), *ix),
        ActionExpr::Add(l, r2) => ActionExpr::Add(
            Box::new(action_clone(&**l)),
            Box::new(action_clone(&**r2)),
        ),
        ActionExpr::Sub(l, r2) => ActionExpr::Sub(
            Box::new(action_clone(&**l)),
            Box::new(action_clone(&**r2)),
        ),
        ActionExpr::Mul(l, r2) => ActionExpr::Mul(
            Box::new(action_clone(&**l)),
            Box::new(action_clone(&**r2)),
        ),
        ActionExpr::Div(l, r2) => ActionExpr::Div(
            Box::new(action_clone(&**l)),
            Box::new(action_clone(&**r2)),
        ),
        ActionExpr::Lit(s) => ActionExpr::Lit(s.clone()),
        ActionExpr::Join(b) => ActionExpr::Join(Box::new(action_clone(&**b))),
        ActionExpr::ToInt(b) => ActionExpr::ToInt(Box::new(action_clone(&**b))),
    }
}

/// The matching pattern for the existential witnesses of [`parses`]: always
/// true, it only names the split a witness makes in a run of tokens.
pub open spec fn parse_split<A>(at: int, what: A) -> bool {
    true
}

/// One grammar construct to be recognized at a position: the payload of the
/// parse relation [`parses`].
pub enum Construct {
    /// An atom.
    Atom(Expr),
    /// An atom with its optional repetition postfix.
    Postfixed(Expr),
    /// One element: prefix, atom, postfix.
    Element(Expr),
    /// A run of elements, one after the other.
    Elements(Seq<Expr>),
    /// A whole sequence: elements, then an optional arrow and block.
    Sequence(Expr),
    /// The alternatives after the first, each behind its choice bar.
    Alternatives(Seq<Expr>),
    /// A whole expression: sequences separated by choice bars.
    Expression(Expr),
    /// One rule definition.
    Definition(Definition),
    /// A run of rule definitions, one after the other.
    Definitions(Seq<Definition>),
}

/// The layer a construct belongs to, innermost first; recursion between
/// layers at one position always steps inward.
pub open spec fn construct_layer(what: Construct) -> int {
    match what {
        Construct::Atom(_) => 0,
        Construct::Postfixed(_) => 1,
        Construct::Element(_) => 2,
        Construct::Elements(_) => 3,
        Construct::Sequence(_) => 4,
        Construct::Alternatives(_) => 5,
        Construct::Expression(_) => 6,
        Construct::Definition(_) => 7,
        Construct::Definitions(_) => 8,
    }
}

/// How many items a run still holds; recursion within a run at one position
/// shortens it.
pub open spec fn construct_width(what: Construct) -> nat {
    match what {
        Construct::Elements(es) => es.len(),
        Construct::Alternatives(alts) => alts.len(),
        Construct::Definitions(defs) => defs.len(),
        _ => 0,
    }
}

/// What it means for the construct `what` to be the parse of the tokens from
/// `pos` to `p2`. This is the specification of the grammar parser: each
/// executable parse function promises that its successful result stands in
/// this relation.
pub open spec fn parses(toks: Seq<Token>, pos: int, what: Construct, p2: int) -> bool
    decreases toks.len() - pos, construct_layer(what), construct_width(what),
{
    match what {
        Construct::Atom(e) => {
            &&& 0 <= pos < toks.len()
            &&& pos < p2 <= toks.len()
            &&& match toks[pos] {
                Token::Ident(n) => can_start_element(toks, pos) && e == Expr::NonTerminal(n)
                    && p2 == pos + 1,
                Token::StrLit(t) => e == Expr::Terminal(t) && p2 == pos + 1,
                Token::LParen => toks[p2 - 1] is RParen && parses(
                    toks,
                    pos + 1,
                    Construct::Expression(e),
                    p2 - 1,
                ),
                Token::LAngle => {
                    &&& e matches Expr::Capture(b, binding)
                    &&& toks[p2 - 1] is RAngle
                    &&& {
                        let bound = pos + 2 < toks.len() && toks[pos + 1] is Ident && toks[pos
                            + 2] is Colon;
                        if bound {
                            binding == Option::Some(toks[pos + 1]->Ident_0) && parses(
                                toks,
                                pos + 3,
                                Construct::Expression(*b),
                                p2 - 1,
                            )
                        } else {
                            binding is None && parses(
                                toks,
                                pos + 1,
                                Construct::Expression(*b),
                                p2 - 1,
                            )
                        }
                    }
                },
                _ => false,
            }
        },
        Construct::Postfixed(e) => {
            &&& 0 <= pos < p2 <= toks.len()
            &&& if toks[p2 - 1] is Question {
                e matches Expr::Optional(b) && parses(toks, pos, Construct::Atom(*b), p2 - 1)
            } else if toks[p2 - 1] is Star {
                e matches Expr::Many0(b) && parses(toks, pos, Construct::Atom(*b), p2 - 1)
            } else if toks[p2 - 1] is Plus {
                e matches Expr::Many1(b) && parses(toks, pos, Construct::Atom(*b), p2 - 1)
            } else {
                &&& parses(toks, pos, Construct::Atom(e), p2)
                &&& !(p2 < toks.len() && (toks[p2] is Question || toks[p2] is Star || toks[p2]
                    is Plus))
            }
        },
        Construct::Element(e) => {
            &&& 0 <= pos < toks.len()
            &&& if toks[pos] is Amp {
                e matches Expr::Peek(b) && parses(toks, pos + 1, Construct::Postfixed(*b), p2)
            } else if toks[pos] is Bang {
                e matches Expr::Not(b) && parses(toks, pos + 1, Construct::Postfixed(*b), p2)
            } else {
                parses(toks, pos, Construct::Postfixed(e), p2)
            }
        },
        Construct::Elements(es) => {
            if es.len() == 0 {
                p2 == pos
            } else {
                exists|p1: int|
                    {
                        &&& #[trigger] parse_split(p1, es)
                        &&& pos <= p1 <= toks.len()
                        &&& parses(toks, pos, Construct::Elements(es.drop_last()), p1)
                        &&& parses(toks, p1, Construct::Element(es.last()), p2)
                    }
            }
        },
        Construct::Sequence(e) => {
            exists|es: Seq<Expr>, p: int|
                {
                    &&& #[trigger] parse_split(p, es)
                    &&& pos <= p <= toks.len()
                    &&& parses(toks, pos, Construct::Elements(es), p)
                    &&& !can_start_element(toks, p)
                    &&& if p < toks.len() && toks[p] is FatArrow {
                        &&& p + 1 < toks.len()
                        &&& toks[p + 1] is Action
                        &&& p2 == p + 2
                        &&& e matches Expr::Sequence(v, a2) && v@ == es && a2 == Option::Some(
                            toks[p + 1]->Action_0,
                        )
                    } else {
                        &&& p2 == p
                        &&& if es.len() == 0 {
                            e == Expr::Empty
                        } else if es.len() == 1 {
                            e == es[0]
                        } else {
                            e matches Expr::Sequence(v, a2) && v@ == es && a2 is None
                        }
                    }
                }
        },
        Construct::Alternatives(tail) => {
            if tail.len() == 0 {
                p2 == pos
            } else {
                exists|p1: int|
                    {
                        &&& #[trigger] parse_split(p1, tail)
                        &&& pos <= p1 < toks.len()
                        &&& parses(toks, pos, Construct::Alternatives(tail.drop_last()), p1)
                        &&& toks[p1] is Pipe
                        &&& parses(toks, p1 + 1, Construct::Sequence(tail.last()), p2)
                    }
            }
        },
        Construct::Expression(e) => {
            exists|first: Expr, p: int, tail: Seq<Expr>|
                #![trigger parse_split(p, first), parse_split(p, tail)]
                {
                    &&& parse_split(p, first)
                    &&& parse_split(p, tail)
                    &&& pos <= p <= toks.len()
                    &&& parses(toks, pos, Construct::Sequence(first), p)
                    &&& parses(toks, p, Construct::Alternatives(tail), p2)
                    &&& !(p2 < toks.len() && toks[p2] is Pipe)
                    &&& if tail.len() == 0 {
                        e == first
                    } else {
                        e matches Expr::Choice(v) && v@ == seq![first] + tail
                    }
                }
        },
        Construct::Definition(d) => {
            &&& 0 <= pos < toks.len()
            &&& toks[pos] matches Token::Ident(n) && d.name == n
            &&& {
                let annotated = pos + 1 < toks.len() && toks[pos + 1] is Colon;
                let q = if annotated {
                    pos + 3
                } else {
                    pos + 1
                };
                &&& if annotated {
                    pos + 2 < toks.len() && (toks[pos + 2] matches Token::TypeName(t)
                        && d.decl_type == Option::Some(t))
                } else {
                    d.decl_type is None
                }
                &&& q < toks.len()
                &&& toks[q] is Equals
                &&& parses(toks, q + 1, Construct::Expression(d.body), p2)
            }
        },
        Construct::Definitions(defs) => {
            if defs.len() == 0 {
                p2 == pos
            } else {
                exists|p1: int|
                    {
                        &&& #[trigger] parse_split(p1, defs)
                        &&& pos <= p1 <= toks.len()
                        &&& parses(toks, pos, Construct::Definitions(defs.drop_last()), p1)
                        &&& parses(toks, p1, Construct::Definition(defs.last()), p2)
                    }
            }
        },
    }
}

/// What it means for `defs` to be the grammar compiled from the whole token
/// stream: one or more definitions, read until the stream is exhausted.
pub open spec fn grammar_parses(toks: Seq<Token>, defs: Seq<Definition>) -> bool {
    defs.len() > 0 && parses(toks, 0, Construct::Definitions(defs), toks.len() as int)
}

/// atom starts there: the deterministic mirror of [`parse_atom`]. Together
/// with its companions below it says exactly on which token streams the
/// grammar parser is obliged to succeed.
pub open spec fn atom_end(toks: Seq<Token>, pos: int) -> Option<int>
    decreases toks.len() - pos, 0int,
{
    if !(0 <= pos < toks.len()) {
        Option::None
    } else {
        match toks[pos] {
            Token::Ident(_) => if can_start_element(toks, pos) {
                Option::Some(pos + 1)
            } else {
                Option::None
            },
            Token::StrLit(_) => Option::Some(pos + 1),
            Token::LParen => match expression_end(toks, pos + 1) {
                Option::Some(p) => if p < toks.len() && toks[p] is RParen {
                    Option::Some(p + 1)
                } else {
                    Option::None
                },
                Option::None => Option::None,
            },
            Token::LAngle => {
                let bound = pos + 2 < toks.len() && toks[pos + 1] is Ident && toks[pos + 2]
                    is Colon;
                let q = if bound {
                    pos + 3
                } else {
                    pos + 1
                };
                match expression_end(toks, q) {
                    Option::Some(p) => if p < toks.len() && toks[p] is RAngle {
                        Option::Some(p + 1)
                    } else {
                        Option::None
                    },
                    Option::None => Option::None,
                }
            },
            _ => Option::None,
        }
    }
}

/// The position after the postfixed atom that starts at `pos`.
pub open spec fn postfixed_end(toks: Seq<Token>, pos: int) -> Option<int>
    decreases toks.len() - pos, 1int,
{
    match atom_end(toks, pos) {
        Option::Some(p1) => if p1 < toks.len() && (toks[p1] is Question || toks[p1] is Star
            || toks[p1] is Plus) {
            Option::Some(p1 + 1)
        } else {
            Option::Some(p1)
        },
        Option::None => Option::None,
    }
}

/// The position after the element that starts at `pos`.
pub open spec fn element_end(toks: Seq<Token>, pos: int) -> Option<int>
    decreases toks.len() - pos, 2int,
{
    if !(0 <= pos < toks.len()) {
        Option::None
    } else if toks[pos] is Amp || toks[pos] is Bang {
        postfixed_end(toks, pos + 1)
    } else {
        postfixed_end(toks, pos)
    }
}

/// The position after the greedy run of elements that starts at `pos`: read
/// one element while one can start, or nothing where a started element is
/// broken.
pub open spec fn elements_end(toks: Seq<Token>, pos: int) -> Option<int>
    decreases toks.len() - pos, 3int,
{
    if !(0 <= pos <= toks.len()) {
        Option::None
    } else if !can_start_element(toks, pos) {
        Option::Some(pos)
    } else {
        match element_end(toks, pos) {
            Option::Some(p1) => if pos < p1 <= toks.len() {
                elements_end(toks, p1)
            } else {
                Option::None
            },
            Option::None => Option::None,
        }
    }
}

/// The position after the sequence that starts at `pos`: the elements, then
/// an optional arrow and transformation block.
pub open spec fn sequence_end(toks: Seq<Token>, pos: int) -> Option<int>
    decreases toks.len() - pos, 4int,
{
    match elements_end(toks, pos) {
        Option::Some(p) => if p < toks.len() && toks[p] is FatArrow {
            if p + 1 < toks.len() && toks[p + 1] is Action {
                Option::Some(p + 2)
            } else {
                Option::None
            }
        } else {
            Option::Some(p)
        },
        Option::None => Option::None,
    }
}

/// The position after the alternatives behind their choice bars from `pos`.
pub open spec fn alternatives_end(toks: Seq<Token>, pos: int) -> Option<int>
    decreases toks.len() - pos, 5int,
{
    if !(0 <= pos <= toks.len()) {
        Option::None
    } else if !(pos < toks.len() && toks[pos] is Pipe) {
        Option::Some(pos)
    } else {
        match sequence_end(toks, pos + 1) {
            Option::Some(p1) => if pos < p1 <= toks.len() {
                alternatives_end(toks, p1)
            } else {
                Option::None
            },
            Option::None => Option::None,
        }
    }
}

/// The position after the expression that starts at `pos`.
pub open spec fn expression_end(toks: Seq<Token>, pos: int) -> Option<int>
    decreases toks.len() - pos, 6int,
{
    match sequence_end(toks, pos) {
        Option::Some(p) => if pos <= p <= toks.len() {
            alternatives_end(toks, p)
        } else {
            Option::None
        },
        Option::None => Option::None,
    }
}

/// The position after the rule definition that starts at `pos`.
pub open spec fn definition_end(toks: Seq<Token>, pos: int) -> Option<int>
    decreases toks.len() - pos, 7int,
{
    if !(0 <= pos < toks.len() && toks[pos] is Ident) {
        Option::None
    } else {
        let annotated = pos + 1 < toks.len() && toks[pos + 1] is Colon;
        if annotated && !(pos + 2 < toks.len() && toks[pos + 2] is TypeName) {
            Option::None
        } else {
            let q = if annotated {
                pos + 3
            } else {
                pos + 1
            };
            if q < toks.len() && toks[q] is Equals {
                expression_end(toks, q + 1)
            } else {
                Option::None
            }
        }
    }
}

/// The position after the run of rule definitions that starts at `pos`,
/// read until the token stream is exhausted.
pub open spec fn definitions_end(toks: Seq<Token>, pos: int) -> Option<int>
    decreases toks.len() - pos, 8int,
{
    if !(0 <= pos <= toks.len()) {
        Option::None
    } else if pos == toks.len() {
        Option::Some(pos)
    } else {
        match definition_end(toks, pos) {
            Option::Some(p1) => if pos < p1 <= toks.len() {
                definitions_end(toks, p1)
            } else {
                Option::None
            },
            Option::None => Option::None,
        }
    }
}

/// Whether the whole token stream is a well-formed grammar: one or more
/// definitions covering it exactly.
pub open spec fn grammar_accepts(toks: Seq<Token>) -> bool {
    toks.len() > 0 && definitions_end(toks, 0) == Option::Some(toks.len() as int)
}

/// The diagnostic the grammar parser owes for the atom at `pos`, or nothing
/// where the atom parses: with [`atom_end`] and its companions this pins the
/// parser's outcome on every input, and it carries the promise that the
/// reported violation is the first one of a left-to-right scan.
#[verifier::opaque]
pub open spec fn atom_err(toks: Seq<Token>, pos: int) -> Option<(int, Expected)>
    decreases toks.len() - pos, 0int,
{
    if !(0 <= pos < toks.len()) {
        Option::Some((pos, Expected::AtomStart))
    } else {
        match toks[pos] {
            Token::Ident(_) => if can_start_element(toks, pos) {
                Option::None
            } else {
                Option::Some((pos, Expected::AtomStart))
            },
            Token::StrLit(_) => Option::None,
            Token::LParen => match expression_err(toks, pos + 1) {
                Option::Some(e) => Option::Some(e),
                Option::None => match expression_end(toks, pos + 1) {
                    Option::Some(p) => if p < toks.len() && toks[p] is RParen {
                        Option::None
                    } else {
                        Option::Some((p, Expected::CloseParen))
                    },
                    Option::None => Option::None,
                },
            },
            Token::LAngle => {
                let bound = pos + 2 < toks.len() && toks[pos + 1] is Ident && toks[pos + 2]
                    is Colon;
                let q = if bound {
                    pos + 3
                } else {
                    pos + 1
                };
                match expression_err(toks, q) {
                    Option::Some(e) => Option::Some(e),
                    Option::None => match expression_end(toks, q) {
                        Option::Some(p) => if p < toks.len() && toks[p] is RAngle {
                            Option::None
                        } else {
                            Option::Some((p, Expected::CloseAngle))
                        },
                        Option::None => Option::None,
                    },
                }
            },
            _ => Option::Some((pos, Expected::AtomStart)),
        }
    }
}

/// The diagnostic owed for the element at `pos`, or nothing where it parses.
/// Only the atom inside can be at fault: the prefix and postfix marks never
/// are.
#[verifier::opaque]
pub open spec fn element_err(toks: Seq<Token>, pos: int) -> Option<(int, Expected)>
    decreases toks.len() - pos, 2int,
{
    if 0 <= pos < toks.len() && (toks[pos] is Amp || toks[pos] is Bang) {
        atom_err(toks, pos + 1)
    } else {
        atom_err(toks, pos)
    }
}

/// The diagnostic owed for the greedy run of elements from `pos`, or nothing
/// where the run completes.
#[verifier::opaque]
pub open spec fn elements_err(toks: Seq<Token>, pos: int) -> Option<(int, Expected)>
    decreases toks.len() - pos, 3int,
{
    if !(0 <= pos <= toks.len()) {
        Option::None
    } else if !can_start_element(toks, pos) {
        Option::None
    } else {
        match element_err(toks, pos) {
            Option::Some(e) => Option::Some(e),
            Option::None => match element_end(toks, pos) {
                Option::Some(p1) => if pos < p1 <= toks.len() {
                    elements_err(toks, p1)
                } else {
                    Option::None
                },
                Option::None => Option::None,
            },
        }
    }
}

/// The diagnostic owed for the sequence at `pos`, or nothing where it parses.
#[verifier::opaque]
pub open spec fn sequence_err(toks: Seq<Token>, pos: int) -> Option<(int, Expected)>
    decreases toks.len() - pos, 4int,
{
    match elements_err(toks, pos) {
        Option::Some(e) => Option::Some(e),
        Option::None => match elements_end(toks, pos) {
            Option::Some(p) => if p < toks.len() && toks[p] is FatArrow {
                if p + 1 < toks.len() && toks[p + 1] is Action {
                    Option::None
                } else {
                    Option::Some((p + 1, Expected::ActionBlock))
                }
            } else {
                Option::None
            },
            Option::None => Option::None,
        },
    }
}

/// The diagnostic owed for the alternatives behind their bars from `pos`.
#[verifier::opaque]
pub open spec fn alternatives_err(toks: Seq<Token>, pos: int) -> Option<(int, Expected)>
    decreases toks.len() - pos, 5int,
{
    if !(0 <= pos <= toks.len()) {
        Option::None
    } else if !(pos < toks.len() && toks[pos] is Pipe) {
        Option::None
    } else {
        match sequence_err(toks, pos + 1) {
            Option::Some(e) => Option::Some(e),
            Option::None => match sequence_end(toks, pos + 1) {
                Option::Some(p1) => if pos < p1 <= toks.len() {
                    alternatives_err(toks, p1)
                } else {
                    Option::None
                },
                Option::None => Option::None,
            },
        }
    }
}

/// The diagnostic owed for the expression at `pos`, or nothing where it
/// parses.
#[verifier::opaque]
pub open spec fn expression_err(toks: Seq<Token>, pos: int) -> Option<(int, Expected)>
    decreases toks.len() - pos, 6int,
{
    match sequence_err(toks, pos) {
        Option::Some(e) => Option::Some(e),
        Option::None => match sequence_end(toks, pos) {
            Option::Some(p) => if pos <= p <= toks.len() {
                alternatives_err(toks, p)
            } else {
                Option::None
            },
            Option::None => Option::None,
        },
    }
}

/// The diagnostic owed for the rule definition at `pos`, or nothing where it
/// parses.
#[verifier::opaque]
pub open spec fn definition_err(toks: Seq<Token>, pos: int) -> Option<(int, Expected)>
    decreases toks.len() - pos, 7int,
{
    if !(0 <= pos < toks.len() && toks[pos] is Ident) {
        Option::Some((pos, Expected::RuleName))
    } else {
        let annotated = pos + 1 < toks.len() && toks[pos + 1] is Colon;
        if annotated && !(pos + 2 < toks.len() && toks[pos + 2] is TypeName) {
            Option::Some((pos + 2, Expected::TypeAnnotation))
        } else {
            let q = if annotated {
                pos + 3
            } else {
                pos + 1
            };
            if q < toks.len() && toks[q] is Equals {
                expression_err(toks, q + 1)
            } else {
                Option::Some((q, Expected::EqualsSign))
            }
        }
    }
}

/// The diagnostic owed for the run of rule definitions from `pos`.
#[verifier::opaque]
pub open spec fn definitions_err(toks: Seq<Token>, pos: int) -> Option<(int, Expected)>
    decreases toks.len() - pos, 8int,
{
    if !(0 <= pos < toks.len()) {
        Option::None
    } else {
        match definition_err(toks, pos) {
            Option::Some(e) => Option::Some(e),
            Option::None => match definition_end(toks, pos) {
                Option::Some(p1) => if pos < p1 <= toks.len() {
                    definitions_err(toks, p1)
                } else {
                    Option::None
                },
                Option::None => Option::None,
            },
        }
    }
}

/// The one diagnostic a rejected grammar is owed: the first structural
/// violation of a left-to-right scan.
#[verifier::opaque]
pub open spec fn grammar_err(toks: Seq<Token>) -> Option<(int, Expected)> {
    if toks.len() == 0 {
        Option::Some((0, Expected::RuleName))
    } else {
        definitions_err(toks, 0)
    }
}

/// An element can only parse where an element can start.
proof fn lemma_element_can_start(toks: Seq<Token>, pos: int, e: Expr, p2: int)
    requires
        parses(toks, pos, Construct::Element(e), p2),
    ensures
        can_start_element(toks, pos),
{
    if !(toks[pos] is Amp || toks[pos] is Bang) {
        assert(parses(toks, pos, Construct::Postfixed(e), p2));
        if toks[p2 - 1] is Question {
            assert(parses(toks, pos, Construct::Atom(*e->Optional_0), p2 - 1));
        } else if toks[p2 - 1] is Star {
            assert(parses(toks, pos, Construct::Atom(*e->Many0_0), p2 - 1));
        } else if toks[p2 - 1] is Plus {
            assert(parses(toks, pos, Construct::Atom(*e->Many1_0), p2 - 1));
        } else {
            assert(parses(toks, pos, Construct::Atom(e), p2));
        }
    }
}

/// Completeness of the grammar parser, construct by construct: wherever the
/// parse relation holds, the deterministic parse succeeds and ends at the
/// same position. For the three run constructs the statement is relative:
/// the run carries the deterministic walk from its start to its end.
#[verifier::rlimit(100)]
pub proof fn lemma_parses_finds_end(toks: Seq<Token>, pos: int, what: Construct, p2: int)
    requires
        0 <= pos,
        parses(toks, pos, what, p2),
    ensures
        match what {
            Construct::Atom(_) => pos < p2 <= toks.len() && atom_end(toks, pos) == Option::Some(
                p2,
            ),
            Construct::Postfixed(_) => pos < p2 <= toks.len() && postfixed_end(toks, pos)
                == Option::Some(p2),
            Construct::Element(_) => pos < p2 <= toks.len() && element_end(toks, pos)
                == Option::Some(p2),
            Construct::Elements(es) => pos <= p2 && (es.len() > 0 ==> p2 <= toks.len())
                && elements_end(toks, pos) == elements_end(toks, p2),
            Construct::Sequence(_) => pos <= p2 <= toks.len() && sequence_end(toks, pos)
                == Option::Some(p2),
            Construct::Alternatives(tail) => pos <= p2 && (tail.len() > 0 ==> p2 <= toks.len())
                && alternatives_end(toks, pos) == alternatives_end(toks, p2),
            Construct::Expression(_) => pos <= p2 <= toks.len() && expression_end(toks, pos)
                == Option::Some(p2),
            Construct::Definition(_) => pos < p2 <= toks.len() && definition_end(toks, pos)
                == Option::Some(p2),
            Construct::Definitions(defs) => pos <= p2 && (defs.len() > 0 ==> p2 <= toks.len())
                && definitions_end(toks, pos) == definitions_end(toks, p2),
        },
    decreases toks.len() - pos, construct_layer(what), construct_width(what),
{
    match what {
        Construct::Atom(e) => {
            if toks[pos] is LParen {
                lemma_parses_finds_end(toks, pos + 1, Construct::Expression(e), p2 - 1);
                assert(expression_end(toks, pos + 1) == Option::Some(p2 - 1));
                assert(toks[p2 - 1] is RParen);
                assert(atom_end(toks, pos) == Option::Some(p2));
            } else if toks[pos] is LAngle {
                let bound = pos + 2 < toks.len() && toks[pos + 1] is Ident && toks[pos + 2]
                    is Colon;
                let q = if bound {
                    pos + 3
                } else {
                    pos + 1
                };
                lemma_parses_finds_end(
                    toks,
                    q,
                    Construct::Expression(*e->Capture_0),
                    p2 - 1,
                );
                assert(expression_end(toks, q) == Option::Some(p2 - 1));
                assert(toks[p2 - 1] is RAngle);
                assert(atom_end(toks, pos) == Option::Some(p2));
            }
        },
        Construct::Postfixed(e) => {
            if toks[p2 - 1] is Question {
                lemma_parses_finds_end(toks, pos, Construct::Atom(*e->Optional_0), p2 - 1);
            } else if toks[p2 - 1] is Star {
                lemma_parses_finds_end(toks, pos, Construct::Atom(*e->Many0_0), p2 - 1);
            } else if toks[p2 - 1] is Plus {
                lemma_parses_finds_end(toks, pos, Construct::Atom(*e->Many1_0), p2 - 1);
            } else {
                lemma_parses_finds_end(toks, pos, Construct::Atom(e), p2);
            }
        },
        Construct::Element(e) => {
            if toks[pos] is Amp {
                lemma_parses_finds_end(toks, pos + 1, Construct::Postfixed(*e->Peek_0), p2);
            } else if toks[pos] is Bang {
                lemma_parses_finds_end(toks, pos + 1, Construct::Postfixed(*e->Not_0), p2);
            } else {
                lemma_parses_finds_end(toks, pos, Construct::Postfixed(e), p2);
            }
        },
        Construct::Elements(es) => {
            if es.len() > 0 {
                let p1 = choose|p1: int|
                    {
                        &&& #[trigger] parse_split(p1, es)
                        &&& pos <= p1 <= toks.len()
                        &&& parses(toks, pos, Construct::Elements(es.drop_last()), p1)
                        &&& parses(toks, p1, Construct::Element(es.last()), p2)
                    };
                lemma_parses_finds_end(toks, pos, Construct::Elements(es.drop_last()), p1);
                lemma_parses_finds_end(toks, p1, Construct::Element(es.last()), p2);
                lemma_element_can_start(toks, p1, es.last(), p2);
                assert(elements_end(toks, p1) == elements_end(toks, p2));
            }
        },
        Construct::Sequence(e) => {
            let (es, p): (Seq<Expr>, int) = choose|es: Seq<Expr>, p: int|
                {
                    &&& #[trigger] parse_split(p, es)
                    &&& pos <= p <= toks.len()
                    &&& parses(toks, pos, Construct::Elements(es), p)
                    &&& !can_start_element(toks, p)
                    &&& if p < toks.len() && toks[p] is FatArrow {
                        &&& p + 1 < toks.len()
                        &&& toks[p + 1] is Action
                        &&& p2 == p + 2
                        &&& e matches Expr::Sequence(v, a2) && v@ == es && a2 == Option::Some(
                            toks[p + 1]->Action_0,
                        )
                    } else {
                        &&& p2 == p
                        &&& if es.len() == 0 {
                            e == Expr::Empty
                        } else if es.len() == 1 {
                            e == es[0]
                        } else {
                            e matches Expr::Sequence(v, a2) && v@ == es && a2 is None
                        }
                    }
                };
            lemma_parses_finds_end(toks, pos, Construct::Elements(es), p);
            assert(elements_end(toks, p) == Option::Some(p));
            assert(elements_end(toks, pos) == Option::Some(p));
        },
        Construct::Alternatives(tail) => {
            if tail.len() > 0 {
                let p1 = choose|p1: int|
                    {
                        &&& #[trigger] parse_split(p1, tail)
                        &&& pos <= p1 < toks.len()
                        &&& parses(toks, pos, Construct::Alternatives(tail.drop_last()), p1)
                        &&& toks[p1] is Pipe
                        &&& parses(toks, p1 + 1, Construct::Sequence(tail.last()), p2)
                    };
                lemma_parses_finds_end(toks, pos, Construct::Alternatives(tail.drop_last()), p1);
                lemma_parses_finds_end(toks, p1 + 1, Construct::Sequence(tail.last()), p2);
                assert(alternatives_end(toks, p1) == alternatives_end(toks, p2));
            }
        },
        Construct::Expression(e) => {
            let (first, p, tail): (Expr, int, Seq<Expr>) = choose|
                first: Expr,
                p: int,
                tail: Seq<Expr>,
            |
                #![trigger parse_split(p, first), parse_split(p, tail)]
                {
                    &&& parse_split(p, first)
                    &&& parse_split(p, tail)
                    &&& pos <= p <= toks.len()
                    &&& parses(toks, pos, Construct::Sequence(first), p)
                    &&& parses(toks, p, Construct::Alternatives(tail), p2)
                    &&& !(p2 < toks.len() && toks[p2] is Pipe)
                    &&& if tail.len() == 0 {
                        e == first
                    } else {
                        e matches Expr::Choice(v) && v@ == seq![first] + tail
                    }
                };
            lemma_parses_finds_end(toks, pos, Construct::Sequence(first), p);
            lemma_parses_finds_end(toks, p, Construct::Alternatives(tail), p2);
            assert(alternatives_end(toks, p2) == Option::Some(p2));
        },
        Construct::Definition(d) => {
            let annotated = pos + 1 < toks.len() && toks[pos + 1] is Colon;
            let q = if annotated {
                pos + 3
            } else {
                pos + 1
            };
            lemma_parses_finds_end(toks, q + 1, Construct::Expression(d.body), p2);
        },
        Construct::Definitions(defs) => {
            if defs.len() > 0 {
                let p1 = choose|p1: int|
                    {
                        &&& #[trigger] parse_split(p1, defs)
                        &&& pos <= p1 <= toks.len()
                        &&& parses(toks, pos, Construct::Definitions(defs.drop_last()), p1)
                        &&& parses(toks, p1, Construct::Definition(defs.last()), p2)
                    };
                lemma_parses_finds_end(toks, pos, Construct::Definitions(defs.drop_last()), p1);
                lemma_parses_finds_end(toks, p1, Construct::Definition(defs.last()), p2);
                assert(definitions_end(toks, p1) == definitions_end(toks, p2));
            }
        },
    }
}

/// A rejected token stream has no parse at all: no definition list stands in
/// the grammar relation over it.
pub proof fn lemma_rejected_has_no_parse(toks: Seq<Token>)
    requires
        !grammar_accepts(toks),
    ensures
        !(exists|defs: Seq<Definition>| grammar_parses(toks, defs)),
{
    assert forall|defs: Seq<Definition>| !grammar_parses(toks, defs) by {
        if grammar_parses(toks, defs) {
            lemma_grammar_parses_accepted(toks, defs);
        }
    }
}

/// A token stream that some definition list parses whole is accepted: the
/// grammar parser owes it a compiled grammar, never an error.
pub proof fn lemma_grammar_parses_accepted(toks: Seq<Token>, defs: Seq<Definition>)
    requires
        grammar_parses(toks, defs),
    ensures
        grammar_accepts(toks),
{
    lemma_parses_finds_end(toks, 0, Construct::Definitions(defs), toks.len() as int);
    assert(definitions_end(toks, toks.len() as int) == Option::Some(toks.len() as int));
    if toks.len() == 0 {
        let p1 = choose|p1: int|
            {
                &&& #[trigger] parse_split(p1, defs)
                &&& 0 <= p1 <= toks.len()
                &&& parses(toks, 0, Construct::Definitions(defs.drop_last()), p1)
                &&& parses(toks, p1, Construct::Definition(defs.last()), 0)
            };
        assert(false);
    }
}

/// One atom: a non-terminal reference, a literal, a parenthesized group
/// (transparent: no grouping node), or an angle-bracket capture with its
/// optional `name:` binding. An identifier followed by a colon or a bare
/// equals sign is refused here without consuming anything: it opens the next
/// rule definition.
#[verifier::rlimit(100)]
#[verifier::spinoff_prover]
pub fn parse_atom(toks: &Vec<Token>, pos: usize) -> (r: Result<(Expr, usize), SyntaxError>)
    requires
        pos <= toks@.len(),
    ensures
        match r {
            Result::Ok((e, p2)) => pos < p2 <= toks@.len(),
            Result::Err(err) => pos <= err.pos <= toks@.len(),
        },
        r matches Result::Ok((e, p2)) ==> parses(
            toks@,
            pos as int,
            Construct::Atom(e),
            p2 as int,
        ),
        pos < toks@.len() ==> match toks@[pos as int] {
            Token::StrLit(s) => r == Result::<(Expr, usize), SyntaxError>::Ok(
                (Expr::Terminal(s), (pos + 1) as usize),
            ),
            Token::Ident(n) => if can_start_element(toks@, pos as int) {
                r == Result::<(Expr, usize), SyntaxError>::Ok(
                    (Expr::NonTerminal(n), (pos + 1) as usize),
                )
            } else {
                r == Result::<(Expr, usize), SyntaxError>::Err(
                    SyntaxError { pos, expected: Expected::AtomStart },
                )
            },
            Token::LParen => true,
            Token::LAngle => (r matches Result::Ok((e, _)) ==> e is Capture),
            _ => r == Result::<(Expr, usize), SyntaxError>::Err(
                SyntaxError { pos, expected: Expected::AtomStart },
            ),
        },
        pos >= toks@.len() ==> r == Result::<(Expr, usize), SyntaxError>::Err(
            SyntaxError { pos, expected: Expected::AtomStart },
        ),
        match r {
            Result::Ok((e, p2)) => atom_end(toks@, pos as int) == Option::Some(p2 as int)
                && atom_err(toks@, pos as int) is None,
            Result::Err(err) => atom_end(toks@, pos as int) is None && atom_err(
                toks@,
                pos as int,
            ) == Option::Some((err.pos as int, err.expected)),
        },
    decreases toks@.len() - pos, 0int,
{
    proof {
        reveal(atom_err);
    }
    if pos >= toks.len() {
        return Result::Err(SyntaxError { pos, expected: Expected::AtomStart });
    }
    match &toks[pos] {
        Token::Ident(n) => {
            if check_element_start(toks, pos) {
                Result::Ok((Expr::NonTerminal(n.clone()), pos + 1))
            } else {
                Result::Err(SyntaxError { pos, expected: Expected::AtomStart })
            }
        },
        Token::StrLit(s) => Result::Ok((Expr::Terminal(s.clone()), pos + 1)),
        Token::LParen => {
            match parse_expression(toks, pos + 1) {
                Result::Ok((inner, p)) => {
                    if p < toks.len() && (match &toks[p] {
                        Token::RParen => true,
                        _ => false,
                    }) {
                        proof {
                            assert(parses(toks@, pos + 1, Construct::Expression(inner), p as int));
                        }
                        Result::Ok((inner, p + 1))
                    } else {
                        Result::Err(SyntaxError { pos: p, expected: Expected::CloseParen })
                    }
                },
                Result::Err(err) => Result::Err(err),
            }
        },
        Token::LAngle => {
            let has_binding = toks.len() - pos > 2 && (match &toks[pos + 1] {
                Token::Ident(_) => true,
                _ => false,
            }) && (match &toks[pos + 2] {
                Token::Colon => true,
                _ => false,
            });
            let binding: Option<String> = if has_binding {
                match &toks[pos + 1] {
                    Token::Ident(b) => Option::Some(b.clone()),
                    _ => Option::None,
                }
            } else {
                Option::None
            };
            let q = if has_binding {
                pos + 3
            } else {
                pos + 1
            };
            match parse_expression(toks, q) {
                Result::Ok((inner, p)) => {
                    if p < toks.len() && (match &toks[p] {
                        Token::RAngle => true,
                        _ => false,
                    }) {
                        let e = Expr::Capture(Box::new(inner), binding);
                        proof {
                            assert(e matches Expr::Capture(b, _) && *b == inner);
                            assert(parses(toks@, q as int, Construct::Expression(inner), p as int));
                        }
                        Result::Ok((e, p + 1))
                    } else {
                        Result::Err(SyntaxError { pos: p, expected: Expected::CloseAngle })
                    }
                },
                Result::Err(err) => Result::Err(err),
            }
        },
        _ => Result::Err(SyntaxError { pos, expected: Expected::AtomStart }),
    }
}

/// One element: an optional lookahead prefix, an atom, an optional repetition
/// postfix. A prefixed and postfixed atom is built postfix first, then
/// wrapped by the prefix: `&a*` is a lookahead at the whole repetition.
#[verifier::rlimit(100)]
#[verifier::spinoff_prover]
pub fn parse_element(toks: &Vec<Token>, pos: usize) -> (r: Result<(Expr, usize), SyntaxError>)
    requires
        pos <= toks@.len(),
    ensures
        match r {
            Result::Ok((e, p2)) => pos < p2 <= toks@.len(),
            Result::Err(err) => pos <= err.pos <= toks@.len(),
        },
        (pos < toks@.len() && toks@[pos as int] is Amp) ==> (r matches Result::Ok((e, _)) ==> e
            is Peek),
        (pos < toks@.len() && toks@[pos as int] is Bang) ==> (r matches Result::Ok((e, _)) ==> e
            is Not),
        r matches Result::Ok((e, p2)) ==> parses(
            toks@,
            pos as int,
            Construct::Element(e),
            p2 as int,
        ),
        match r {
            Result::Ok((e, p2)) => element_end(toks@, pos as int) == Option::Some(p2 as int)
                && element_err(toks@, pos as int) is None,
            Result::Err(err) => element_end(toks@, pos as int) is None && element_err(
                toks@,
                pos as int,
            ) == Option::Some((err.pos as int, err.expected)),
        },
    decreases toks@.len() - pos, 1int,
{
    proof {
        reveal(element_err);
    }
    let (prefix, p0): (Option<bool>, usize) = if pos < toks.len() {
        match &toks[pos] {
            Token::Amp => (Option::Some(true), pos + 1),
            Token::Bang => (Option::Some(false), pos + 1),
            _ => (Option::None, pos),
        }
    } else {
        (Option::None, pos)
    };
    match parse_atom(toks, p0) {
        Result::Ok((atom, p1)) => {
            let (wrapped, p2): (Expr, usize) = if p1 < toks.len() {
                match &toks[p1] {
                    Token::Question => (Expr::Optional(Box::new(atom)), p1 + 1),
                    Token::Star => (Expr::Many0(Box::new(atom)), p1 + 1),
                    Token::Plus => (Expr::Many1(Box::new(atom)), p1 + 1),
                    _ => (atom, p1),
                }
            } else {
                (atom, p1)
            };
            proof {
                assert(parses(toks@, p0 as int, Construct::Postfixed(wrapped), p2 as int)) by {
                    if p1 < toks@.len() && (toks@[p1 as int] is Question || toks@[p1 as int]
                        is Star || toks@[p1 as int] is Plus) {
                        assert(wrapped matches Expr::Optional(b) ==> *b == atom);
                        assert(wrapped matches Expr::Many0(b) ==> *b == atom);
                        assert(wrapped matches Expr::Many1(b) ==> *b == atom);
                    }
                }
            }
            match prefix {
                Option::Some(true) => {
                    let e = Expr::Peek(Box::new(wrapped));
                    proof {
                        assert(e matches Expr::Peek(b) && *b == wrapped);
                    }
                    Result::Ok((e, p2))
                },
                Option::Some(false) => {
                    let e = Expr::Not(Box::new(wrapped));
                    proof {
                        assert(e matches Expr::Not(b) && *b == wrapped);
                    }
                    Result::Ok((e, p2))
                },
                Option::None => Result::Ok((wrapped, p2)),
            }
        },
        Result::Err(err) => Result::Err(err),
    }
}

/// One sequence: elements read greedily while one can start, then an optional
/// arrow and transformation block. No element and no block collapse to the
/// zero-width match; a single element with no block stands unwrapped.
#[verifier::rlimit(100)]
#[verifier::spinoff_prover]
pub fn parse_sequence(toks: &Vec<Token>, pos: usize) -> (r: Result<(Expr, usize), SyntaxError>)
    requires
        pos <= toks@.len(),
    ensures
        match r {
            Result::Ok((e, p2)) => pos <= p2 <= toks@.len(),
            Result::Err(err) => pos <= err.pos <= toks@.len(),
        },
        !can_start_element(toks@, pos as int) && !(pos < toks@.len() && toks@[pos as int]
            is FatArrow) ==> r == Result::<(Expr, usize), SyntaxError>::Ok(
            (Expr::Empty, pos),
        ),
        can_start_element(toks@, pos as int) ==> (r matches Result::Ok((e, p2)) ==> p2 > pos),
        r matches Result::Ok((e, p2)) ==> parses(
            toks@,
            pos as int,
            Construct::Sequence(e),
            p2 as int,
        ),
        match r {
            Result::Ok((e, p2)) => sequence_end(toks@, pos as int) == Option::Some(p2 as int)
                && sequence_err(toks@, pos as int) is None,
            Result::Err(err) => sequence_end(toks@, pos as int) is None && sequence_err(
                toks@,
                pos as int,
            ) == Option::Some((err.pos as int, err.expected)),
        },
    decreases toks@.len() - pos, 2int,
{
    proof {
        reveal(elements_err);
        reveal(sequence_err);
    }
    let mut elems: Vec<Expr> = Vec::new();
    let mut p: usize = pos;
    while check_element_start(toks, p)
        invariant
            pos <= p <= toks@.len(),
            elems@.len() == 0 ==> p == pos,
            (p == pos && elems@.len() == 0) || can_start_element(toks@, pos as int),
            parses(toks@, pos as int, Construct::Elements(elems@), p as int),
            elements_end(toks@, pos as int) == elements_end(toks@, p as int),
            elements_err(toks@, pos as int) == elements_err(toks@, p as int),
        decreases toks@.len() - p,
    {
        proof {
            reveal(elements_err);
            reveal(sequence_err);
        }
        match parse_element(toks, p) {
            Result::Ok((e, p1)) => {
                let ghost olds = elems@;
                let ghost oldp = p as int;
                proof {
                    assert(parse_split(oldp, olds.push(e)));
                    assert(olds.push(e).drop_last() =~= olds);
                    assert(parses(
                        toks@,
                        pos as int,
                        Construct::Elements(olds.push(e).drop_last()),
                        oldp,
                    ));
                    assert(olds.push(e).last() == e);
                    assert(parses(toks@, oldp, Construct::Element(olds.push(e).last()), p1 as int));
                }
                elems.push(e);
                p = p1;
            },
            Result::Err(err) => {
                return Result::Err(err);
            },
        }
    }
    let ghost pelems = p as int;
    let mut action: Option<ActionExpr> = Option::None;
    let mut has_action = false;
    if p < toks.len() && (match &toks[p] {
        Token::FatArrow => true,
        _ => false,
    }) {
        if p + 1 < toks.len() && (match &toks[p + 1] {
            Token::Action(_) => true,
            _ => false,
        }) {
            action = match &toks[p + 1] {
                Token::Action(a) => Option::Some(action_clone(a)),
                _ => Option::None,
            };
            has_action = true;
            p = p + 2;
        } else {
            return Result::Err(SyntaxError { pos: p + 1, expected: Expected::ActionBlock });
        }
    }
    if elems.len() == 0 && !has_action {
        proof {
            assert(parses(toks@, pos as int, Construct::Sequence(Expr::Empty), p as int)) by {
                assert(parse_split(p as int, elems@));
                assert(parses(toks@, pos as int, Construct::Elements(elems@), p as int));
            }
        }
        Result::Ok((Expr::Empty, p))
    } else if elems.len() == 1 && !has_action {
        let ghost es = elems@;
        let e = match elems.pop() {
            Option::Some(e) => e,
            Option::None => Expr::Empty,
        };
        proof {
            assert(e == es[0]);
            assert(parses(toks@, pos as int, Construct::Sequence(e), p as int)) by {
                assert(parse_split(p as int, es));
                assert(parses(toks@, pos as int, Construct::Elements(es), p as int));
            }
        }
        Result::Ok((e, p))
    } else {
        let ghost es = elems@;
        let ghost act = action;
        let e = Expr::Sequence(elems, action);
        proof {
            assert(e matches Expr::Sequence(v, a2) && v@ == es && a2 == act);
            assert(parses(toks@, pos as int, Construct::Sequence(e), p as int)) by {
                assert(parse_split(pelems, es));
                assert(parses(toks@, pos as int, Construct::Elements(es), pelems));
            }
        }
        Result::Ok((e, p))
    }
}

/// One expression: sequences separated by the choice bar, strictly ordered.
/// A single alternative stands unwrapped; two or more form an ordered choice.
#[verifier::rlimit(100)]
#[verifier::spinoff_prover]
pub fn parse_expression(toks: &Vec<Token>, pos: usize) -> (r: Result<(Expr, usize), SyntaxError>)
    requires
        pos <= toks@.len(),
    ensures
        match r {
            Result::Ok((e, p2)) => pos <= p2 <= toks@.len() && !(p2 < toks@.len() && toks@[p2
                as int] is Pipe),
            Result::Err(err) => pos <= err.pos <= toks@.len(),
        },
        r matches Result::Ok((e, p2)) ==> parses(
            toks@,
            pos as int,
            Construct::Expression(e),
            p2 as int,
        ),
        match r {
            Result::Ok((e, p2)) => expression_end(toks@, pos as int) == Option::Some(p2 as int)
                && expression_err(toks@, pos as int) is None,
            Result::Err(err) => expression_end(toks@, pos as int) is None && expression_err(
                toks@,
                pos as int,
            ) == Option::Some((err.pos as int, err.expected)),
        },
    decreases toks@.len() - pos, 3int,
{
    proof {
        reveal(alternatives_err);
        reveal(expression_err);
    }
    let first = match parse_sequence(toks, pos) {
        Result::Ok(fp) => fp,
        Result::Err(err) => {
            return Result::Err(err);
        },
    };
    let ghost pstart = first.1 as int;
    let mut alts: Vec<Expr> = Vec::new();
    alts.push(first.0);
    let n = toks.len();
    let mut p: usize = first.1;
    proof {
        assert(alts@.drop_first() =~= Seq::<Expr>::empty());
    }
    while at_pipe(toks, p)
        invariant
            n == toks@.len(),
            pos <= pstart <= p <= toks@.len(),
            alts@.len() >= 1,
            alts@[0] == first.0,
            parses(toks@, pos as int, Construct::Sequence(alts@[0]), pstart),
            parses(toks@, pstart, Construct::Alternatives(alts@.drop_first()), p as int),
            sequence_end(toks@, pos as int) == Option::Some(pstart),
            sequence_err(toks@, pos as int) is None,
            alternatives_end(toks@, pstart) == alternatives_end(toks@, p as int),
            alternatives_err(toks@, pstart) == alternatives_err(toks@, p as int),
        decreases toks@.len() - p,
    {
        proof {
            reveal(alternatives_err);
            reveal(expression_err);
        }
        match parse_sequence(toks, p + 1) {
            Result::Ok((e, p1)) => {
                let ghost tail = alts@.drop_first();
                let ghost oldp = p as int;
                proof {
                    assert(parse_split(oldp, tail.push(e)));
                    assert(alts@.push(e).drop_first() =~= tail.push(e));
                    assert(tail.push(e).drop_last() =~= tail);
                    assert(parses(
                        toks@,
                        pstart,
                        Construct::Alternatives(tail.push(e).drop_last()),
                        oldp,
                    ));
                    assert(tail.push(e).last() == e);
                    assert(parses(
                        toks@,
                        oldp + 1,
                        Construct::Sequence(tail.push(e).last()),
                        p1 as int,
                    ));
                    assert(alts@.push(e)[0] == alts@[0]);
                }
                alts.push(e);
                p = p1;
            },
            Result::Err(err) => {
                return Result::Err(err);
            },
        }
    }
    if alts.len() == 1 {
        let e = match alts.pop() {
            Option::Some(e) => e,
            Option::None => Expr::Empty,
        };
        proof {
            assert(e == first.0);
            assert(parses(toks@, pos as int, Construct::Expression(e), p as int)) by {
                assert(parse_split(pstart, first.0));
                assert(parse_split(pstart, Seq::<Expr>::empty()));
                assert(parses(toks@, pos as int, Construct::Sequence(first.0), pstart));
                assert(parses(
                    toks@,
                    pstart,
                    Construct::Alternatives(Seq::<Expr>::empty()),
                    p as int,
                ));
            }
        }
        Result::Ok((e, p))
    } else {
        let ghost av = alts@;
        let e = Expr::Choice(alts);
        proof {
            assert(e matches Expr::Choice(v) && v@ == av);
            assert(av =~= seq![first.0] + av.drop_first());
            assert(parses(toks@, pos as int, Construct::Expression(e), p as int)) by {
                assert(parse_split(pstart, first.0));
                assert(parse_split(pstart, av.drop_first()));
                assert(parses(toks@, pos as int, Construct::Sequence(first.0), pstart));
                assert(parses(toks@, pstart, Construct::Alternatives(av.drop_first()), p as int));
            }
        }
        Result::Ok((e, p))
    }
}

/// One rule definition: a name, an optional type annotation, the equals sign,
/// and the body expression.
#[verifier::rlimit(100)]
#[verifier::spinoff_prover]
pub fn parse_definition(toks: &Vec<Token>, pos: usize) -> (r: Result<
    (Definition, usize),
    SyntaxError,
>)
    requires
        pos <= toks@.len(),
    ensures
        match r {
            Result::Ok((d, p2)) => pos < p2 <= toks@.len() && (match toks@[pos as int] {
                Token::Ident(n) => d.name == n,
                _ => false,
            }) && (if pos + 1 < toks@.len() && toks@[pos + 1] is Colon {
                pos + 2 < toks@.len() && (match toks@[pos + 2] {
                    Token::TypeName(t) => d.decl_type == Option::Some(t),
                    _ => false,
                })
            } else {
                d.decl_type is None
            }),
            Result::Err(err) => pos <= err.pos <= toks@.len(),
        },
        !(pos < toks@.len() && toks@[pos as int] is Ident) ==> r == Result::<
            (Definition, usize),
            SyntaxError,
        >::Err(SyntaxError { pos, expected: Expected::RuleName }),
        r matches Result::Ok((d, p2)) ==> parses(
            toks@,
            pos as int,
            Construct::Definition(d),
            p2 as int,
        ),
        match r {
            Result::Ok((d, p2)) => definition_end(toks@, pos as int) == Option::Some(p2 as int)
                && definition_err(toks@, pos as int) is None,
            Result::Err(err) => definition_end(toks@, pos as int) is None && definition_err(
                toks@,
                pos as int,
            ) == Option::Some((err.pos as int, err.expected)),
        },
{
    proof {
        reveal(definition_err);
    }
    if pos >= toks.len() {
        return Result::Err(SyntaxError { pos, expected: Expected::RuleName });
    }
    let name = match &toks[pos] {
        Token::Ident(n) => n.clone(),
        _ => {
            return Result::Err(SyntaxError { pos, expected: Expected::RuleName });
        },
    };
    let mut p: usize = pos + 1;
    let mut decl_type: Option<String> = Option::None;
    if p < toks.len() && (match &toks[p] {
        Token::Colon => true,
        _ => false,
    }) {
        if p + 1 < toks.len() && (match &toks[p + 1] {
            Token::TypeName(_) => true,
            _ => false,
        }) {
            decl_type = match &toks[p + 1] {
                Token::TypeName(t) => Option::Some(t.clone()),
                _ => Option::None,
            };
            p = p + 2;
        } else {
            return Result::Err(SyntaxError { pos: p + 1, expected: Expected::TypeAnnotation });
        }
    }
    if p < toks.len() && (match &toks[p] {
        Token::Equals => true,
        _ => false,
    }) {
        p = p + 1;
    } else {
        return Result::Err(SyntaxError { pos: p, expected: Expected::EqualsSign });
    }
    match parse_expression(toks, p) {
        Result::Ok((body, p2)) => {
            let d = Definition { name, decl_type, body };
            proof {
                assert(parses(toks@, p as int, Construct::Expression(d.body), p2 as int));
            }
            Result::Ok((d, p2))
        },
        Result::Err(err) => Result::Err(err),
    }
}

/// Compiles a grammar: one or more rule definitions read until the token
/// stream is exhausted. Compilation is all or nothing, and success is owed:
/// a stream that any definition list parses is compiled to a non-empty
/// definition list standing in the parse relation, and any other stream is
/// refused with exactly the diagnostic of the first structural violation in
/// a left-to-right scan.
#[verifier::rlimit(100)]
#[verifier::spinoff_prover]
pub fn grammar(toks: &Vec<Token>) -> (r: Result<Grammar, SyntaxError>)
    ensures
        match r {
            Result::Ok(g) => g.defs@.len() > 0 && toks@.len() > 0 && (match toks@[0] {
                Token::Ident(n) => g.defs@[0].name == n,
                _ => false,
            }),
            Result::Err(err) => err.pos <= toks@.len(),
        },
        toks@.len() == 0 ==> r == Result::<Grammar, SyntaxError>::Err(
            SyntaxError { pos: 0, expected: Expected::RuleName },
        ),
        toks@.len() > 0 && !(toks@[0] is Ident) ==> r == Result::<Grammar, SyntaxError>::Err(
            SyntaxError { pos: 0, expected: Expected::RuleName },
        ),
        r matches Result::Ok(g) ==> grammar_parses(toks@, g.defs@),
        r is Ok <==> grammar_accepts(toks@),
        r matches Result::Err(err) ==> grammar_err(toks@) == Option::Some(
            (err.pos as int, err.expected),
        ),
        (exists|defs: Seq<Definition>| grammar_parses(toks@, defs)) ==> r is Ok,
{
    proof {
        reveal(definitions_err);
        reveal(grammar_err);
    }
    let mut defs: Vec<Definition> = Vec::new();
    let mut p: usize = 0;
    if toks.len() == 0 {
        proof {
            lemma_rejected_has_no_parse(toks@);
        }
        return Result::Err(SyntaxError { pos: 0, expected: Expected::RuleName });
    }
    while p < toks.len()
        invariant
            p <= toks@.len(),
            p > 0 ==> defs@.len() > 0,
            defs@.len() > 0 ==> (match toks@[0] {
                Token::Ident(n) => defs@[0].name == n,
                _ => false,
            }),
            defs@.len() == 0 ==> p == 0,
            parses(toks@, 0, Construct::Definitions(defs@), p as int),
            definitions_end(toks@, 0) == definitions_end(toks@, p as int),
            definitions_err(toks@, 0) == definitions_err(toks@, p as int),
        decreases toks@.len() - p,
    {
        proof {
            reveal(definitions_err);
            reveal(grammar_err);
        }
        match parse_definition(toks, p) {
            Result::Ok((d, p1)) => {
                let ghost olds = defs@;
                let ghost oldp = p as int;
                proof {
                    assert(parse_split(oldp, olds.push(d)));
                    assert(olds.push(d).drop_last() =~= olds);
                    assert(parses(toks@, 0, Construct::Definitions(olds.push(d).drop_last()), oldp));
                    assert(olds.push(d).last() == d);
                    assert(parses(
                        toks@,
                        oldp,
                        Construct::Definition(olds.push(d).last()),
                        p1 as int,
                    ));
                }
                defs.push(d);
                p = p1;
            },
            Result::Err(err) => {
                proof {
                    assert(definitions_end(toks@, p as int) is None);
                    lemma_rejected_has_no_parse(toks@);
                }
                return Result::Err(err);
            },
        }
    }
    Result::Ok(Grammar { defs })
}

} // verus!
