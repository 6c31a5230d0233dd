//! The data model of a compiled grammar: the expression tree that the grammar
//! parser builds and the interpreter consumes, the token stream that feeds the
//! grammar parser, and the values that running a compiled rule produces.

use vstd::prelude::*;

verus! {

/// One token of grammar source, already lexically classified by the host's
/// tokenizer. The compiler never sees raw characters of grammar source: it
/// reads this stream.
#[derive(Debug, PartialEq)]
pub enum Token {
    /// A rule name or a non-terminal reference.
    Ident(String),
    /// A string literal, to be matched verbatim against input.
    StrLit(String),
    /// The type named by a rule's declared-type annotation.
    TypeName(String),
    /// A transformation block, already read by the host into the small
    /// action language; the grammar parser relocates it unexamined.
    Action(ActionExpr),
    Colon,
    Equals,
    FatArrow,
    Pipe,
    Amp,
    Bang,
    Question,
    Star,
    Plus,
    LParen,
    RParen,
    LAngle,
    RAngle,
}

/// A transformation block attached to a sequence: a small expression language
/// over the bindings that capture resolution puts in scope.
#[derive(Debug, PartialEq)]
pub enum ActionExpr {
    /// A binding by name; the conventional name `result` is looked up the
    /// same way as any named capture.
    Bound(String),
    /// Projection of one slot out of a tuple value.
    Field(Box<ActionExpr>, usize),
    Add(Box<ActionExpr>, Box<ActionExpr>),
    Sub(Box<ActionExpr>, Box<ActionExpr>),
    Mul(Box<ActionExpr>, Box<ActionExpr>),
    Div(Box<ActionExpr>, Box<ActionExpr>),
    /// A string constant.
    Lit(String),
    /// Concatenation of a list of text values into one text value.
    Join(Box<ActionExpr>),
    /// A text value of decimal digits read as an integer.
    ToInt(Box<ActionExpr>),
}

/// The expression tree: the intermediate representation of one rule body.
#[derive(Debug, PartialEq)]
pub enum Expr {
    /// Matches zero-width, always succeeds.
    Empty,
    /// Matches the literal exactly.
    Terminal(String),
    /// A reference, by name, to another rule of the same grammar.
    NonTerminal(String),
    /// Marks the inner result as of interest to the directly enclosing
    /// sequence, by name when one is given, positionally otherwise. It has
    /// no matching semantics of its own.
    Capture(Box<Expr>, Option<String>),
    /// Elements matched in order, with an optional transformation block
    /// computing the final value from the elements' results.
    Sequence(Vec<Expr>, Option<ActionExpr>),
    /// Ordered choice: the first alternative to succeed wins.
    Choice(Vec<Expr>),
    /// Zero-or-more repetition; never fails.
    Many0(Box<Expr>),
    /// One-or-more repetition; fails exactly when no match occurs.
    Many1(Box<Expr>),
    /// Zero-or-one; never fails.
    Optional(Box<Expr>),
    /// Positive lookahead: zero-width in every outcome.
    Peek(Box<Expr>),
    /// Negative lookahead: zero-width in every outcome.
    Not(Box<Expr>),
}

/// One named rule: `name (":" type)? "=" body`.
#[derive(Debug, PartialEq)]
pub struct Definition {
    pub name: String,
    pub decl_type: Option<String>,
    pub body: Expr,
}

/// The compiled unit for one grammar: a non-empty, ordered list of rule
/// definitions, acting as the namespace in which non-terminal references
/// resolve by name.
#[derive(Debug, PartialEq)]
pub struct Grammar {
    pub defs: Vec<Definition>,
}

/// A value produced by running a compiled rule over input.
#[derive(Debug, PartialEq)]
pub enum Value {
    /// A matched span of input, or any other text result.
    Text(String),
    Int(i64),
    /// The ordered per-element results of a sequence; `Tuple` of length zero
    /// is the unit value.
    Tuple(Vec<Value>),
    /// The ordered results of a repetition.
    List(Vec<Value>),
    /// Presence (with value) or absence, from an optional match.
    Maybe(Option<Box<Value>>),
}

/// The mathematical shape of a [`Value`]: text as a sequence of characters,
/// integers unbounded. Contracts speak of values through this form.
pub enum ValS {
    Text(Seq<char>),
    Int(int),
    Tuple(Seq<ValS>),
    List(Seq<ValS>),
    Maybe(Option<Box<ValS>>),
}

/// The model of an executable [`Value`].
pub open spec fn val_view(v: Value) -> ValS
    decreases v,
{
    match v {
        Value::Text(s) => ValS::Text(s@),
        Value::Int(i) => ValS::Int(i as int),
        Value::Tuple(vs) => ValS::Tuple(vals_view(vs@)),
        Value::List(vs) => ValS::List(vals_view(vs@)),
        Value::Maybe(o) => ValS::Maybe(
            match o {
                Option::Some(b) => Option::Some(Box::new(val_view(*b))),
                Option::None => Option::None,
            },
        ),
    }
}

/// The models of the values of a sequence, element by element, in order.
pub open spec fn vals_view(vs: Seq<Value>) -> Seq<ValS>
    decreases vs,
{
    if vs.len() == 0 {
        Seq::empty()
    } else {
        vals_view(vs.drop_last()).push(val_view(vs.last()))
    }
}

/// Element models line up one to one with the elements.
pub proof fn lemma_vals_view_index(vs: Seq<Value>, i: int)
    requires
        0 <= i < vs.len(),
    ensures
        vals_view(vs).len() == vs.len(),
        vals_view(vs)[i] == val_view(vs[i]),
    decreases vs.len(),
{
    if vs.len() > 0 {
        if i < vs.len() - 1 {
            lemma_vals_view_index(vs.drop_last(), i);
        } else {
            lemma_vals_view_len(vs.drop_last());
        }
    }
}

/// The model of a value list keeps its length.
pub proof fn lemma_vals_view_len(vs: Seq<Value>)
    ensures
        vals_view(vs).len() == vs.len(),
    decreases vs.len(),
{
    if vs.len() > 0 {
        lemma_vals_view_len(vs.drop_last());
    }
}

/// The model of a pushed value list is the pushed model.
pub proof fn lemma_vals_view_push(vs: Seq<Value>, v: Value)
    ensures
        vals_view(vs.push(v)) == vals_view(vs).push(val_view(v)),
{
    assert(vs.push(v).drop_last() =~= vs);
    assert(vs.push(v).last() == v);
}

/// The model of concatenated value lists is the concatenated models.
pub proof fn lemma_vals_view_concat(a: Seq<Value>, b: Seq<Value>)
    ensures
        vals_view(a + b) == vals_view(a) + vals_view(b),
    decreases b.len(),
{
    if b.len() == 0 {
        assert(a + b =~= a);
        assert(vals_view(a) + vals_view(b) =~= vals_view(a));
    } else {
        lemma_vals_view_concat(a, b.drop_last());
        assert((a + b).drop_last() =~= a + b.drop_last());
        assert((a + b).last() == b.last());
        lemma_vals_view_push(a + b.drop_last(), b.last());
        assert(vals_view(b.drop_last()).push(val_view(b.last())) =~= vals_view(b)) by {
            lemma_vals_view_push(b.drop_last(), b.last());
            assert(b.drop_last().push(b.last()) =~= b);
        }
        assert(vals_view(a) + vals_view(b.drop_last()).push(val_view(b.last())) =~= vals_view(a)
            + vals_view(b));
        assert(vals_view(a + b) == (vals_view(a) + vals_view(b.drop_last())).push(
            val_view(b.last()),
        ));
        assert((vals_view(a) + vals_view(b.drop_last())).push(val_view(b.last())) =~= vals_view(a)
            + vals_view(b));
    }
}

} // verus!
