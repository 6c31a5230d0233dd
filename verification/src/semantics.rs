//! The meaning of a compiled grammar: a mathematical evaluator that says, for
//! every expression tree, input, position and fuel budget, what outcome a run
//! has. The executable interpreter is proved equal to this evaluator, and the
//! general laws of the library are proved about it.

use vstd::prelude::*;

verus! {

use crate::ast::{ActionExpr, Definition, Expr, ValS};

/// Why a run was cut short. These are not match failures: a match failure is
/// an ordinary, recoverable outcome, while an abort means the run could not
/// be carried to an outcome at all.
pub enum Abort {
    /// The fuel budget ran out before the run settled; a left-recursive rule
    /// always ends here, whatever the budget.
    OutOfFuel,
    /// A non-terminal named a rule that the grammar does not define. Name
    /// resolution is deferred to run time by design.
    UnknownRule(Seq<char>),
    /// A transformation block went wrong: an unbound name, a projection out
    /// of range, arithmetic outside `i64`, or an operand of the wrong shape.
    BadAction,
    /// A position left the input. The evaluator never reaches this from a
    /// position inside the input; it only keeps the definition total.
    BadPosition,
}

/// The outcome of evaluating one expression at one position.
pub enum Out {
    /// The match succeeded: the new position, and the value produced.
    Parsed(int, ValS),
    /// The match failed; the position is where the mismatch occurred.
    NoParse(int),
    Aborted(Abort),
}

/// The outcome of matching a run of sequence elements: the end position and
/// the per-element values, one slot per element, in original order.
pub enum ElemsOut {
    Parsed(int, Seq<ValS>),
    NoParse(int),
    Aborted(Abort),
}

/// The outcome of greedy repetition: the end position and the matched values
/// in order. Repetition never fails, so there is no failure arm.
pub enum ManyOut {
    Parsed(int, Seq<ValS>),
    Aborted(Abort),
}

/// The first definition carrying this name, if any: duplicate names resolve
/// to the earliest definition.
pub open spec fn find_def(defs: Seq<Definition>, name: Seq<char>) -> Option<Definition>
    decreases defs.len(),
{
    if defs.len() == 0 {
        Option::None
    } else if defs[0].name@ == name {
        Option::Some(defs[0])
    } else {
        find_def(defs.drop_first(), name)
    }
}

/// Whether an element is a capture marker.
pub open spec fn is_capture(e: Expr) -> bool {
    e matches Expr::Capture(_, _)
}

/// Whether an element is a capture marker with no binding name.
pub open spec fn is_anon_capture(e: Expr) -> bool {
    e matches Expr::Capture(_, Option::None)
}

/// Whether an element is a capture marker binding `name`.
pub open spec fn is_named_capture(e: Expr, name: Seq<char>) -> bool {
    match e {
        Expr::Capture(_, Option::Some(n)) => n@ == name,
        _ => false,
    }
}

/// Whether any element of a sequence is a capture marker.
pub open spec fn has_capture(elems: Seq<Expr>) -> bool {
    exists|j: int| 0 <= j < elems.len() && #[trigger] is_capture(elems[j])
}

/// The value bound to `name` by the elements before position `i`: the value
/// of the rightmost named capture carrying that name, so that a repeated
/// name silently shadows earlier uses.
pub open spec fn named_lookup(
    elems: Seq<Expr>,
    vals: Seq<ValS>,
    name: Seq<char>,
    i: int,
) -> Option<ValS>
    decreases i,
{
    if i <= 0 || i > elems.len() || vals.len() != elems.len() {
        Option::None
    } else if is_named_capture(elems[i - 1], name) {
        Option::Some(vals[i - 1])
    } else {
        named_lookup(elems, vals, name, i - 1)
    }
}

/// The values of the anonymous captures among elements `i` onward, in
/// original relative order.
pub open spec fn anon_values(elems: Seq<Expr>, vals: Seq<ValS>, i: int) -> Seq<ValS>
    decreases elems.len() - i,
{
    if !(0 <= i < elems.len()) || vals.len() != elems.len() {
        Seq::empty()
    } else if is_anon_capture(elems[i]) {
        seq![vals[i]] + anon_values(elems, vals, i + 1)
    } else {
        anon_values(elems, vals, i + 1)
    }
}

/// An anonymous tuple collapses as parentheses do: a single value stands
/// alone, any other count forms a tuple (zero forms the unit value).
pub open spec fn anon_result(anon: Seq<ValS>) -> ValS {
    if anon.len() == 1 {
        anon[0]
    } else {
        ValS::Tuple(anon)
    }
}

/// The conventional `result` of a sequence: with no capture among the
/// elements, all element values; otherwise the anonymous captures' values.
/// Either list collapses as [`anon_result`] says, so a lone value stands
/// bare.
pub open spec fn default_result(elems: Seq<Expr>, vals: Seq<ValS>) -> ValS {
    if has_capture(elems) {
        anon_result(anon_values(elems, vals, 0))
    } else {
        anon_result(vals)
    }
}

/// What a name means inside a transformation block: a named capture first,
/// with the rightmost use of a repeated name winning; otherwise the
/// conventional name `result`; otherwise nothing.
pub open spec fn binding_lookup(
    elems: Seq<Expr>,
    vals: Seq<ValS>,
    name: Seq<char>,
) -> Option<ValS> {
    match named_lookup(elems, vals, name, elems.len() as int) {
        Option::Some(v) => Option::Some(v),
        Option::None => if name == "result"@ {
            Option::Some(default_result(elems, vals))
        } else {
            Option::None
        },
    }
}

/// Whether every character is a decimal digit.
pub open spec fn all_digits(s: Seq<char>) -> bool {
    forall|i: int| 0 <= i < s.len() ==> '0' <= #[trigger] s[i] <= '9'
}

/// The integer written by a sequence of decimal digits.
pub open spec fn digits_value(s: Seq<char>) -> int
    decreases s.len(),
{
    if s.len() == 0 {
        0
    } else {
        digits_value(s.drop_last()) * 10 + (s.last() as int - '0' as int)
    }
}

/// The concatenation of a list of text values, or nothing if any member is
/// not text.
pub open spec fn join_texts(vs: Seq<ValS>) -> Option<Seq<char>>
    decreases vs.len(),
{
    if vs.len() == 0 {
        Option::Some(Seq::empty())
    } else {
        match join_texts(vs.drop_last()) {
            Option::Some(rest) => match vs.last() {
                ValS::Text(s) => Option::Some(rest + s),
                _ => Option::None,
            },
            Option::None => Option::None,
        }
    }
}

/// Signed division truncating toward zero, as the executable `/` does.
pub open spec fn div_trunc(a: int, b: int) -> int {
    let q = abs_int(a) / abs_int(b);
    if (a < 0) != (b < 0) {
        -q
    } else {
        q
    }
}

/// The absolute value of an integer.
pub open spec fn abs_int(a: int) -> int {
    if a < 0 {
        -a
    } else {
        a
    }
}

/// Whether an integer fits the executable integer type.
pub open spec fn in_i64(a: int) -> bool {
    i64::MIN <= a <= i64::MAX
}

/// The value of a transformation block under the bindings a sequence's
/// elements establish, or nothing where the block goes wrong: an unbound
/// name, a projection out of range, an operand of the wrong shape,
/// arithmetic outside `i64`, or division by zero.
pub open spec fn eval_action(a: ActionExpr, elems: Seq<Expr>, vals: Seq<ValS>) -> Option<ValS>
    decreases a,
{
    match a {
        ActionExpr::Bound(n) => binding_lookup(elems, vals, n@),
        ActionExpr::Field(b, ix) => match eval_action(*b, elems, vals) {
            Option::Some(ValS::Tuple(vs)) => if (ix as int) < vs.len() {
                Option::Some(vs[ix as int])
            } else {
                Option::None
            },
            _ => Option::None,
        },
        ActionExpr::Add(l, r) => match (eval_action(*l, elems, vals), eval_action(*r, elems, vals)) {
            (Option::Some(ValS::Int(x)), Option::Some(ValS::Int(y))) => if in_i64(x + y) {
                Option::Some(ValS::Int(x + y))
            } else {
                Option::None
            },
            _ => Option::None,
        },
        ActionExpr::Sub(l, r) => match (eval_action(*l, elems, vals), eval_action(*r, elems, vals)) {
            (Option::Some(ValS::Int(x)), Option::Some(ValS::Int(y))) => if in_i64(x - y) {
                Option::Some(ValS::Int(x - y))
            } else {
                Option::None
            },
            _ => Option::None,
        },
        ActionExpr::Mul(l, r) => match (eval_action(*l, elems, vals), eval_action(*r, elems, vals)) {
            (Option::Some(ValS::Int(x)), Option::Some(ValS::Int(y))) => if in_i64(x * y) {
                Option::Some(ValS::Int(x * y))
            } else {
                Option::None
            },
            _ => Option::None,
        },
        ActionExpr::Div(l, r) => match (eval_action(*l, elems, vals), eval_action(*r, elems, vals)) {
            (Option::Some(ValS::Int(x)), Option::Some(ValS::Int(y))) => if y != 0 && in_i64(
                div_trunc(x, y),
            ) {
                Option::Some(ValS::Int(div_trunc(x, y)))
            } else {
                Option::None
            },
            _ => Option::None,
        },
        ActionExpr::Lit(s) => Option::Some(ValS::Text(s@)),
        ActionExpr::Join(b) => match eval_action(*b, elems, vals) {
            Option::Some(ValS::List(vs)) => match join_texts(vs) {
                Option::Some(s) => Option::Some(ValS::Text(s)),
                Option::None => Option::None,
            },
            _ => Option::None,
        },
        ActionExpr::ToInt(b) => match eval_action(*b, elems, vals) {
            Option::Some(ValS::Text(s)) => if s.len() > 0 && all_digits(s) && digits_value(s)
                <= i64::MAX {
                Option::Some(ValS::Int(digits_value(s)))
            } else {
                Option::None
            },
            _ => Option::None,
        },
    }
}

/// The result of a sequence whose elements produced `vals`: the value of the
/// transformation block when one is present, else the conventional `result`.
pub open spec fn sequence_result(
    elems: Seq<Expr>,
    act: Option<ActionExpr>,
    vals: Seq<ValS>,
) -> Option<ValS> {
    match act {
        Option::Some(a) => eval_action(a, elems, vals),
        Option::None => Option::Some(default_result(elems, vals)),
    }
}

/// The outcome of one expression at `pos`, under the rule namespace `defs`.
/// `fuel` bounds how many times evaluation may pass through a non-terminal;
/// nothing else consumes it.
pub open spec fn eval(defs: Seq<Definition>, e: Expr, inp: Seq<char>, pos: int, fuel: nat) -> Out
    decreases fuel, inp.len() - pos, e, 0int,
{
    if !(0 <= pos <= inp.len()) {
        Out::Aborted(Abort::BadPosition)
    } else {
        match e {
            Expr::Empty => Out::Parsed(pos, ValS::Text(Seq::empty())),
            Expr::Terminal(lit) => if pos + lit@.len() <= inp.len() && inp.subrange(
                pos,
                pos + lit@.len(),
            ) == lit@ {
                Out::Parsed(pos + lit@.len(), ValS::Text(lit@))
            } else {
                Out::NoParse(pos)
            },
            Expr::NonTerminal(name) => match find_def(defs, name@) {
                Option::Some(d) => if fuel == 0 {
                    Out::Aborted(Abort::OutOfFuel)
                } else {
                    eval(defs, d.body, inp, pos, (fuel - 1) as nat)
                },
                Option::None => Out::Aborted(Abort::UnknownRule(name@)),
            },
            Expr::Capture(inner, _) => eval(defs, *inner, inp, pos, fuel),
            Expr::Sequence(es, act) => match eval_elems(defs, es@, inp, pos, fuel) {
                ElemsOut::Parsed(end, vals) => match sequence_result(es@, act, vals) {
                    Option::Some(v) => Out::Parsed(end, v),
                    Option::None => Out::Aborted(Abort::BadAction),
                },
                ElemsOut::NoParse(p) => Out::NoParse(p),
                ElemsOut::Aborted(k) => Out::Aborted(k),
            },
            Expr::Choice(alts) => eval_alts(defs, alts@, inp, pos, fuel),
            Expr::Many0(inner) => match eval_many(defs, *inner, inp, pos, fuel) {
                ManyOut::Parsed(end, vs) => Out::Parsed(end, ValS::List(vs)),
                ManyOut::Aborted(k) => Out::Aborted(k),
            },
            Expr::Many1(inner) => match eval(defs, *inner, inp, pos, fuel) {
                Out::Parsed(p1, v) => if p1 == pos {
                    Out::Parsed(p1, ValS::List(seq![v]))
                } else if !(pos < p1 <= inp.len()) {
                    Out::Aborted(Abort::BadPosition)
                } else {
                    match eval_many(defs, *inner, inp, p1, fuel) {
                        ManyOut::Parsed(end, vs) => Out::Parsed(end, ValS::List(seq![v] + vs)),
                        ManyOut::Aborted(k) => Out::Aborted(k),
                    }
                },
                Out::NoParse(p) => Out::NoParse(p),
                Out::Aborted(k) => Out::Aborted(k),
            },
            Expr::Optional(inner) => match eval(defs, *inner, inp, pos, fuel) {
                Out::Parsed(p1, v) => Out::Parsed(p1, ValS::Maybe(Option::Some(Box::new(v)))),
                Out::NoParse(_) => Out::Parsed(pos, ValS::Maybe(Option::None)),
                Out::Aborted(k) => Out::Aborted(k),
            },
            Expr::Peek(inner) => match eval(defs, *inner, inp, pos, fuel) {
                Out::Parsed(_, v) => Out::Parsed(pos, v),
                Out::NoParse(p) => Out::NoParse(p),
                Out::Aborted(k) => Out::Aborted(k),
            },
            Expr::Not(inner) => match eval(defs, *inner, inp, pos, fuel) {
                Out::Parsed(_, _) => Out::NoParse(pos),
                Out::NoParse(_) => Out::Parsed(pos, ValS::Tuple(Seq::empty())),
                Out::Aborted(k) => Out::Aborted(k),
            },
        }
    }
}

/// The elements of a sequence, matched in order from `pos`: all must match,
/// and every element fills one slot of the outcome, captured or not.
pub open spec fn eval_elems(
    defs: Seq<Definition>,
    es: Seq<Expr>,
    inp: Seq<char>,
    pos: int,
    fuel: nat,
) -> ElemsOut
    decreases fuel, inp.len() - pos, es, 0int,
{
    if !(0 <= pos <= inp.len()) {
        ElemsOut::Aborted(Abort::BadPosition)
    } else if es.len() == 0 {
        ElemsOut::Parsed(pos, Seq::empty())
    } else {
        match eval(defs, es[0], inp, pos, fuel) {
            Out::Parsed(p1, v) => if !(pos <= p1 <= inp.len()) {
                ElemsOut::Aborted(Abort::BadPosition)
            } else {
                match eval_elems(defs, es.drop_first(), inp, p1, fuel) {
                    ElemsOut::Parsed(end, vs) => ElemsOut::Parsed(end, seq![v] + vs),
                    ElemsOut::NoParse(p) => ElemsOut::NoParse(p),
                    ElemsOut::Aborted(k) => ElemsOut::Aborted(k),
                }
            },
            Out::NoParse(p) => ElemsOut::NoParse(p),
            Out::Aborted(k) => ElemsOut::Aborted(k),
        }
    }
}

/// Ordered choice over the alternatives from `pos`: strictly in listed
/// order, committing to the first success; when every alternative fails, the
/// failure is reported at the choice's own position.
pub open spec fn eval_alts(
    defs: Seq<Definition>,
    alts: Seq<Expr>,
    inp: Seq<char>,
    pos: int,
    fuel: nat,
) -> Out
    decreases fuel, inp.len() - pos, alts, 0int,
{
    if !(0 <= pos <= inp.len()) {
        Out::Aborted(Abort::BadPosition)
    } else if alts.len() == 0 {
        Out::NoParse(pos)
    } else {
        match eval(defs, alts[0], inp, pos, fuel) {
            Out::Parsed(p1, v) => Out::Parsed(p1, v),
            Out::NoParse(_) => eval_alts(defs, alts.drop_first(), inp, pos, fuel),
            Out::Aborted(k) => Out::Aborted(k),
        }
    }
}

/// Greedy repetition of `inner` from `pos`: match after match until one
/// fails, collecting the values in order. A zero-width match is kept and
/// ends the repetition, so that repetition terminates on every input.
pub open spec fn eval_many(
    defs: Seq<Definition>,
    inner: Expr,
    inp: Seq<char>,
    pos: int,
    fuel: nat,
) -> ManyOut
    decreases fuel, inp.len() - pos, inner, 1int,
{
    if !(0 <= pos <= inp.len()) {
        ManyOut::Aborted(Abort::BadPosition)
    } else {
        match eval(defs, inner, inp, pos, fuel) {
            Out::Parsed(p1, v) => if p1 == pos {
                ManyOut::Parsed(pos, seq![v])
            } else if !(pos < p1 <= inp.len()) {
                ManyOut::Aborted(Abort::BadPosition)
            } else {
                match eval_many(defs, inner, inp, p1, fuel) {
                    ManyOut::Parsed(end, vs) => ManyOut::Parsed(end, seq![v] + vs),
                    ManyOut::Aborted(k) => ManyOut::Aborted(k),
                }
            },
            Out::NoParse(_) => ManyOut::Parsed(pos, Seq::empty()),
            Out::Aborted(k) => ManyOut::Aborted(k),
        }
    }
}

/// The outcome of running the rule named `name` from `pos`.
pub open spec fn eval_rule(
    defs: Seq<Definition>,
    name: Seq<char>,
    inp: Seq<char>,
    pos: int,
    fuel: nat,
) -> Out {
    match find_def(defs, name) {
        Option::Some(d) => if fuel == 0 {
            Out::Aborted(Abort::OutOfFuel)
        } else {
            eval(defs, d.body, inp, pos, (fuel - 1) as nat)
        },
        Option::None => Out::Aborted(Abort::UnknownRule(name)),
    }
}

/// From a position inside the input, every outcome's position is again inside
/// the input, at or after the start, and the evaluator never reports
/// [`Abort::BadPosition`].
pub proof fn lemma_eval_bounds(defs: Seq<Definition>, e: Expr, inp: Seq<char>, pos: int, fuel: nat)
    requires
        0 <= pos <= inp.len(),
    ensures
        match eval(defs, e, inp, pos, fuel) {
            Out::Parsed(end, _) => pos <= end <= inp.len(),
            Out::NoParse(p) => pos <= p <= inp.len(),
            Out::Aborted(k) => !(k is BadPosition),
        },
    decreases fuel, inp.len() - pos, e, 0int,
{
    match e {
        Expr::NonTerminal(name) => {
            if find_def(defs, name@) is Some && fuel > 0 {
                lemma_eval_bounds(defs, find_def(defs, name@)->Some_0.body, inp, pos, (fuel - 1) as nat);
            }
        },
        Expr::Capture(inner, _) => {
            lemma_eval_bounds(defs, *inner, inp, pos, fuel);
        },
        Expr::Sequence(es, act) => {
            lemma_eval_elems_bounds(defs, es@, inp, pos, fuel);
        },
        Expr::Choice(alts) => {
            lemma_eval_alts_bounds(defs, alts@, inp, pos, fuel);
        },
        Expr::Many0(inner) => {
            lemma_eval_many_bounds(defs, *inner, inp, pos, fuel);
        },
        Expr::Many1(inner) => {
            lemma_eval_bounds(defs, *inner, inp, pos, fuel);
            if let Out::Parsed(p1, _) = eval(defs, *inner, inp, pos, fuel) {
                if p1 != pos {
                    lemma_eval_many_bounds(defs, *inner, inp, p1, fuel);
                }
            }
        },
        Expr::Optional(inner) => {
            lemma_eval_bounds(defs, *inner, inp, pos, fuel);
        },
        Expr::Peek(inner) => {
            lemma_eval_bounds(defs, *inner, inp, pos, fuel);
        },
        Expr::Not(inner) => {
            lemma_eval_bounds(defs, *inner, inp, pos, fuel);
        },
        _ => {},
    }
}

/// The bounds of [`lemma_eval_bounds`], for a run of sequence elements.
pub proof fn lemma_eval_elems_bounds(
    defs: Seq<Definition>,
    es: Seq<Expr>,
    inp: Seq<char>,
    pos: int,
    fuel: nat,
)
    requires
        0 <= pos <= inp.len(),
    ensures
        match eval_elems(defs, es, inp, pos, fuel) {
            ElemsOut::Parsed(end, vals) => pos <= end <= inp.len() && vals.len() == es.len(),
            ElemsOut::NoParse(p) => pos <= p <= inp.len(),
            ElemsOut::Aborted(k) => !(k is BadPosition),
        },
    decreases fuel, inp.len() - pos, es, 0int,
{
    if es.len() > 0 {
        lemma_eval_bounds(defs, es[0], inp, pos, fuel);
        if let Out::Parsed(p1, _) = eval(defs, es[0], inp, pos, fuel) {
            lemma_eval_elems_bounds(defs, es.drop_first(), inp, p1, fuel);
        }
    }
}

/// The bounds of [`lemma_eval_bounds`], for the alternatives of a choice.
pub proof fn lemma_eval_alts_bounds(
    defs: Seq<Definition>,
    alts: Seq<Expr>,
    inp: Seq<char>,
    pos: int,
    fuel: nat,
)
    requires
        0 <= pos <= inp.len(),
    ensures
        match eval_alts(defs, alts, inp, pos, fuel) {
            Out::Parsed(end, _) => pos <= end <= inp.len(),
            Out::NoParse(p) => pos <= p <= inp.len(),
            Out::Aborted(k) => !(k is BadPosition),
        },
    decreases fuel, inp.len() - pos, alts, 0int,
{
    if alts.len() > 0 {
        lemma_eval_bounds(defs, alts[0], inp, pos, fuel);
        if eval(defs, alts[0], inp, pos, fuel) is NoParse {
            lemma_eval_alts_bounds(defs, alts.drop_first(), inp, pos, fuel);
        }
    }
}

/// The bounds of [`lemma_eval_bounds`], for greedy repetition.
pub proof fn lemma_eval_many_bounds(
    defs: Seq<Definition>,
    inner: Expr,
    inp: Seq<char>,
    pos: int,
    fuel: nat,
)
    requires
        0 <= pos <= inp.len(),
    ensures
        match eval_many(defs, inner, inp, pos, fuel) {
            ManyOut::Parsed(end, _) => pos <= end <= inp.len(),
            ManyOut::Aborted(k) => !(k is BadPosition),
        },
    decreases fuel, inp.len() - pos, inner, 1int,
{
    lemma_eval_bounds(defs, inner, inp, pos, fuel);
    if let Out::Parsed(p1, _) = eval(defs, inner, inp, pos, fuel) {
        if pos < p1 <= inp.len() {
            lemma_eval_many_bounds(defs, inner, inp, p1, fuel);
        }
    }
}

/// A run of decimal digits names a non-negative integer, and no prefix of it
/// names a larger one.
pub proof fn lemma_digits_grow(s: Seq<char>, j: int)
    requires
        0 <= j <= s.len(),
        all_digits(s),
    ensures
        0 <= digits_value(s),
        digits_value(s.take(j)) <= digits_value(s),
    decreases s.len(),
{
    if s.len() == 0 {
        assert(s.take(j) =~= s);
    } else {
        assert(all_digits(s.drop_last()));
        lemma_digits_grow(s.drop_last(), if j < s.len() { j } else { j - 1 });
        if j == s.len() {
            assert(s.take(j) =~= s);
        } else {
            assert(s.drop_last().take(j) =~= s.take(j));
        }
    }
}

/// Once a prefix of the list fails to join, the whole list fails to join.
pub proof fn lemma_join_prefix_none(vs: Seq<ValS>, j: int)
    requires
        0 <= j <= vs.len(),
        join_texts(vs.take(j)) is None,
    ensures
        join_texts(vs) is None,
    decreases vs.len(),
{
    if j == vs.len() {
        assert(vs.take(j) =~= vs);
    } else {
        assert(vs.drop_last().take(j) =~= vs.take(j));
        lemma_join_prefix_none(vs.drop_last(), j);
    }
}

/// [`div_trunc`] agrees with the case-by-case form of truncating division
/// that the executable checked division is specified by.
pub proof fn lemma_div_trunc_cases(x: int, d: int)
    requires
        d != 0,
    ensures
        x == 0 ==> div_trunc(x, d) == 0,
        x > 0 && d > 0 ==> div_trunc(x, d) == x / d,
        x < 0 && d < 0 ==> div_trunc(x, d) == (x * -1) / (d * -1),
        x < 0 && d > 0 ==> div_trunc(x, d) == ((x * -1) / d) * -1,
        x > 0 && d < 0 ==> div_trunc(x, d) == (x / (d * -1)) * -1,
{
    if x == 0 {
        assert(abs_int(x) / abs_int(d) == 0);
    }
}

} // verus!
