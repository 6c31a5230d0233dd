//! The executable interpreter: runs a compiled grammar over input, and is
//! proved to return exactly what the mathematical evaluator in
//! [`crate::semantics`] says.

use vstd::prelude::*;

verus! {

use crate::ast::{lemma_vals_view_concat, lemma_vals_view_index, lemma_vals_view_len,
    lemma_vals_view_push, val_view, vals_view, ActionExpr, Definition, Expr, Grammar, ValS, Value};
use crate::semantics::{all_digits, anon_values, default_result, digits_value, eval, eval_action,
    eval_alts, eval_elems, eval_many, eval_rule, find_def, has_capture, is_anon_capture,
    is_capture, is_named_capture, join_texts, lemma_digits_grow, lemma_div_trunc_cases,
    lemma_eval_bounds, lemma_eval_elems_bounds, lemma_join_prefix_none, named_lookup, Abort,
    ElemsOut, ManyOut, Out};

/// Why a run was cut short, as the interpreter reports it.
#[derive(Debug, PartialEq)]
pub enum AbortKind {
    /// The fuel budget ran out; a left-recursive rule always ends here.
    OutOfFuel,
    /// A non-terminal named a rule the grammar does not define.
    UnknownRule(String),
    /// A transformation block went wrong.
    BadAction,
}

/// The outcome of running a rule or an expression over input.
#[derive(Debug, PartialEq)]
pub enum RunOut {
    /// The match succeeded: the position after the consumed input, and the
    /// value produced.
    Parsed(usize, Value),
    /// The match failed at the carried position; an ordinary, recoverable
    /// outcome.
    NoParse(usize),
    Aborted(AbortKind),
}

/// The model of an [`AbortKind`].
pub open spec fn abort_view(k: AbortKind) -> Abort {
    match k {
        AbortKind::OutOfFuel => Abort::OutOfFuel,
        AbortKind::UnknownRule(s) => Abort::UnknownRule(s@),
        AbortKind::BadAction => Abort::BadAction,
    }
}

/// The model of a [`RunOut`].
pub open spec fn run_out_view(r: RunOut) -> Out {
    match r {
        RunOut::Parsed(p, v) => Out::Parsed(p as int, val_view(v)),
        RunOut::NoParse(p) => Out::NoParse(p as int),
        RunOut::Aborted(k) => Out::Aborted(abort_view(k)),
    }
}

/// Character-for-character string equality.
fn str_eq(a: &str, b: &str) -> (r: bool)
    ensures
        r == (a@ == b@),
{
    let an = a.unicode_len();
    let bn = b.unicode_len();
    if an != bn {
        return false;
    }
    let mut i: usize = 0;
    while i < an
        invariant
            an == a@.len(),
            an == b@.len(),
            i <= an,
            forall|j: int| 0 <= j < i ==> a@[j] == b@[j],
        decreases an - i,
    {
        if a.get_char(i) != b.get_char(i) {
            return false;
        }
        i = i + 1;
    }
    proof {
        assert(a@ =~= b@);
    }
    true
}

/// Whether the literal stands verbatim in the input at `pos`.
fn match_lit(inp: &str, pos: usize, lit: &str) -> (r: bool)
    requires
        pos <= inp@.len(),
    ensures
        r == (pos + lit@.len() <= inp@.len() && inp@.subrange(
            pos as int,
            pos + lit@.len(),
        ) == lit@),
{
    let n = inp.unicode_len();
    let ln = lit.unicode_len();
    if ln > n - pos {
        return false;
    }
    let mut j: usize = 0;
    while j < ln
        invariant
            n == inp@.len(),
            ln == lit@.len(),
            pos + ln <= n,
            j <= ln,
            forall|k: int| 0 <= k < j ==> inp@[pos + k] == lit@[k],
        decreases ln - j,
    {
        if inp.get_char(pos + j) != lit.get_char(j) {
            proof {
                assert(inp@.subrange(pos as int, pos + lit@.len())[j as int] != lit@[j as int]);
            }
            return false;
        }
        j = j + 1;
    }
    proof {
        assert(inp@.subrange(pos as int, pos + lit@.len()) =~= lit@);
    }
    true
}

/// The first definition carrying this name, as [`find_def`] picks it.
fn find_rule<'a>(defs: &'a Vec<Definition>, name: &str) -> (r: Option<&'a Definition>)
    ensures
        match r {
            Option::Some(d) => find_def(defs@, name@) == Option::Some(*d),
            Option::None => find_def(defs@, name@) is None,
        },
{
    let mut i: usize = 0;
    proof {
        assert(defs@.skip(0) =~= defs@);
    }
    while i < defs.len()
        invariant
            i <= defs@.len(),
            find_def(defs@, name@) == find_def(defs@.skip(i as int), name@),
        decreases defs@.len() - i,
    {
        proof {
            assert(defs@.skip(i as int)[0] == defs@[i as int]);
            assert(defs@.skip(i as int).drop_first() =~= defs@.skip(i as int + 1));
        }
        if str_eq(defs[i].name.as_str(), name) {
            return Option::Some(&defs[i]);
        }
        i = i + 1;
    }
    proof {
        assert(defs@.skip(defs@.len() as int).len() == 0);
    }
    Option::None
}

/// A structural copy of a value, equal to the original in the model.
pub fn val_clone(v: &Value) -> (r: Value)
    ensures
        val_view(r) == val_view(*v),
    decreases *v,
{
    match v {
        Value::Text(s) => Value::Text(s.clone()),
        Value::Int(i) => Value::Int(*i),
        Value::Tuple(vs) => Value::Tuple(vals_clone(vs)),
        Value::List(vs) => Value::List(vals_clone(vs)),
        Value::Maybe(o) => match o {
            Option::Some(b) => Value::Maybe(Option::Some(Box::new(val_clone(&**b)))),
            Option::None => Value::Maybe(Option::None),
        },
    }
}

/// A structural copy of a list of values.
fn vals_clone(vs: &Vec<Value>) -> (r: Vec<Value>)
    ensures
        vals_view(r@) == vals_view(vs@),
    decreases vs@,
{
    let mut out: Vec<Value> = Vec::new();
    let mut i: usize = 0;
    proof {
        assert(vs@.take(0) =~= Seq::<Value>::empty());
    }
    while i < vs.len()
        invariant
            i <= vs@.len(),
            vals_view(out@) == vals_view(vs@.take(i as int)),
        decreases vs@.len() - i,
    {
        let c = val_clone(&vs[i]);
        proof {
            lemma_vals_view_push(out@, c);
            lemma_vals_view_push(vs@.take(i as int), vs@[i as int]);
            assert(vs@.take(i as int).push(vs@[i as int]) =~= vs@.take(i as int + 1));
        }
        out.push(c);
        i = i + 1;
    }
    proof {
        assert(vs@.take(vs@.len() as int) =~= vs@);
    }
    out
}

/// The value a run of decimal digits names, when it is one and fits `i64`.
fn text_to_int(s: &str) -> (r: Option<i64>)
    ensures
        match r {
            Option::Some(k) => s@.len() > 0 && all_digits(s@) && digits_value(s@) == k as int,
            Option::None => !(s@.len() > 0 && all_digits(s@) && digits_value(s@) <= i64::MAX),
        },
{
    let n = s.unicode_len();
    if n == 0 {
        return Option::None;
    }
    let mut acc: i64 = 0;
    let mut i: usize = 0;
    proof {
        assert(s@.take(0) =~= Seq::<char>::empty());
    }
    while i < n
        invariant
            n == s@.len(),
            i <= n,
            all_digits(s@.take(i as int)),
            acc as int == digits_value(s@.take(i as int)),
            0 <= acc,
        decreases n - i,
    {
        let c = s.get_char(i);
        if c < '0' || c > '9' {
            proof {
                assert(!all_digits(s@));
            }
            return Option::None;
        }
        let d: i64 = (c as u32 - '0' as u32) as i64;
        proof {
            assert(s@.take(i as int + 1).drop_last() =~= s@.take(i as int));
            assert(s@.take(i as int + 1).last() == s@[i as int]);
            assert(all_digits(s@.take(i as int + 1)));
        }
        let big = match acc.checked_mul(10) {
            Option::Some(w) => w.checked_add(d),
            Option::None => Option::None,
        };
        match big {
            Option::Some(v) => {
                acc = v;
            },
            Option::None => {
                proof {
                    assert(digits_value(s@.take(i as int + 1)) > i64::MAX);
                    if all_digits(s@) {
                        lemma_digits_grow(s@, i as int + 1);
                    }
                }
                return Option::None;
            },
        }
        i = i + 1;
    }
    proof {
        assert(s@.take(n as int) =~= s@);
    }
    Option::Some(acc)
}

/// The concatenation of a list of text values, when every member is text.
fn join_list(vs: &Vec<Value>) -> (r: Option<String>)
    ensures
        match r {
            Option::Some(t) => join_texts(vals_view(vs@)) == Option::Some(t@),
            Option::None => join_texts(vals_view(vs@)) is None,
        },
{
    let ghost vsv = vals_view(vs@);
    proof {
        lemma_vals_view_len(vs@);
    }
    let mut acc = String::new();
    let mut i: usize = 0;
    proof {
        assert(vals_view(vs@.take(0)) =~= Seq::<ValS>::empty());
        assert(vsv.take(0) =~= vals_view(vs@.take(0)));
    }
    while i < vs.len()
        invariant
            vsv == vals_view(vs@),
            vsv.len() == vs@.len(),
            i <= vs@.len(),
            join_texts(vsv.take(i as int)) == Option::Some(acc@),
        decreases vs@.len() - i,
    {
        proof {
            assert(vsv.take(i as int + 1).drop_last() =~= vsv.take(i as int));
            lemma_vals_view_index(vs@, i as int);
            assert(vsv.take(i as int + 1).last() == val_view(vs@[i as int]));
        }
        match &vs[i] {
            Value::Text(t) => {
                acc.append(t.as_str());
            },
            _ => {
                proof {
                    assert(join_texts(vsv.take(i as int + 1)) is None);
                    lemma_join_prefix_none(vsv, i as int + 1);
                }
                return Option::None;
            },
        }
        i = i + 1;
    }
    proof {
        assert(vsv.take(vs@.len() as int) =~= vsv);
    }
    Option::Some(acc)
}

/// Whether any element of the sequence is a capture marker.
fn any_capture(elems: &Vec<Expr>) -> (r: bool)
    ensures
        r == has_capture(elems@),
{
    let mut i: usize = 0;
    while i < elems.len()
        invariant
            i <= elems@.len(),
            forall|j: int| 0 <= j < i ==> !(#[trigger] is_capture(elems@[j])),
        decreases elems@.len() - i,
    {
        match &elems[i] {
            Expr::Capture(_, _) => {
                proof {
                    assert(is_capture(elems@[i as int]));
                }
                return true;
            },
            _ => {
                proof {
                    assert(!is_capture(elems@[i as int]));
                }
            },
        }
        i = i + 1;
    }
    false
}

/// The value of the rightmost named capture carrying `name`, if any.
fn lookup_named(elems: &Vec<Expr>, vals: &Vec<Value>, name: &str) -> (r: Option<Value>)
    requires
        vals@.len() == elems@.len(),
    ensures
        match r {
            Option::Some(v) => named_lookup(
                elems@,
                vals_view(vals@),
                name@,
                elems@.len() as int,
            ) == Option::Some(val_view(v)),
            Option::None => named_lookup(
                elems@,
                vals_view(vals@),
                name@,
                elems@.len() as int,
            ) is None,
        },
{
    let ghost vsv = vals_view(vals@);
    proof {
        lemma_vals_view_len(vals@);
    }
    let mut i: usize = elems.len();
    while i > 0
        invariant
            vsv == vals_view(vals@),
            vsv.len() == vals@.len(),
            vals@.len() == elems@.len(),
            i <= elems@.len(),
            named_lookup(elems@, vsv, name@, elems@.len() as int) == named_lookup(
                elems@,
                vsv,
                name@,
                i as int,
            ),
        decreases i,
    {
        i = i - 1;
        let hit = match &elems[i] {
            Expr::Capture(_, Option::Some(n)) => str_eq(n.as_str(), name),
            _ => false,
        };
        proof {
            assert(hit == is_named_capture(elems@[i as int], name@));
        }
        if hit {
            proof {
                lemma_vals_view_index(vals@, i as int);
            }
            return Option::Some(val_clone(&vals[i]));
        }
    }
    Option::None
}

/// The conventional `result` of a sequence, per [`default_result`].
fn compute_default(elems: &Vec<Expr>, vals: &Vec<Value>) -> (r: Value)
    requires
        vals@.len() == elems@.len(),
    ensures
        val_view(r) == default_result(elems@, vals_view(vals@)),
{
    let ghost vsv = vals_view(vals@);
    proof {
        lemma_vals_view_len(vals@);
    }
    if !any_capture(elems) {
        if vals.len() == 1 {
            proof {
                lemma_vals_view_index(vals@, 0);
            }
            return val_clone(&vals[0]);
        }
        return Value::Tuple(vals_clone(vals));
    }
    let mut out: Vec<Value> = Vec::new();
    let mut i: usize = 0;
    while i < elems.len()
        invariant
            vsv == vals_view(vals@),
            vsv.len() == vals@.len(),
            vals@.len() == elems@.len(),
            i <= elems@.len(),
            has_capture(elems@),
            anon_values(elems@, vsv, 0) == vals_view(out@) + anon_values(elems@, vsv, i as int),
        decreases elems@.len() - i,
    {
        let anon = match &elems[i] {
            Expr::Capture(_, Option::None) => true,
            _ => false,
        };
        proof {
            assert(anon == is_anon_capture(elems@[i as int]));
        }
        if anon {
            let c = val_clone(&vals[i]);
            proof {
                lemma_vals_view_index(vals@, i as int);
                lemma_vals_view_push(out@, c);
                assert(vals_view(out@).push(vsv[i as int]) =~= vals_view(out@) + seq![
                    vsv[i as int],
                ]);
                assert((vals_view(out@) + seq![vsv[i as int]]) + anon_values(
                    elems@,
                    vsv,
                    i as int + 1,
                ) =~= vals_view(out@) + (seq![vsv[i as int]] + anon_values(
                    elems@,
                    vsv,
                    i as int + 1,
                )));
            }
            out.push(c);
        }
        i = i + 1;
    }
    proof {
        assert(vals_view(out@) + anon_values(elems@, vsv, elems@.len() as int) =~= vals_view(
            out@,
        ));
        lemma_vals_view_len(out@);
    }
    if out.len() == 1 {
        let ghost anon = anon_values(elems@, vsv, 0);
        proof {
            lemma_vals_view_index(out@, 0);
            assert(anon[0] == val_view(out@[0]));
        }
        let v = out.pop();
        match v {
            Option::Some(v0) => v0,
            Option::None => Value::Tuple(Vec::new()),
        }
    } else {
        Value::Tuple(out)
    }
}

/// The value of a transformation block, per [`eval_action`].
fn run_action(a: &ActionExpr, elems: &Vec<Expr>, vals: &Vec<Value>) -> (r: Option<Value>)
    requires
        vals@.len() == elems@.len(),
    ensures
        match r {
            Option::Some(v) => eval_action(*a, elems@, vals_view(vals@)) == Option::Some(
                val_view(v),
            ),
            Option::None => eval_action(*a, elems@, vals_view(vals@)) is None,
        },
    decreases *a,
{
    match a {
        ActionExpr::Bound(n) => match lookup_named(elems, vals, n.as_str()) {
            Option::Some(v) => Option::Some(v),
            Option::None => if str_eq(n.as_str(), "result") {
                Option::Some(compute_default(elems, vals))
            } else {
                Option::None
            },
        },
        ActionExpr::Field(b, ix) => match run_action(&**b, elems, vals) {
            Option::Some(Value::Tuple(vs2)) => if *ix < vs2.len() {
                proof {
                    lemma_vals_view_index(vs2@, *ix as int);
                }
                Option::Some(val_clone(&vs2[*ix]))
            } else {
                proof {
                    lemma_vals_view_len(vs2@);
                }
                Option::None
            },
            _ => Option::None,
        },
        ActionExpr::Add(l, r2) => match (run_action(&**l, elems, vals), run_action(
            &**r2,
            elems,
            vals,
        )) {
            (Option::Some(Value::Int(x)), Option::Some(Value::Int(y))) => match x.checked_add(y) {
                Option::Some(z) => Option::Some(Value::Int(z)),
                Option::None => Option::None,
            },
            _ => Option::None,
        },
        ActionExpr::Sub(l, r2) => match (run_action(&**l, elems, vals), run_action(
            &**r2,
            elems,
            vals,
        )) {
            (Option::Some(Value::Int(x)), Option::Some(Value::Int(y))) => match x.checked_sub(y) {
                Option::Some(z) => Option::Some(Value::Int(z)),
                Option::None => Option::None,
            },
            _ => Option::None,
        },
        ActionExpr::Mul(l, r2) => match (run_action(&**l, elems, vals), run_action(
            &**r2,
            elems,
            vals,
        )) {
            (Option::Some(Value::Int(x)), Option::Some(Value::Int(y))) => match x.checked_mul(y) {
                Option::Some(z) => Option::Some(Value::Int(z)),
                Option::None => Option::None,
            },
            _ => Option::None,
        },
        ActionExpr::Div(l, r2) => match (run_action(&**l, elems, vals), run_action(
            &**r2,
            elems,
            vals,
        )) {
            (Option::Some(Value::Int(x)), Option::Some(Value::Int(y))) => if y == 0 {
                Option::None
            } else {
                proof {
                    lemma_div_trunc_cases(x as int, y as int);
                }
                match x.checked_div(y) {
                    Option::Some(z) => Option::Some(Value::Int(z)),
                    Option::None => Option::None,
                }
            },
            _ => Option::None,
        },
        ActionExpr::Lit(s) => Option::Some(Value::Text(s.clone())),
        ActionExpr::Join(b) => match run_action(&**b, elems, vals) {
            Option::Some(Value::List(vs2)) => match join_list(&vs2) {
                Option::Some(t) => Option::Some(Value::Text(t)),
                Option::None => Option::None,
            },
            _ => Option::None,
        },
        ActionExpr::ToInt(b) => match run_action(&**b, elems, vals) {
            Option::Some(Value::Text(t)) => match text_to_int(t.as_str()) {
                Option::Some(k) => Option::Some(Value::Int(k)),
                Option::None => Option::None,
            },
            _ => Option::None,
        },
    }
}

/// A one-element value list.
fn singleton_vals(v: Value) -> (r: Vec<Value>)
    ensures
        vals_view(r@) == seq![val_view(v)],
{
    let ghost gv = v;
    let mut out: Vec<Value> = Vec::new();
    out.push(v);
    proof {
        assert(out@.drop_last() =~= Seq::<Value>::empty());
        assert(vals_view(Seq::<Value>::empty()) =~= Seq::<ValS>::empty());
        assert(vals_view(out@) =~= seq![val_view(gv)]);
    }
    out
}

/// A value list with `v` in front of `rest`.
fn cons_vals(v: Value, rest: Vec<Value>) -> (r: Vec<Value>)
    ensures
        vals_view(r@) == seq![val_view(v)] + vals_view(rest@),
{
    let mut out = singleton_vals(v);
    let mut rest2 = rest;
    proof {
        lemma_vals_view_concat(out@, rest2@);
    }
    out.append(&mut rest2);
    out
}

/// The outcome of matching a run of sequence elements.
pub(crate) enum ElemsRun {
    Parsed(usize, Vec<Value>),
    NoParse(usize),
    Aborted(AbortKind),
}

/// The model of an [`ElemsRun`].
pub(crate) open spec fn elems_run_view(r: ElemsRun) -> ElemsOut {
    match r {
        ElemsRun::Parsed(p, vs) => ElemsOut::Parsed(p as int, vals_view(vs@)),
        ElemsRun::NoParse(p) => ElemsOut::NoParse(p as int),
        ElemsRun::Aborted(k) => ElemsOut::Aborted(abort_view(k)),
    }
}

/// The outcome of greedy repetition.
pub(crate) enum ManyRun {
    Parsed(usize, Vec<Value>),
    Aborted(AbortKind),
}

/// The model of a [`ManyRun`].
pub(crate) open spec fn many_run_view(r: ManyRun) -> ManyOut {
    match r {
        ManyRun::Parsed(p, vs) => ManyOut::Parsed(p as int, vals_view(vs@)),
        ManyRun::Aborted(k) => ManyOut::Aborted(abort_view(k)),
    }
}

/// Runs one expression at `pos`: returns exactly what the evaluator
/// [`eval`] says the expression means there.
pub fn run_expr(defs: &Vec<Definition>, e: &Expr, inp: &str, pos: usize, fuel: u64) -> (r: RunOut)
    requires
        pos <= inp@.len(),
    ensures
        run_out_view(r) == eval(defs@, *e, inp@, pos as int, fuel as nat),
    decreases fuel, inp@.len() - pos, *e, 0int,
{
    match e {
        Expr::Empty => RunOut::Parsed(pos, Value::Text(String::new())),
        Expr::Terminal(lit) => {
            let n = inp.unicode_len();
            if match_lit(inp, pos, lit.as_str()) {
                let ln = lit.as_str().unicode_len();
                let sub = inp.substring_char(pos, pos + ln);
                RunOut::Parsed(pos + ln, Value::Text(sub.to_owned()))
            } else {
                RunOut::NoParse(pos)
            }
        },
        Expr::NonTerminal(name) => match find_rule(defs, name.as_str()) {
            Option::Some(d) => if fuel == 0 {
                RunOut::Aborted(AbortKind::OutOfFuel)
            } else {
                run_expr(defs, &d.body, inp, pos, fuel - 1)
            },
            Option::None => RunOut::Aborted(AbortKind::UnknownRule(name.clone())),
        },
        Expr::Capture(inner, _) => run_expr(defs, &**inner, inp, pos, fuel),
        Expr::Sequence(es, act) => {
            proof {
                assert(es@.skip(0) =~= es@);
            }
            match run_elems(defs, es, 0, inp, pos, fuel) {
                ElemsRun::Parsed(end, vals) => {
                    proof {
                        lemma_eval_elems_bounds(defs@, es@, inp@, pos as int, fuel as nat);
                        lemma_vals_view_len(vals@);
                    }
                    match act {
                        Option::Some(a) => match run_action(a, es, &vals) {
                            Option::Some(v) => RunOut::Parsed(end, v),
                            Option::None => RunOut::Aborted(AbortKind::BadAction),
                        },
                        Option::None => RunOut::Parsed(end, compute_default(es, &vals)),
                    }
                },
                ElemsRun::NoParse(p) => RunOut::NoParse(p),
                ElemsRun::Aborted(k) => RunOut::Aborted(k),
            }
        },
        Expr::Choice(alts) => {
            proof {
                assert(alts@.skip(0) =~= alts@);
            }
            run_alts(defs, alts, 0, inp, pos, fuel)
        },
        Expr::Many0(inner) => match run_many(defs, &**inner, inp, pos, fuel) {
            ManyRun::Parsed(end, vs) => RunOut::Parsed(end, Value::List(vs)),
            ManyRun::Aborted(k) => RunOut::Aborted(k),
        },
        Expr::Many1(inner) => match run_expr(defs, &**inner, inp, pos, fuel) {
            RunOut::Parsed(p1, v) => {
                proof {
                    lemma_eval_bounds(defs@, **inner, inp@, pos as int, fuel as nat);
                }
                if p1 == pos {
                    RunOut::Parsed(p1, Value::List(singleton_vals(v)))
                } else {
                    match run_many(defs, &**inner, inp, p1, fuel) {
                        ManyRun::Parsed(end, vs) => RunOut::Parsed(
                            end,
                            Value::List(cons_vals(v, vs)),
                        ),
                        ManyRun::Aborted(k) => RunOut::Aborted(k),
                    }
                }
            },
            RunOut::NoParse(p) => RunOut::NoParse(p),
            RunOut::Aborted(k) => RunOut::Aborted(k),
        },
        Expr::Optional(inner) => match run_expr(defs, &**inner, inp, pos, fuel) {
            RunOut::Parsed(p1, v) => RunOut::Parsed(p1, Value::Maybe(Option::Some(Box::new(v)))),
            RunOut::NoParse(_) => RunOut::Parsed(pos, Value::Maybe(Option::None)),
            RunOut::Aborted(k) => RunOut::Aborted(k),
        },
        Expr::Peek(inner) => match run_expr(defs, &**inner, inp, pos, fuel) {
            RunOut::Parsed(_, v) => RunOut::Parsed(pos, v),
            RunOut::NoParse(p) => RunOut::NoParse(p),
            RunOut::Aborted(k) => RunOut::Aborted(k),
        },
        Expr::Not(inner) => match run_expr(defs, &**inner, inp, pos, fuel) {
            RunOut::Parsed(_, _) => RunOut::NoParse(pos),
            RunOut::NoParse(_) => {
                proof {
                    assert(vals_view(Seq::<Value>::empty()) =~= Seq::<ValS>::empty());
                }
                RunOut::Parsed(pos, Value::Tuple(Vec::new()))
            },
            RunOut::Aborted(k) => RunOut::Aborted(k),
        },
    }
}

/// Matches the elements from slot `i` on, in order, from `pos`.
pub(crate) fn run_elems(
    defs: &Vec<Definition>,
    es: &Vec<Expr>,
    i: usize,
    inp: &str,
    pos: usize,
    fuel: u64,
) -> (r: ElemsRun)
    requires
        i <= es@.len(),
        pos <= inp@.len(),
    ensures
        elems_run_view(r) == eval_elems(defs@, es@.skip(i as int), inp@, pos as int, fuel as nat),
    decreases fuel, inp@.len() - pos, es@.skip(i as int), 0int,
{
    if i == es.len() {
        proof {
            assert(es@.skip(i as int) =~= Seq::<Expr>::empty());
            assert(vals_view(Seq::<Value>::empty()) =~= Seq::<ValS>::empty());
        }
        ElemsRun::Parsed(pos, Vec::new())
    } else {
        proof {
            assert(es@.skip(i as int)[0] == es@[i as int]);
            assert(es@.skip(i as int).drop_first() =~= es@.skip(i as int + 1));
        }
        match run_expr(defs, &es[i], inp, pos, fuel) {
            RunOut::Parsed(p1, v) => {
                proof {
                    lemma_eval_bounds(defs@, es@[i as int], inp@, pos as int, fuel as nat);
                }
                match run_elems(defs, es, i + 1, inp, p1, fuel) {
                    ElemsRun::Parsed(end, vs) => ElemsRun::Parsed(end, cons_vals(v, vs)),
                    ElemsRun::NoParse(p) => ElemsRun::NoParse(p),
                    ElemsRun::Aborted(k) => ElemsRun::Aborted(k),
                }
            },
            RunOut::NoParse(p) => ElemsRun::NoParse(p),
            RunOut::Aborted(k) => ElemsRun::Aborted(k),
        }
    }
}

/// Tries the alternatives from slot `i` on, strictly in order, at `pos`.
pub(crate) fn run_alts(
    defs: &Vec<Definition>,
    alts: &Vec<Expr>,
    i: usize,
    inp: &str,
    pos: usize,
    fuel: u64,
) -> (r: RunOut)
    requires
        i <= alts@.len(),
        pos <= inp@.len(),
    ensures
        run_out_view(r) == eval_alts(defs@, alts@.skip(i as int), inp@, pos as int, fuel as nat),
    decreases fuel, inp@.len() - pos, alts@.skip(i as int), 0int,
{
    if i == alts.len() {
        proof {
            assert(alts@.skip(i as int) =~= Seq::<Expr>::empty());
        }
        RunOut::NoParse(pos)
    } else {
        proof {
            assert(alts@.skip(i as int)[0] == alts@[i as int]);
            assert(alts@.skip(i as int).drop_first() =~= alts@.skip(i as int + 1));
        }
        match run_expr(defs, &alts[i], inp, pos, fuel) {
            RunOut::Parsed(p1, v) => RunOut::Parsed(p1, v),
            RunOut::NoParse(_) => run_alts(defs, alts, i + 1, inp, pos, fuel),
            RunOut::Aborted(k) => RunOut::Aborted(k),
        }
    }
}

/// Matches `inner` greedily from `pos`, collecting the values in order.
pub(crate) fn run_many(
    defs: &Vec<Definition>,
    inner: &Expr,
    inp: &str,
    pos: usize,
    fuel: u64,
) -> (r: ManyRun)
    requires
        pos <= inp@.len(),
    ensures
        many_run_view(r) == eval_many(defs@, *inner, inp@, pos as int, fuel as nat),
    decreases fuel, inp@.len() - pos, *inner, 1int,
{
    match run_expr(defs, inner, inp, pos, fuel) {
        RunOut::Parsed(p1, v) => {
            proof {
                lemma_eval_bounds(defs@, *inner, inp@, pos as int, fuel as nat);
            }
            if p1 == pos {
                ManyRun::Parsed(pos, singleton_vals(v))
            } else {
                match run_many(defs, inner, inp, p1, fuel) {
                    ManyRun::Parsed(end, vs) => ManyRun::Parsed(end, cons_vals(v, vs)),
                    ManyRun::Aborted(k) => ManyRun::Aborted(k),
                }
            }
        },
        RunOut::NoParse(_) => {
            proof {
                assert(vals_view(Seq::<Value>::empty()) =~= Seq::<ValS>::empty());
            }
            ManyRun::Parsed(pos, Vec::new())
        },
        RunOut::Aborted(k) => ManyRun::Aborted(k),
    }
}

impl Grammar {
    /// Runs the rule named `rule` over `input` from position `pos`, under a
    /// fuel budget that bounds how many times the run may pass through a
    /// non-terminal. The outcome is exactly what [`eval_rule`] says.
    pub fn run_from(&self, rule: &str, input: &str, pos: usize, fuel: u64) -> (r: RunOut)
        requires
            pos <= input@.len(),
        ensures
            run_out_view(r) == eval_rule(self.defs@, rule@, input@, pos as int, fuel as nat),
    {
        match find_rule(&self.defs, rule) {
            Option::Some(d) => if fuel == 0 {
                RunOut::Aborted(AbortKind::OutOfFuel)
            } else {
                run_expr(&self.defs, &d.body, input, pos, fuel - 1)
            },
            Option::None => RunOut::Aborted(AbortKind::UnknownRule(rule.to_owned())),
        }
    }

    /// Runs the rule named `rule` over the whole of `input`.
    pub fn run(&self, rule: &str, input: &str, fuel: u64) -> (r: RunOut)
        ensures
            run_out_view(r) == eval_rule(self.defs@, rule@, input@, 0, fuel as nat),
    {
        self.run_from(rule, input, 0, fuel)
    }
}

/// The input that a successful run left unconsumed: the characters from
/// `end` on, or the empty string where `end` lies past the input.
pub fn remaining(input: &str, end: usize) -> (r: String)
    ensures
        r@ == if end <= input@.len() {
            input@.skip(end as int)
        } else {
            Seq::<char>::empty()
        },
{
    let n = input.unicode_len();
    if end <= n {
        let sub = input.substring_char(end, n);
        proof {
            assert(input@.subrange(end as int, input@.len() as int) =~= input@.skip(end as int));
        }
        sub.to_owned()
    } else {
        String::new()
    }
}

} // verus!
