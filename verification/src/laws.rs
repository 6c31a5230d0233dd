//! The general laws of the library, stated over the evaluator and proved.

use vstd::prelude::*;

verus! {

use crate::ast::{Definition, Expr, ValS};
use crate::semantics::{binding_lookup, default_result, eval, eval_alts, eval_elems, eval_many,
    has_capture, is_named_capture, named_lookup, ElemsOut, ManyOut, Out};

/// A sequence with no capture among its elements exposes the full ordered
/// tuple of all element values, one slot per element, in original order;
/// only a one-element sequence stands for its single value bare.
pub proof fn law_no_capture_full_tuple(elems: Seq<Expr>, vals: Seq<ValS>)
    requires
        !has_capture(elems),
        vals.len() != 1,
    ensures
        default_result(elems, vals) == ValS::Tuple(vals),
{
}

/// An actionless sequence with no capture among its elements matches to the
/// full ordered tuple of its elements' values.
pub proof fn law_sequence_no_capture(
    defs: Seq<Definition>,
    e: Expr,
    inp: Seq<char>,
    pos: int,
    fuel: nat,
)
    requires
        0 <= pos <= inp.len(),
        e matches Expr::Sequence(es, act) && act is None && !has_capture(es@),
    ensures
        match eval_elems(defs, e->Sequence_0@, inp, pos, fuel) {
            ElemsOut::Parsed(end, vals) => vals.len() != 1 ==> eval(defs, e, inp, pos, fuel)
                == Out::Parsed(end, ValS::Tuple(vals)),
            ElemsOut::NoParse(p) => eval(defs, e, inp, pos, fuel) == Out::NoParse(p),
            ElemsOut::Aborted(k) => eval(defs, e, inp, pos, fuel) == Out::Aborted(k),
        },
{
}

/// A named capture at slot `i` binds its name to exactly the `i`-th element's
/// value, whatever the other elements are, provided no later slot rebinds the
/// same name (a repeated name silently shadows earlier uses).
pub proof fn law_named_capture_binds_slot(
    elems: Seq<Expr>,
    vals: Seq<ValS>,
    i: int,
    name: Seq<char>,
)
    requires
        vals.len() == elems.len(),
        0 <= i < elems.len(),
        is_named_capture(elems[i], name),
        forall|j: int| i < j < elems.len() ==> !is_named_capture(#[trigger] elems[j], name),
    ensures
        named_lookup(elems, vals, name, elems.len() as int) == Option::Some(vals[i]),
        binding_lookup(elems, vals, name) == Option::Some(vals[i]),
{
    lemma_named_lookup_from(elems, vals, i, name, elems.len() as int);
}

/// Looking down from any slot above `i`, the rightmost binder of `name` at or
/// below is slot `i` itself.
proof fn lemma_named_lookup_from(
    elems: Seq<Expr>,
    vals: Seq<ValS>,
    i: int,
    name: Seq<char>,
    k: int,
)
    requires
        vals.len() == elems.len(),
        0 <= i < k <= elems.len(),
        is_named_capture(elems[i], name),
        forall|j: int| i < j < k ==> !is_named_capture(#[trigger] elems[j], name),
    ensures
        named_lookup(elems, vals, name, k) == Option::Some(vals[i]),
    decreases k,
{
    if k - 1 > i {
        lemma_named_lookup_from(elems, vals, i, name, k - 1);
    }
}

/// Ordered choice commits to the first alternative that matches: when every
/// alternative before slot `k` fails and slot `k` matches, the choice's
/// outcome is slot `k`'s outcome, and no later alternative is observable.
pub proof fn law_choice_first_success(
    defs: Seq<Definition>,
    alts: Seq<Expr>,
    inp: Seq<char>,
    pos: int,
    fuel: nat,
    k: int,
)
    requires
        0 <= pos <= inp.len(),
        0 <= k < alts.len(),
        eval(defs, alts[k], inp, pos, fuel) is Parsed,
        forall|j: int| 0 <= j < k ==> eval(defs, #[trigger] alts[j], inp, pos, fuel) is NoParse,
    ensures
        eval_alts(defs, alts, inp, pos, fuel) == eval(defs, alts[k], inp, pos, fuel),
    decreases k,
{
    if k > 0 {
        assert(alts.drop_first().len() == alts.len() - 1);
        assert(forall|j: int|
            0 <= j < k - 1 ==> #[trigger] alts.drop_first()[j] == alts[j + 1]);
        law_choice_first_success(defs, alts.drop_first(), inp, pos, fuel, k - 1);
    }
}

/// A choice node means ordered choice over its listed alternatives.
pub proof fn law_choice_node(defs: Seq<Definition>, e: Expr, inp: Seq<char>, pos: int, fuel: nat)
    requires
        0 <= pos <= inp.len(),
        e is Choice,
    ensures
        eval(defs, e, inp, pos, fuel) == eval_alts(defs, e->Choice_0@, inp, pos, fuel),
{
}

/// Zero-or-more repetition never fails: zero matches are a success with the
/// empty list of values.
pub proof fn law_many0_never_fails(
    defs: Seq<Definition>,
    e: Expr,
    inp: Seq<char>,
    pos: int,
    fuel: nat,
)
    requires
        e is Many0,
    ensures
        !(eval(defs, e, inp, pos, fuel) is NoParse),
        (0 <= pos <= inp.len() && eval(defs, *e->Many0_0, inp, pos, fuel) is NoParse) ==> eval(
            defs,
            e,
            inp,
            pos,
            fuel,
        ) == Out::Parsed(pos, ValS::List(Seq::empty())),
{
    if 0 <= pos <= inp.len() && eval(defs, *e->Many0_0, inp, pos, fuel) is NoParse {
        assert(eval_many(defs, *e->Many0_0, inp, pos, fuel) == ManyOut::Parsed(
            pos,
            Seq::<ValS>::empty(),
        ));
    }
}

/// One-or-more repetition fails exactly when its inner expression finds no
/// match at the start position, and it fails where the inner match failed.
pub proof fn law_many1_fails_iff_no_match(
    defs: Seq<Definition>,
    e: Expr,
    inp: Seq<char>,
    pos: int,
    fuel: nat,
)
    requires
        e is Many1,
    ensures
        (eval(defs, e, inp, pos, fuel) is NoParse) <==> (eval(
            defs,
            *e->Many1_0,
            inp,
            pos,
            fuel,
        ) is NoParse),
        eval(defs, e, inp, pos, fuel) matches Out::NoParse(p) ==> eval(
            defs,
            *e->Many1_0,
            inp,
            pos,
            fuel,
        ) == Out::NoParse(p),
{
}

/// Lookahead is zero-width: a positive or negative lookahead that matches
/// leaves the position exactly where it stood, and a failed negative
/// lookahead fails at its own position.
pub proof fn law_lookahead_zero_width(
    defs: Seq<Definition>,
    e: Expr,
    inp: Seq<char>,
    pos: int,
    fuel: nat,
)
    requires
        e is Peek || e is Not,
    ensures
        eval(defs, e, inp, pos, fuel) matches Out::Parsed(end, _) ==> end == pos,
        e is Not ==> (eval(defs, e, inp, pos, fuel) matches Out::NoParse(p) ==> p == pos),
{
}

/// A sequence fails at its first failing element: the elements before it
/// must all have matched, and the failure position is the failing element's.
pub proof fn law_sequence_fails_at_first_failure(
    defs: Seq<Definition>,
    es: Seq<Expr>,
    inp: Seq<char>,
    pos: int,
    fuel: nat,
)
    requires
        0 <= pos <= inp.len(),
        es.len() > 0,
        eval(defs, es[0], inp, pos, fuel) is NoParse,
    ensures
        eval_elems(defs, es, inp, pos, fuel) == ElemsOut::NoParse(
            eval(defs, es[0], inp, pos, fuel)->NoParse_0,
        ),
{
}

} // verus!
