//! Matching and substitution.
//!
//! A pattern is matched against a formula from left to right.  A variable
//! of the pattern is bound to whatever stands in its place the first time it
//! is met, and from then on only matches formulas equal to that.  Nothing is
//! tried twice: the first mismatch ends the match, and the bindings made up
//! to that point stay in the list.

use vstd::prelude::*;
use crate::expr::{formulas, lemma_operands, lemma_same_operands, Formula, LogExpr};
use crate::rules::{lemma_find, lemma_find_at, distinct_names, find, lookup, Bindings};

verus! {

/// Matches `pattern` against `candidate` under `bindings`.  Returns whether
/// they match, and the bindings afterwards.
///
/// Atoms match atoms of the same token.  A variable matches anything the
/// first time, and afterwards what it is bound to.  Connectives match the
/// same connective with as many operands, operand by operand.  Nothing else
/// matches; in particular a constant matches nothing.
pub open spec fn match_formula(
    pattern: Formula,
    candidate: Formula,
    bindings: Seq<(Seq<char>, Formula)>,
) -> (bool, Seq<(Seq<char>, Formula)>)
    decreases pattern, 0nat,
{
    match pattern {
        Formula::Atom(p) => (candidate matches Formula::Atom(c) && p.same(c), bindings),
        Formula::Var(v) => match lookup(bindings, v.text) {
            Some(bound) => (bound.same(candidate), bindings),
            None => (true, bindings.push((v.text, candidate))),
        },
        Formula::UnaryOp(op, p) => match candidate {
            Formula::UnaryOp(op2, c) if op == op2 => match_formula(*p, *c, bindings),
            _ => (false, bindings),
        },
        Formula::BinaryOp(op, ps) => match candidate {
            Formula::BinaryOp(op2, cs) if op == op2 && ps.len() == cs.len() => match_operands(
                ps,
                cs,
                0,
                bindings,
            ),
            _ => (false, bindings),
        },
        _ => (false, bindings),
    }
}

/// Matches the patterns from place `from` on against the candidates in the
/// same places, in order, up to the first that does not match.
pub open spec fn match_operands(
    patterns: Seq<Formula>,
    candidates: Seq<Formula>,
    from: nat,
    bindings: Seq<(Seq<char>, Formula)>,
) -> (bool, Seq<(Seq<char>, Formula)>)
    decreases patterns, patterns.len() - from,
{
    if from >= patterns.len() {
        (true, bindings)
    } else {
        let (matched, bound) = match_formula(
            patterns[from as int],
            candidates[from as int],
            bindings,
        );
        if matched {
            match_operands(patterns, candidates, from + 1, bound)
        } else {
            (false, bound)
        }
    }
}

/// `template` with every atom and variable that `bindings` has a formula
/// for replaced by that formula.
pub open spec fn substitute_formula(
    template: Formula,
    bindings: Seq<(Seq<char>, Formula)>,
) -> Formula
    decreases template,
{
    match template {
        Formula::Atom(t) => match lookup(bindings, t.text) {
            Some(bound) => bound,
            None => template,
        },
        Formula::Var(t) => match lookup(bindings, t.text) {
            Some(bound) => bound,
            None => template,
        },
        Formula::UnaryOp(op, x) => Formula::UnaryOp(op, Box::new(substitute_formula(*x, bindings))),
        Formula::BinaryOp(op, xs) => Formula::BinaryOp(
            op,
            Seq::new(
                xs.len(),
                |i: int|
                    if 0 <= i < xs.len() {
                        substitute_formula(xs[i], bindings)
                    } else {
                        Formula::True
                    },
            ),
        ),
        _ => template,
    }
}

/// One list begins with the other.
pub open spec fn extends(after: Seq<(Seq<char>, Formula)>, before: Seq<(Seq<char>, Formula)>) -> bool {
    before.len() <= after.len() && after.subrange(0, before.len() as int) == before
}

/// A binding is fixed once it is made: whether a match succeeds or not, the
/// bindings it leaves begin with the bindings it was given, and no variable
/// is bound twice.
pub proof fn lemma_match_extends(
    pattern: Formula,
    candidate: Formula,
    bindings: Seq<(Seq<char>, Formula)>,
)
    ensures
        extends(match_formula(pattern, candidate, bindings).1, bindings),
        distinct_names(bindings) ==> distinct_names(match_formula(pattern, candidate, bindings).1),
    decreases pattern, 0nat,
{
    let after = match_formula(pattern, candidate, bindings).1;
    match pattern {
        Formula::Var(v) => {
            lemma_find(bindings, v.text, 0);
            assert(after.subrange(0, bindings.len() as int) =~= bindings);
        },
        Formula::UnaryOp(op, p) => {
            match candidate {
                Formula::UnaryOp(op2, c) => {
                    if op == op2 {
                        lemma_match_extends(*p, *c, bindings);
                    }
                },
                _ => {},
            }
        },
        Formula::BinaryOp(op, ps) => {
            match candidate {
                Formula::BinaryOp(op2, cs) => {
                    if op == op2 && ps.len() == cs.len() {
                        lemma_match_operands_extends(ps, cs, 0, bindings);
                    }
                },
                _ => {},
            }
        },
        _ => {},
    }
    assert(after.subrange(0, bindings.len() as int) =~= bindings);
}

/// The same for a list of operands.
pub proof fn lemma_match_operands_extends(
    patterns: Seq<Formula>,
    candidates: Seq<Formula>,
    from: nat,
    bindings: Seq<(Seq<char>, Formula)>,
)
    ensures
        extends(match_operands(patterns, candidates, from, bindings).1, bindings),
        distinct_names(bindings) ==> distinct_names(
            match_operands(patterns, candidates, from, bindings).1,
        ),
    decreases patterns, patterns.len() - from,
{
    let after = match_operands(patterns, candidates, from, bindings).1;
    if from < patterns.len() {
        let (matched, bound) = match_formula(
            patterns[from as int],
            candidates[from as int],
            bindings,
        );
        lemma_match_extends(patterns[from as int], candidates[from as int], bindings);
        if matched {
            lemma_match_operands_extends(patterns, candidates, from + 1, bound);
            assert(after.subrange(0, bindings.len() as int) =~= bound.subrange(
                0,
                bindings.len() as int,
            ));
        }
    }
    assert(after.subrange(0, bindings.len() as int) =~= bindings);
}

/// `pattern` with every variable that `bindings` has a formula for
/// replaced by that formula.  Atoms stay as they are.
pub open spec fn instantiate(pattern: Formula, bindings: Seq<(Seq<char>, Formula)>) -> Formula
    decreases pattern,
{
    match pattern {
        Formula::Var(v) => match lookup(bindings, v.text) {
            Some(bound) => bound,
            None => pattern,
        },
        Formula::UnaryOp(op, x) => Formula::UnaryOp(op, Box::new(instantiate(*x, bindings))),
        Formula::BinaryOp(op, xs) => Formula::BinaryOp(
            op,
            Seq::new(
                xs.len(),
                |i: int|
                    if 0 <= i < xs.len() {
                        instantiate(xs[i], bindings)
                    } else {
                        Formula::True
                    },
            ),
        ),
        _ => pattern,
    }
}

/// Every variable of `pattern` is bound in `bindings`.
pub open spec fn covers(bindings: Seq<(Seq<char>, Formula)>, pattern: Formula) -> bool
    decreases pattern,
{
    match pattern {
        Formula::Var(v) => lookup(bindings, v.text) is Some,
        Formula::UnaryOp(op, x) => covers(bindings, *x),
        Formula::BinaryOp(op, xs) => forall|i: int|
            0 <= i < xs.len() ==> covers(bindings, #[trigger] xs[i]),
        _ => true,
    }
}

/// A name that is bound stands for the same formula in every list that
/// begins with this one.
pub proof fn lemma_lookup_extends(
    after: Seq<(Seq<char>, Formula)>,
    before: Seq<(Seq<char>, Formula)>,
    name: Seq<char>,
)
    requires
        extends(after, before),
        lookup(before, name) is Some,
    ensures
        lookup(after, name) == lookup(before, name),
{
    let i = find(before, name, 0);
    lemma_find(before, name, 0);
    assert forall|k: int| 0 <= k <= i implies #[trigger] after[k] == before[k] by {
        assert(after.subrange(0, before.len() as int)[k] == before[k]);
    }
    lemma_find_at(after, name, 0, i);
}

/// A pattern whose variables are all bound is instantiated the same way
/// under every list of bindings that begins with those.
pub proof fn lemma_instantiate_extends(
    pattern: Formula,
    after: Seq<(Seq<char>, Formula)>,
    before: Seq<(Seq<char>, Formula)>,
)
    requires
        extends(after, before),
        covers(before, pattern),
    ensures
        covers(after, pattern),
        instantiate(pattern, after) == instantiate(pattern, before),
    decreases pattern,
{
    match pattern {
        Formula::Var(v) => {
            lemma_lookup_extends(after, before, v.text);
        },
        Formula::UnaryOp(op, x) => {
            lemma_instantiate_extends(*x, after, before);
        },
        Formula::BinaryOp(op, xs) => {
            assert forall|i: int| 0 <= i < xs.len() implies covers(after, #[trigger] xs[i])
                && instantiate(xs[i], after) == instantiate(xs[i], before) by {
                lemma_instantiate_extends(xs[i], after, before);
            }
            assert(instantiate(pattern, after)->BinaryOp_1 =~= instantiate(
                pattern,
                before,
            )->BinaryOp_1);
        },
        _ => {},
    }
}

/// A match that succeeds explains the formula: the bindings it leaves bind
/// every variable of the pattern, and the pattern with its variables
/// replaced by what they are bound to is the formula that was matched.
pub proof fn lemma_match_sound(
    pattern: Formula,
    candidate: Formula,
    bindings: Seq<(Seq<char>, Formula)>,
)
    requires
        match_formula(pattern, candidate, bindings).0,
    ensures
        covers(match_formula(pattern, candidate, bindings).1, pattern),
        instantiate(pattern, match_formula(pattern, candidate, bindings).1).same(candidate),
    decreases pattern, 0nat,
{
    let after = match_formula(pattern, candidate, bindings).1;
    match pattern {
        Formula::Var(v) => {
            lemma_find(bindings, v.text, 0);
            if lookup(bindings, v.text) is None {
                lemma_find_at(after, v.text, 0, bindings.len());
            }
        },
        Formula::UnaryOp(op, p) => {
            match candidate {
                Formula::UnaryOp(op2, c) => {
                    lemma_match_sound(*p, *c, bindings);
                },
                _ => {},
            }
        },
        Formula::BinaryOp(op, ps) => {
            match candidate {
                Formula::BinaryOp(op2, cs) => {
                    lemma_match_operands_sound(ps, cs, 0, bindings);
                    let xs = instantiate(pattern, after)->BinaryOp_1;
                    assert forall|i: int| 0 <= i < xs.len() implies (#[trigger] xs[i]).same(
                        cs[i],
                    ) by {
                        assert(xs[i] == instantiate(ps[i], after));
                    }
                    lemma_same_operands(op, xs, cs);
                },
                _ => {},
            }
        },
        _ => {},
    }
}

/// The same for a list of operands, from place `from` on.
pub proof fn lemma_match_operands_sound(
    patterns: Seq<Formula>,
    candidates: Seq<Formula>,
    from: nat,
    bindings: Seq<(Seq<char>, Formula)>,
)
    requires
        patterns.len() == candidates.len(),
        match_operands(patterns, candidates, from, bindings).0,
    ensures
        forall|i: int|
            from <= i < patterns.len() ==> covers(
                match_operands(patterns, candidates, from, bindings).1,
                #[trigger] patterns[i],
            ) && instantiate(
                patterns[i],
                match_operands(patterns, candidates, from, bindings).1,
            ).same(candidates[i]),
    decreases patterns, patterns.len() - from,
{
    if from < patterns.len() {
        let after = match_operands(patterns, candidates, from, bindings).1;
        let (matched, bound) = match_formula(
            patterns[from as int],
            candidates[from as int],
            bindings,
        );
        lemma_match_sound(patterns[from as int], candidates[from as int], bindings);
        lemma_match_operands_sound(patterns, candidates, from + 1, bound);
        lemma_match_operands_extends(patterns, candidates, from + 1, bound);
        lemma_instantiate_extends(patterns[from as int], after, bound);
    }
}

/// No atom of `pattern` bears a name that `bindings` binds.
pub open spec fn spares_atoms(bindings: Seq<(Seq<char>, Formula)>, pattern: Formula) -> bool
    decreases pattern,
{
    match pattern {
        Formula::Atom(t) => lookup(bindings, t.text) is None,
        Formula::UnaryOp(op, x) => spares_atoms(bindings, *x),
        Formula::BinaryOp(op, xs) => forall|i: int|
            0 <= i < xs.len() ==> spares_atoms(bindings, #[trigger] xs[i]),
        _ => true,
    }
}

/// Where no atom bears the name of a binding, to substitute is to
/// instantiate.
pub proof fn lemma_substitute_instantiates(pattern: Formula, bindings: Seq<(Seq<char>, Formula)>)
    requires
        spares_atoms(bindings, pattern),
    ensures
        substitute_formula(pattern, bindings) == instantiate(pattern, bindings),
    decreases pattern,
{
    match pattern {
        Formula::UnaryOp(op, x) => {
            lemma_substitute_instantiates(*x, bindings);
        },
        Formula::BinaryOp(op, xs) => {
            assert forall|i: int| 0 <= i < xs.len() implies substitute_formula(xs[i], bindings)
                == instantiate(xs[i], bindings) by {
                lemma_substitute_instantiates(xs[i], bindings);
            }
            assert(substitute_formula(pattern, bindings)->BinaryOp_1 =~= instantiate(
                pattern,
                bindings,
            )->BinaryOp_1);
        },
        _ => {},
    }
}

/// To match and then substitute gives back the formula: where a pattern
/// matches, and none of its atoms bears the name of one of the bindings
/// that the match leaves, the pattern under those bindings is the formula
/// that was matched.
pub proof fn lemma_match_then_substitute(
    pattern: Formula,
    candidate: Formula,
    bindings: Seq<(Seq<char>, Formula)>,
)
    requires
        match_formula(pattern, candidate, bindings).0,
        spares_atoms(match_formula(pattern, candidate, bindings).1, pattern),
    ensures
        substitute_formula(pattern, match_formula(pattern, candidate, bindings).1).same(candidate),
{
    lemma_match_sound(pattern, candidate, bindings);
    lemma_substitute_instantiates(pattern, match_formula(pattern, candidate, bindings).1);
}

impl LogExpr {
    /// Matches this pattern against `other`, binding variables in
    /// `bindings` as they are met.
    pub fn match_with(&self, other: &LogExpr, bindings: &mut Bindings) -> (matched: bool)
        ensures
            (matched, final(bindings)@) == match_formula(self@, other@, old(bindings)@),
        decreases self,
    {
        match self {
            LogExpr::Atom(p) => match other {
                LogExpr::Atom(c) => **p == **c,
                _ => false,
            },
            LogExpr::Var(v) => {
                let known = match bindings.get(v.text.as_str()) {
                    Some(bound) => Some(bound.same_as(other)),
                    None => None,
                };
                match known {
                    Some(same) => same,
                    None => {
                        proof {
                            lemma_find(bindings@, v.text@, 0);
                        }
                        bindings.insert(v.text.clone(), Box::new(other.clone()));
                        true
                    },
                }
            },
            LogExpr::UnaryOp(op, p) => match other {
                LogExpr::UnaryOp(op2, c) => **op == **op2 && p.match_with(c, bindings),
                _ => false,
            },
            LogExpr::BinaryOp(op, ps) => match other {
                LogExpr::BinaryOp(op2, cs) => {
                    proof {
                        lemma_operands(*op, *ps);
                        lemma_operands(*op2, *cs);
                    }
                    if **op != **op2 || ps.len() != cs.len() {
                        return false;
                    }
                    let mut i: usize = 0;
                    while i < ps.len()
                        invariant
                            self matches LogExpr::BinaryOp(_, ps0) && ps0 == ps,
                            self@ == Formula::BinaryOp(**op, formulas(ps@)),
                            other@ == Formula::BinaryOp(**op, formulas(cs@)),
                            ps.len() == cs.len(),
                            i <= ps.len(),
                            match_operands(formulas(ps@), formulas(cs@), i as nat, bindings@)
                                == match_operands(
                                formulas(ps@),
                                formulas(cs@),
                                0,
                                old(bindings)@,
                            ),
                        decreases ps.len() - i,
                    {
                        if !ps[i].match_with(&cs[i], bindings) {
                            return false;
                        }
                        i += 1;
                    }
                    true
                },
                _ => false,
            },
            _ => false,
        }
    }

    /// A copy of this template in which every atom and variable that
    /// `bindings` has a formula for is replaced by a copy of that formula.
    pub fn substitute(&self, bindings: &Bindings) -> (expr: Box<LogExpr>)
        ensures
            expr@ == substitute_formula(self@, bindings@),
        decreases self,
    {
        match self {
            LogExpr::Atom(t) => match bindings.get(t.text.as_str()) {
                Some(bound) => Box::new((**bound).clone()),
                None => Box::new(self.clone()),
            },
            LogExpr::Var(t) => match bindings.get(t.text.as_str()) {
                Some(bound) => Box::new((**bound).clone()),
                None => Box::new(self.clone()),
            },
            LogExpr::UnaryOp(op, x) => Box::new(
                LogExpr::UnaryOp(Box::new(**op), x.substitute(bindings)),
            ),
            LogExpr::BinaryOp(op, xs) => {
                let mut out: Vec<Box<LogExpr>> = Vec::new();
                let mut i: usize = 0;
                while i < xs.len()
                    invariant
                        self matches LogExpr::BinaryOp(_, xs0) && xs0 == xs,
                        i <= xs.len(),
                        out.len() == i,
                        forall|j: int|
                            0 <= j < i ==> out[j]@ == substitute_formula(xs[j]@, bindings@),
                    decreases xs.len() - i,
                {
                    out.push(xs[i].substitute(bindings));
                    i += 1;
                }
                proof {
                    lemma_operands(*op, *xs);
                    lemma_operands(Box::new(**op), out);
                    assert(formulas(out@) =~= substitute_formula(self@, bindings@)->BinaryOp_1);
                }
                Box::new(LogExpr::BinaryOp(Box::new(**op), out))
            },
            _ => Box::new(self.clone()),
        }
    }
}

} // verus!
