//! Applying a rule.
//!
//! To apply a rule to a formula is to list the formulas that one use of the
//! rule gives: the rewrite of the whole formula, if the rule matches there,
//! and then, operand by operand, every formula in which one operand is
//! replaced by one of its own rewrites.  A formula made by replacing an
//! operand of a connective with several operands is itself rewritten once
//! more, and what that gives is listed too.  A formula that is already
//! listed is not listed again.  Where two or more formulas are listed,
//! one more entry follows them, which combines the bindings of them all.
//!
//! Rewriting a replaced formula again need not come to an end: a rule whose
//! result matches its own pattern keeps finding work.  So the list is
//! defined with a bound on the depth of the rewriting,
//! [`rewrites`]; it is `None` where the bound does not suffice, and the same
//! list for every bound that does ([`lemma_rewrites_monotonic`]).

use vstd::prelude::*;
use crate::expr::{formulas, lemma_operands, Formula, LogExpr, Operator};
use crate::matcher::{match_formula, substitute_formula};
use crate::rules::{bind, Bindings, Rule, RuleSet, RuleView};
use crate::text::{digit, digit_char};

verus! {

/// The decimal digits of `n`.
pub open spec fn decimal(n: nat) -> Seq<char>
    decreases n,
{
    if n < 10 {
        seq![digit(n)]
    } else {
        decimal(n / 10).push(digit(n % 10))
    }
}

/// The name of a variable in the combined entry: its own name, an
/// underscore, and the number of the result it comes from.
pub open spec fn renamed(name: Seq<char>, index: nat) -> Seq<char> {
    name.push('_') + decimal(index)
}

/// Whether a result with a formula equal to `expr` is listed.
pub open spec fn listed(results: Seq<(Formula, Seq<(Seq<char>, Formula)>)>, expr: Formula) -> bool {
    exists|i: int| 0 <= i < results.len() && (#[trigger] results[i]).0.same(expr)
}

/// `results` with one more result, unless its formula is listed already.
pub open spec fn record(
    results: Seq<(Formula, Seq<(Seq<char>, Formula)>)>,
    expr: Formula,
    bindings: Seq<(Seq<char>, Formula)>,
) -> Seq<(Formula, Seq<(Seq<char>, Formula)>)> {
    if listed(results, expr) {
        results
    } else {
        results.push((expr, bindings))
    }
}

/// `results` with the results of `more` from place `from` on recorded in
/// order.
pub open spec fn record_all(
    results: Seq<(Formula, Seq<(Seq<char>, Formula)>)>,
    more: Seq<(Formula, Seq<(Seq<char>, Formula)>)>,
    from: nat,
) -> Seq<(Formula, Seq<(Seq<char>, Formula)>)>
    decreases more.len() - from,
{
    if from >= more.len() {
        results
    } else {
        record_all(record(results, more[from as int].0, more[from as int].1), more, from + 1)
    }
}

/// The results with every formula put under the connective `op`.
pub open spec fn wrapped(op: Operator, results: Seq<(Formula, Seq<(Seq<char>, Formula)>)>) -> Seq<
    (Formula, Seq<(Seq<char>, Formula)>),
> {
    Seq::new(
        results.len(),
        |i: int| (Formula::UnaryOp(op, Box::new(results[i].0)), results[i].1),
    )
}

/// The rewrite of the whole of `target`: none if the pattern of the rule
/// does not match it, else the template of the rule under the bindings of
/// the match.
pub open spec fn rewrite_root(target: Formula, rule: RuleView) -> Seq<
    (Formula, Seq<(Seq<char>, Formula)>),
> {
    let (matched, bindings) = match_formula(rule.lhs, target, Seq::empty());
    if matched {
        seq![(substitute_formula(rule.rhs, bindings), bindings)]
    } else {
        Seq::empty()
    }
}

/// The bindings of one result entered into the combined entry: each
/// variable from place `from` on is renamed after the result, bound, and
/// the formula so far is substituted under everything bound up to then.
pub open spec fn combine_bindings(
    bindings: Seq<(Seq<char>, Formula)>,
    index: nat,
    from: nat,
    expr: Formula,
    bound: Seq<(Seq<char>, Formula)>,
) -> (Formula, Seq<(Seq<char>, Formula)>)
    decreases bindings.len() - from,
{
    if from >= bindings.len() {
        (expr, bound)
    } else {
        let next = bind(
            bound,
            renamed(bindings[from as int].0, index),
            bindings[from as int].1,
        );
        combine_bindings(bindings, index, from + 1, substitute_formula(expr, next), next)
    }
}

/// The combined entry of the results from place `from` on, begun with
/// `expr` and `bound`.  Results are numbered from one.
pub open spec fn combine_results(
    results: Seq<(Formula, Seq<(Seq<char>, Formula)>)>,
    from: nat,
    expr: Formula,
    bound: Seq<(Seq<char>, Formula)>,
) -> (Formula, Seq<(Seq<char>, Formula)>)
    decreases results.len() - from,
{
    if from >= results.len() {
        (expr, bound)
    } else {
        let (next_expr, next_bound) = combine_bindings(
            results[from as int].1,
            from + 1,
            0,
            expr,
            bound,
        );
        combine_results(results, from + 1, next_expr, next_bound)
    }
}

/// The results followed by their combined entry, where there are two or
/// more of them.
pub open spec fn with_combined(
    template: Formula,
    results: Seq<(Formula, Seq<(Seq<char>, Formula)>)>,
) -> Seq<(Formula, Seq<(Seq<char>, Formula)>)> {
    if results.len() > 1 {
        results.push(combine_results(results, 0, template, Seq::empty()))
    } else {
        results
    }
}

/// The rewrites of `target` by `rule` before the combined entry is added,
/// or `None` where rewriting goes deeper than `fuel`.
pub open spec fn rewrites_proper(target: Formula, rule: RuleView, fuel: nat) -> Option<
    Seq<(Formula, Seq<(Seq<char>, Formula)>)>,
>
    decreases fuel, 0nat, 0nat,
{
    if fuel == 0 {
        None
    } else {
        let root = rewrite_root(target, rule);
        match target {
            Formula::UnaryOp(op, x) => match rewrites(*x, rule, (fuel - 1) as nat) {
                Some(inner) => Some(record_all(root, wrapped(op, inner), 0)),
                None => None,
            },
            Formula::BinaryOp(op, xs) => rewrite_operands(
                op,
                xs,
                rule,
                (fuel - 1) as nat,
                0,
                root,
            ),
            _ => Some(root),
        }
    }
}

/// The rewrites of `target` by `rule`, or `None` where rewriting goes
/// deeper than `fuel`.
pub open spec fn rewrites(target: Formula, rule: RuleView, fuel: nat) -> Option<
    Seq<(Formula, Seq<(Seq<char>, Formula)>)>,
>
    decreases fuel, 1nat, 0nat,
{
    match rewrites_proper(target, rule, fuel) {
        Some(results) => Some(with_combined(rule.rhs, results)),
        None => None,
    }
}

/// `results` followed by what the operands from place `at` on give: each
/// operand is rewritten, and each of its rewrites is put in its place.
pub open spec fn rewrite_operands(
    op: Operator,
    operands: Seq<Formula>,
    rule: RuleView,
    fuel: nat,
    at: nat,
    results: Seq<(Formula, Seq<(Seq<char>, Formula)>)>,
) -> Option<Seq<(Formula, Seq<(Seq<char>, Formula)>)>>
    decreases fuel, 3nat, operands.len() - at,
{
    if at >= operands.len() {
        Some(results)
    } else {
        match rewrites(operands[at as int], rule, fuel) {
            Some(inner) => match rewrite_splices(op, operands, rule, fuel, at, inner, 0, results) {
                Some(next) => rewrite_operands(op, operands, rule, fuel, at + 1, next),
                None => None,
            },
            None => None,
        }
    }
}

/// `results` followed by what the rewrites of the operand at place `at`
/// give, from the rewrite at place `from` on: the formula with the operand
/// replaced is recorded, and so is everything that rewriting that formula
/// gives.
pub open spec fn rewrite_splices(
    op: Operator,
    operands: Seq<Formula>,
    rule: RuleView,
    fuel: nat,
    at: nat,
    inner: Seq<(Formula, Seq<(Seq<char>, Formula)>)>,
    from: nat,
    results: Seq<(Formula, Seq<(Seq<char>, Formula)>)>,
) -> Option<Seq<(Formula, Seq<(Seq<char>, Formula)>)>>
    decreases fuel, 2nat, inner.len() - from,
{
    if from >= inner.len() {
        Some(results)
    } else {
        let spliced = Formula::BinaryOp(op, operands.update(at as int, inner[from as int].0));
        match rewrites(spliced, rule, fuel) {
            Some(second) => rewrite_splices(
                op,
                operands,
                rule,
                fuel,
                at,
                inner,
                from + 1,
                record_all(record(results, spliced, inner[from as int].1), second, 0),
            ),
            None => None,
        }
    }
}

/// The rewrites of `target` by the rule called `name`: none where there is
/// no such rule.
pub open spec fn apply(
    target: Formula,
    rules: Map<Seq<char>, RuleView>,
    name: Seq<char>,
    fuel: nat,
) -> Option<Seq<(Formula, Seq<(Seq<char>, Formula)>)>> {
    if rules.contains_key(name) {
        rewrites(target, rules[name], fuel)
    } else {
        Some(Seq::empty())
    }
}

/// No two results have equal formulas.
pub open spec fn distinct(results: Seq<(Formula, Seq<(Seq<char>, Formula)>)>) -> bool {
    forall|i: int, j: int|
        0 <= i < j < results.len() ==> !(#[trigger] results[i]).0.same((#[trigger] results[j]).0)
}

/// Recording keeps a list free of repetitions.
pub proof fn lemma_record_distinct(
    results: Seq<(Formula, Seq<(Seq<char>, Formula)>)>,
    more: Seq<(Formula, Seq<(Seq<char>, Formula)>)>,
    from: nat,
)
    requires
        distinct(results),
    ensures
        distinct(record_all(results, more, from)),
    decreases more.len() - from,
{
    if from < more.len() {
        lemma_record_distinct(
            record(results, more[from as int].0, more[from as int].1),
            more,
            from + 1,
        );
    }
}

/// Putting the rewrites of one operand in its place keeps a list free of
/// repetitions.
pub proof fn lemma_splices_distinct(
    op: Operator,
    operands: Seq<Formula>,
    rule: RuleView,
    fuel: nat,
    at: nat,
    inner: Seq<(Formula, Seq<(Seq<char>, Formula)>)>,
    from: nat,
    results: Seq<(Formula, Seq<(Seq<char>, Formula)>)>,
)
    requires
        distinct(results),
    ensures
        rewrite_splices(op, operands, rule, fuel, at, inner, from, results) matches Some(r)
            ==> distinct(r),
    decreases inner.len() - from,
{
    if from < inner.len() {
        let spliced = Formula::BinaryOp(op, operands.update(at as int, inner[from as int].0));
        match rewrites(spliced, rule, fuel) {
            Some(second) => {
                let recorded = record(results, spliced, inner[from as int].1);
                lemma_record_distinct(recorded, second, 0);
                lemma_splices_distinct(
                    op,
                    operands,
                    rule,
                    fuel,
                    at,
                    inner,
                    from + 1,
                    record_all(recorded, second, 0),
                );
            },
            None => {},
        }
    }
}

/// Going through the operands keeps a list free of repetitions.
pub proof fn lemma_operands_distinct(
    op: Operator,
    operands: Seq<Formula>,
    rule: RuleView,
    fuel: nat,
    at: nat,
    results: Seq<(Formula, Seq<(Seq<char>, Formula)>)>,
)
    requires
        distinct(results),
    ensures
        rewrite_operands(op, operands, rule, fuel, at, results) matches Some(r) ==> distinct(r),
    decreases operands.len() - at,
{
    if at < operands.len() {
        match rewrites(operands[at as int], rule, fuel) {
            Some(inner) => {
                lemma_splices_distinct(op, operands, rule, fuel, at, inner, 0, results);
                match rewrite_splices(op, operands, rule, fuel, at, inner, 0, results) {
                    Some(next) => {
                        lemma_operands_distinct(op, operands, rule, fuel, at + 1, next);
                    },
                    None => {},
                }
            },
            None => {},
        }
    }
}

/// No formula is listed twice among the rewrites of a formula.  The
/// combined entry, which follows them where there are two or more, is not
/// one of them and may repeat a formula.
pub proof fn lemma_rewrites_distinct(target: Formula, rule: RuleView, fuel: nat)
    ensures
        rewrites_proper(target, rule, fuel) matches Some(r) ==> distinct(r),
        rewrites(target, rule, fuel) matches Some(r) ==> r.len() != 2 && distinct(
            if r.len() > 2 {
                r.drop_last()
            } else {
                r
            },
        ),
{
    if fuel > 0 {
        let root = rewrite_root(target, rule);
        match target {
            Formula::UnaryOp(op, x) => {
                match rewrites(*x, rule, (fuel - 1) as nat) {
                    Some(inner) => {
                        lemma_record_distinct(root, wrapped(op, inner), 0);
                    },
                    None => {},
                }
            },
            Formula::BinaryOp(op, xs) => {
                lemma_operands_distinct(op, xs, rule, (fuel - 1) as nat, 0, root);
            },
            _ => {},
        }
        match rewrites_proper(target, rule, fuel) {
            Some(proper) => {
                let r = with_combined(rule.rhs, proper);
                if proper.len() > 1 {
                    assert(r.drop_last() =~= proper);
                }
            },
            None => {},
        }
    }
}

/// The depth allowed does not show in the result: where rewriting comes to
/// an end within `fuel`, it gives the same list within any greater depth.
pub proof fn lemma_rewrites_monotonic(target: Formula, rule: RuleView, fuel: nat, more: nat)
    requires
        fuel <= more,
        rewrites(target, rule, fuel) is Some,
    ensures
        rewrites(target, rule, more) == rewrites(target, rule, fuel),
    decreases fuel, 1nat, 0nat,
{
    let root = rewrite_root(target, rule);
    match target {
        Formula::UnaryOp(op, x) => {
            lemma_rewrites_monotonic(*x, rule, (fuel - 1) as nat, (more - 1) as nat);
        },
        Formula::BinaryOp(op, xs) => {
            lemma_operands_monotonic(op, xs, rule, (fuel - 1) as nat, (more - 1) as nat, 0, root);
        },
        _ => {},
    }
}

/// The same for the operands of a connective.
pub proof fn lemma_operands_monotonic(
    op: Operator,
    operands: Seq<Formula>,
    rule: RuleView,
    fuel: nat,
    more: nat,
    at: nat,
    results: Seq<(Formula, Seq<(Seq<char>, Formula)>)>,
)
    requires
        fuel <= more,
        rewrite_operands(op, operands, rule, fuel, at, results) is Some,
    ensures
        rewrite_operands(op, operands, rule, more, at, results) == rewrite_operands(
            op,
            operands,
            rule,
            fuel,
            at,
            results,
        ),
    decreases fuel, 3nat, operands.len() - at,
{
    if at < operands.len() {
        lemma_rewrites_monotonic(operands[at as int], rule, fuel, more);
        let inner = rewrites(operands[at as int], rule, fuel)->0;
        lemma_splices_monotonic(op, operands, rule, fuel, more, at, inner, 0, results);
        let next = rewrite_splices(op, operands, rule, fuel, at, inner, 0, results)->0;
        lemma_operands_monotonic(op, operands, rule, fuel, more, at + 1, next);
    }
}

/// The same for the rewrites of one operand.
pub proof fn lemma_splices_monotonic(
    op: Operator,
    operands: Seq<Formula>,
    rule: RuleView,
    fuel: nat,
    more: nat,
    at: nat,
    inner: Seq<(Formula, Seq<(Seq<char>, Formula)>)>,
    from: nat,
    results: Seq<(Formula, Seq<(Seq<char>, Formula)>)>,
)
    requires
        fuel <= more,
        rewrite_splices(op, operands, rule, fuel, at, inner, from, results) is Some,
    ensures
        rewrite_splices(op, operands, rule, more, at, inner, from, results) == rewrite_splices(
            op,
            operands,
            rule,
            fuel,
            at,
            inner,
            from,
            results,
        ),
    decreases fuel, 2nat, inner.len() - from,
{
    if from < inner.len() {
        let spliced = Formula::BinaryOp(op, operands.update(at as int, inner[from as int].0));
        lemma_rewrites_monotonic(spliced, rule, fuel, more);
        let second = rewrites(spliced, rule, fuel)->0;
        lemma_splices_monotonic(
            op,
            operands,
            rule,
            fuel,
            more,
            at,
            inner,
            from + 1,
            record_all(record(results, spliced, inner[from as int].1), second, 0),
        );
    }
}

/// Applying a rule that is not defined gives nothing, whatever the formula
/// and the depth allowed.
pub proof fn lemma_apply_undefined(
    target: Formula,
    rules: Map<Seq<char>, RuleView>,
    name: Seq<char>,
    fuel: nat,
)
    requires
        !rules.contains_key(name),
    ensures
        apply(target, rules, name, fuel) == Some(Seq::<(Formula, Seq<(Seq<char>, Formula)>)>::empty()),
{
}

/// Applying a rule lists no formula twice, the combined entry aside: it is
/// the last of three or more entries, and may repeat one of the others.
pub proof fn lemma_apply_distinct(
    target: Formula,
    rules: Map<Seq<char>, RuleView>,
    name: Seq<char>,
    fuel: nat,
)
    ensures
        apply(target, rules, name, fuel) matches Some(r) ==> r.len() != 2 && distinct(
            if r.len() > 2 {
                r.drop_last()
            } else {
                r
            },
        ),
{
    if rules.contains_key(name) {
        lemma_rewrites_distinct(target, rules[name], fuel);
    }
}

/// Applying a rule within a greater depth changes nothing once the depth
/// suffices.
pub proof fn lemma_apply_monotonic(
    target: Formula,
    rules: Map<Seq<char>, RuleView>,
    name: Seq<char>,
    fuel: nat,
    more: nat,
)
    requires
        fuel <= more,
        apply(target, rules, name, fuel) is Some,
    ensures
        apply(target, rules, name, more) == apply(target, rules, name, fuel),
{
    if rules.contains_key(name) {
        lemma_rewrites_monotonic(target, rules[name], fuel, more);
    }
}

/// A list of results as plain values.
pub open spec fn results_view(results: Seq<(Box<LogExpr>, Bindings)>) -> Seq<
    (Formula, Seq<(Seq<char>, Formula)>),
> {
    Seq::new(results.len(), |i: int| (results[i].0@, results[i].1@))
}

/// A list of results that may be missing, as plain values.
pub open spec fn results_of(results: Option<Vec<(Box<LogExpr>, Bindings)>>) -> Option<
    Seq<(Formula, Seq<(Seq<char>, Formula)>)>,
> {
    match results {
        Some(r) => Some(results_view(r@)),
        None => None,
    }
}

/// Appends the decimal digits of `n` to `text`.
fn push_decimal(text: &mut String, n: usize)
    ensures
        final(text)@ == old(text)@ + decimal(n as nat),
    decreases n,
{
    if n >= 10 {
        push_decimal(text, n / 10);
    }
    text.push(digit_char(n % 10));
    assert(text@ =~= old(text)@ + decimal(n as nat));
}

/// The name of a variable in the combined entry.
fn rename(name: &str, index: usize) -> (text: Box<String>)
    ensures
        text@ == renamed(name@, index as nat),
{
    let mut text = name.to_owned();
    text.push('_');
    push_decimal(&mut text, index);
    Box::new(text)
}

/// Adds a result to the list unless its formula is listed already.
fn record_result(results: &mut Vec<(Box<LogExpr>, Bindings)>, expr: Box<LogExpr>, bindings: Bindings)
    ensures
        results_view(final(results)@) == record(results_view(old(results)@), expr@, bindings@),
{
    let mut i: usize = 0;
    while i < results.len()
        invariant
            *results == *old(results),
            i <= results.len(),
            forall|j: int| 0 <= j < i ==> !(#[trigger] results_view(results@)[j]).0.same(expr@),
        decreases results.len() - i,
    {
        if results[i].0.same_as(&expr) {
            assert(results_view(results@)[i as int].0.same(expr@));
            return ;
        }
        i += 1;
    }
    results.push((expr, bindings));
    assert(results_view(results@) =~= results_view(old(results)@).push((expr@, bindings@)));
}

/// Adds results to the list in order, each unless its formula is listed
/// already.
fn record_results(results: &mut Vec<(Box<LogExpr>, Bindings)>, more: Vec<(Box<LogExpr>, Bindings)>)
    ensures
        results_view(final(results)@) == record_all(
            results_view(old(results)@),
            results_view(more@),
            0,
        ),
{
    let ghost all = results_view(more@);
    for item in it: more
        invariant
            it.seq() == more@,
            all == results_view(more@),
            record_all(results_view(results@), all, it.index() as nat) == record_all(
                results_view(old(results)@),
                all,
                0,
            ),
    {
        let (expr, bindings) = item;
        record_result(results, expr, bindings);
    }
}

/// The operands with the one at place `at` replaced by `expr`.
fn splice(operands: &Vec<Box<LogExpr>>, at: usize, expr: Box<LogExpr>) -> (spliced: Vec<
    Box<LogExpr>,
>)
    requires
        at < operands.len(),
    ensures
        formulas(spliced@) == formulas(operands@).update(at as int, expr@),
{
    let mut spliced: Vec<Box<LogExpr>> = Vec::new();
    let mut i: usize = 0;
    while i < at
        invariant
            i <= at < operands.len(),
            spliced.len() == i,
            forall|j: int| 0 <= j < i ==> spliced[j]@ == operands[j]@,
        decreases at - i,
    {
        spliced.push(Box::new((*operands[i]).clone()));
        i += 1;
    }
    spliced.push(expr);
    i += 1;
    while i < operands.len()
        invariant
            at < i <= operands.len(),
            spliced.len() == i,
            spliced[at as int]@ == expr@,
            forall|j: int| 0 <= j < i && j != at ==> spliced[j]@ == operands[j]@,
        decreases operands.len() - i,
    {
        spliced.push(Box::new((*operands[i]).clone()));
        i += 1;
    }
    assert(formulas(spliced@) =~= formulas(operands@).update(at as int, expr@));
    spliced
}

/// The combined entry of the results.
fn combine(template: &LogExpr, results: &Vec<(Box<LogExpr>, Bindings)>) -> (combined: (
    Box<LogExpr>,
    Bindings,
))
    ensures
        (combined.0@, combined.1@) == combine_results(
            results_view(results@),
            0,
            template@,
            Seq::empty(),
        ),
{
    let mut expr = Box::new(template.clone());
    let mut bound = Bindings::new();
    let ghost all = results_view(results@);
    let mut i: usize = 0;
    while i < results.len()
        invariant
            i <= results.len(),
            all == results_view(results@),
            combine_results(all, i as nat, expr@, bound@) == combine_results(
                all,
                0,
                template@,
                Seq::empty(),
            ),
        decreases results.len() - i,
    {
        let bindings = &results[i].1;
        let ghost expr0 = expr@;
        let ghost bound0 = bound@;
        let mut j: usize = 0;
        while j < bindings.len()
            invariant
                i < results.len(),
                j <= bindings@.len(),
                combine_bindings(bindings@, (i + 1) as nat, j as nat, expr@, bound@)
                    == combine_bindings(bindings@, (i + 1) as nat, 0, expr0, bound0),
            decreases bindings@.len() - j,
        {
            let name = rename(bindings.name(j).as_str(), i + 1);
            bound.insert(name, Box::new(bindings.value(j).clone()));
            expr = expr.substitute(&bound);
            j += 1;
        }
        i += 1;
    }
    (expr, bound)
}

impl LogExpr {
    /// The rewrites of this formula by `rule`, or `None` where rewriting
    /// goes deeper than `fuel`.
    fn rewrite(&self, rule: &Rule, fuel: usize) -> (results: Option<Vec<(Box<LogExpr>, Bindings)>>)
        ensures
            results_of(results) == rewrites(self@, rule@, fuel as nat),
        decreases fuel,
    {
        if fuel == 0 {
            return None;
        }
        let mut results: Vec<(Box<LogExpr>, Bindings)> = Vec::new();
        let mut bindings = Bindings::new();
        if rule.lhs.match_with(self, &mut bindings) {
            let expr = rule.rhs.substitute(&bindings);
            results.push((expr, bindings));
        }
        let ghost root = rewrite_root(self@, rule@);
        assert(results_view(results@) =~= root);
        match self {
            LogExpr::UnaryOp(op, x) => {
                let inner = match x.rewrite(rule, fuel - 1) {
                    Some(inner) => inner,
                    None => {
                        return None;
                    },
                };
                let ghost all = wrapped(**op, results_view(inner@));
                for item in it: inner
                    invariant
                        it.seq() == inner@,
                        all == wrapped(**op, results_view(inner@)),
                        record_all(results_view(results@), all, it.index() as nat) == record_all(
                            root,
                            all,
                            0,
                        ),
                {
                    let (expr, bindings) = item;
                    record_result(
                        &mut results,
                        Box::new(LogExpr::UnaryOp(Box::new(**op), expr)),
                        bindings,
                    );
                }
            },
            LogExpr::BinaryOp(op, xs) => {
                proof {
                    lemma_operands(*op, *xs);
                }
                let ghost total = rewrite_operands(
                    **op,
                    formulas(xs@),
                    rule@,
                    (fuel - 1) as nat,
                    0,
                    root,
                );
                let mut at: usize = 0;
                while at < xs.len()
                    invariant
                        fuel > 0,
                        at <= xs.len(),
                        rewrites_proper(self@, rule@, fuel as nat) == total,
                        rewrite_operands(
                            **op,
                            formulas(xs@),
                            rule@,
                            (fuel - 1) as nat,
                            at as nat,
                            results_view(results@),
                        ) == total,
                    decreases xs.len() - at,
                {
                    let inner = match xs[at].rewrite(rule, fuel - 1) {
                        Some(inner) => inner,
                        None => {
                            return None;
                        },
                    };
                    let ghost all = results_view(inner@);
                    let ghost next = rewrite_splices(
                        **op,
                        formulas(xs@),
                        rule@,
                        (fuel - 1) as nat,
                        at as nat,
                        all,
                        0,
                        results_view(results@),
                    );
                    for item in it: inner
                        invariant
                            fuel > 0,
                            at < xs.len(),
                            it.seq() == inner@,
                            all == results_view(inner@),
                            rewrites_proper(self@, rule@, fuel as nat) == total,
                            next is None ==> total is None,
                            rewrite_splices(
                                **op,
                                formulas(xs@),
                                rule@,
                                (fuel - 1) as nat,
                                at as nat,
                                all,
                                it.index() as nat,
                                results_view(results@),
                            ) == next,
                    {
                        let (expr, bindings) = item;
                        let spliced = LogExpr::BinaryOp(Box::new(**op), splice(xs, at, expr));
                        proof {
                            lemma_operands(Box::new(**op), spliced->BinaryOp_1);
                        }
                        let second = match spliced.rewrite(rule, fuel - 1) {
                            Some(second) => second,
                            None => {
                                return None;
                            },
                        };
                        record_result(&mut results, Box::new(spliced), bindings);
                        record_results(&mut results, second);
                    }
                    at += 1;
                }
            },
            _ => {},
        }
        if results.len() > 1 {
            let combined = combine(&rule.rhs, &results);
            let ghost before = results_view(results@);
            results.push(combined);
            assert(results_view(results@) =~= before.push((combined.0@, combined.1@)));
        }
        Some(results)
    }

    /// Applies the rule called `rule_name` to this formula, rewriting no
    /// deeper than `depth`.  Returns `None` where that depth does not
    /// suffice, and an empty list where there is no rule of that name.
    pub fn apply_rule_within(&self, rule_set: &RuleSet, rule_name: &str, depth: usize) -> (results:
        Option<Vec<(Box<LogExpr>, Bindings)>>)
        ensures
            results_of(results) == apply(self@, rule_set@, rule_name@, depth as nat),
    {
        match rule_set.get_rule(Box::new(rule_name.to_owned())) {
            Some(rule) => self.rewrite(rule, depth),
            None => {
                let results: Vec<(Box<LogExpr>, Bindings)> = Vec::new();
                assert(results_view(results@) =~= Seq::empty());
                Some(results)
            },
        }
    }

    /// Applies the rule called `rule_name` to this formula.  Returns an
    /// empty list where there is no rule of that name.
    ///
    /// The rewriting has to come to an end, within a depth that the machine
    /// can count.  Where that is not known of the rule and the formula,
    /// [`apply_rule_within`](LogExpr::apply_rule_within) sets a depth and
    /// says when it did not suffice.
    pub fn apply_rule(&self, rule_set: &RuleSet, rule_name: &str) -> (results: Vec<
        (Box<LogExpr>, Bindings),
    >)
        requires
            apply(self@, rule_set@, rule_name@, usize::MAX as nat) is Some,
        ensures
            Some(results_view(results@)) == apply(self@, rule_set@, rule_name@, usize::MAX as nat),
            forall|fuel: nat|
                apply(self@, rule_set@, rule_name@, fuel) is Some ==> #[trigger] apply(
                    self@,
                    rule_set@,
                    rule_name@,
                    fuel,
                ) == Some(results_view(results@)),
            !rule_set@.contains_key(rule_name@) ==> results@.len() == 0,
    {
        proof {
            assert forall|fuel: nat|
                apply(self@, rule_set@, rule_name@, fuel) is Some implies #[trigger] apply(
                self@,
                rule_set@,
                rule_name@,
                fuel,
            ) == apply(self@, rule_set@, rule_name@, usize::MAX as nat) by {
                if fuel <= usize::MAX {
                    lemma_apply_monotonic(self@, rule_set@, rule_name@, fuel, usize::MAX as nat);
                } else {
                    lemma_apply_monotonic(self@, rule_set@, rule_name@, usize::MAX as nat, fuel);
                }
            }
        }
        match self.apply_rule_within(rule_set, rule_name, usize::MAX) {
            Some(results) => results,
            None => Vec::new(),
        }
    }
}

} // verus!
