//! Formulas.
//!
//! A [`LogExpr`] is a formula as a tree.  Its view, a [`Formula`], is the
//! same tree over plain values.  Two formulas count as equal when they have
//! the same shape and the same tokens; where in the input a token was found
//! plays no part in that, so equality is stated over the
//! [`skeleton`](Formula::skeleton) of a formula, the formula with every
//! location forgotten.

use vstd::prelude::*;
use vstd::std_specs::cmp::PartialEqSpecImpl;
use crate::lexer::{Token, TokenView};

verus! {

/// A logical connective.
#[derive(Debug, Clone, Copy, PartialEq, Eq, Hash, Structural)]
pub enum Operator {
    Not,
    And,
    Or,
    Imp,
}

/// The connective that a word spells, if it spells one.
pub open spec fn operator_of(s: Seq<char>) -> Option<Operator> {
    if s == "not"@ || s == "~"@ || s == "N"@ || s == "[-]"@ || s == "!"@ {
        Some(Operator::Not)
    } else if s == "and"@ || s == "&"@ || s == "K"@ || s == "[*]"@ || s == "/\\"@ {
        Some(Operator::And)
    } else if s == "or"@ || s == "||"@ || s == "A"@ || s == "[+}"@ || s == "\\/"@ {
        Some(Operator::Or)
    } else if s == "imp"@ || s == "=>"@ || s == "C"@ {
        Some(Operator::Imp)
    } else {
        None
    }
}

impl Operator {
    /// Reads a connective from one of its spellings.
    pub fn from_str(s: &str) -> (op: Option<Operator>)
        ensures
            op == operator_of(s@),
    {
        if s.eq("not") || s.eq("~") || s.eq("N") || s.eq("[-]") || s.eq("!") {
            Some(Operator::Not)
        } else if s.eq("and") || s.eq("&") || s.eq("K") || s.eq("[*]") || s.eq("/\\") {
            Some(Operator::And)
        } else if s.eq("or") || s.eq("||") || s.eq("A") || s.eq("[+}") || s.eq("\\/") {
            Some(Operator::Or)
        } else if s.eq("imp") || s.eq("=>") || s.eq("C") {
            Some(Operator::Imp)
        } else {
            None
        }
    }
}

/// Every spelling of a connective spells that connective and no other, so
/// any two spellings of one connective can stand for each other.
pub proof fn lemma_synonyms()
    ensures
        operator_of("not"@) == Some(Operator::Not),
        operator_of("~"@) == Some(Operator::Not),
        operator_of("N"@) == Some(Operator::Not),
        operator_of("[-]"@) == Some(Operator::Not),
        operator_of("!"@) == Some(Operator::Not),
        operator_of("and"@) == Some(Operator::And),
        operator_of("&"@) == Some(Operator::And),
        operator_of("K"@) == Some(Operator::And),
        operator_of("[*]"@) == Some(Operator::And),
        operator_of("/\\"@) == Some(Operator::And),
        operator_of("or"@) == Some(Operator::Or),
        operator_of("||"@) == Some(Operator::Or),
        operator_of("A"@) == Some(Operator::Or),
        operator_of("[+}"@) == Some(Operator::Or),
        operator_of("\\/"@) == Some(Operator::Or),
        operator_of("imp"@) == Some(Operator::Imp),
        operator_of("=>"@) == Some(Operator::Imp),
        operator_of("C"@) == Some(Operator::Imp),
{
    reveal_strlit("not");
    reveal_strlit("~");
    reveal_strlit("N");
    reveal_strlit("[-]");
    reveal_strlit("!");
    reveal_strlit("and");
    reveal_strlit("&");
    reveal_strlit("K");
    reveal_strlit("[*]");
    reveal_strlit("/\\");
    reveal_strlit("or");
    reveal_strlit("||");
    reveal_strlit("A");
    reveal_strlit("[+}");
    reveal_strlit("\\/");
    reveal_strlit("imp");
    reveal_strlit("=>");
    reveal_strlit("C");
    assert("not"@[0] == 'n' && "~"@[0] == '~' && "N"@[0] == 'N' && "!"@[0] == '!');
    assert("and"@[0] == 'a' && "&"@[0] == '&' && "K"@[0] == 'K' && "/\\"@[0] == '/');
    assert("or"@[0] == 'o' && "||"@[0] == '|' && "A"@[0] == 'A' && "\\/"@[0] == '\\');
    assert("imp"@[0] == 'i' && "=>"@[0] == '=' && "C"@[0] == 'C');
    assert("[-]"@[1] == '-' && "[*]"@[1] == '*' && "[+}"@[1] == '+');
}

/// A formula over plain values.
pub enum Formula {
    /// A propositional constant.
    Atom(TokenView),
    /// A pattern variable.
    Var(TokenView),
    /// A connective with one operand.
    UnaryOp(Operator, Box<Formula>),
    /// A connective with its operands in order.
    BinaryOp(Operator, Seq<Formula>),
    True,
    False,
}

impl Formula {
    /// The formula with the location of every token forgotten.
    pub open spec fn skeleton(self) -> Formula
        decreases self,
    {
        match self {
            Formula::Atom(t) => Formula::Atom(t.unplaced()),
            Formula::Var(t) => Formula::Var(t.unplaced()),
            Formula::UnaryOp(op, x) => Formula::UnaryOp(op, Box::new(x.skeleton())),
            Formula::BinaryOp(op, xs) => Formula::BinaryOp(
                op,
                Seq::new(
                    xs.len(),
                    |i: int|
                        if 0 <= i < xs.len() {
                            xs[i].skeleton()
                        } else {
                            Formula::True
                        },
                ),
            ),
            Formula::True => Formula::True,
            Formula::False => Formula::False,
        }
    }

    /// Structural equality: the same tree, wherever its tokens were found.
    pub open spec fn same(self, other: Formula) -> bool {
        self.skeleton() == other.skeleton()
    }
}

/// Two lists of operands agree when they are as long as each other and
/// agree place by place.
pub proof fn lemma_same_operands(op: Operator, xs: Seq<Formula>, ys: Seq<Formula>)
    ensures
        Formula::BinaryOp(op, xs).same(Formula::BinaryOp(op, ys)) <==> (xs.len() == ys.len()
            && forall|i: int| 0 <= i < xs.len() ==> (#[trigger] xs[i]).same(ys[i])),
{
    let a = Formula::BinaryOp(op, xs).skeleton();
    let b = Formula::BinaryOp(op, ys).skeleton();
    if xs.len() == ys.len() && forall|i: int| 0 <= i < xs.len() ==> (#[trigger] xs[i]).same(ys[i]) {
        assert(a->BinaryOp_1 =~= b->BinaryOp_1);
    }
    if a == b {
        assert(a->BinaryOp_1.len() == xs.len());
        assert(b->BinaryOp_1.len() == ys.len());
        assert forall|i: int| 0 <= i < xs.len() implies (#[trigger] xs[i]).same(ys[i]) by {
            assert(a->BinaryOp_1[i] == b->BinaryOp_1[i]);
        }
    }
}

/// A formula: a tree of atoms, variables, connectives and the two constants.
/// The tree owns its parts; rewriting builds new trees.
#[derive(Debug)]
pub enum LogExpr {
    /// A propositional constant.
    Atom(Box<Token>),
    /// A pattern variable.
    Var(Box<Token>),
    /// A connective with one operand.
    UnaryOp(Box<Operator>, Box<LogExpr>),
    /// A connective with its operands in order.
    BinaryOp(Box<Operator>, Vec<Box<LogExpr>>),
    True,
    False,
}

impl LogExpr {
    /// The formula that this tree holds.
    pub open spec fn formula(&self) -> Formula
        decreases self,
    {
        match self {
            LogExpr::Atom(t) => Formula::Atom(t@),
            LogExpr::Var(t) => Formula::Var(t@),
            LogExpr::UnaryOp(op, e) => Formula::UnaryOp(**op, Box::new(e.formula())),
            LogExpr::BinaryOp(op, es) => Formula::BinaryOp(
                **op,
                Seq::new(
                    es.len() as nat,
                    |i: int|
                        if 0 <= i < es.len() {
                            es[i].formula()
                        } else {
                            Formula::True
                        },
                ),
            ),
            LogExpr::True => Formula::True,
            LogExpr::False => Formula::False,
        }
    }
}

impl View for LogExpr {
    type V = Formula;

    open spec fn view(&self) -> Formula {
        self.formula()
    }
}

/// The formulas that a list of trees holds, in order.
pub open spec fn formulas(es: Seq<Box<LogExpr>>) -> Seq<Formula> {
    Seq::new(es.len(), |i: int| es[i]@)
}

/// The operands of a tree are the formulas of its operand trees.
pub proof fn lemma_operands(op: Box<Operator>, es: Vec<Box<LogExpr>>)
    ensures
        LogExpr::BinaryOp(op, es)@ == Formula::BinaryOp(*op, formulas(es@)),
{
    assert(LogExpr::BinaryOp(op, es)@->BinaryOp_1 =~= formulas(es@));
}

impl Clone for LogExpr {
    fn clone(&self) -> (res: Self)
        ensures
            res@ == self@,
        decreases self,
    {
        match self {
            LogExpr::Atom(t) => LogExpr::Atom(Box::new((**t).clone())),
            LogExpr::Var(t) => LogExpr::Var(Box::new((**t).clone())),
            LogExpr::UnaryOp(op, e) => LogExpr::UnaryOp(
                Box::new(**op),
                Box::new((**e).clone()),
            ),
            LogExpr::BinaryOp(op, es) => {
                let mut out: Vec<Box<LogExpr>> = Vec::new();
                let mut i: usize = 0;
                while i < es.len()
                    invariant
                        self matches LogExpr::BinaryOp(_, es0) && es0 == es,
                        i <= es.len(),
                        out.len() == i,
                        forall|j: int| 0 <= j < i ==> out[j]@ == es[j]@,
                    decreases es.len() - i,
                {
                    out.push(Box::new((*es[i]).clone()));
                    i += 1;
                }
                proof {
                    assert(formulas(out@) =~= formulas(es@));
                    lemma_operands(*op, *es);
                    lemma_operands(Box::new(**op), out);
                }
                LogExpr::BinaryOp(Box::new(**op), out)
            },
            LogExpr::True => LogExpr::True,
            LogExpr::False => LogExpr::False,
        }
    }
}

impl LogExpr {
    /// Structural equality of two trees.
    pub fn same_as(&self, other: &LogExpr) -> (r: bool)
        ensures
            r == self@.same(other@),
        decreases self,
    {
        match (self, other) {
            (LogExpr::Atom(a), LogExpr::Atom(b)) => **a == **b,
            (LogExpr::Var(a), LogExpr::Var(b)) => **a == **b,
            (LogExpr::UnaryOp(op1, a), LogExpr::UnaryOp(op2, b)) => **op1 == **op2 && a.same_as(b),
            (LogExpr::BinaryOp(op1, xs), LogExpr::BinaryOp(op2, ys)) => {
                proof {
                    lemma_operands(*op1, *xs);
                    lemma_operands(*op2, *ys);
                    lemma_same_operands(**op1, formulas(xs@), formulas(ys@));
                }
                if **op1 != **op2 || xs.len() != ys.len() {
                    return false;
                }
                let mut i: usize = 0;
                while i < xs.len()
                    invariant
                        self matches LogExpr::BinaryOp(_, xs0) && xs0 == xs,
                        self@ == Formula::BinaryOp(**op1, formulas(xs@)),
                        other@ == Formula::BinaryOp(**op1, formulas(ys@)),
                        xs.len() == ys.len(),
                        i <= xs.len(),
                        forall|j: int| 0 <= j < i ==> (#[trigger] formulas(xs@)[j]).same(formulas(ys@)[j]),
                    decreases xs.len() - i,
                {
                    if !xs[i].same_as(&ys[i]) {
                        proof {
                            assert(!formulas(xs@)[i as int].same(formulas(ys@)[i as int]));
                            lemma_same_operands(**op1, formulas(xs@), formulas(ys@));
                        }
                        return false;
                    }
                    i += 1;
                }
                proof {
                    lemma_same_operands(**op1, formulas(xs@), formulas(ys@));
                }
                true
            },
            (LogExpr::True, LogExpr::True) => true,
            (LogExpr::False, LogExpr::False) => true,
            _ => false,
        }
    }
}

impl PartialEq for LogExpr {
    fn eq(&self, other: &Self) -> (r: bool) {
        self.same_as(other)
    }
}

impl Eq for LogExpr {

}

impl PartialEqSpecImpl for LogExpr {
    open spec fn obeys_eq_spec() -> bool {
        true
    }

    open spec fn eq_spec(&self, other: &LogExpr) -> bool {
        self@.same(other@)
    }
}

} // verus!
