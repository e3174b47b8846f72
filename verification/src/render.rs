//! Formulas, commands and rules as text.
//!
//! A formula is written the way it is read: an atom or a variable as its
//! word, a connective in parentheses before its operands, `(and p q)`.

use vstd::prelude::*;
use vstd::string::StringExecFns;
use crate::expr::{formulas, lemma_operands, Formula, LogExpr, Operator};
use crate::parser::{Command, CommandView};
use crate::rules::{RuleSet, RuleView};

verus! {

/// The word that a connective is written as.
pub open spec fn operator_name(op: Operator) -> Seq<char> {
    match op {
        Operator::Not => "not"@,
        Operator::And => "and"@,
        Operator::Or => "or"@,
        Operator::Imp => "imp"@,
    }
}

/// A formula as text.
pub open spec fn rendered(expr: Formula) -> Seq<char>
    decreases expr, 0nat,
{
    match expr {
        Formula::Atom(t) => t.text,
        Formula::Var(t) => t.text,
        Formula::UnaryOp(op, x) => (seq!['('] + operator_name(op)).push(' ') + rendered(*x)
            + seq![')'],
        Formula::BinaryOp(op, xs) => seq!['('] + operator_name(op) + rendered_operands(xs, 0)
            + seq![')'],
        Formula::True => "true"@,
        Formula::False => "false"@,
    }
}

/// The operands from place `from` on as text, each after a space.
pub open spec fn rendered_operands(operands: Seq<Formula>, from: nat) -> Seq<char>
    decreases operands, operands.len() - from,
{
    if from >= operands.len() {
        Seq::empty()
    } else {
        seq![' '] + rendered(operands[from as int]) + rendered_operands(operands, from + 1)
    }
}

/// A command as text.
pub open spec fn rendered_command(command: CommandView) -> Seq<char> {
    match command {
        CommandView::QuitRepl => "quit"@,
        CommandView::DefineRule { name, lhs, rhs } => ("rule "@ + name).push(' ') + rendered(lhs)
            + seq![' '] + rendered(rhs),
        CommandView::DeleteRule { name } => "delete "@ + name,
        CommandView::ApplyRule { name, expr } => ("apply "@ + name).push(' ') + rendered(expr),
        CommandView::LoadFile { file_path } => "load "@ + file_path,
        CommandView::SaveFile { file_path } => "save "@ + file_path,
        CommandView::Eval { expr } => rendered(expr),
    }
}

/// One rule as a line of text.
pub open spec fn rendered_rule(name: Seq<char>, rule: RuleView) -> Seq<char> {
    ("\t\t"@ + name + ": "@ + rendered(rule.lhs) + " => "@ + rendered(rule.rhs)).push('\n')
}

/// The rules from place `from` on, a line each.
pub open spec fn rendered_rules(rules: Seq<(Seq<char>, RuleView)>, from: nat) -> Seq<char>
    decreases rules.len() - from,
{
    if from >= rules.len() {
        Seq::empty()
    } else {
        rendered_rule(rules[from as int].0, rules[from as int].1) + rendered_rules(rules, from + 1)
    }
}

impl Operator {
    /// The word that this connective is written as.
    pub fn name(&self) -> (name: &'static str)
        ensures
            name@ == operator_name(*self),
    {
        match self {
            Operator::Not => "not",
            Operator::And => "and",
            Operator::Or => "or",
            Operator::Imp => "imp",
        }
    }

    /// This connective as text.
    pub fn to_string(&self) -> (text: String)
        ensures
            text@ == operator_name(*self),
    {
        self.name().to_owned()
    }
}

impl LogExpr {
    /// Appends this formula to `out`.
    pub fn write_to(&self, out: &mut String)
        ensures
            final(out)@ == old(out)@ + rendered(self@),
        decreases self,
    {
        match self {
            LogExpr::Atom(t) => {
                out.append(t.text.as_str());
            },
            LogExpr::Var(t) => {
                out.append(t.text.as_str());
            },
            LogExpr::UnaryOp(op, x) => {
                out.push('(');
                out.append(op.name());
                out.push(' ');
                x.write_to(out);
                out.push(')');
                assert(out@ =~= old(out)@ + rendered(self@));
            },
            LogExpr::BinaryOp(op, xs) => {
                proof {
                    lemma_operands(*op, *xs);
                }
                out.push('(');
                out.append(op.name());
                let ghost head = out@;
                let mut i: usize = 0;
                while i < xs.len()
                    invariant
                        self matches LogExpr::BinaryOp(_, xs0) && xs0 == xs,
                        i <= xs.len(),
                        out@ + rendered_operands(formulas(xs@), i as nat) == head
                            + rendered_operands(formulas(xs@), 0),
                    decreases xs.len() - i,
                {
                    let ghost before = out@;
                    out.push(' ');
                    xs[i].write_to(out);
                    i += 1;
                    assert(out@ + rendered_operands(formulas(xs@), i as nat) =~= before
                        + rendered_operands(formulas(xs@), (i - 1) as nat));
                }
                assert(out@ =~= head + rendered_operands(formulas(xs@), 0));
                out.push(')');
                assert(out@ =~= old(out)@ + rendered(self@));
            },
            LogExpr::True => {
                out.append("true");
            },
            LogExpr::False => {
                out.append("false");
            },
        }
    }

    /// This formula as text.
    pub fn to_string(&self) -> (text: String)
        ensures
            text@ == rendered(self@),
    {
        let mut text = String::new();
        self.write_to(&mut text);
        assert(text@ =~= rendered(self@));
        text
    }
}

impl RuleSet {
    /// The rules as text, a line each, in the order in which their names
    /// were first defined.
    pub fn to_string(&self) -> (text: String)
        ensures
            text@ == rendered_rules(self.listing(), 0),
    {
        let mut text = String::new();
        let mut i: usize = 0;
        while i < self.len()
            invariant
                i <= self.listing().len(),
                text@ + rendered_rules(self.listing(), i as nat) == rendered_rules(
                    self.listing(),
                    0,
                ),
            decreases self.listing().len() - i,
        {
            let ghost before = text@;
            let rule = self.rule(i);
            text.append("\t\t");
            text.append(self.name(i).as_str());
            text.append(": ");
            rule.lhs.write_to(&mut text);
            text.append(" => ");
            rule.rhs.write_to(&mut text);
            text.push('\n');
            i += 1;
            assert(text@ + rendered_rules(self.listing(), i as nat) =~= before + rendered_rules(
                self.listing(),
                (i - 1) as nat,
            ));
        }
        assert(text@ =~= rendered_rules(self.listing(), 0));
        text
    }
}

impl Command {
    /// This command as text.
    pub fn to_string(&self) -> (text: String)
        ensures
            text@ == rendered_command(self@),
    {
        let mut text = String::new();
        match self {
            Command::QuitRepl => {
                text.append("quit");
            },
            Command::DefineRule { name, lhs, rhs } => {
                text.append("rule ");
                text.append(name.as_str());
                text.push(' ');
                lhs.write_to(&mut text);
                text.push(' ');
                rhs.write_to(&mut text);
            },
            Command::DeleteRule { name } => {
                text.append("delete ");
                text.append(name.as_str());
            },
            Command::ApplyRule { name, expr } => {
                text.append("apply ");
                text.append(name.as_str());
                text.push(' ');
                expr.write_to(&mut text);
            },
            Command::LoadFile { file_path } => {
                text.append("load ");
                text.append(file_path.as_str());
            },
            Command::SaveFile { file_path } => {
                text.append("save ");
                text.append(file_path.as_str());
            },
            Command::Eval { expr } => {
                expr.write_to(&mut text);
            },
        }
        assert(text@ =~= rendered_command(self@));
        text
    }
}

} // verus!
