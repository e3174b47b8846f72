use rustywff::expr::{LogExpr, Operator};
use rustywff::lexer::Lexer;
use rustywff::parser::Command;
use rustywff::rules::{Bindings, Rule, RuleSet};

fn tree(text: &str) -> Box<LogExpr> {
    let mut lexer = Lexer::new(text, None);
    LogExpr::parse(&mut lexer).expect("a formula")
}

fn named(name: &str) -> Box<String> {
    Box::new(name.to_string())
}

fn read(text: &str) -> Box<Command> {
    let mut lexer = Lexer::new(text, None);
    Command::parse(&mut lexer).expect("a command")
}

#[test]
fn a_new_rule_set_is_empty() {
    let rule_set = RuleSet::new();
    assert_eq!(rule_set.len(), 0);
    assert!(rule_set.get_rule(named("r")).is_none());
    assert_eq!(rule_set.to_string(), "");
}

#[test]
fn a_rule_that_was_added_is_found() {
    let mut rule_set = RuleSet::new();
    rule_set.add_rule(named("r"), tree("(not P)"), tree("P"));
    rule_set.add_rule(named("s"), tree("p"), tree("q"));
    assert_eq!(rule_set.len(), 2);
    let r = rule_set.get_rule(named("r")).expect("the rule");
    assert_eq!(r.lhs, tree("(not P)"));
    assert_eq!(r.rhs, tree("P"));
    let s = rule_set.get_rule(named("s")).expect("the rule");
    assert_eq!(s.lhs, tree("p"));
    assert_eq!(s.rhs, tree("q"));
    assert!(rule_set.get_rule(named("t")).is_none());
    assert!(rule_set.get_rule(named("R")).is_none());
    assert!(rule_set.get_rule(named("")).is_none());
}

#[test]
fn the_last_definition_of_a_name_wins() {
    let mut rule_set = RuleSet::new();
    rule_set.add_rule(named("r"), tree("p"), tree("q"));
    rule_set.add_rule(named("s"), tree("a"), tree("b"));
    rule_set.add_rule(named("r"), tree("(not X)"), tree("X"));
    assert_eq!(rule_set.len(), 2);
    let r = rule_set.get_rule(named("r")).expect("the rule");
    assert_eq!(r.lhs, tree("(not X)"));
    assert_eq!(r.rhs, tree("X"));
    assert_eq!(rule_set.name(0).as_str(), "r");
    assert_eq!(rule_set.name(1).as_str(), "s");
    assert_eq!(rule_set.rule(1).lhs, tree("a"));
}

#[test]
fn a_deleted_rule_is_returned_and_gone() {
    let mut rule_set = RuleSet::new();
    rule_set.add_rule(named("r"), tree("p"), tree("q"));
    rule_set.add_rule(named("s"), tree("a"), tree("b"));
    rule_set.add_rule(named("t"), tree("c"), tree("d"));
    let removed = rule_set.delete_rule(named("s")).expect("the rule");
    assert_eq!(removed.lhs, tree("a"));
    assert_eq!(removed.rhs, tree("b"));
    assert_eq!(rule_set.len(), 2);
    assert!(rule_set.get_rule(named("s")).is_none());
    assert_eq!(rule_set.get_rule(named("r")).expect("the rule").rhs, tree("q"));
    assert_eq!(rule_set.get_rule(named("t")).expect("the rule").rhs, tree("d"));
    assert!(rule_set.delete_rule(named("s")).is_none());
    assert!(rule_set.delete_rule(named("u")).is_none());
    assert_eq!(rule_set.len(), 2);
}

#[test]
fn rules_are_not_checked() {
    let mut rule_set = RuleSet::new();
    rule_set.add_rule(named(""), tree("p"), tree("(and X Y)"));
    let rule = rule_set.get_rule(named("")).expect("the rule");
    assert_eq!(rule.rhs, tree("(and X Y)"));
}

#[test]
fn a_cloned_rule_is_the_same_rule() {
    let rule = Rule { lhs: tree("(not (and P Q))"), rhs: tree("(or (not P) (not Q))") };
    let copy = rule.clone();
    assert_eq!(copy.lhs, rule.lhs);
    assert_eq!(copy.rhs, rule.rhs);
}

#[test]
fn rules_are_listed_a_line_each() {
    let mut rule_set = RuleSet::new();
    rule_set.add_rule(named("demorgan"), tree("(not (and P Q))"), tree("(or (not P) (not Q))"));
    rule_set.add_rule(named("r"), tree("p"), tree("q"));
    assert_eq!(
        rule_set.to_string(),
        "\t\tdemorgan: (not (and P Q)) => (or (not P) (not Q))\n\t\tr: p => q\n"
    );
}

#[test]
fn new_bindings_are_empty() {
    let bindings = Bindings::new();
    assert_eq!(bindings.len(), 0);
    assert!(bindings.is_empty());
    assert!(bindings.get("X").is_none());
}

#[test]
fn bindings_are_found_by_name() {
    let mut bindings = Bindings::new();
    assert!(bindings.insert(named("X"), tree("p")).is_none());
    assert!(bindings.insert(named("Y"), tree("(not q)")).is_none());
    assert_eq!(bindings.len(), 2);
    assert!(!bindings.is_empty());
    assert_eq!(bindings.get("X"), Some(&tree("p")));
    assert_eq!(bindings.get("Y"), Some(&tree("(not q)")));
    assert_eq!(bindings.get("Z"), None);
    assert_eq!(bindings.get("x"), None);
    assert_eq!(bindings.name(0).as_str(), "X");
    assert_eq!(*bindings.value(0), *tree("p"));
    assert_eq!(bindings.name(1).as_str(), "Y");
    assert_eq!(*bindings.value(1), *tree("(not q)"));
}

#[test]
fn a_binding_that_is_made_again_keeps_its_place() {
    let mut bindings = Bindings::new();
    bindings.insert(named("X"), tree("p"));
    bindings.insert(named("Y"), tree("q"));
    assert_eq!(bindings.insert(named("X"), tree("r")), Some(tree("p")));
    assert_eq!(bindings.len(), 2);
    assert_eq!(bindings.name(0).as_str(), "X");
    assert_eq!(*bindings.value(0), *tree("r"));
    assert_eq!(bindings.get("X"), Some(&tree("r")));
    assert_eq!(bindings.get("Y"), Some(&tree("q")));
}

#[test]
fn cloned_bindings_hold_the_same() {
    let mut bindings = Bindings::new();
    bindings.insert(named("X"), tree("(and p q)"));
    bindings.insert(named("Y"), tree("r"));
    let copy = bindings.clone();
    assert_eq!(copy.len(), 2);
    assert_eq!(copy.name(0).as_str(), "X");
    assert_eq!(copy.name(1).as_str(), "Y");
    assert_eq!(copy.get("X"), Some(&tree("(and p q)")));
    assert_eq!(copy.get("Y"), Some(&tree("r")));
}

#[test]
fn connectives_are_written_by_their_first_spelling() {
    assert_eq!(Operator::Not.to_string(), "not");
    assert_eq!(Operator::And.to_string(), "and");
    assert_eq!(Operator::Or.to_string(), "or");
    assert_eq!(Operator::Imp.to_string(), "imp");
    assert_eq!(Operator::Not.name(), "not");
    assert_eq!(Operator::Imp.name(), "imp");
    for op in [Operator::Not, Operator::And, Operator::Or, Operator::Imp] {
        assert_eq!(Operator::from_str(op.name()), Some(op));
    }
}

#[test]
fn formulas_are_written_as_they_are_read() {
    assert_eq!(tree("p").to_string(), "p");
    assert_eq!(tree("Xy").to_string(), "Xy");
    assert_eq!(tree("TRUE").to_string(), "true");
    assert_eq!(tree("1").to_string(), "true");
    assert_eq!(tree("F").to_string(), "false");
    assert_eq!(tree("(~ p)").to_string(), "(not p)");
    assert_eq!(tree("(& p q)").to_string(), "(and p q)");
    assert_eq!(tree("(\\/   p\n q r)").to_string(), "(or p q r)");
    assert_eq!(tree("(C (K p Q) (A (N p) t 0))").to_string(), "(imp (and p Q) (or (not p) true false))");
    assert_eq!(tree("(and p)").to_string(), "(and p)");
    let bare = LogExpr::BinaryOp(Box::new(Operator::And), Vec::new());
    assert_eq!(bare.to_string(), "(and)");
}

#[test]
fn a_formula_is_appended_to_what_is_there() {
    let mut text = String::from("=> ");
    tree("(and p (not q))").write_to(&mut text);
    tree("r").write_to(&mut text);
    assert_eq!(text, "=> (and p (not q))r");
}

#[test]
fn what_is_written_reads_back_the_same() {
    for text in ["p", "X", "true", "false", "(not p)", "(and p)", "(imp (and p Q) (or (not p) true false))"] {
        let first = tree(text);
        let second = tree(&first.to_string());
        assert_eq!(first, second);
        assert_eq!(first.to_string(), text);
    }
}

#[test]
fn commands_are_written_without_the_colon() {
    assert_eq!(read(":quit").to_string(), "quit");
    assert_eq!(read(":rule r (~ P) (& P q)").to_string(), "rule r (not P) (and P q)");
    assert_eq!(read(":delete r").to_string(), "delete r");
    assert_eq!(read(":apply r (and p (not p))").to_string(), "apply r (and p (not p))");
    assert_eq!(read(":load a/b.wff").to_string(), "load a/b.wff");
    assert_eq!(read(":save a/b.wff").to_string(), "save a/b.wff");
    assert_eq!(read("(imp p q)").to_string(), "(imp p q)");
    assert_eq!(read(":load :save").to_string(), "load :save");
}
