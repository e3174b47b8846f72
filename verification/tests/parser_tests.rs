use rustywff::expr::{LogExpr, Operator};
use rustywff::lexer::{Lexer, Loc, Token, TokenKind};
use rustywff::parser::{Command, ParserError};

fn parsed(text: &str) -> Option<Box<LogExpr>> {
    let mut lexer = Lexer::new(text, None);
    LogExpr::parse(&mut lexer)
}

fn formula(text: &str) -> Box<LogExpr> {
    parsed(text).expect("a formula")
}

fn command(text: &str) -> Result<Box<Command>, ParserError> {
    let mut lexer = Lexer::new(text, None);
    Command::parse(&mut lexer)
}

fn word(text: &str) -> Box<Token> {
    Box::new(Token {
        kind: Box::new(TokenKind::String),
        text: Box::new(text.to_string()),
        loc: Box::new(Loc::ReplLoc { col: Box::new(0) }),
    })
}

fn atom(text: &str) -> Box<LogExpr> {
    Box::new(LogExpr::Atom(word(text)))
}

fn var(text: &str) -> Box<LogExpr> {
    Box::new(LogExpr::Var(word(text)))
}

fn unary(op: Operator, operand: Box<LogExpr>) -> Box<LogExpr> {
    Box::new(LogExpr::UnaryOp(Box::new(op), operand))
}

fn nary(op: Operator, operands: Vec<Box<LogExpr>>) -> Box<LogExpr> {
    Box::new(LogExpr::BinaryOp(Box::new(op), operands))
}

#[test]
fn every_spelling_of_not_reads_as_not() {
    for spelling in ["not", "~", "N", "[-]", "!"] {
        assert_eq!(Operator::from_str(spelling), Some(Operator::Not));
        assert_eq!(formula(&format!("({} a)", spelling)), unary(Operator::Not, atom("a")));
        assert_eq!(parsed(&format!("({} a b)", spelling)), None);
    }
}

#[test]
fn every_spelling_of_and_reads_as_and() {
    for spelling in ["and", "&", "K", "[*]", "/\\"] {
        assert_eq!(Operator::from_str(spelling), Some(Operator::And));
        assert_eq!(
            formula(&format!("({} a b)", spelling)),
            nary(Operator::And, vec![atom("a"), atom("b")])
        );
    }
}

#[test]
fn every_spelling_of_or_reads_as_or() {
    for spelling in ["or", "||", "A", "[+}", "\\/"] {
        assert_eq!(Operator::from_str(spelling), Some(Operator::Or));
        assert_eq!(
            formula(&format!("({} a b)", spelling)),
            nary(Operator::Or, vec![atom("a"), atom("b")])
        );
    }
}

#[test]
fn every_spelling_of_imp_reads_as_imp() {
    for spelling in ["imp", "=>", "C"] {
        assert_eq!(Operator::from_str(spelling), Some(Operator::Imp));
        assert_eq!(
            formula(&format!("({} a b)", spelling)),
            nary(Operator::Imp, vec![atom("a"), atom("b")])
        );
    }
}

#[test]
fn other_words_spell_no_connective() {
    for spelling in ["", "Not", "AND", "[+]", "n", "k", "a", "c", "->", "|", "&&", "xor", "not "] {
        assert_eq!(Operator::from_str(spelling), None);
    }
    assert_eq!(parsed("([+] a b)"), None);
    assert_eq!(parsed("(AND a b)"), None);
    assert_eq!(parsed("(p q)"), None);
}

#[test]
fn words_in_lower_case_are_atoms() {
    assert_eq!(formula("p"), atom("p"));
    assert_eq!(formula("pQ"), atom("pQ"));
    assert_eq!(formula("x_1"), atom("x_1"));
    assert!(matches!(*formula("p"), LogExpr::Atom(_)));
}

#[test]
fn words_that_begin_with_a_digit_are_atoms() {
    assert_eq!(formula("9"), atom("9"));
    assert_eq!(formula("2nd"), atom("2nd"));
    assert_eq!(formula("10"), atom("10"));
    assert!(matches!(*formula("00"), LogExpr::Atom(_)));
}

#[test]
fn words_in_upper_case_are_variables() {
    assert_eq!(formula("P"), var("P"));
    assert_eq!(formula("Xy"), var("Xy"));
    assert!(matches!(*formula("Q"), LogExpr::Var(_)));
    assert_ne!(formula("P"), atom("P"));
}

#[test]
fn the_constants_are_read_in_any_case() {
    for text in ["1", "t", "T", "true", "True", "TRUE", "tRuE"] {
        assert_eq!(*formula(text), LogExpr::True);
        assert!(LogExpr::string_true(text));
        assert!(!LogExpr::string_false(text));
    }
    for text in ["0", "f", "F", "false", "False", "FALSE", "fAlSe"] {
        assert_eq!(*formula(text), LogExpr::False);
        assert!(LogExpr::string_false(text));
        assert!(!LogExpr::string_true(text));
    }
    for text in ["", "tr", "truee", "11", "01", "yes", "ff", "tt"] {
        assert!(!LogExpr::string_true(text));
        assert!(!LogExpr::string_false(text));
    }
}

#[test]
fn lower_case_words_name_the_constants() {
    assert!(LogExpr::true_word("1"));
    assert!(LogExpr::true_word("t"));
    assert!(LogExpr::true_word("true"));
    assert!(!LogExpr::true_word("True"));
    assert!(!LogExpr::true_word("false"));
    assert!(LogExpr::false_word("0"));
    assert!(LogExpr::false_word("f"));
    assert!(LogExpr::false_word("false"));
    assert!(!LogExpr::false_word("F"));
    assert!(!LogExpr::false_word("true"));
}

#[test]
fn a_word_is_classified_by_what_is_known_of_it() {
    assert_eq!(LogExpr::from_word(word("x"), true, true, true, true), Some(Box::new(LogExpr::False)));
    assert_eq!(LogExpr::from_word(word("x"), false, true, true, true), Some(Box::new(LogExpr::True)));
    assert_eq!(LogExpr::from_word(word("x"), false, false, true, true), Some(atom("x")));
    assert_eq!(LogExpr::from_word(word("x"), false, false, false, true), Some(var("x")));
    assert_eq!(LogExpr::from_word(word("x"), false, false, false, false), None);
    assert_eq!(LogExpr::from_word(word("7"), false, false, false, true), Some(atom("7")));
    assert_eq!(LogExpr::from_word(word(""), false, false, true, true), None);
    assert_eq!(LogExpr::from_word(word(""), false, true, false, false), Some(Box::new(LogExpr::True)));
}

#[test]
fn other_words_are_no_formula() {
    assert_eq!(parsed("~"), None);
    assert_eq!(parsed("_x"), None);
    assert_eq!(parsed("=>"), None);
    assert_eq!(parsed(":rule"), None);
    assert_eq!(parsed(":x"), None);
    assert_eq!(parsed(""), None);
    assert_eq!(parsed(")"), None);
}

#[test]
fn an_atom_keeps_its_token() {
    let mut lexer = Lexer::new("\n  pq", Some("f"));
    match *LogExpr::parse(&mut lexer).expect("a formula") {
        LogExpr::Atom(token) => {
            assert_eq!(*token.kind, TokenKind::String);
            assert_eq!(token.text.as_str(), "pq");
            assert_eq!(
                *token.loc,
                Loc::FileLoc {
                    path: Box::new("f".to_string()),
                    row: Box::new(2),
                    col: Box::new(2)
                }
            );
        }
        _ => panic!("an atom was expected"),
    }
}

#[test]
fn formulas_nest() {
    assert_eq!(
        formula("(imp (and p Q) (or (not p) true 0))"),
        nary(
            Operator::Imp,
            vec![
                nary(Operator::And, vec![atom("p"), var("Q")]),
                nary(
                    Operator::Or,
                    vec![
                        unary(Operator::Not, atom("p")),
                        Box::new(LogExpr::True),
                        Box::new(LogExpr::False)
                    ]
                ),
            ]
        )
    );
}

#[test]
fn operands_keep_their_order() {
    assert_eq!(
        formula("(and p q r)"),
        nary(Operator::And, vec![atom("p"), atom("q"), atom("r")])
    );
    assert_ne!(formula("(and p q)"), formula("(and q p)"));
    assert_ne!(formula("(and p q)"), formula("(or p q)"));
    assert_ne!(formula("(and p q)"), formula("(and p q q)"));
}

#[test]
fn not_takes_exactly_one_operand() {
    assert_eq!(parsed("(not)"), None);
    assert_eq!(formula("(not p)"), unary(Operator::Not, atom("p")));
    assert_eq!(parsed("(not p q)"), None);
    assert_eq!(formula("(not (not p))"), unary(Operator::Not, unary(Operator::Not, atom("p"))));
}

#[test]
fn the_other_connectives_take_one_or_more_operands() {
    assert_eq!(parsed("(and)"), None);
    assert_eq!(parsed("(or)"), None);
    assert_eq!(parsed("(imp)"), None);
    assert_eq!(parsed("(& )"), None);
    assert_eq!(parsed("(and p (or))"), None);
    assert_eq!(formula("(and a)"), nary(Operator::And, vec![atom("a")]));
    assert_eq!(formula("(or p)"), nary(Operator::Or, vec![atom("p")]));
    assert_eq!(formula("(imp p)"), nary(Operator::Imp, vec![atom("p")]));
    assert_eq!(
        formula("(imp p q r s)"),
        nary(Operator::Imp, vec![atom("p"), atom("q"), atom("r"), atom("s")])
    );
}

#[test]
fn broken_formulas_are_no_formula() {
    assert_eq!(parsed("("), None);
    assert_eq!(parsed("()"), None);
    assert_eq!(parsed("(("), None);
    assert_eq!(parsed("(and"), None);
    assert_eq!(parsed("(and p"), None);
    assert_eq!(parsed("(and p (or q)"), None);
    assert_eq!(parsed("(and p ~ q)"), None);
    assert_eq!(parsed("(and (p) q)"), None);
    assert_eq!(parsed("(:rule p)"), None);
}

#[test]
fn parsing_stops_after_one_formula() {
    let mut lexer = Lexer::new("(and p q) r (not s)", None);
    assert_eq!(LogExpr::parse(&mut lexer), Some(nary(Operator::And, vec![atom("p"), atom("q")])));
    assert_eq!(LogExpr::parse(&mut lexer), Some(atom("r")));
    assert_eq!(LogExpr::parse(&mut lexer), Some(unary(Operator::Not, atom("s"))));
    assert_eq!(LogExpr::parse(&mut lexer), None);
    assert!(lexer.complete);
}

#[test]
fn a_failed_parse_has_taken_the_tokens_it_looked_at() {
    let mut lexer = Lexer::new("(and ~ p) q", None);
    assert_eq!(LogExpr::parse(&mut lexer), None);
    assert_eq!(lexer.next_token().text.as_str(), "p");
}

#[test]
fn equal_formulas_may_differ_in_their_places() {
    let mut lexer = Lexer::new("(and p q)\n\n   (and    p\tq)", Some("f"));
    let first = LogExpr::parse(&mut lexer).expect("a formula");
    let second = LogExpr::parse(&mut lexer).expect("a formula");
    assert_eq!(first, second);
    assert!(first.same_as(&second));
    assert!(!first.same_as(&atom("p")));
}

#[test]
fn a_cloned_formula_is_equal_to_it() {
    let source = formula("(imp (and p Q) (or (not p) true 0) (and r))");
    let copy = (*source).clone();
    assert_eq!(copy, *source);
    assert_eq!(copy.to_string(), "(imp (and p Q) (or (not p) true false) (and r))");
    let empty = nary(Operator::Or, vec![]);
    assert_eq!((*empty).clone(), *empty);
}

#[test]
fn quit_is_read() {
    assert!(matches!(command(":quit").as_deref(), Ok(Command::QuitRepl)));
    assert!(matches!(command("  :quit  ").as_deref(), Ok(Command::QuitRepl)));
}

#[test]
fn load_and_save_take_a_path() {
    match *command(":load rules/basic.wff").expect("a command") {
        Command::LoadFile { file_path } => assert_eq!(file_path.as_str(), "rules/basic.wff"),
        _ => panic!("a load was expected"),
    }
    match *command(":save out.wff").expect("a command") {
        Command::SaveFile { file_path } => assert_eq!(file_path.as_str(), "out.wff"),
        _ => panic!("a save was expected"),
    }
}

#[test]
fn a_path_may_be_any_token_that_names_something() {
    match *command(":load (").expect("a command") {
        Command::LoadFile { file_path } => assert_eq!(file_path.as_str(), "("),
        _ => panic!("a load was expected"),
    }
    match *command(":save :quit").expect("a command") {
        Command::SaveFile { file_path } => assert_eq!(file_path.as_str(), ":quit"),
        _ => panic!("a save was expected"),
    }
    match *command(":delete (not").expect("a command") {
        Command::DeleteRule { name } => assert_eq!(name.as_str(), "("),
        _ => panic!("a delete was expected"),
    }
}

#[test]
fn a_missing_path_is_reported() {
    assert_eq!(command(":load").err(), Some(ParserError::ExpectedFilePath));
    assert_eq!(command(":save").err(), Some(ParserError::ExpectedFilePath));
    assert_eq!(command(":load   \n").err(), Some(ParserError::ExpectedFilePath));
    assert_eq!(command(":load )").err(), Some(ParserError::ExpectedFilePath));
    assert_eq!(command(":save ) x").err(), Some(ParserError::ExpectedFilePath));
}

#[test]
fn a_missing_name_is_reported() {
    assert_eq!(command(":rule").err(), Some(ParserError::ExpectedRuleName));
    assert_eq!(command(":delete").err(), Some(ParserError::ExpectedRuleName));
    assert_eq!(command(":apply").err(), Some(ParserError::ExpectedRuleName));
    assert_eq!(command(":rule ) p q").err(), Some(ParserError::ExpectedRuleName));
    assert_eq!(command(":delete )").err(), Some(ParserError::ExpectedRuleName));
    assert_eq!(command(":apply ) p").err(), Some(ParserError::ExpectedRuleName));
}

#[test]
fn an_open_parenthesis_at_the_end_leaves_the_name_missing() {
    let mut lexer = Lexer::new("( :delete", None);
    assert_eq!(*lexer.next_token().kind, TokenKind::LParen);
    assert_eq!(Command::parse(&mut lexer).err(), Some(ParserError::ExpectedRuleName));
    let mut lexer = Lexer::new("( :load", None);
    assert_eq!(*lexer.next_token().kind, TokenKind::LParen);
    assert_eq!(Command::parse(&mut lexer).err(), Some(ParserError::ExpectedFilePath));
}

#[test]
fn the_token_that_names_nothing_is_taken() {
    let mut lexer = Lexer::new(":load ) :quit", None);
    assert_eq!(Command::parse(&mut lexer).err(), Some(ParserError::ExpectedFilePath));
    assert!(matches!(Command::parse(&mut lexer).as_deref(), Ok(Command::QuitRepl)));
}

#[test]
fn a_rule_takes_a_name_and_two_formulas() {
    match *command(":rule demorgan (not (and P Q)) (or (not P) (not Q))").expect("a command") {
        Command::DefineRule { name, lhs, rhs } => {
            assert_eq!(name.as_str(), "demorgan");
            assert_eq!(lhs, unary(Operator::Not, nary(Operator::And, vec![var("P"), var("Q")])));
            assert_eq!(
                rhs,
                nary(
                    Operator::Or,
                    vec![unary(Operator::Not, var("P")), unary(Operator::Not, var("Q"))]
                )
            );
        }
        _ => panic!("a rule was expected"),
    }
}

#[test]
fn delete_takes_a_name() {
    match *command(":delete demorgan").expect("a command") {
        Command::DeleteRule { name } => assert_eq!(name.as_str(), "demorgan"),
        _ => panic!("a delete was expected"),
    }
}

#[test]
fn apply_takes_a_name_and_a_formula() {
    match *command(":apply demorgan (not (and p q))").expect("a command") {
        Command::ApplyRule { name, expr } => {
            assert_eq!(name.as_str(), "demorgan");
            assert_eq!(expr, unary(Operator::Not, nary(Operator::And, vec![atom("p"), atom("q")])));
        }
        _ => panic!("an apply was expected"),
    }
}

#[test]
fn anything_else_is_a_formula_to_evaluate() {
    match *command("(and p q)").expect("a command") {
        Command::Eval { expr } => assert_eq!(expr, nary(Operator::And, vec![atom("p"), atom("q")])),
        _ => panic!("a formula was expected"),
    }
    match *command("p").expect("a command") {
        Command::Eval { expr } => assert_eq!(expr, atom("p")),
        _ => panic!("a formula was expected"),
    }
}

#[test]
fn the_end_of_the_input_is_no_command() {
    assert_eq!(command("").err(), Some(ParserError::UnexpectedEndOfInput));
    assert_eq!(command("  \n ").err(), Some(ParserError::UnexpectedEndOfInput));
}

#[test]
fn a_missing_formula_is_reported() {
    assert_eq!(command(":rule r").err(), Some(ParserError::ExpectedExpression));
    assert_eq!(command(":rule r (and p q)").err(), Some(ParserError::ExpectedExpression));
    assert_eq!(command(":rule r (and p q) ~").err(), Some(ParserError::ExpectedExpression));
    assert_eq!(command(":apply r").err(), Some(ParserError::ExpectedExpression));
    assert_eq!(command(":apply r (not)").err(), Some(ParserError::ExpectedExpression));
    assert_eq!(command(":apply r (and)").err(), Some(ParserError::ExpectedExpression));
    assert_eq!(command(":rule r (not a b) q").err(), Some(ParserError::ExpectedExpression));
    assert_eq!(command("(or)").err(), Some(ParserError::ExpectedExpression));
    assert_eq!(command(")").err(), Some(ParserError::ExpectedExpression));
    assert_eq!(command("(and p").err(), Some(ParserError::ExpectedExpression));
    assert_eq!(command("~").err(), Some(ParserError::ExpectedExpression));
}

#[test]
fn a_complete_lexer_has_no_path_to_give() {
    let mut lexer = Lexer::new(":load file.wff", None);
    lexer.complete = true;
    assert_eq!(Command::parse(&mut lexer).err(), Some(ParserError::ExpectedFilePath));
    let mut lexer = Lexer::new(":save file.wff", None);
    lexer.complete = true;
    assert_eq!(Command::parse(&mut lexer).err(), Some(ParserError::ExpectedFilePath));
}

#[test]
fn a_complete_lexer_has_no_name_to_give() {
    let mut lexer = Lexer::new(":rule r p q", None);
    lexer.complete = true;
    assert_eq!(Command::parse(&mut lexer).err(), Some(ParserError::ExpectedRuleName));
    let mut lexer = Lexer::new(":delete r", None);
    lexer.complete = true;
    assert_eq!(Command::parse(&mut lexer).err(), Some(ParserError::ExpectedRuleName));
    let mut lexer = Lexer::new(":apply r p", None);
    lexer.complete = true;
    assert_eq!(Command::parse(&mut lexer).err(), Some(ParserError::ExpectedRuleName));
}

#[test]
fn commands_are_read_one_after_the_other() {
    let mut lexer = Lexer::new(":rule r p q :apply r (and p p) :delete r x :quit", None);
    assert!(matches!(Command::parse(&mut lexer).as_deref(), Ok(Command::DefineRule { .. })));
    assert!(matches!(Command::parse(&mut lexer).as_deref(), Ok(Command::ApplyRule { .. })));
    assert!(matches!(Command::parse(&mut lexer).as_deref(), Ok(Command::DeleteRule { .. })));
    assert!(matches!(Command::parse(&mut lexer).as_deref(), Ok(Command::Eval { .. })));
    assert!(matches!(Command::parse(&mut lexer).as_deref(), Ok(Command::QuitRepl)));
    assert_eq!(Command::parse(&mut lexer).err(), Some(ParserError::UnexpectedEndOfInput));
    assert_eq!(Command::parse(&mut lexer).err(), Some(ParserError::UnexpectedEndOfInput));
}

#[test]
fn a_cloned_command_reads_the_same() {
    let source = command(":rule r (not P) (and P q)").expect("a command");
    let copy = (*source).clone();
    assert_eq!(copy.to_string(), "rule r (not P) (and P q)");
    assert_eq!(source.to_string(), "rule r (not P) (and P q)");
}
