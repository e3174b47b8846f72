//! The parser.
//!
//! Formulas are written in prefix form, `(and p (not q))`, and commands
//! begin with a keyword, `:rule`, `:apply` and so on.  The grammar is stated
//! as two functions on the state of the lexer, [`parse_expr`] and
//! [`parse_command`], which say what is read and where the lexer is left;
//! [`LogExpr::parse`] and [`Command::parse`] compute exactly that.

use vstd::prelude::*;
use crate::expr::{formulas, lemma_operands, operator_of, Formula, LogExpr, Operator};
use crate::lexer::{
    lemma_next_progress,
    lemma_next_token_progress,
    lemma_peek_token_progress,
    Lexer,
    LexerState,
    Token,
    TokenKind,
    TokenView,
};
use crate::text::{decimal_digit, is_decimal_digit, lower_case, lowercased, upper_case};

verus! {

/// Why a command could not be read.
#[derive(Debug, Clone, Copy, PartialEq, Eq, Structural)]
pub enum ParserError {
    UnexpectedEndOfInput,
    ExpectedFilePath,
    ExpectedRuleName,
    ExpectedExpression,
}

/// One command of a session.
#[derive(Debug)]
pub enum Command {
    QuitRepl,
    DeleteRule { name: Box<String> },
    DefineRule { name: Box<String>, lhs: Box<LogExpr>, rhs: Box<LogExpr> },
    ApplyRule { name: Box<String>, expr: Box<LogExpr> },
    LoadFile { file_path: Box<String> },
    SaveFile { file_path: Box<String> },
    Eval { expr: Box<LogExpr> },
}

/// A [`Command`] as plain values.
pub enum CommandView {
    QuitRepl,
    DeleteRule { name: Seq<char> },
    DefineRule { name: Seq<char>, lhs: Formula, rhs: Formula },
    ApplyRule { name: Seq<char>, expr: Formula },
    LoadFile { file_path: Seq<char> },
    SaveFile { file_path: Seq<char> },
    Eval { expr: Formula },
}

impl View for Command {
    type V = CommandView;

    open spec fn view(&self) -> CommandView {
        match self {
            Command::QuitRepl => CommandView::QuitRepl,
            Command::DeleteRule { name } => CommandView::DeleteRule { name: name@ },
            Command::DefineRule { name, lhs, rhs } => CommandView::DefineRule {
                name: name@,
                lhs: lhs@,
                rhs: rhs@,
            },
            Command::ApplyRule { name, expr } => CommandView::ApplyRule {
                name: name@,
                expr: expr@,
            },
            Command::LoadFile { file_path } => CommandView::LoadFile { file_path: file_path@ },
            Command::SaveFile { file_path } => CommandView::SaveFile { file_path: file_path@ },
            Command::Eval { expr } => CommandView::Eval { expr: expr@ },
        }
    }
}

impl Clone for Command {
    fn clone(&self) -> (res: Self)
        ensures
            res@ == self@,
    {
        match self {
            Command::QuitRepl => Command::QuitRepl,
            Command::DeleteRule { name } => Command::DeleteRule { name: name.clone() },
            Command::DefineRule { name, lhs, rhs } => Command::DefineRule {
                name: name.clone(),
                lhs: Box::new((**lhs).clone()),
                rhs: Box::new((**rhs).clone()),
            },
            Command::ApplyRule { name, expr } => Command::ApplyRule {
                name: name.clone(),
                expr: Box::new((**expr).clone()),
            },
            Command::LoadFile { file_path } => Command::LoadFile { file_path: file_path.clone() },
            Command::SaveFile { file_path } => Command::SaveFile { file_path: file_path.clone() },
            Command::Eval { expr } => Command::Eval { expr: Box::new((**expr).clone()) },
        }
    }
}

/// Whether a word, given in lower case, stands for the constant true.
pub open spec fn is_true_word(lowered: Seq<char>) -> bool {
    lowered == "1"@ || lowered == "t"@ || lowered == "true"@
}

/// Whether a word, given in lower case, stands for the constant false.
pub open spec fn is_false_word(lowered: Seq<char>) -> bool {
    lowered == "0"@ || lowered == "f"@ || lowered == "false"@
}

/// The formula that a word outside parentheses is, given what is known of
/// the word: whether it names one of the constants, and whether its first
/// character is lowercase or uppercase.  A word that names no constant is
/// an atom if it begins with a lowercase character or a digit, a variable
/// if it begins with an uppercase character, and no formula otherwise.
pub open spec fn classify_word(
    token: TokenView,
    names_false: bool,
    names_true: bool,
    lower_first: bool,
    upper_first: bool,
) -> Option<Formula> {
    if names_false {
        Some(Formula::False)
    } else if names_true {
        Some(Formula::True)
    } else if token.text.len() == 0 {
        None
    } else if lower_first || is_decimal_digit(token.text[0]) {
        Some(Formula::Atom(token))
    } else if upper_first {
        Some(Formula::Var(token))
    } else {
        None
    }
}

/// The formula that a word outside parentheses is.  Constants are
/// recognised in any mix of cases.
pub open spec fn word_formula(token: TokenView) -> Option<Formula> {
    classify_word(
        token,
        is_false_word(lowercased(token.text)),
        is_true_word(lowercased(token.text)),
        token.text.len() > 0 && lower_case(token.text[0]),
        token.text.len() > 0 && upper_case(token.text[0]),
    )
}

/// The formula made of a connective and its operands: `Not` takes exactly
/// one operand, the others take one or more.
pub open spec fn compound(op: Operator, operands: Seq<Formula>) -> Option<Formula> {
    if op == Operator::Not {
        if operands.len() == 1 {
            Some(Formula::UnaryOp(op, Box::new(operands[0])))
        } else {
            None
        }
    } else if operands.len() == 0 {
        None
    } else {
        Some(Formula::BinaryOp(op, operands))
    }
}

/// Reads one formula.
///
/// An opening parenthesis must be followed by a word that spells a
/// connective, then by operands up to the closing parenthesis.  A word by
/// itself is read by [`word_formula`].  Anything else is no formula.  The
/// tokens that were looked at are gone from the lexer either way.
pub open spec fn parse_expr(st: LexerState) -> (Option<Formula>, LexerState)
    decreases st.budget(), 0nat,
{
    let (token, s1) = st.next_token();
    match token.kind {
        TokenKind::LParen => {
            let (head, s2) = s1.next_token();
            match operator_of(head.text) {
                Some(op) if head.kind == TokenKind::String => {
                    proof {
                        lemma_next_token_progress(st);
                        lemma_next_token_progress(s1);
                    }
                    match parse_operands(s2, Seq::empty()) {
                        (Some(operands), s3) => (compound(op, operands), s3.next().1),
                        (None, s3) => (None, s3),
                    }
                },
                _ => (None, s2),
            }
        },
        TokenKind::String => (word_formula(token), s1),
        _ => (None, s1),
    }
}

/// Reads operands up to a closing parenthesis, which stays in the lookahead
/// slot, and returns them after those that are `done`.
///
/// Every formula takes at least one token from the lexer (see
/// [`lemma_parse_progress`]), so the test on the budget below never fails;
/// it is what makes the definition well-founded.
pub open spec fn parse_operands(st: LexerState, done: Seq<Formula>) -> (
    Option<Seq<Formula>>,
    LexerState,
)
    decreases st.budget(), 1nat,
{
    let (token, s1) = st.peek_token();
    if token.kind == TokenKind::RParen {
        (Some(done), s1)
    } else {
        proof {
            lemma_peek_token_progress(st);
        }
        match parse_expr(s1) {
            (Some(operand), s2) if s2.budget() < st.budget() => parse_operands(
                s2,
                done.push(operand),
            ),
            (_, s2) => (None, s2),
        }
    }
}

/// Reading never adds to the budget of the lexer, a formula that was read
/// took from it, and a valid lexer stays valid.
pub proof fn lemma_parse_progress(st: LexerState)
    ensures
        parse_expr(st).1.budget() <= st.budget(),
        parse_expr(st).0 is Some ==> parse_expr(st).1.budget() < st.budget(),
        parse_expr(st).1.input == st.input,
        st.valid() ==> parse_expr(st).1.valid(),
    decreases st.budget(), 0nat,
{
    let (token, s1) = st.next_token();
    lemma_next_token_progress(st);
    if token.kind == TokenKind::LParen {
        let (head, s2) = s1.next_token();
        lemma_next_token_progress(s1);
        if head.kind == TokenKind::String && operator_of(head.text) is Some {
            lemma_operands_progress(s2, Seq::empty());
            lemma_next_progress(parse_operands(s2, Seq::empty()).1);
        }
    }
}

/// Reading operands never adds to the budget of the lexer, and a valid
/// lexer stays valid.
pub proof fn lemma_operands_progress(st: LexerState, done: Seq<Formula>)
    ensures
        parse_operands(st, done).1.budget() <= st.budget(),
        parse_operands(st, done).1.input == st.input,
        st.valid() ==> parse_operands(st, done).1.valid(),
    decreases st.budget(), 1nat,
{
    let (token, s1) = st.peek_token();
    lemma_peek_token_progress(st);
    if token.kind != TokenKind::RParen {
        lemma_parse_progress(s1);
        let (operand, s2) = parse_expr(s1);
        if operand is Some {
            lemma_operands_progress(s2, done.push(operand->0));
        }
    }
}

/// A token that can stand for no name and no path: the end of the input,
/// and the two that report a parenthesis gone wrong.
pub open spec fn names_nothing(kind: TokenKind) -> bool {
    kind == TokenKind::End || kind == TokenKind::UnclosedParen || kind
        == TokenKind::ParenOverflow
}

/// The name or path that a command takes from the lexer: the text of the
/// next token.  Where the lexer has nothing left to give, or gives a token
/// that names nothing, the name is missing, and the result is the error
/// that says what was expected.  The token that was looked at is gone from
/// the lexer either way.
pub open spec fn parse_word(st: LexerState, missing: ParserError) -> (
    Result<Seq<char>, ParserError>,
    LexerState,
) {
    match st.next() {
        (Some(token), s1) => if names_nothing(token.kind) {
            (Err(missing), s1)
        } else {
            (Ok(token.text), s1)
        },
        (None, s1) => (Err(missing), s1),
    }
}

/// The formula that a command takes from the lexer.
pub open spec fn parse_operand(st: LexerState) -> (Result<Formula, ParserError>, LexerState) {
    match parse_expr(st) {
        (Some(expr), s1) => (Ok(expr), s1),
        (None, s1) => (Err(ParserError::ExpectedExpression), s1),
    }
}

/// Reads one command.
///
/// The first token decides which: a keyword begins the command of that
/// name, the end of the input is an error, and anything else begins a
/// formula to evaluate.  The first piece that is missing ends the reading
/// with its error; the lexer is left where the reading stopped.
pub open spec fn parse_command(st: LexerState) -> (Result<CommandView, ParserError>, LexerState) {
    let (token, s1) = st.peek_token();
    match token.kind {
        TokenKind::Quit => (Ok(CommandView::QuitRepl), s1.next().1),
        TokenKind::Load => match parse_word(s1.next().1, ParserError::ExpectedFilePath) {
            (Ok(file_path), s2) => (Ok(CommandView::LoadFile { file_path }), s2),
            (Err(e), s2) => (Err(e), s2),
        },
        TokenKind::Save => match parse_word(s1.next().1, ParserError::ExpectedFilePath) {
            (Ok(file_path), s2) => (Ok(CommandView::SaveFile { file_path }), s2),
            (Err(e), s2) => (Err(e), s2),
        },
        TokenKind::Rule => match parse_word(s1.next().1, ParserError::ExpectedRuleName) {
            (Ok(name), s2) => match parse_operand(s2) {
                (Ok(lhs), s3) => match parse_operand(s3) {
                    (Ok(rhs), s4) => (Ok(CommandView::DefineRule { name, lhs, rhs }), s4),
                    (Err(e), s4) => (Err(e), s4),
                },
                (Err(e), s3) => (Err(e), s3),
            },
            (Err(e), s2) => (Err(e), s2),
        },
        TokenKind::Delete => match parse_word(s1.next().1, ParserError::ExpectedRuleName) {
            (Ok(name), s2) => (Ok(CommandView::DeleteRule { name }), s2),
            (Err(e), s2) => (Err(e), s2),
        },
        TokenKind::Apply => match parse_word(s1.next().1, ParserError::ExpectedRuleName) {
            (Ok(name), s2) => match parse_operand(s2) {
                (Ok(expr), s3) => (Ok(CommandView::ApplyRule { name, expr }), s3),
                (Err(e), s3) => (Err(e), s3),
            },
            (Err(e), s2) => (Err(e), s2),
        },
        TokenKind::End => (Err(ParserError::UnexpectedEndOfInput), s1.next().1),
        _ => match parse_operand(s1) {
            (Ok(expr), s2) => (Ok(CommandView::Eval { expr }), s2),
            (Err(e), s2) => (Err(e), s2),
        },
    }
}

/// The formula of a tree that may be missing.
pub open spec fn formula_of(expr: Option<Box<LogExpr>>) -> Option<Formula> {
    match expr {
        Some(e) => Some(e@),
        None => None,
    }
}

/// The command, as plain values, of a result of reading one.
pub open spec fn command_of(command: Result<Box<Command>, ParserError>) -> Result<
    CommandView,
    ParserError,
> {
    match command {
        Ok(c) => Ok(c@),
        Err(e) => Err(e),
    }
}

impl LogExpr {
    /// Whether a word, given in lower case, stands for the constant true.
    pub fn true_word(lowered: &str) -> (r: bool)
        ensures
            r == is_true_word(lowered@),
    {
        lowered.eq("1") || lowered.eq("t") || lowered.eq("true")
    }

    /// Whether a word, given in lower case, stands for the constant false.
    pub fn false_word(lowered: &str) -> (r: bool)
        ensures
            r == is_false_word(lowered@),
    {
        lowered.eq("0") || lowered.eq("f") || lowered.eq("false")
    }

    /// Whether a word stands for the constant true, in any mix of cases.
    pub fn string_true(s: &str) -> (r: bool)
        ensures
            r == is_true_word(lowercased(s@)),
    {
        let lowered = s.to_lowercase();
        LogExpr::true_word(lowered.as_str())
    }

    /// Whether a word stands for the constant false, in any mix of cases.
    pub fn string_false(s: &str) -> (r: bool)
        ensures
            r == is_false_word(lowercased(s@)),
    {
        let lowered = s.to_lowercase();
        LogExpr::false_word(lowered.as_str())
    }

    /// The formula that a word outside parentheses is, given what is known
    /// of the word.
    pub fn from_word(
        token: Box<Token>,
        names_false: bool,
        names_true: bool,
        lower_first: bool,
        upper_first: bool,
    ) -> (expr: Option<Box<LogExpr>>)
        ensures
            formula_of(expr) == classify_word(
                token@,
                names_false,
                names_true,
                lower_first,
                upper_first,
            ),
    {
        if names_false {
            Some(Box::new(LogExpr::False))
        } else if names_true {
            Some(Box::new(LogExpr::True))
        } else if token.text.as_str().is_empty() {
            None
        } else if lower_first || decimal_digit(token.text.as_str().get_char(0)) {
            Some(Box::new(LogExpr::Atom(token)))
        } else if upper_first {
            Some(Box::new(LogExpr::Var(token)))
        } else {
            None
        }
    }

    /// The formula that a word outside parentheses is.
    fn parse_word(token: Box<Token>) -> (expr: Option<Box<LogExpr>>)
        ensures
            formula_of(expr) == word_formula(token@),
    {
        let text = token.text.as_str();
        let names_false = LogExpr::string_false(text);
        let names_true = LogExpr::string_true(text);
        let (lower_first, upper_first) = if text.is_empty() {
            (false, false)
        } else {
            let first = text.get_char(0);
            (first.is_lowercase(), first.is_uppercase())
        };
        LogExpr::from_word(token, names_false, names_true, lower_first, upper_first)
    }

    /// The formula made of a connective and its operands.
    fn parse_compound(op: Operator, mut operands: Vec<Box<LogExpr>>) -> (expr: Option<
        Box<LogExpr>,
    >)
        ensures
            formula_of(expr) == compound(op, formulas(operands@)),
    {
        match op {
            Operator::Not => {
                if operands.len() == 1 {
                    match operands.pop() {
                        Some(operand) => Some(Box::new(LogExpr::UnaryOp(Box::new(op), operand))),
                        None => None,
                    }
                } else {
                    None
                }
            },
            _ => {
                if operands.len() == 0 {
                    None
                } else {
                    proof {
                        lemma_operands(Box::new(op), operands);
                    }
                    Some(Box::new(LogExpr::BinaryOp(Box::new(op), operands)))
                }
            },
        }
    }

    /// Reads one formula from the lexer.
    pub fn parse(lexer: &mut Lexer) -> (expr: Option<Box<LogExpr>>)
        requires
            old(lexer).wf(),
        ensures
            final(lexer).wf(),
            (formula_of(expr), final(lexer)@) == parse_expr(old(lexer)@),
        decreases old(lexer)@.budget(),
    {
        let ghost st = lexer@;
        let token = lexer.next_token();
        let ghost s1 = lexer@;
        proof {
            lemma_next_token_progress(st);
            lemma_next_token_progress(s1);
        }
        match *token.kind {
            TokenKind::LParen => {
                let head = lexer.next_token();
                let ghost s2 = lexer@;
                let op = match *head.kind {
                    TokenKind::String => match Operator::from_str(head.text.as_str()) {
                        Some(op) => op,
                        None => {
                            return None;
                        },
                    },
                    _ => {
                        return None;
                    },
                };
                let mut operands: Vec<Box<LogExpr>> = Vec::new();
                assert(formulas(operands@) =~= Seq::<Formula>::empty());
                assert(parse_expr(st) == match parse_operands(s2, Seq::empty()) {
                    (Some(operands), s3) => (compound(op, operands), s3.next().1),
                    (None, s3) => (None, s3),
                });
                loop
                    invariant_except_break
                        lexer.wf(),
                        st == old(lexer)@,
                        parse_operands(s2, Seq::empty()).0 is None ==> parse_expr(st) == (
                            None::<Formula>,
                            parse_operands(s2, Seq::empty()).1,
                        ),
                        lexer@.budget() < st.budget(),
                        parse_operands(lexer@, formulas(operands@)) == parse_operands(
                            s2,
                            Seq::empty(),
                        ),
                    ensures
                        lexer.wf(),
                        parse_operands(s2, Seq::empty()) == (Some(formulas(operands@)), lexer@),
                    decreases lexer@.budget(),
                {
                    let ghost s3 = lexer@;
                    proof {
                        lemma_peek_token_progress(s3);
                    }
                    if *lexer.peek_token().kind == TokenKind::RParen {
                        break ;
                    }
                    let ghost s4 = lexer@;
                    proof {
                        lemma_parse_progress(s4);
                    }
                    match LogExpr::parse(lexer) {
                        Some(operand) => {
                            proof {
                                assert(formulas(operands@.push(operand)) =~= formulas(
                                    operands@,
                                ).push(operand@));
                            }
                            operands.push(operand);
                        },
                        None => {
                            return None;
                        },
                    }
                }
                lexer.next();
                LogExpr::parse_compound(op, operands)
            },
            TokenKind::String => LogExpr::parse_word(token),
            _ => None,
        }
    }
}

impl Command {
    /// Takes a name from the lexer.
    fn parse_word(lexer: &mut Lexer, missing: ParserError) -> (word: Result<
        Box<String>,
        ParserError,
    >)
        requires
            old(lexer).wf(),
        ensures
            final(lexer).wf(),
            (
                match word {
                    Ok(w) => Ok(w@),
                    Err(e) => Err(e),
                },
                final(lexer)@,
            ) == parse_word(old(lexer)@, missing),
    {
        match lexer.next() {
            Some(token) => {
                let token = *token;
                match *token.kind {
                    TokenKind::End | TokenKind::UnclosedParen | TokenKind::ParenOverflow => Err(
                        missing,
                    ),
                    _ => Ok(token.text),
                }
            },
            None => Err(missing),
        }
    }

    /// Takes a formula from the lexer.
    fn parse_operand(lexer: &mut Lexer) -> (expr: Result<Box<LogExpr>, ParserError>)
        requires
            old(lexer).wf(),
        ensures
            final(lexer).wf(),
            (
                match expr {
                    Ok(e) => Ok(e@),
                    Err(e) => Err(e),
                },
                final(lexer)@,
            ) == parse_operand(old(lexer)@),
    {
        match LogExpr::parse(lexer) {
            Some(expr) => Ok(expr),
            None => Err(ParserError::ExpectedExpression),
        }
    }

    /// Reads one command from the lexer.
    pub fn parse(lexer: &mut Lexer) -> (command: Result<Box<Command>, ParserError>)
        requires
            old(lexer).wf(),
        ensures
            final(lexer).wf(),
            (command_of(command), final(lexer)@) == parse_command(old(lexer)@),
    {
        let kind = *lexer.peek_token().kind;
        match kind {
            TokenKind::Quit => {
                lexer.next();
                Ok(Box::new(Command::QuitRepl))
            },
            TokenKind::Load => {
                lexer.next();
                match Command::parse_word(lexer, ParserError::ExpectedFilePath) {
                    Ok(file_path) => Ok(Box::new(Command::LoadFile { file_path })),
                    Err(e) => Err(e),
                }
            },
            TokenKind::Save => {
                lexer.next();
                match Command::parse_word(lexer, ParserError::ExpectedFilePath) {
                    Ok(file_path) => Ok(Box::new(Command::SaveFile { file_path })),
                    Err(e) => Err(e),
                }
            },
            TokenKind::Rule => {
                lexer.next();
                let name = match Command::parse_word(lexer, ParserError::ExpectedRuleName) {
                    Ok(name) => name,
                    Err(e) => {
                        return Err(e);
                    },
                };
                let lhs = match Command::parse_operand(lexer) {
                    Ok(lhs) => lhs,
                    Err(e) => {
                        return Err(e);
                    },
                };
                match Command::parse_operand(lexer) {
                    Ok(rhs) => Ok(Box::new(Command::DefineRule { name, lhs, rhs })),
                    Err(e) => Err(e),
                }
            },
            TokenKind::Delete => {
                lexer.next();
                match Command::parse_word(lexer, ParserError::ExpectedRuleName) {
                    Ok(name) => Ok(Box::new(Command::DeleteRule { name })),
                    Err(e) => Err(e),
                }
            },
            TokenKind::Apply => {
                lexer.next();
                let name = match Command::parse_word(lexer, ParserError::ExpectedRuleName) {
                    Ok(name) => name,
                    Err(e) => {
                        return Err(e);
                    },
                };
                match Command::parse_operand(lexer) {
                    Ok(expr) => Ok(Box::new(Command::ApplyRule { name, expr })),
                    Err(e) => Err(e),
                }
            },
            TokenKind::End => {
                lexer.next();
                Err(ParserError::UnexpectedEndOfInput)
            },
            _ => match Command::parse_operand(lexer) {
                Ok(expr) => Ok(Box::new(Command::Eval { expr })),
                Err(e) => Err(e),
            },
        }
    }
}

} // verus!
