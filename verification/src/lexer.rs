//! The tokenizer.
//!
//! A [`Lexer`] walks over the characters of its input once, from left to
//! right, and hands out one [`Token`] per call.  What it does is stated over
//! [`LexerState`], a mathematical picture of the lexer: the whole input, the
//! offset reached in it, the depth of open parentheses, the one token that
//! may be waiting in the lookahead slot, and the completion flag.  Rows and
//! columns are not part of that picture; they follow from the input and the
//! offset.

use vstd::prelude::*;
use vstd::std_specs::cmp::PartialEqSpecImpl;
use crate::text::is_blank;

verus! {

/// What a token is.
#[derive(Debug, Clone, Copy, PartialEq, Eq, Hash, Structural)]
pub enum TokenKind {
    LParen,
    RParen,
    String,
    Rule,
    Delete,
    Apply,
    Quit,
    Load,
    Save,
    End,
    /// The input ended while a parenthesis was still open.
    UnclosedParen,
    /// A closing parenthesis with nothing open.
    ParenOverflow,
}

impl TokenKind {
    /// The two kinds that the end of the input produces.
    pub open spec fn is_terminal(self) -> bool {
        self == TokenKind::End || self == TokenKind::UnclosedParen
    }
}

/// Where a token begins.  Rows count from one; input without a file has no
/// rows.
#[derive(Debug, PartialEq, Eq, Hash)]
pub enum Loc {
    FileLoc { path: Box<String>, row: Box<usize>, col: Box<usize> },
    ReplLoc { col: Box<usize> },
}

/// A [`Loc`] as plain values.
pub enum LocView {
    FileLoc { path: Seq<char>, row: nat, col: nat },
    ReplLoc { col: nat },
}

impl View for Loc {
    type V = LocView;

    open spec fn view(&self) -> LocView {
        match self {
            Loc::FileLoc { path, row, col } => LocView::FileLoc {
                path: path@,
                row: **row as nat,
                col: **col as nat,
            },
            Loc::ReplLoc { col } => LocView::ReplLoc { col: **col as nat },
        }
    }
}

impl Clone for Loc {
    fn clone(&self) -> (res: Self)
        ensures
            res@ == self@,
    {
        match self {
            Loc::FileLoc { path, row, col } => Loc::FileLoc {
                path: path.clone(),
                row: Box::new(**row),
                col: Box::new(**col),
            },
            Loc::ReplLoc { col } => Loc::ReplLoc { col: Box::new(**col) },
        }
    }
}

/// A token: its kind, the characters it was read from, and where they began.
#[derive(Debug)]
pub struct Token {
    pub kind: Box<TokenKind>,
    pub text: Box<String>,
    pub loc: Box<Loc>,
}

/// A [`Token`] as plain values.
pub struct TokenView {
    pub kind: TokenKind,
    pub text: Seq<char>,
    pub loc: LocView,
}

impl TokenView {
    /// Two tokens are the same token when kind and text agree; where they
    /// were found does not count.
    pub open spec fn same(self, other: TokenView) -> bool {
        self.kind == other.kind && self.text == other.text
    }

    /// The token with its location forgotten.
    pub open spec fn unplaced(self) -> TokenView {
        TokenView { kind: self.kind, text: self.text, loc: LocView::ReplLoc { col: 0 } }
    }
}

impl View for Token {
    type V = TokenView;

    open spec fn view(&self) -> TokenView {
        TokenView { kind: *self.kind, text: self.text@, loc: self.loc@ }
    }
}

impl Clone for Token {
    fn clone(&self) -> (res: Self)
        ensures
            res@ == self@,
    {
        Token {
            kind: Box::new(*self.kind),
            text: self.text.clone(),
            loc: Box::new((*self.loc).clone()),
        }
    }
}

impl PartialEq for Token {
    fn eq(&self, other: &Self) -> (r: bool) {
        *self.kind == *other.kind && *self.text == *other.text
    }
}

impl Eq for Token {

}

impl PartialEqSpecImpl for Token {
    open spec fn obeys_eq_spec() -> bool {
        true
    }

    open spec fn eq_spec(&self, other: &Token) -> bool {
        self@.same(other@)
    }
}

/// The number of line breaks among the first `n` characters of `s`.
pub open spec fn newlines(s: Seq<char>, n: nat) -> nat
    decreases n,
{
    if n == 0 {
        0
    } else if s[n - 1] == '\n' {
        newlines(s, (n - 1) as nat) + 1
    } else {
        newlines(s, (n - 1) as nat)
    }
}

/// The offset at which the line of offset `n` starts: the offset after the
/// last line break among the first `n` characters of `s`, or zero where
/// there is none.  Columns are counted from here, so the first character of
/// every line has column zero.
pub open spec fn line_origin(s: Seq<char>, n: nat) -> nat
    decreases n,
{
    if n == 0 {
        0
    } else if s[n - 1] == '\n' {
        n
    } else {
        line_origin(s, (n - 1) as nat)
    }
}

/// What the character tables say of each character of `input`: whether it
/// is white space.
pub open spec fn blanks(input: Seq<char>) -> Seq<bool> {
    Seq::new(input.len(), |i: int| is_blank(input[i]))
}

/// The kind of a word that begins with a colon.
pub open spec fn keyword_kind(text: Seq<char>) -> TokenKind {
    if text == ":rule"@ {
        TokenKind::Rule
    } else if text == ":delete"@ {
        TokenKind::Delete
    } else if text == ":apply"@ {
        TokenKind::Apply
    } else if text == ":quit"@ {
        TokenKind::Quit
    } else if text == ":load"@ {
        TokenKind::Load
    } else if text == ":save"@ {
        TokenKind::Save
    } else {
        TokenKind::String
    }
}

/// The lexer as a value.
pub struct LexerState {
    /// Every character of the input, read or not.
    pub input: Seq<char>,
    /// For every character of the input, whether it is white space.
    pub blank: Seq<bool>,
    /// How many characters have been read.
    pub pos: nat,
    /// How many parentheses are open.
    pub depth: nat,
    /// The token in the lookahead slot.
    pub peeked: Option<TokenView>,
    /// Whether the end of the input has been reported.
    pub complete: bool,
    /// The file the input came from.
    pub path: Option<Seq<char>>,
}

impl LexerState {
    /// A lexer that has read nothing yet.
    pub open spec fn start(
        input: Seq<char>,
        blank: Seq<bool>,
        path: Option<Seq<char>>,
    ) -> LexerState {
        LexerState { input, blank, pos: 0, depth: 0, peeked: None, complete: false, path }
    }

    /// Every character is classified, the offset lies in the input, and no
    /// more parentheses are open than characters were read.
    pub open spec fn valid(self) -> bool {
        self.blank.len() == self.input.len() && self.pos <= self.input.len() && self.depth
            <= self.pos
    }

    /// Whether the character at place `i` ends a word: white space does,
    /// and so does either parenthesis.
    pub open spec fn is_delimiter(self, i: int) -> bool {
        self.blank[i] || self.input[i] == '(' || self.input[i] == ')'
    }

    /// The end of the longest run of white space that starts at `from`.
    pub open spec fn blank_end(self, from: nat) -> nat
        decreases self.input.len() - from,
    {
        if from < self.input.len() && self.blank[from as int] {
            self.blank_end(from + 1)
        } else {
            from
        }
    }

    /// The end of the longest run of word characters that starts at `from`.
    pub open spec fn word_end(self, from: nat) -> nat
        decreases self.input.len() - from,
    {
        if from < self.input.len() && !self.is_delimiter(from as int) {
            self.word_end(from + 1)
        } else {
            from
        }
    }

    /// The same lexer at another offset.
    pub open spec fn at(self, pos: nat) -> LexerState {
        LexerState { pos, ..self }
    }

    /// Line breaks read so far.
    pub open spec fn row(self) -> nat {
        newlines(self.input, self.pos)
    }

    /// Characters read on the current line.
    pub open spec fn col(self) -> nat {
        (self.pos - line_origin(self.input, self.pos)) as nat
    }

    /// The location of the next character.
    pub open spec fn loc(self) -> LocView {
        match self.path {
            Some(path) => LocView::FileLoc { path, row: self.row() + 1, col: self.col() },
            None => LocView::ReplLoc { col: self.col() },
        }
    }

    /// Characters not read yet.
    pub open spec fn remaining(self) -> nat {
        if self.pos <= self.input.len() {
            (self.input.len() - self.pos) as nat
        } else {
            0
        }
    }

    /// An upper bound on the tokens still to come, the terminal one aside:
    /// each of them takes a character of the input, or is the one in the
    /// lookahead slot.
    pub open spec fn budget(self) -> nat {
        self.remaining() + match self.peeked {
            Some(t) => if t.kind.is_terminal() {
                0nat
            } else {
                1nat
            },
            None => 0nat,
        }
    }

    /// Reads one character, if there is one.
    pub open spec fn drop_char(self) -> (Option<char>, LexerState) {
        if self.pos < self.input.len() {
            (Some(self.input[self.pos as int]), self.at(self.pos + 1))
        } else {
            (None, self)
        }
    }

    /// Reads white space for as long as there is any.
    pub open spec fn lex_whitespaces(self) -> LexerState {
        self.at(self.blank_end(self.pos))
    }

    /// Reads one token from the input, past the lookahead slot.
    ///
    /// After any white space, a parenthesis is a token by itself, any other
    /// character begins a word that runs up to the next delimiter, and the
    /// end of the input gives a terminal token and completes the lexer.  The
    /// text of the token is exactly what was read for it.
    pub open spec fn lex(self) -> (TokenView, LexerState) {
        let begin = self.blank_end(self.pos);
        let loc = self.at(begin).loc();
        if begin >= self.input.len() {
            let kind = if self.depth == 0 {
                TokenKind::End
            } else {
                TokenKind::UnclosedParen
            };
            (
                TokenView { kind, text: Seq::empty(), loc },
                LexerState { pos: begin, complete: true, ..self },
            )
        } else {
            let c = self.input[begin as int];
            if c == '(' {
                (
                    TokenView { kind: TokenKind::LParen, text: seq![c], loc },
                    LexerState { pos: begin + 1, depth: self.depth + 1, ..self },
                )
            } else if c == ')' {
                if self.depth == 0 {
                    (
                        TokenView { kind: TokenKind::ParenOverflow, text: seq![c], loc },
                        LexerState { pos: begin + 1, ..self },
                    )
                } else {
                    (
                        TokenView { kind: TokenKind::RParen, text: seq![c], loc },
                        LexerState { pos: begin + 1, depth: (self.depth - 1) as nat, ..self },
                    )
                }
            } else {
                let end = self.word_end(begin + 1);
                let text = self.input.subrange(begin as int, end as int);
                let kind = if c == ':' {
                    keyword_kind(text)
                } else {
                    TokenKind::String
                };
                (TokenView { kind, text, loc }, LexerState { pos: end, ..self })
            }
        }
    }

    /// Takes the next token: the one in the lookahead slot if there is one,
    /// else a fresh one.
    pub open spec fn next_token(self) -> (TokenView, LexerState) {
        match self.peeked {
            Some(t) => (t, LexerState { peeked: None, ..self }),
            None => self.lex(),
        }
    }

    /// Looks at the next token and keeps it in the lookahead slot.
    pub open spec fn peek_token(self) -> (TokenView, LexerState) {
        let (t, s) = self.next_token();
        (t, LexerState { peeked: Some(t), ..s })
    }

    /// Takes the next token unless the lexer is complete.
    pub open spec fn next(self) -> (Option<TokenView>, LexerState) {
        if self.complete {
            (None, self)
        } else {
            let (t, s) = self.next_token();
            (Some(t), s)
        }
    }
}

/// A run of white space ends at or after its start and holds nothing but
/// white space.  A run that starts inside the input ends inside it, before
/// a character that is not white space.
pub proof fn lemma_blank_end(st: LexerState, from: nat)
    ensures
        from <= st.blank_end(from),
        from <= st.input.len() ==> st.blank_end(from) <= st.input.len(),
        forall|i: int| from <= i < st.blank_end(from) ==> #[trigger] st.blank[i],
        st.blank_end(from) < st.input.len() ==> !st.blank[st.blank_end(from) as int],
        forall|pos: nat| #[trigger] st.at(pos).blank_end(from) == st.blank_end(from),
    decreases st.input.len() - from,
{
    if from < st.input.len() && st.blank[from as int] {
        lemma_blank_end(st, from + 1);
    }
    assert forall|pos: nat| #[trigger] st.at(pos).blank_end(from) == st.blank_end(from) by {
        lemma_scan_at(st, pos, from);
    }
}

/// A word ends at or after its start and holds no delimiter.  A word that
/// starts inside the input ends inside it, before a delimiter.
pub proof fn lemma_word_end(st: LexerState, from: nat)
    ensures
        from <= st.word_end(from),
        from <= st.input.len() ==> st.word_end(from) <= st.input.len(),
        forall|i: int| from <= i < st.word_end(from) ==> !#[trigger] st.is_delimiter(i),
        st.word_end(from) < st.input.len() ==> st.is_delimiter(st.word_end(from) as int),
    decreases st.input.len() - from,
{
    if from < st.input.len() && !st.is_delimiter(from as int) {
        lemma_word_end(st, from + 1);
    }
}

/// Where runs end depends on the input alone, not on the offset reached.
pub proof fn lemma_scan_at(st: LexerState, pos: nat, from: nat)
    ensures
        st.at(pos).blank_end(from) == st.blank_end(from),
        st.at(pos).word_end(from) == st.word_end(from),
    decreases st.input.len() - from,
{
    if from < st.input.len() {
        lemma_scan_at(st, pos, from + 1);
    }
}

/// Rows and columns along the input: the row never goes down; while it
/// stays, columns are counted from the same place; and when it has gone up,
/// columns are counted from just after a line break that was read on the
/// way, so that the first character after the break has column zero.
pub proof fn lemma_rows_and_columns(s: Seq<char>, a: nat, b: nat)
    requires
        a <= b <= s.len(),
    ensures
        newlines(s, a) <= newlines(s, b),
        line_origin(s, b) <= b,
        newlines(s, a) == newlines(s, b) ==> line_origin(s, b) == line_origin(s, a),
        newlines(s, a) < newlines(s, b) ==> a < line_origin(s, b) <= b && s[line_origin(s, b)
            - 1] == '\n',
        b > 0 && s[b - 1] == '\n' ==> line_origin(s, b) == b,
    decreases b,
{
    if b > a {
        lemma_rows_and_columns(s, a, (b - 1) as nat);
    } else if b > 0 {
        lemma_rows_and_columns(s, (b - 1) as nat, (b - 1) as nat);
    }
}

/// Reading a token never moves the lexer backwards.  A token that is not
/// terminal took at least one character; a terminal one was produced at the
/// very end of the input.  A valid lexer stays valid.
pub proof fn lemma_lex_progress(st: LexerState)
    ensures
        st.lex().1.input == st.input,
        st.lex().1.path == st.path,
        st.lex().1.peeked == st.peeked,
        st.pos <= st.lex().1.pos,
        st.lex().1.remaining() <= st.remaining(),
        !st.lex().0.kind.is_terminal() ==> st.lex().1.remaining() < st.remaining(),
        st.lex().0.kind.is_terminal() ==> st.lex().1.remaining() == 0,
        st.valid() ==> st.lex().1.valid(),
{
    lemma_blank_end(st, st.pos);
    let begin = st.blank_end(st.pos);
    if begin < st.input.len() {
        lemma_word_end(st, begin + 1);
    }
}

/// Taking a token takes from the budget of the lexer unless the token is
/// terminal, and empties the lookahead slot.  A valid lexer stays valid.
pub proof fn lemma_next_token_progress(st: LexerState)
    ensures
        st.next_token().1.input == st.input,
        st.next_token().1.path == st.path,
        st.next_token().1.peeked is None,
        st.next_token().1.budget() <= st.budget(),
        !st.next_token().0.kind.is_terminal() ==> st.next_token().1.budget() < st.budget(),
        st.valid() ==> st.next_token().1.valid(),
{
    lemma_lex_progress(st);
}

/// Looking at a token adds nothing to the budget of the lexer and leaves
/// the token in the lookahead slot.  A valid lexer stays valid.
pub proof fn lemma_peek_token_progress(st: LexerState)
    ensures
        st.peek_token().1.input == st.input,
        st.peek_token().1.path == st.path,
        st.peek_token().1.peeked == Some(st.peek_token().0),
        st.peek_token().1.budget() <= st.budget(),
        st.valid() ==> st.peek_token().1.valid(),
{
    lemma_lex_progress(st);
}

/// Taking a token unless the lexer is complete adds nothing to its budget.
/// A valid lexer stays valid.
pub proof fn lemma_next_progress(st: LexerState)
    ensures
        st.next().1.input == st.input,
        st.next().1.path == st.path,
        st.next().1.budget() <= st.budget(),
        st.valid() ==> st.next().1.valid(),
{
    lemma_next_token_progress(st);
}

/// Lookahead is idempotent: to look at the next token and then take it
/// gives the token, and leaves the lexer, as taking it at once would.
pub proof fn lemma_peek_then_take(st: LexerState)
    ensures
        st.peek_token().0 == st.next_token().0,
        st.peek_token().1.next_token() == st.next_token(),
        st.peek_token().1.peek_token() == st.peek_token(),
{
}

/// Across one token the row never goes down, and the column starts over
/// with each new row: while the row stays, columns are still counted from
/// the same place; once it has gone up, they are counted from just after a
/// line break that this token, or the white space before it, ran over.
pub proof fn lemma_lex_rows(st: LexerState)
    requires
        st.valid(),
    ensures
        st.row() <= st.lex().1.row(),
        st.row() == st.lex().1.row() ==> st.lex().1.col() == st.col() + (st.lex().1.pos - st.pos),
        st.row() < st.lex().1.row() ==> st.lex().1.col() < st.lex().1.pos - st.pos,
{
    lemma_lex_progress(st);
    lemma_rows_and_columns(st.input, st.pos, st.lex().1.pos);
    lemma_rows_and_columns(st.input, st.pos, st.pos);
}

/// From one token to the next the row never goes down, and within a row
/// the column never does; it goes up unless the first token was produced
/// at the end of the input.
pub proof fn lemma_token_rows(st: LexerState)
    requires
        st.valid(),
    ensures
        ({
            let (first, next) = st.lex();
            let (second, _) = next.lex();
            first.loc matches LocView::FileLoc { row: r1, col: c1, .. } ==> second.loc matches LocView::FileLoc {
                row: r2,
                col: c2,
                ..
            } && r1 <= r2 && (r1 == r2 ==> c1 <= c2) && (r1 == r2 && !first.kind.is_terminal()
                ==> c1 < c2)
        }),
{
    let (first, next) = st.lex();
    let begin = st.blank_end(st.pos);
    let again = next.blank_end(next.pos);
    lemma_lex_progress(st);
    lemma_blank_end(st, st.pos);
    lemma_blank_end(next, next.pos);
    if begin < st.input.len() {
        lemma_word_end(st, begin + 1);
    }
    lemma_rows_and_columns(st.input, begin, again);
    lemma_rows_and_columns(st.input, begin, begin);
}

/// The token at the end of the input: it is `UnclosedParen` exactly when a
/// parenthesis is still open there, and `End` otherwise; no other token is
/// terminal, and none is produced once the white space has run out.
pub proof fn lemma_terminal_token(st: LexerState)
    requires
        st.valid(),
    ensures
        st.lex().0.kind.is_terminal() <==> st.blank_end(st.pos) == st.input.len(),
        st.lex().0.kind == TokenKind::UnclosedParen <==> st.blank_end(st.pos) == st.input.len()
            && st.depth > 0,
        st.lex().0.kind == TokenKind::End <==> st.blank_end(st.pos) == st.input.len() && st.depth
            == 0,
        st.lex().1.complete == (st.complete || st.lex().0.kind.is_terminal()),
{
    lemma_blank_end(st, st.pos);
}

/// A cursor over the characters of one input.
#[derive(Debug)]
pub struct Lexer {
    input: Vec<char>,
    blank: Vec<bool>,
    peeked: Option<Box<Token>>,
    /// Set once the end of the input has been reported.
    pub complete: bool,
    file_path: Option<String>,
    row_number: usize,
    line_beginning: usize,
    line_current: usize,
    paren_layer: usize,
}

impl View for Lexer {
    type V = LexerState;

    closed spec fn view(&self) -> LexerState {
        LexerState {
            input: self.input@,
            blank: self.blank@,
            pos: self.line_current as nat,
            depth: self.paren_layer as nat,
            peeked: match self.peeked {
                Some(t) => Some(t@),
                None => None,
            },
            complete: self.complete,
            path: match self.file_path {
                Some(p) => Some(p@),
                None => None,
            },
        }
    }
}

impl Clone for Lexer {
    fn clone(&self) -> (res: Self)
        ensures
            res@ == self@,
            self.wf() ==> res.wf(),
    {
        let input = self.input.clone();
        let blank = self.blank.clone();
        assert(input@ =~= self.input@);
        assert(blank@ =~= self.blank@);
        Lexer {
            input,
            blank,
            peeked: match &self.peeked {
                Some(token) => Some(Box::new((**token).clone())),
                None => None,
            },
            complete: self.complete,
            file_path: match &self.file_path {
                Some(path) => Some(path.clone()),
                None => None,
            },
            row_number: self.row_number,
            line_beginning: self.line_beginning,
            line_current: self.line_current,
            paren_layer: self.paren_layer,
        }
    }
}

impl Lexer {
    /// The counters agree with the input: the row and the start of the line
    /// are those of the offset, and everything fits the machine's integers.
    pub closed spec fn wf(&self) -> bool {
        &&& self@.valid()
        &&& self.input.len() < usize::MAX
        &&& self.row_number == newlines(self.input@, self.line_current as nat)
        &&& self.line_beginning == line_origin(self.input@, self.line_current as nat)
        &&& self.row_number <= self.line_current
        &&& self.line_beginning <= self.line_current
    }

    /// A well-formed lexer is a valid one.
    pub proof fn lemma_wf_valid(&self)
        requires
            self.wf(),
        ensures
            self@.valid(),
    {
    }

    /// A lexer at the start of `input`, with white space as the character
    /// tables have it.  `file_path` only shows in the locations it reports.
    pub fn new(input: &str, file_path: Option<&str>) -> (lexer: Lexer)
        requires
            input@.len() < usize::MAX,
        ensures
            lexer.wf(),
            lexer@ == LexerState::start(
                input@,
                blanks(input@),
                match file_path {
                    Some(p) => Some(p@),
                    None => None,
                },
            ),
    {
        let mut chars: Vec<char> = Vec::new();
        let mut blank: Vec<bool> = Vec::new();
        for c in it: input.chars()
            invariant
                chars@ == it.seq().take(it.index()),
                blank@ == blanks(chars@),
        {
            chars.push(c);
            blank.push(c.is_whitespace());
            assert(blank@ =~= blanks(chars@));
        }
        assert(chars@ == input@);
        Lexer::from_classified(chars, blank, file_path)
    }

    /// A lexer at the start of `input`, or `None` where the input has more
    /// characters than the counters of a lexer can count.
    pub fn try_new(input: &str, file_path: Option<&str>) -> (lexer: Option<Lexer>)
        ensures
            match lexer {
                Some(l) => l.wf() && l@ == LexerState::start(
                    input@,
                    blanks(input@),
                    match file_path {
                        Some(p) => Some(p@),
                        None => None,
                    },
                ),
                None => input@.len() >= usize::MAX,
            },
    {
        if input.unicode_len() < usize::MAX {
            Some(Lexer::new(input, file_path))
        } else {
            None
        }
    }

    /// A lexer at the start of `input`, for which exactly the characters
    /// marked in `blank` are white space.
    pub fn from_classified(input: Vec<char>, blank: Vec<bool>, file_path: Option<&str>) -> (lexer:
        Lexer)
        requires
            input.len() == blank.len(),
            input.len() < usize::MAX,
        ensures
            lexer.wf(),
            lexer@ == LexerState::start(
                input@,
                blank@,
                match file_path {
                    Some(p) => Some(p@),
                    None => None,
                },
            ),
    {
        let file_path = match file_path {
            Some(p) => Some(p.to_owned()),
            None => None,
        };
        Lexer {
            input,
            blank,
            peeked: None,
            complete: false,
            file_path,
            row_number: 0,
            line_beginning: 0,
            line_current: 0,
            paren_layer: 0,
        }
    }

    /// Whether the end of the input has been reported.
    pub fn is_complete(&self) -> (r: bool)
        ensures
            r == self@.complete,
    {
        self.complete
    }

    /// The location of the next character.
    pub fn loc(&self) -> (loc: Box<Loc>)
        requires
            self.wf(),
        ensures
            loc@ == self@.loc(),
    {
        let col = self.line_current - self.line_beginning;
        let loc = match &self.file_path {
            Some(path) => Loc::FileLoc {
                path: Box::new(path.clone()),
                row: Box::new(self.row_number + 1),
                col: Box::new(col),
            },
            None => Loc::ReplLoc { col: Box::new(col) },
        };
        Box::new(loc)
    }

    /// Reads one character, if there is one, and keeps count of the lines.
    pub fn drop_char(&mut self) -> (c: Option<char>)
        requires
            old(self).wf(),
        ensures
            final(self).wf(),
            (c, final(self)@) == old(self)@.drop_char(),
    {
        if self.line_current >= self.input.len() {
            None
        } else {
            let c = self.input[self.line_current];
            self.line_current += 1;
            if c == '\n' {
                self.row_number += 1;
                self.line_beginning = self.line_current;
            }
            Some(c)
        }
    }

    /// Reads white space for as long as there is any.
    pub fn lex_whitespaces(&mut self)
        requires
            old(self).wf(),
        ensures
            final(self).wf(),
            final(self)@ == old(self)@.lex_whitespaces(),
    {
        while self.line_current < self.input.len() && self.blank[self.line_current]
            invariant
                self.wf(),
                self@ == old(self)@.at(self@.pos),
                old(self)@.blank_end(self@.pos) == old(self)@.blank_end(old(self)@.pos),
            decreases self.input.len() - self.line_current,
        {
            self.drop_char();
        }
    }

    /// Whether the next character ends a word.
    fn delimiter(&self) -> (r: bool)
        requires
            self.wf(),
            self@.pos < self@.input.len(),
        ensures
            r == self@.is_delimiter(self@.pos as int),
    {
        let c = self.input[self.line_current];
        self.blank[self.line_current] || c == '(' || c == ')'
    }

    /// The kind of a word that begins with a colon.
    fn keyword(text: &str) -> (kind: TokenKind)
        ensures
            kind == keyword_kind(text@),
    {
        if text.eq(":rule") {
            TokenKind::Rule
        } else if text.eq(":delete") {
            TokenKind::Delete
        } else if text.eq(":apply") {
            TokenKind::Apply
        } else if text.eq(":quit") {
            TokenKind::Quit
        } else if text.eq(":load") {
            TokenKind::Load
        } else if text.eq(":save") {
            TokenKind::Save
        } else {
            TokenKind::String
        }
    }

    /// Reads the rest of a word whose first character, `first`, has just
    /// been read, and returns the whole word.
    fn lex_word(&mut self, first: char) -> (text: String)
        requires
            old(self).wf(),
            0 < old(self)@.pos,
            old(self)@.input[old(self)@.pos - 1] == first,
        ensures
            final(self).wf(),
            final(self)@ == old(self)@.at(old(self)@.word_end(old(self)@.pos)),
            text@ == old(self)@.input.subrange(old(self)@.pos - 1, final(self)@.pos as int),
    {
        let mut text = String::new();
        text.push(first);
        assert(text@ =~= self@.input.subrange(self@.pos - 1, self@.pos as int));
        while self.line_current < self.input.len() && !self.delimiter()
            invariant
                self.wf(),
                0 < old(self)@.pos <= self@.pos <= self@.input.len(),
                self@ == old(self)@.at(self@.pos),
                old(self)@.word_end(self@.pos) == old(self)@.word_end(old(self)@.pos),
                text@ == old(self)@.input.subrange(old(self)@.pos - 1, self@.pos as int),
            decreases self.input.len() - self.line_current,
        {
            let c = self.input[self.line_current];
            self.drop_char();
            text.push(c);
            assert(text@ =~= self@.input.subrange(old(self)@.pos - 1, self@.pos as int));
        }
        text
    }

    /// Reads one token from the input, past the lookahead slot.
    pub fn lex(&mut self) -> (token: Box<Token>)
        requires
            old(self).wf(),
        ensures
            final(self).wf(),
            (token@, final(self)@) == old(self)@.lex(),
    {
        self.lex_whitespaces();
        let loc = self.loc();
        match self.drop_char() {
            Some(c) => {
                if c == '(' {
                    self.paren_layer += 1;
                    let mut text = String::new();
                    text.push(c);
                    Box::new(Token { kind: Box::new(TokenKind::LParen), text: Box::new(text), loc })
                } else if c == ')' {
                    let mut text = String::new();
                    text.push(c);
                    if self.paren_layer == 0 {
                        Box::new(
                            Token {
                                kind: Box::new(TokenKind::ParenOverflow),
                                text: Box::new(text),
                                loc,
                            },
                        )
                    } else {
                        self.paren_layer -= 1;
                        Box::new(
                            Token { kind: Box::new(TokenKind::RParen), text: Box::new(text), loc },
                        )
                    }
                } else {
                    proof {
                        let begin = old(self)@.blank_end(old(self)@.pos);
                        lemma_scan_at(old(self)@, begin + 1, begin + 1);
                    }
                    let text = self.lex_word(c);
                    let kind = if c == ':' {
                        Self::keyword(text.as_str())
                    } else {
                        TokenKind::String
                    };
                    Box::new(Token { kind: Box::new(kind), text: Box::new(text), loc })
                }
            },
            None => {
                self.complete = true;
                let kind = if self.paren_layer == 0 {
                    TokenKind::End
                } else {
                    TokenKind::UnclosedParen
                };
                Box::new(Token { kind: Box::new(kind), text: Box::new(String::new()), loc })
            },
        }
    }

    /// Looks at the next token without taking it.
    pub fn peek_token(&mut self) -> (token: &Box<Token>)
        requires
            old(self).wf(),
        ensures
            final(self).wf(),
            (token@, final(self)@) == old(self)@.peek_token(),
    {
        if self.peeked.is_none() {
            let token = self.lex();
            self.peeked = Some(token);
        }
        self.peeked.as_ref().unwrap()
    }

    /// Takes the next token: the one in the lookahead slot if there is one,
    /// else a fresh one.
    pub fn next_token(&mut self) -> (token: Box<Token>)
        requires
            old(self).wf(),
        ensures
            final(self).wf(),
            (token@, final(self)@) == old(self)@.next_token(),
    {
        match self.peeked.take() {
            Some(token) => token,
            None => self.lex(),
        }
    }

    /// Takes the next token unless the lexer is complete.
    pub fn next(&mut self) -> (token: Option<Box<Token>>)
        requires
            old(self).wf(),
        ensures
            final(self).wf(),
            (
                match token {
                    Some(t) => Some(t@),
                    None => None,
                },
                final(self)@,
            ) == old(self)@.next(),
    {
        if self.complete {
            None
        } else {
            Some(self.next_token())
        }
    }
}

} // verus!
