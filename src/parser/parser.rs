use super::ast::{lemma_element_view, stmts_view, Ast, Stmt, StmtView};
use super::lexer::{tokenize, unterminated_string_error};
use super::scanner::Scanner;
use super::token::{error_at, CompileError, CompileErrorView, ErrorKind, Token, TokenKind, TokenView};
use vstd::prelude::*;
use vstd::string::StringExecFns;

verus! {

// ---------------------------------------------------------------------------
// The grammar, over the token sequence
//
//   Program   := Stmt*
//   Stmt      := Element | STRING
//   Element   := '<' IDENTIFIER '>' '{' Stmt* '}'
// ---------------------------------------------------------------------------

/// A syntax error reported at token `k`; past the last token, at the last token.
pub open spec fn syntax_error(toks: Seq<TokenView>, k: int, message: Seq<char>) -> CompileErrorView {
    let loc = if 0 <= k < toks.len() {
        toks[k].location
    } else {
        toks.last().location
    };
    error_at(ErrorKind::Syntax, loc, message)
}

pub open spec fn expected_message(lexeme: Seq<char>) -> Seq<char> {
    "Expected '"@ + lexeme + "'"@
}

pub open spec fn unexpected_message(lexeme: Seq<char>) -> Seq<char> {
    "Unexpected token "@ + lexeme
}

/// The statement that starts at token `k`, with the index of the token after it.
pub open spec fn stmt_at(toks: Seq<TokenView>, k: int) -> Result<(StmtView, int), CompileErrorView>
    decreases toks.len() - k, 1int,
{
    if k < 0 || k >= toks.len() {
        Ok((StmtView::Empty, k))
    } else if toks[k].lexeme == "<"@ {
        element_at(toks, k)
    } else if toks[k].kind == TokenKind::String {
        Ok((StmtView::Text(toks[k].lexeme), k + 1))
    } else {
        Err(syntax_error(toks, k, unexpected_message(toks[k].lexeme)))
    }
}

/// The element whose `<` is token `k`.
pub open spec fn element_at(toks: Seq<TokenView>, k: int) -> Result<(StmtView, int), CompileErrorView>
    decreases toks.len() - k, 0int,
{
    if k < 0 || k + 1 >= toks.len() || toks[k + 1].kind != TokenKind::Identifier {
        Err(syntax_error(toks, k + 1, "Expected tag name"@))
    } else if k + 2 >= toks.len() || toks[k + 2].lexeme != ">"@ {
        Err(syntax_error(toks, k + 2, expected_message(">"@)))
    } else if k + 3 >= toks.len() || toks[k + 3].lexeme != "{"@ {
        Err(syntax_error(toks, k + 3, expected_message("{"@)))
    } else {
        match children_at(toks, k + 4) {
            Ok((cs, e)) => Ok((StmtView::Element(toks[k + 1].lexeme, cs), e)),
            Err(x) => Err(x),
        }
    }
}

/// The children of an element from token `k` on, through the closing `}`.
pub open spec fn children_at(toks: Seq<TokenView>, k: int) -> Result<
    (Seq<StmtView>, int),
    CompileErrorView,
>
    decreases toks.len() - k, 2int,
{
    if k < 0 || k >= toks.len() {
        Err(syntax_error(toks, k, expected_message("}"@)))
    } else if toks[k].lexeme == "}"@ {
        Ok((Seq::empty(), k + 1))
    } else {
        match stmt_at(toks, k) {
            Ok((s, e)) => if k < e <= toks.len() {
                match children_at(toks, e) {
                    Ok((cs, e2)) => Ok((seq![s] + cs, e2)),
                    Err(x) => Err(x),
                }
            } else {
                Ok((Seq::empty(), k))
            },
            Err(x) => Err(x),
        }
    }
}

/// The statements from token `k` to the end.
pub open spec fn program_from(toks: Seq<TokenView>, k: int) -> Result<Seq<StmtView>, CompileErrorView>
    decreases toks.len() - k,
{
    if k < 0 || k >= toks.len() {
        Ok(Seq::empty())
    } else {
        match stmt_at(toks, k) {
            Ok((s, e)) => if k < e <= toks.len() {
                match program_from(toks, e) {
                    Ok(ss) => Ok(seq![s] + ss),
                    Err(x) => Err(x),
                }
            } else {
                Ok(Seq::empty())
            },
            Err(x) => Err(x),
        }
    }
}

/// The statements of a whole token sequence.
pub open spec fn parse_tokens(toks: Seq<TokenView>) -> Result<Seq<StmtView>, CompileErrorView> {
    program_from(toks, 0)
}

/// The statements of a whole source text, or the first error found in it.
pub open spec fn program_of(s: Seq<char>, file: Seq<char>) -> Result<Seq<StmtView>, CompileErrorView> {
    match tokenize(s, file) {
        Ok(toks) => parse_tokens(toks),
        Err(q) => Err(unterminated_string_error(s, file, q)),
    }
}

/// A statement that parses consumes at least one token and ends within the input.
pub proof fn lemma_stmt_at(toks: Seq<TokenView>, k: int)
    requires
        0 <= k < toks.len(),
    ensures
        stmt_at(toks, k) matches Ok((s, e)) ==> k < e <= toks.len(),
    decreases toks.len() - k, 1int,
{
    if toks[k].lexeme == "<"@ {
        lemma_element_at(toks, k);
    }
}

pub proof fn lemma_element_at(toks: Seq<TokenView>, k: int)
    requires
        0 <= k < toks.len(),
    ensures
        element_at(toks, k) matches Ok((s, e)) ==> k < e <= toks.len(),
    decreases toks.len() - k, 0int,
{
    if k + 3 < toks.len() {
        lemma_children_at(toks, k + 4);
    }
}

pub proof fn lemma_children_at(toks: Seq<TokenView>, k: int)
    requires
        0 <= k,
    ensures
        children_at(toks, k) matches Ok((cs, e)) ==> k < e <= toks.len(),
    decreases toks.len() - k, 2int,
{
    if 0 <= k < toks.len() && toks[k].lexeme != "}"@ {
        lemma_stmt_at(toks, k);
        if let Ok((s, e)) = stmt_at(toks, k) {
            if k < e <= toks.len() {
                lemma_children_at(toks, e);
            }
        }
    }
}

// ---------------------------------------------------------------------------
// The declaration dialect
//
//   Decl := IDENTIFIER ':' 'fn'
// ---------------------------------------------------------------------------

/// A diagnostic that names a line but no column.
pub open spec fn line_error_view(file: Seq<char>, line: nat, message: Seq<char>) -> CompileErrorView {
    CompileErrorView { kind: ErrorKind::Syntax, file, line, column: None, message }
}

/// What follows `name :` at token `k`: `fn` declares a function, another keyword is an
/// error, and anything else declares nothing.
pub open spec fn decl_kind_at(toks: Seq<TokenView>, k: int, name: Seq<char>) -> Result<
    (StmtView, int),
    CompileErrorView,
> {
    if toks[k].lexeme == "fn"@ {
        Ok((StmtView::DeclFunc(name), k + 1))
    } else if toks[k].kind == TokenKind::Keyword {
        Err(
            line_error_view(
                toks[k].location.file,
                toks[k].location.line,
                "Unexpected keyword '"@ + toks[k].lexeme + "'"@,
            ),
        )
    } else {
        Ok((StmtView::Empty, k))
    }
}

/// The declaration statement that starts at token `k`, with the index after it.
pub open spec fn decl_at(toks: Seq<TokenView>, k: int) -> Result<(StmtView, int), CompileErrorView> {
    if k < 0 || k >= toks.len() {
        Ok((StmtView::Empty, k))
    } else if toks[k].kind == TokenKind::Identifier {
        if k + 1 < toks.len() && toks[k + 1].lexeme == ":"@ {
            if k + 2 >= toks.len() {
                Err(
                    syntax_error(
                        toks,
                        k,
                        "Expected keyword after '"@ + toks[k].lexeme + ":'"@,
                    ),
                )
            } else {
                decl_kind_at(toks, k + 2, toks[k].lexeme)
            }
        } else {
            Ok((StmtView::Empty, k + 1))
        }
    } else {
        Err(syntax_error(toks, k, unexpected_message(toks[k].lexeme)))
    }
}

/// The declaration statements from token `k` to the end.
pub open spec fn declarations_from(toks: Seq<TokenView>, k: int) -> Result<
    Seq<StmtView>,
    CompileErrorView,
>
    decreases toks.len() - k,
{
    if k < 0 || k >= toks.len() {
        Ok(Seq::empty())
    } else {
        match decl_at(toks, k) {
            Ok((s, e)) => if k < e <= toks.len() {
                match declarations_from(toks, e) {
                    Ok(ss) => Ok(seq![s] + ss),
                    Err(x) => Err(x),
                }
            } else {
                Ok(Seq::empty())
            },
            Err(x) => Err(x),
        }
    }
}

/// `r` with the statements `p` put in front.
pub open spec fn after_children(p: Seq<StmtView>, r: Result<(Seq<StmtView>, int), CompileErrorView>) -> Result<
    (Seq<StmtView>, int),
    CompileErrorView,
> {
    match r {
        Ok((cs, e)) => Ok((p + cs, e)),
        Err(x) => Err(x),
    }
}

/// `r` with the statements `p` put in front.
pub open spec fn after_stmts(p: Seq<StmtView>, r: Result<Seq<StmtView>, CompileErrorView>) -> Result<
    Seq<StmtView>,
    CompileErrorView,
> {
    match r {
        Ok(ss) => Ok(p + ss),
        Err(x) => Err(x),
    }
}

// ---------------------------------------------------------------------------
// The parser
// ---------------------------------------------------------------------------

/// The diagnostic for a problem at `token`.
pub fn parse_error(token: &Token, message: String) -> (r: CompileError)
    ensures
        r@ == error_at(ErrorKind::Syntax, token.location@, message@),
{
    CompileError::at(ErrorKind::Syntax, &token.location, message)
}

/// The diagnostic for a problem on a line of a file.
pub fn line_error(file_name: &str, line: usize, message: String) -> (r: CompileError)
    ensures
        r@ == line_error_view(file_name@, line as nat, message@),
{
    CompileError {
        kind: ErrorKind::Syntax,
        file: file_name.to_owned(),
        line,
        column: None,
        message,
    }
}

/// A recursive-descent parser with one token of lookahead.
pub struct Parser {
    scanner: Scanner,
}

impl Parser {
    /// The tokens being parsed.
    pub closed spec fn toks(&self) -> Seq<TokenView> {
        self.scanner.toks()
    }

    /// The index of the next token.
    pub closed spec fn cursor(&self) -> int {
        self.scanner.index as int
    }

    pub closed spec fn wf(&self) -> bool {
        self.scanner.wf()
    }

    /// Tokenizes `source` and places the cursor on the first token.
    pub fn new(source: String, file_name: String) -> (r: Result<Parser, CompileError>)
        requires
            source@.len() < usize::MAX,
        ensures
            match tokenize(source@, file_name@) {
                Ok(ts) => r matches Ok(p) && p.wf() && p.toks() == ts && p.cursor() == 0,
                Err(q) => r matches Err(e) && e@ == unterminated_string_error(
                    source@,
                    file_name@,
                    q,
                ),
            },
    {
        match Scanner::new(source, file_name) {
            Ok(scanner) => Ok(Parser { scanner }),
            Err(e) => Err(e),
        }
    }

    /// The next token, if any.
    pub fn peek(&self) -> (r: Option<Token>)
        requires
            self.wf(),
        ensures
            match r {
                Some(t) => 0 <= self.cursor() < self.toks().len() && t@ == self.toks()[self.cursor()],
                None => self.cursor() >= self.toks().len(),
            },
    {
        self.scanner.peek()
    }

    /// Moves past the next token, if any.
    pub fn advance(&mut self)
        requires
            old(self).wf(),
        ensures
            final(self).wf(),
            final(self).toks() == old(self).toks(),
            final(self).cursor() == if old(self).cursor() < old(self).toks().len() {
                old(self).cursor() + 1
            } else {
                old(self).cursor()
            },
    {
        self.scanner.advance();
    }

    pub fn is_at_end(&self) -> (r: bool)
        requires
            self.wf(),
        ensures
            r == (self.cursor() >= self.toks().len()),
    {
        self.scanner.is_at_end()
    }

    /// Whether the next token is `lexeme`.
    fn next_is(&self, lexeme: &str) -> (r: bool)
        requires
            self.wf(),
        ensures
            r == (self.cursor() < self.toks().len() && self.toks()[self.cursor()].lexeme == lexeme@),
    {
        self.scanner.index < self.scanner.tokens.len() && self.scanner.tokens[self.scanner.index].lexeme
            == lexeme.to_owned()
    }

    /// A syntax error at the next token, or at the last one past the end.
    fn error_here(&self, message: String) -> (r: CompileError)
        requires
            self.wf(),
            self.toks().len() > 0,
        ensures
            r@ == syntax_error(self.toks(), self.cursor(), message@),
    {
        let n = self.scanner.tokens.len();
        let k = if self.scanner.index < n {
            self.scanner.index
        } else {
            n - 1
        };
        parse_error(&self.scanner.tokens[k], message)
    }

    /// Consumes the next token if it is `lexeme`; otherwise reports that `lexeme` was
    /// expected.
    pub fn expect(&mut self, lexeme: &str) -> (r: Result<(), CompileError>)
        requires
            old(self).wf(),
            old(self).toks().len() > 0,
        ensures
            final(self).wf(),
            final(self).toks() == old(self).toks(),
            if old(self).cursor() < old(self).toks().len() && old(self).toks()[old(
                self,
            ).cursor()].lexeme == lexeme@ {
                r is Ok && final(self).cursor() == old(self).cursor() + 1
            } else {
                r matches Err(e) && final(self).cursor() == old(self).cursor() && e@
                    == syntax_error(old(self).toks(), old(self).cursor(), expected_message(lexeme@))
            },
    {
        if self.next_is(lexeme) {
            self.advance();
            Ok(())
        } else {
            let mut message = "Expected '".to_owned();
            message.append(lexeme);
            message.append("'");
            Err(self.error_here(message))
        }
    }

    /// Consumes the next token if it is `lexeme`, and says whether it did.
    pub fn match_token(&mut self, lexeme: &str) -> (r: bool)
        requires
            old(self).wf(),
        ensures
            final(self).wf(),
            final(self).toks() == old(self).toks(),
            r == (old(self).cursor() < old(self).toks().len() && old(self).toks()[old(
                self,
            ).cursor()].lexeme == lexeme@),
            final(self).cursor() == if r {
                old(self).cursor() + 1
            } else {
                old(self).cursor()
            },
    {
        if self.next_is(lexeme) {
            self.advance();
            true
        } else {
            false
        }
    }

    /// Parses every declaration up to the end of the tokens.
    pub fn parse_declarations(&mut self) -> (r: Result<Ast, CompileError>)
        requires
            old(self).wf(),
        ensures
            final(self).toks() == old(self).toks(),
            match declarations_from(old(self).toks(), old(self).cursor()) {
                Ok(ss) => r matches Ok(Ast::Program(v)) && stmts_view(v@) == ss,
                Err(x) => r matches Err(e) && e@ == x,
            },
    {
        let ghost toks = self.toks();
        let mut stmts: Vec<Stmt> = Vec::new();
        while !self.is_at_end()
            invariant
                self.wf(),
                self.toks() == toks,
                toks == old(self).toks(),
                declarations_from(toks, old(self).cursor()) == after_stmts(
                    stmts_view(stmts@),
                    declarations_from(toks, self.cursor()),
                ),
            decreases toks.len() - self.cursor(),
        {
            let stmt = match self.parse_declaration() {
                Ok(st) => st,
                Err(e) => {
                    return Err(e);
                },
            };
            let ghost before = stmts_view(stmts@);
            stmts.push(stmt);
            proof {
                assert(stmts_view(stmts@) =~= before.push(stmt@));
                if let Ok(rest) = declarations_from(toks, self.cursor()) {
                    assert(before + (seq![stmt@] + rest) =~= before.push(stmt@) + rest);
                }
            }
        }
        assert(stmts_view(stmts@) + Seq::<StmtView>::empty() =~= stmts_view(stmts@));
        Ok(Ast::Program(stmts))
    }

    /// Parses one statement of the declaration dialect, `name : fn`.
    pub fn parse_declaration(&mut self) -> (r: Result<Stmt, CompileError>)
        requires
            old(self).wf(),
        ensures
            final(self).wf(),
            final(self).toks() == old(self).toks(),
            match decl_at(old(self).toks(), old(self).cursor()) {
                Ok((sv, e)) => r matches Ok(st) && st@ == sv && final(self).cursor() == e,
                Err(x) => r matches Err(err) && err@ == x,
            },
    {
        if self.is_at_end() {
            return Ok(Stmt::Empty);
        }
        let k = self.scanner.index;
        if self.scanner.tokens[k].kind != TokenKind::Identifier {
            let mut message = "Unexpected token ".to_owned();
            message.append(self.scanner.tokens[k].lexeme.as_str());
            return Err(self.error_here(message));
        }
        let name = self.scanner.tokens[k].lexeme.clone();
        self.advance();
        if !self.match_token(":") {
            return Ok(Stmt::Empty);
        }
        if self.is_at_end() {
            let mut message = "Expected keyword after '".to_owned();
            message.append(name.as_str());
            message.append(":'");
            return Err(parse_error(&self.scanner.tokens[k], message));
        }
        self.parse_decl(name)
    }

    /// Parses what follows `name :`.
    fn parse_decl(&mut self, name: String) -> (r: Result<Stmt, CompileError>)
        requires
            old(self).wf(),
            0 <= old(self).cursor() < old(self).toks().len(),
        ensures
            final(self).wf(),
            final(self).toks() == old(self).toks(),
            match decl_kind_at(old(self).toks(), old(self).cursor(), name@) {
                Ok((sv, e)) => r matches Ok(st) && st@ == sv && final(self).cursor() == e,
                Err(x) => r matches Err(err) && err@ == x,
            },
    {
        if self.next_is("fn") {
            self.advance();
            return Ok(Stmt::DeclFunc(name));
        }
        let k = self.scanner.index;
        if self.scanner.tokens[k].kind == TokenKind::Keyword {
            let token = &self.scanner.tokens[k];
            let mut message = "Unexpected keyword '".to_owned();
            message.append(token.lexeme.as_str());
            message.append("'");
            return Err(line_error(token.location.file.as_str(), token.location.line, message));
        }
        Ok(Stmt::Empty)
    }

    /// Parses every statement up to the end of the tokens.
    pub fn parse(&mut self) -> (r: Result<Ast, CompileError>)
        requires
            old(self).wf(),
        ensures
            final(self).toks() == old(self).toks(),
            match program_from(old(self).toks(), old(self).cursor()) {
                Ok(ss) => r matches Ok(Ast::Program(v)) && stmts_view(v@) == ss,
                Err(x) => r matches Err(e) && e@ == x,
            },
    {
        let ghost toks = self.toks();
        let mut stmts: Vec<Stmt> = Vec::new();
        while !self.is_at_end()
            invariant
                self.wf(),
                self.toks() == toks,
                toks == old(self).toks(),
                program_from(toks, old(self).cursor()) == after_stmts(
                    stmts_view(stmts@),
                    program_from(toks, self.cursor()),
                ),
            decreases toks.len() - self.cursor(),
        {
            let ghost k = self.cursor();
            proof {
                lemma_stmt_at(toks, k);
            }
            let stmt = match self.parse_stmt() {
                Ok(st) => st,
                Err(e) => {
                    return Err(e);
                },
            };
            let ghost before = stmts_view(stmts@);
            stmts.push(stmt);
            proof {
                assert(stmts_view(stmts@) =~= before.push(stmt@));
                if let Ok(rest) = program_from(toks, self.cursor()) {
                    assert(before + (seq![stmt@] + rest) =~= before.push(stmt@) + rest);
                }
            }
        }
        assert(stmts_view(stmts@) + Seq::<StmtView>::empty() =~= stmts_view(stmts@));
        Ok(Ast::Program(stmts))
    }

    /// Parses one statement: an element, a string literal, or nothing at the end of
    /// the tokens.
    pub fn parse_stmt(&mut self) -> (r: Result<Stmt, CompileError>)
        requires
            old(self).wf(),
        ensures
            final(self).wf(),
            final(self).toks() == old(self).toks(),
            match stmt_at(old(self).toks(), old(self).cursor()) {
                Ok((sv, e)) => r matches Ok(st) && st@ == sv && final(self).cursor() == e,
                Err(x) => r matches Err(err) && err@ == x,
            },
        decreases old(self).toks().len() - old(self).cursor(), 1int,
    {
        if self.is_at_end() {
            return Ok(Stmt::Empty);
        }
        if self.next_is("<") {
            return self.parse_component();
        }
        let k = self.scanner.index;
        if self.scanner.tokens[k].kind == TokenKind::String {
            let text = self.scanner.tokens[k].lexeme.clone();
            self.advance();
            Ok(Stmt::String(text))
        } else {
            let mut message = "Unexpected token ".to_owned();
            message.append(self.scanner.tokens[k].lexeme.as_str());
            Err(self.error_here(message))
        }
    }

    /// Parses `<tag> { children }`; the next token is `<`.
    fn parse_component(&mut self) -> (r: Result<Stmt, CompileError>)
        requires
            old(self).wf(),
            0 <= old(self).cursor() < old(self).toks().len(),
            old(self).toks()[old(self).cursor()].lexeme == "<"@,
        ensures
            final(self).wf(),
            final(self).toks() == old(self).toks(),
            match element_at(old(self).toks(), old(self).cursor()) {
                Ok((sv, e)) => r matches Ok(st) && st@ == sv && final(self).cursor() == e,
                Err(x) => r matches Err(err) && err@ == x,
            },
        decreases old(self).toks().len() - old(self).cursor(), 0int,
    {
        let ghost toks = self.toks();
        let ghost k0 = self.cursor();
        if let Err(e) = self.expect("<") {
            return Err(e);
        }
        let k = self.scanner.index;
        if k >= self.scanner.tokens.len() || self.scanner.tokens[k].kind != TokenKind::Identifier {
            return Err(self.error_here("Expected tag name".to_owned()));
        }
        let tag = self.scanner.tokens[k].lexeme.clone();
        self.advance();
        if let Err(e) = self.expect(">") {
            return Err(e);
        }
        if let Err(e) = self.expect("{") {
            return Err(e);
        }
        let mut children: Vec<Stmt> = Vec::new();
        assert(stmts_view(children@) =~= Seq::<StmtView>::empty());
        assert(after_children(stmts_view(children@), children_at(toks, k0 + 4)) =~= children_at(toks, k0 + 4)) by {
            if let Ok((cs, e)) = children_at(toks, k0 + 4) {
                assert(Seq::<StmtView>::empty() + cs =~= cs);
            }
        }
        loop
            invariant_except_break
                children_at(toks, k0 + 4) == after_children(
                    stmts_view(children@),
                    children_at(toks, self.cursor()),
                ),
            invariant
                self.wf(),
                self.toks() == toks,
                toks == old(self).toks(),
                k0 == old(self).cursor(),
                k0 + 4 <= self.cursor() <= toks.len(),
                tag@ == toks[k0 + 1].lexeme,
                toks[k0 + 1].kind == TokenKind::Identifier,
                toks[k0 + 2].lexeme == ">"@,
                toks[k0 + 3].lexeme == "{"@,
            ensures
                children_at(toks, k0 + 4) == Ok::<(Seq<StmtView>, int), CompileErrorView>(
                    (stmts_view(children@), self.cursor()),
                ),
            decreases toks.len() - self.cursor(),
        {
            if self.is_at_end() {
                let mut message = "Expected '".to_owned();
                message.append("}");
                message.append("'");
                return Err(self.error_here(message));
            }
            if self.match_token("}") {
                assert(stmts_view(children@) + Seq::<StmtView>::empty() =~= stmts_view(children@));
                break;
            }
            let ghost k = self.cursor();
            proof {
                lemma_stmt_at(toks, k);
            }
            let child = match self.parse_stmt() {
                Ok(st) => st,
                Err(e) => {
                    return Err(e);
                },
            };
            let ghost before = stmts_view(children@);
            children.push(child);
            proof {
                assert(stmts_view(children@) =~= before.push(child@));
                if let Ok((rest, e)) = children_at(toks, self.cursor()) {
                    assert(before + (seq![child@] + rest) =~= before.push(child@) + rest);
                }
            }
        }
        let ghost tag_ghost = tag;
        let ghost children_ghost = children;
        let r = Stmt::Element(tag, children);
        proof {
            lemma_element_view(tag_ghost, children_ghost);
        }
        Ok(r)
    }
}

/// Tokenizes and parses a whole source text.
pub fn parse_source(source: String, file_name: String) -> (r: Result<Ast, CompileError>)
    requires
        source@.len() < usize::MAX,
    ensures
        match program_of(source@, file_name@) {
            Ok(ss) => r matches Ok(Ast::Program(v)) && stmts_view(v@) == ss,
            Err(x) => r matches Err(e) && e@ == x,
        },
{
    match Parser::new(source, file_name) {
        Ok(mut parser) => parser.parse(),
        Err(e) => Err(e),
    }
}

} // verus!
