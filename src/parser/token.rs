use vstd::prelude::*;

verus! {

/// A position in a source file: the file's name and a one-based line and column.
#[derive(Debug, Clone, PartialEq, Eq)]
pub struct Location {
    pub file: String,
    pub line: usize,
    pub column: usize,
}

/// The class of a lexical token.
#[derive(Debug, Clone, Copy, PartialEq, Eq, Structural)]
pub enum TokenKind {
    Unknown,
    Eof,
    Number,
    String,
    Identifier,
    Operator,
    Keyword,
    Punctuation,
    Symbol,
}

/// A classified lexical unit together with the place where it starts.
#[derive(Debug, Clone, PartialEq, Eq)]
pub struct Token {
    pub kind: TokenKind,
    pub lexeme: String,
    pub location: Location,
}

/// The two classes of fatal diagnostics.
#[derive(Debug, Clone, Copy, PartialEq, Eq, Structural)]
pub enum ErrorKind {
    /// An unterminated string literal.
    Lexical,
    /// A construct the grammar does not accept.
    Syntax,
}

/// A fatal diagnostic: where it was found and what went wrong.
/// `column` is absent for diagnostics that only name a line.
#[derive(Debug, Clone, PartialEq, Eq)]
pub struct CompileError {
    pub kind: ErrorKind,
    pub file: String,
    pub line: usize,
    pub column: Option<usize>,
    pub message: String,
}

/// The mathematical value of a `Location`.
pub ghost struct LocationView {
    pub file: Seq<char>,
    pub line: nat,
    pub column: nat,
}

/// The mathematical value of a `Token`.
pub ghost struct TokenView {
    pub kind: TokenKind,
    pub lexeme: Seq<char>,
    pub location: LocationView,
}

impl View for Location {
    type V = LocationView;

    open spec fn view(&self) -> LocationView {
        LocationView { file: self.file@, line: self.line as nat, column: self.column as nat }
    }
}

impl View for Token {
    type V = TokenView;

    open spec fn view(&self) -> TokenView {
        TokenView { kind: self.kind, lexeme: self.lexeme@, location: self.location@ }
    }
}

/// The mathematical value of a `CompileError`.
pub ghost struct CompileErrorView {
    pub kind: ErrorKind,
    pub file: Seq<char>,
    pub line: nat,
    pub column: Option<nat>,
    pub message: Seq<char>,
}

impl View for CompileError {
    type V = CompileErrorView;

    open spec fn view(&self) -> CompileErrorView {
        CompileErrorView {
            kind: self.kind,
            file: self.file@,
            line: self.line as nat,
            column: match self.column {
                Some(c) => Some(c as nat),
                None => None,
            },
            message: self.message@,
        }
    }
}

/// The diagnostic for a problem found at `loc`.
pub open spec fn error_at(kind: ErrorKind, loc: LocationView, message: Seq<char>) -> CompileErrorView {
    CompileErrorView { kind, file: loc.file, line: loc.line, column: Some(loc.column), message }
}

impl Token {
    /// A copy of this token.
    pub(crate) fn duplicate(&self) -> (r: Token)
        ensures
            r@ == self@,
    {
        Token {
            kind: self.kind,
            lexeme: self.lexeme.clone(),
            location: Location {
                file: self.location.file.clone(),
                line: self.location.line,
                column: self.location.column,
            },
        }
    }
}

impl CompileError {
    /// The diagnostic of the given kind for a problem found at `location`.
    pub fn at(kind: ErrorKind, location: &Location, message: String) -> (r: CompileError)
        ensures
            r@ == error_at(kind, location@, message@),
    {
        CompileError {
            kind,
            file: location.file.clone(),
            line: location.line,
            column: Some(location.column),
            message,
        }
    }
}

/// The views of a sequence of tokens.
pub open spec fn views_of(tokens: Seq<Token>) -> Seq<TokenView> {
    tokens.map_values(|t: Token| t@)
}

} // verus!
