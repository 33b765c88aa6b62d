use super::lexer::{lex, tokenize, unterminated_string_error};
use super::token::{views_of, CompileError, Token, TokenView};
use vstd::prelude::*;

verus! {

/// A cursor over the tokens of one source file.
pub struct Scanner {
    pub tokens: Vec<Token>,
    pub index: usize,
}

impl Scanner {
    pub open spec fn wf(&self) -> bool {
        self.index <= self.tokens@.len()
    }

    /// The views of the tokens.
    pub open spec fn toks(&self) -> Seq<TokenView> {
        views_of(self.tokens@)
    }

    /// Tokenizes `source` and places the cursor on the first token.
    pub fn new(source: String, file_name: String) -> (r: Result<Scanner, CompileError>)
        requires
            source@.len() < usize::MAX,
        ensures
            match tokenize(source@, file_name@) {
                Ok(ts) => r matches Ok(sc) && sc.wf() && sc.toks() == ts && sc.index == 0,
                Err(q) => r matches Err(e) && e@ == unterminated_string_error(
                    source@,
                    file_name@,
                    q,
                ),
            },
    {
        match lex(source, file_name) {
            Ok(tokens) => Ok(Scanner { tokens, index: 0 }),
            Err(e) => Err(e),
        }
    }

    /// The token under the cursor, if any.
    pub fn peek(&self) -> (r: Option<Token>)
        requires
            self.wf(),
        ensures
            match r {
                Some(t) => self.index < self.tokens@.len() && t@ == self.toks()[self.index as int],
                None => self.index >= self.tokens@.len(),
            },
    {
        if self.index < self.tokens.len() {
            Some(self.tokens[self.index].duplicate())
        } else {
            None
        }
    }

    /// Moves the cursor to the next token; past the last one it stays at the end.
    pub fn advance(&mut self)
        requires
            old(self).wf(),
        ensures
            final(self).wf(),
            final(self).tokens == old(self).tokens,
            final(self).index == if old(self).index < old(self).tokens@.len() {
                old(self).index + 1
            } else {
                old(self).index as int
            },
    {
        if self.index < self.tokens.len() {
            self.index = self.index + 1;
        }
    }

    pub fn is_at_end(&self) -> (r: bool)
        ensures
            r == (self.index >= self.tokens@.len()),
    {
        self.index >= self.tokens.len()
    }
}

} // verus!
