use super::token::{
    error_at, CompileError, CompileErrorView, ErrorKind, Location, LocationView, Token, TokenKind,
    TokenView, views_of,
};
use vstd::prelude::*;
use vstd::string::StrSliceExecFns;

verus! {

// ---------------------------------------------------------------------------
// Character classes
// ---------------------------------------------------------------------------

/// The characters with the Unicode White_Space property.
pub open spec fn is_white_space(c: char) -> bool {
    let u = c as u32;
    (0x09 <= u && u <= 0x0d) || u == 0x20 || u == 0x85 || u == 0xa0 || u == 0x1680 || (0x2000
        <= u && u <= 0x200a) || u == 0x2028 || u == 0x2029 || u == 0x202f || u == 0x205f || u
        == 0x3000
}

/// What `char::is_alphanumeric` returns for `c` (Unicode Alphabetic or Numeric).
pub uninterp spec fn alphanumeric(c: char) -> bool;

pub open spec fn is_decimal_digit(c: char) -> bool {
    '0' <= c && c <= '9'
}

pub open spec fn starts_number(c: char) -> bool {
    is_decimal_digit(c) || c == '.'
}

pub open spec fn starts_identifier(c: char) -> bool {
    ('a' <= c && c <= 'z') || ('A' <= c && c <= 'Z') || c == '_'
}

pub open spec fn continues_identifier(c: char) -> bool {
    alphanumeric(c) || c == '_'
}

pub open spec fn is_operator_char(c: char) -> bool {
    c == '+' || c == '-' || c == '*' || c == '/' || c == '%' || c == '=' || c == '!' || c == '<'
        || c == '>'
}

pub open spec fn is_punctuation_char(c: char) -> bool {
    c == '(' || c == ')' || c == '{' || c == '}' || c == '[' || c == ']' || c == ',' || c == ';'
}

pub open spec fn is_quote(c: char) -> bool {
    c == '"' || c == '\''
}

pub open spec fn is_symbol_char(c: char) -> bool {
    c == '@' || c == '#' || c == '$' || c == '?' || c == ':'
}

pub open spec fn is_keyword_spec(w: Seq<char>) -> bool {
    w == "export"@ || w == "true"@ || w == "false"@
}

/// The character an escape sequence `\c` inside a string literal stands for.
pub open spec fn unescape(c: char) -> char {
    if c == 'n' {
        '\n'
    } else if c == 't' {
        '\t'
    } else {
        c
    }
}

/// Relies on `char::is_whitespace`: true exactly for the White_Space characters.
#[verifier::external_body]
fn white_space(c: char) -> (r: bool)
    ensures
        r == is_white_space(c),
{
    c.is_whitespace()
}

/// Relies on `char::is_alphanumeric`, whose result depends on the character alone.
#[verifier::external_body]
fn alphanumeric_char(c: char) -> (r: bool)
    ensures
        r == alphanumeric(c),
{
    c.is_alphanumeric()
}

/// Relies on `String::push`: appends one character at the end.
#[verifier::external_body]
pub(crate) fn push_char(s: &mut String, c: char)
    ensures
        final(s)@ == old(s)@.push(c),
{
    s.push(c)
}

// ---------------------------------------------------------------------------
// The meaning of tokenization, over the characters of the source
// ---------------------------------------------------------------------------

/// Line and column (both one-based) of the character at index `i`.
pub open spec fn line_col(s: Seq<char>, i: int) -> (nat, nat)
    decreases i,
{
    if i <= 0 {
        (1, 1)
    } else {
        let (l, c) = line_col(s, i - 1);
        if s[i - 1] == '\n' {
            (l + 1, 1)
        } else {
            (l, c + 1)
        }
    }
}

pub open spec fn location_at(s: Seq<char>, file: Seq<char>, i: int) -> LocationView {
    LocationView { file, line: line_col(s, i).0, column: line_col(s, i).1 }
}

/// The first index at or after `i` that does not hold white space.
pub open spec fn skip_ws(s: Seq<char>, i: int) -> int
    decreases s.len() - i,
{
    if 0 <= i < s.len() && is_white_space(s[i]) {
        skip_ws(s, i + 1)
    } else {
        i
    }
}

/// The first index at or after `i` that does not hold a decimal digit.
pub open spec fn digits_end(s: Seq<char>, i: int) -> int
    decreases s.len() - i,
{
    if 0 <= i < s.len() && is_decimal_digit(s[i]) {
        digits_end(s, i + 1)
    } else {
        i
    }
}

/// The end of a number literal starting at `i`: digits, then optionally `.` and digits.
pub open spec fn number_end(s: Seq<char>, i: int) -> int {
    let j = digits_end(s, i);
    if 0 <= j < s.len() && s[j] == '.' {
        digits_end(s, j + 1)
    } else {
        j
    }
}

/// The first index at or after `i` that does not continue an identifier.
pub open spec fn identifier_end(s: Seq<char>, i: int) -> int
    decreases s.len() - i,
{
    if 0 <= i < s.len() && continues_identifier(s[i]) {
        identifier_end(s, i + 1)
    } else {
        i
    }
}

/// The body of a string literal closed by `q`, read from index `i` on: its text with
/// escapes resolved and the index just past the closing quote; `None` when the input
/// ends first.
pub open spec fn string_body(s: Seq<char>, q: char, i: int) -> Option<(Seq<char>, int)>
    decreases s.len() - i,
{
    if i < 0 || i >= s.len() {
        None
    } else if s[i] == q {
        Some((Seq::empty(), i + 1))
    } else if s[i] == '\\' {
        if i + 1 >= s.len() {
            None
        } else {
            match string_body(s, q, i + 2) {
                Some((t, e)) => Some((seq![unescape(s[i + 1])] + t, e)),
                None => None,
            }
        }
    } else {
        match string_body(s, q, i + 1) {
            Some((t, e)) => Some((seq![s[i]] + t, e)),
            None => None,
        }
    }
}

pub open spec fn single_char_token(s: Seq<char>, file: Seq<char>, i: int, kind: TokenKind) -> (
    TokenView,
    int,
) {
    (TokenView { kind, lexeme: seq![s[i]], location: location_at(s, file, i) }, i + 1)
}

/// The token that starts at index `i` (a character that is not white space), with the
/// index just past it; `None` for a string literal that is never closed.
pub open spec fn token_at(s: Seq<char>, file: Seq<char>, i: int) -> Option<(TokenView, int)> {
    let c = s[i];
    let loc = location_at(s, file, i);
    if starts_number(c) {
        let e = number_end(s, i);
        Some((TokenView { kind: TokenKind::Number, lexeme: s.subrange(i, e), location: loc }, e))
    } else if starts_identifier(c) {
        let e = identifier_end(s, i + 1);
        let w = s.subrange(i, e);
        let kind = if is_keyword_spec(w) {
            TokenKind::Keyword
        } else {
            TokenKind::Identifier
        };
        Some((TokenView { kind, lexeme: w, location: loc }, e))
    } else if is_operator_char(c) {
        Some(single_char_token(s, file, i, TokenKind::Operator))
    } else if is_punctuation_char(c) {
        Some(single_char_token(s, file, i, TokenKind::Punctuation))
    } else if is_quote(c) {
        match string_body(s, c, i + 1) {
            Some((t, e)) => Some((TokenView { kind: TokenKind::String, lexeme: t, location: loc }, e)),
            None => None,
        }
    } else if is_symbol_char(c) {
        Some(single_char_token(s, file, i, TokenKind::Symbol))
    } else {
        Some(single_char_token(s, file, i, TokenKind::Unknown))
    }
}

/// The tokens of `s` from index `i` on, or the index of the opening quote of a string
/// literal that is never closed.
pub open spec fn tokens_from(s: Seq<char>, file: Seq<char>, i: int) -> Result<Seq<TokenView>, int>
    decreases s.len() - i,
{
    let j = skip_ws(s, i);
    if i < 0 || i >= s.len() || j >= s.len() {
        Ok(Seq::empty())
    } else {
        match token_at(s, file, j) {
            Some((t, e)) => if i < e <= s.len() {
                match tokens_from(s, file, e) {
                    Ok(rest) => Ok(seq![t] + rest),
                    Err(q) => Err(q),
                }
            } else {
                Ok(Seq::empty())
            },
            None => Err(j),
        }
    }
}

/// The tokens of a whole source text.
pub open spec fn tokenize(s: Seq<char>, file: Seq<char>) -> Result<Seq<TokenView>, int> {
    tokens_from(s, file, 0)
}

// ---------------------------------------------------------------------------
// Lemmas
// ---------------------------------------------------------------------------

pub proof fn lemma_subrange_push(s: Seq<char>, a: int, b: int)
    requires
        0 <= a <= b < s.len(),
    ensures
        s.subrange(a, b + 1) == s.subrange(a, b).push(s[b]),
{
    assert(s.subrange(a, b + 1) =~= s.subrange(a, b).push(s[b]));
}

/// `r` with `p` put in front of the text it holds.
pub open spec fn prefixed(p: Seq<char>, r: Option<(Seq<char>, int)>) -> Option<(Seq<char>, int)> {
    match r {
        Some((t, e)) => Some((p + t, e)),
        None => None,
    }
}

pub proof fn lemma_prefixed(a: Seq<char>, c: char, r: Option<(Seq<char>, int)>)
    ensures
        prefixed(a, prefixed(seq![c], r)) == prefixed(a.push(c), r),
{
    if let Some((t, e)) = r {
        assert(a + (seq![c] + t) =~= a.push(c) + t);
    }
}

pub proof fn lemma_line_col_bound(s: Seq<char>, i: int)
    requires
        i >= 0,
    ensures
        1 <= line_col(s, i).0 <= i + 1,
        1 <= line_col(s, i).1 <= i + 1,
    decreases i,
{
    if i > 0 {
        lemma_line_col_bound(s, i - 1);
    }
}

pub proof fn lemma_skip_ws(s: Seq<char>, i: int)
    requires
        0 <= i <= s.len(),
    ensures
        i <= skip_ws(s, i) <= s.len(),
        skip_ws(s, i) < s.len() ==> !is_white_space(s[skip_ws(s, i)]),
    decreases s.len() - i,
{
    if i < s.len() && is_white_space(s[i]) {
        lemma_skip_ws(s, i + 1);
    }
}

pub proof fn lemma_digits_end(s: Seq<char>, i: int)
    requires
        0 <= i <= s.len(),
    ensures
        i <= digits_end(s, i) <= s.len(),
    decreases s.len() - i,
{
    if i < s.len() && is_decimal_digit(s[i]) {
        lemma_digits_end(s, i + 1);
    }
}

pub proof fn lemma_identifier_end(s: Seq<char>, i: int)
    requires
        0 <= i <= s.len(),
    ensures
        i <= identifier_end(s, i) <= s.len(),
    decreases s.len() - i,
{
    if i < s.len() && continues_identifier(s[i]) {
        lemma_identifier_end(s, i + 1);
    }
}

pub proof fn lemma_string_body(s: Seq<char>, q: char, i: int)
    ensures
        string_body(s, q, i) matches Some((t, e)) ==> i < e <= s.len(),
    decreases s.len() - i,
{
    if 0 <= i < s.len() && s[i] != q {
        if s[i] == '\\' {
            if i + 1 < s.len() {
                lemma_string_body(s, q, i + 2);
            }
        } else {
            lemma_string_body(s, q, i + 1);
        }
    }
}

/// A token always covers at least one character and ends within the source.
pub proof fn lemma_token_at(s: Seq<char>, file: Seq<char>, i: int)
    requires
        0 <= i < s.len(),
    ensures
        token_at(s, file, i) matches Some((t, e)) ==> i < e <= s.len(),
{
    let c = s[i];
    if starts_number(c) {
        lemma_digits_end(s, i);
        lemma_digits_end(s, i + 1);
        let j = digits_end(s, i);
        if j < s.len() && s[j] == '.' {
            lemma_digits_end(s, j + 1);
        }
    } else if starts_identifier(c) {
        lemma_identifier_end(s, i + 1);
    } else if is_quote(c) {
        lemma_string_body(s, c, i + 1);
    }
}

proof fn lemma_skip_all_white_space(s: Seq<char>, i: int)
    requires
        0 <= i <= s.len(),
        forall|k: int| 0 <= k < s.len() ==> is_white_space(#[trigger] s[k]),
    ensures
        skip_ws(s, i) == s.len(),
    decreases s.len() - i,
{
    if i < s.len() {
        lemma_skip_all_white_space(s, i + 1);
    }
}

/// A source text made only of white space has no tokens at all: the end-of-input
/// token is not part of the result.
pub proof fn lemma_white_space_has_no_tokens(s: Seq<char>, file: Seq<char>)
    requires
        forall|k: int| 0 <= k < s.len() ==> is_white_space(#[trigger] s[k]),
    ensures
        tokenize(s, file) == Ok::<Seq<TokenView>, int>(Seq::empty()),
{
    lemma_skip_all_white_space(s, 0);
}

/// The diagnostic for a string literal, opened at index `q`, that is never closed.
pub open spec fn unterminated_string_error(s: Seq<char>, file: Seq<char>, q: int) -> CompileErrorView {
    error_at(ErrorKind::Lexical, location_at(s, file, q), "Unterminated string"@)
}

/// The end-of-input token of `s`.
pub open spec fn eof_token(s: Seq<char>, file: Seq<char>) -> TokenView {
    TokenView { kind: TokenKind::Eof, lexeme: "Eof"@, location: location_at(s, file, s.len() as int) }
}

/// `r` with the tokens `p` put in front.
pub open spec fn after(p: Seq<TokenView>, r: Result<Seq<TokenView>, int>) -> Result<Seq<TokenView>, int> {
    match r {
        Ok(ts) => Ok(p + ts),
        Err(q) => Err(q),
    }
}

// ---------------------------------------------------------------------------
// The lexer
// ---------------------------------------------------------------------------

/// A cursor over the characters of one source file.
pub struct Lexer {
    pub tokens: Vec<Token>,
    pub source: String,
    pub file_name: String,
    pub index: usize,
    pub line: usize,
    pub column: usize,
}

impl Lexer {
    /// The cursor stands within the source, and `line` and `column` give its place.
    pub open spec fn wf(&self) -> bool {
        &&& self.source@.len() < usize::MAX
        &&& self.index <= self.source@.len()
        &&& (self.line as nat, self.column as nat) == line_col(self.source@, self.index as int)
    }

    /// The location of the cursor.
    pub open spec fn here(&self) -> LocationView {
        location_at(self.source@, self.file_name@, self.index as int)
    }

    /// Everything but the cursor is as in `other`.
    pub open spec fn same_input(&self, other: &Lexer) -> bool {
        &&& self.source@ == other.source@
        &&& self.file_name@ == other.file_name@
        &&& self.tokens@ == other.tokens@
    }

    pub fn new(source: String, file_name: String) -> (r: Lexer)
        requires
            source@.len() < usize::MAX,
        ensures
            r.wf(),
            r.index == 0,
            r.tokens@.len() == 0,
            r.source@ == source@,
            r.file_name@ == file_name@,
    {
        Lexer { tokens: Vec::new(), source, index: 0, line: 1, column: 1, file_name }
    }

    fn location(&self) -> (r: Location)
        requires
            self.wf(),
        ensures
            r@ == self.here(),
    {
        Location { line: self.line, column: self.column, file: self.file_name.clone() }
    }

    fn at_end(&self) -> (r: bool)
        ensures
            r == (self.index >= self.source@.len()),
    {
        self.index >= self.source.as_str().unicode_len()
    }

    /// The character under the cursor, or `'\0'` past the end.
    pub fn peek(&self) -> (r: char)
        ensures
            r == if self.index < self.source@.len() {
                self.source@[self.index as int]
            } else {
                '\0'
            },
    {
        if self.index < self.source.as_str().unicode_len() {
            self.source.as_str().get_char(self.index)
        } else {
            '\0'
        }
    }

    /// Skips white space and reads the next token; at the end of the input, the
    /// end-of-input token.
    pub fn next_token(&mut self) -> (r: Result<Token, CompileError>)
        requires
            old(self).wf(),
        ensures
            final(self).wf(),
            final(self).same_input(old(self)),
            ({
                let s = old(self).source@;
                let f = old(self).file_name@;
                let j = skip_ws(s, old(self).index as int);
                if j >= s.len() {
                    r matches Ok(t) && t@ == eof_token(s, f) && final(self).index == s.len()
                } else {
                    match token_at(s, f, j) {
                        Some((tv, e)) => r matches Ok(t) && t@ == tv && final(self).index == e,
                        None => r matches Err(err) && err@ == unterminated_string_error(s, f, j),
                    }
                }
            }),
    {
        proof {
            lemma_skip_ws(self.source@, self.index as int);
        }
        self.skip_whitespace();
        if self.at_end() {
            return Ok(Token { kind: TokenKind::Eof, lexeme: "Eof".to_owned(), location: self.location() });
        }
        let c = self.peek();
        if ('0' <= c && c <= '9') || c == '.' {
            Ok(self.lex_number())
        } else if ('a' <= c && c <= 'z') || ('A' <= c && c <= 'Z') || c == '_' {
            Ok(self.lex_identifier())
        } else if c == '+' || c == '-' || c == '*' || c == '/' || c == '%' || c == '=' || c == '!'
            || c == '<' || c == '>' {
            Ok(self.lex_operator())
        } else if c == '(' || c == ')' || c == '{' || c == '}' || c == '[' || c == ']' || c == ','
            || c == ';' {
            Ok(self.lex_punctuation())
        } else if c == '"' || c == '\'' {
            self.lex_string()
        } else if c == '@' || c == '#' || c == '$' || c == '?' || c == ':' {
            Ok(self.lex_symbol())
        } else {
            Ok(self.lex_unknown())
        }
    }

    /// Moves the cursor past one character, keeping line and column up to date.
    pub fn advance(&mut self)
        requires
            old(self).wf(),
            old(self).index < old(self).source@.len(),
        ensures
            final(self).wf(),
            final(self).same_input(old(self)),
            final(self).index == old(self).index + 1,
    {
        proof {
            lemma_line_col_bound(self.source@, self.index as int);
        }
        if self.peek() == '\n' {
            self.line = self.line + 1;
            self.column = 1;
        } else {
            self.column = self.column + 1;
        }
        self.index = self.index + 1;
    }

    pub fn skip_whitespace(&mut self)
        requires
            old(self).wf(),
        ensures
            final(self).wf(),
            final(self).same_input(old(self)),
            final(self).index == skip_ws(old(self).source@, old(self).index as int),
    {
        while white_space(self.peek())
            invariant
                self.wf(),
                self.same_input(old(self)),
                skip_ws(self.source@, self.index as int) == skip_ws(
                    old(self).source@,
                    old(self).index as int,
                ),
            decreases self.source@.len() - self.index,
        {
            self.advance();
        }
    }

    fn lex_single(&mut self, kind: TokenKind) -> (r: Token)
        requires
            old(self).wf(),
            old(self).index < old(self).source@.len(),
        ensures
            final(self).wf(),
            final(self).same_input(old(self)),
            (r@, final(self).index as int) == single_char_token(
                old(self).source@,
                old(self).file_name@,
                old(self).index as int,
                kind,
            ),
    {
        let location = self.location();
        let c = self.peek();
        self.advance();
        let mut lexeme = String::new();
        push_char(&mut lexeme, c);
        assert(lexeme@ =~= seq![c]);
        Token { kind, lexeme, location }
    }

    pub fn lex_symbol(&mut self) -> (r: Token)
        requires
            old(self).wf(),
            old(self).index < old(self).source@.len(),
        ensures
            final(self).wf(),
            final(self).same_input(old(self)),
            (r@, final(self).index as int) == single_char_token(
                old(self).source@,
                old(self).file_name@,
                old(self).index as int,
                TokenKind::Symbol,
            ),
    {
        self.lex_single(TokenKind::Symbol)
    }

    pub fn lex_unknown(&mut self) -> (r: Token)
        requires
            old(self).wf(),
            old(self).index < old(self).source@.len(),
        ensures
            final(self).wf(),
            final(self).same_input(old(self)),
            (r@, final(self).index as int) == single_char_token(
                old(self).source@,
                old(self).file_name@,
                old(self).index as int,
                TokenKind::Unknown,
            ),
    {
        self.lex_single(TokenKind::Unknown)
    }

    pub fn lex_punctuation(&mut self) -> (r: Token)
        requires
            old(self).wf(),
            old(self).index < old(self).source@.len(),
        ensures
            final(self).wf(),
            final(self).same_input(old(self)),
            (r@, final(self).index as int) == single_char_token(
                old(self).source@,
                old(self).file_name@,
                old(self).index as int,
                TokenKind::Punctuation,
            ),
    {
        self.lex_single(TokenKind::Punctuation)
    }

    pub fn lex_operator(&mut self) -> (r: Token)
        requires
            old(self).wf(),
            old(self).index < old(self).source@.len(),
        ensures
            final(self).wf(),
            final(self).same_input(old(self)),
            (r@, final(self).index as int) == single_char_token(
                old(self).source@,
                old(self).file_name@,
                old(self).index as int,
                TokenKind::Operator,
            ),
    {
        self.lex_single(TokenKind::Operator)
    }

    /// Appends decimal digits under the cursor to `lexeme`.
    fn take_digits(&mut self, lexeme: &mut String)
        requires
            old(self).wf(),
        ensures
            final(self).wf(),
            final(self).same_input(old(self)),
            final(self).index == digits_end(old(self).source@, old(self).index as int),
            final(self).index >= old(self).index,
            final(lexeme)@ == old(lexeme)@ + old(self).source@.subrange(
                old(self).index as int,
                final(self).index as int,
            ),
    {
        let ghost start = self.index as int;
        while '0' <= self.peek() && self.peek() <= '9'
            invariant
                self.wf(),
                self.same_input(old(self)),
                start == old(self).index,
                start <= self.index,
                digits_end(self.source@, self.index as int) == digits_end(self.source@, start),
                lexeme@ == old(lexeme)@ + self.source@.subrange(start, self.index as int),
            decreases self.source@.len() - self.index,
        {
            let c = self.peek();
            let ghost i = self.index as int;
            push_char(lexeme, c);
            proof {
                lemma_subrange_push(self.source@, start, i);
            }
            self.advance();
            assert(lexeme@ =~= old(lexeme)@ + self.source@.subrange(start, self.index as int));
        }
    }

    pub fn lex_number(&mut self) -> (r: Token)
        requires
            old(self).wf(),
        ensures
            final(self).wf(),
            final(self).same_input(old(self)),
            final(self).index == number_end(old(self).source@, old(self).index as int),
            r@ == (TokenView {
                kind: TokenKind::Number,
                lexeme: old(self).source@.subrange(old(self).index as int, final(self).index as int),
                location: old(self).here(),
            }),
    {
        let location = self.location();
        let ghost start = self.index as int;
        let mut lexeme = String::new();
        self.take_digits(&mut lexeme);
        if self.peek() == '.' {
            let ghost j = self.index as int;
            push_char(&mut lexeme, '.');
            proof {
                lemma_subrange_push(self.source@, start, j);
            }
            self.advance();
            self.take_digits(&mut lexeme);
            assert(self.source@.subrange(start, j + 1) + self.source@.subrange(
                j + 1,
                self.index as int,
            ) =~= self.source@.subrange(start, self.index as int));
        }
        assert(lexeme@ =~= self.source@.subrange(start, self.index as int));
        Token { kind: TokenKind::Number, lexeme, location }
    }

    pub fn lex_identifier(&mut self) -> (r: Token)
        requires
            old(self).wf(),
            old(self).index < old(self).source@.len(),
        ensures
            final(self).wf(),
            final(self).same_input(old(self)),
            ({
                let s = old(self).source@;
                let i = old(self).index as int;
                let w = s.subrange(i, final(self).index as int);
                &&& final(self).index == identifier_end(s, i + 1)
                &&& r@ == (TokenView {
                    kind: if is_keyword_spec(w) {
                        TokenKind::Keyword
                    } else {
                        TokenKind::Identifier
                    },
                    lexeme: w,
                    location: old(self).here(),
                })
            }),
    {
        let location = self.location();
        let ghost start = self.index as int;
        let mut lexeme = String::new();
        let first = self.peek();
        push_char(&mut lexeme, first);
        self.advance();
        while !self.at_end() && (alphanumeric_char(self.peek()) || self.peek() == '_')
            invariant
                self.wf(),
                self.same_input(old(self)),
                start == old(self).index,
                start < self.index,
                identifier_end(self.source@, self.index as int) == identifier_end(
                    self.source@,
                    start + 1,
                ),
                lexeme@ == self.source@.subrange(start, self.index as int),
            decreases self.source@.len() - self.index,
        {
            let c = self.peek();
            push_char(&mut lexeme, c);
            self.advance();
            assert(lexeme@ =~= self.source@.subrange(start, self.index as int));
        }
        if self.is_keyword(lexeme.as_str()) {
            Token { kind: TokenKind::Keyword, lexeme, location }
        } else {
            Token { kind: TokenKind::Identifier, lexeme, location }
        }
    }

    pub fn lex_string(&mut self) -> (r: Result<Token, CompileError>)
        requires
            old(self).wf(),
            old(self).index < old(self).source@.len(),
        ensures
            final(self).wf(),
            final(self).same_input(old(self)),
            ({
                let s = old(self).source@;
                let i = old(self).index as int;
                match string_body(s, s[i], i + 1) {
                    Some((t, e)) => r matches Ok(tok) && final(self).index == e && tok@ == (
                    TokenView { kind: TokenKind::String, lexeme: t, location: old(self).here() }),
                    None => r matches Err(err) && err@ == unterminated_string_error(
                        s,
                        old(self).file_name@,
                        i,
                    ),
                }
            }),
    {
        let location = self.location();
        let ghost s = self.source@;
        let ghost start = self.index as int;
        let quote = self.peek();
        self.advance();
        let mut lexeme = String::new();
        assert(lexeme@ + s.subrange(0, 0) =~= Seq::<char>::empty());
        loop
            invariant
                self.wf(),
                self.same_input(old(self)),
                s == self.source@,
                start == old(self).index,
                quote == s[start],
                location@ == old(self).here(),
                start < self.index,
                string_body(s, quote, start + 1) == prefixed(
                    lexeme@,
                    string_body(s, quote, self.index as int),
                ),
            ensures
                self.index < s.len(),
                s[self.index as int] == quote,
            decreases s.len() - self.index,
        {
            if self.at_end() {
                assert(string_body(s, quote, self.index as int) is None);
                return Err(CompileError::at(ErrorKind::Lexical, &location, "Unterminated string".to_owned()));
            }
            let c = self.peek();
            if c == quote {
                break;
            }
            let ghost idx = self.index as int;
            self.advance();
            if c == '\\' {
                if self.at_end() {
                    assert(string_body(s, quote, idx) is None);
                    return Err(CompileError::at(ErrorKind::Lexical, &location, "Unterminated string".to_owned()));
                }
                let e = self.peek();
                self.advance();
                let d = if e == 'n' {
                    '\n'
                } else if e == 't' {
                    '\t'
                } else {
                    e
                };
                proof {
                    lemma_prefixed(lexeme@, d, string_body(s, quote, self.index as int));
                }
                push_char(&mut lexeme, d);
            } else {
                proof {
                    lemma_prefixed(lexeme@, c, string_body(s, quote, self.index as int));
                }
                push_char(&mut lexeme, c);
            }
        }
        self.advance();
        assert(lexeme@ + Seq::<char>::empty() =~= lexeme@);
        Ok(Token { kind: TokenKind::String, lexeme, location })
    }

    pub fn is_keyword(&self, lexeme: &str) -> (r: bool)
        ensures
            r == is_keyword_spec(lexeme@),
    {
        let w = lexeme.to_owned();
        w == "export".to_owned() || w == "true".to_owned() || w == "false".to_owned()
    }
}

/// Tokenizes a whole source text. White space separates tokens and is dropped; the
/// end-of-input token is not part of the result.
pub fn lex(source: String, file_name: String) -> (r: Result<Vec<Token>, CompileError>)
    requires
        source@.len() < usize::MAX,
    ensures
        match tokenize(source@, file_name@) {
            Ok(ts) => r matches Ok(v) && views_of(v@) == ts,
            Err(q) => r matches Err(e) && e@ == unterminated_string_error(source@, file_name@, q),
        },
{
    let ghost s = source@;
    let ghost f = file_name@;
    let mut lexer = Lexer::new(source, file_name);
    let mut tokens: Vec<Token> = Vec::new();
    loop
        invariant
            lexer.wf(),
            lexer.source@ == s,
            lexer.file_name@ == f,
            s == source@,
            f == file_name@,
            tokenize(s, f) == after(views_of(tokens@), tokens_from(s, f, lexer.index as int)),
        decreases s.len() - lexer.index,
    {
        let ghost i = lexer.index as int;
        proof {
            lemma_skip_ws(s, i);
            if skip_ws(s, i) < s.len() {
                lemma_token_at(s, f, skip_ws(s, i));
            }
        }
        let token = match lexer.next_token() {
            Ok(t) => t,
            Err(e) => {
                assert(tokens_from(s, f, i) == Err::<Seq<TokenView>, int>(skip_ws(s, i)));
                return Err(e);
            },
        };
        if token.kind == TokenKind::Eof {
            assert(tokens_from(s, f, i) == Ok::<Seq<TokenView>, int>(Seq::empty()));
            assert(views_of(tokens@) + Seq::<TokenView>::empty() =~= views_of(tokens@));
            return Ok(tokens);
        }
        let ghost before = views_of(tokens@);
        tokens.push(token);
        proof {
            assert(views_of(tokens@) =~= before.push(token@));
            match tokens_from(s, f, lexer.index as int) {
                Ok(rest) => {
                    assert(before + (seq![token@] + rest) =~= before.push(token@) + rest);
                },
                Err(_) => {},
            }
        }
    }
}

} // verus!
