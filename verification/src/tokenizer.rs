//! The lexer: turns source text into a flat token stream with
//! Python-style `INDENT`/`DEDENT` tokens.

use vstd::prelude::*;
use vstd::string::*;
use crate::text::{
    char_alphabetic, char_alphanumeric, unicode_whitespace, is_alphabetic, is_alphanumeric,
    is_whitespace, push_char, text_of,
};

verus! {

/// A lexical token recognized by the interpreter.
#[derive(Debug, PartialEq, Clone)]
pub enum Token {
    /// An integer literal.
    Number(i64),
    /// The boolean literal `True`.
    True,
    /// The boolean literal `False`.
    False,
    /// The `+` operator.
    Plus,
    /// The `-` operator.
    Minus,
    /// The `*` operator.
    Star,
    /// The `/` operator.
    Slash,
    /// The `==` operator.
    Eq,
    /// The `!=` operator.
    NotEq,
    /// The `>` operator.
    Greater,
    /// The `<` operator.
    Less,
    /// The `>=` operator.
    GreaterEq,
    /// The `<=` operator.
    LessEq,
    /// The `(` delimiter.
    LParen,
    /// The `)` delimiter.
    RParen,
    /// An identifier that is not a keyword.
    Name(String),
    /// The `=` assignment operator.
    Assign,
    /// The `:` delimiter.
    Colon,
    /// The `,` separator.
    Comma,
    /// The `->` return type symbol.
    RArrow,
    /// A logical line terminator.
    NewLine,
    /// An increase in indentation level.
    Indent,
    /// A decrease in indentation level.
    Dedent,
    /// The `if` keyword.
    If,
    /// The `elif` keyword.
    Elif,
    /// The `else` keyword.
    Else,
    /// The `def` keyword.
    Def,
    /// The `return` keyword.
    Return,
    /// End of input.
    Eof,
}

/// A token with the text of a name as characters.
pub enum TokenV {
    Number(i64),
    True,
    False,
    Plus,
    Minus,
    Star,
    Slash,
    Eq,
    NotEq,
    Greater,
    Less,
    GreaterEq,
    LessEq,
    LParen,
    RParen,
    Name(Seq<char>),
    Assign,
    Colon,
    Comma,
    RArrow,
    NewLine,
    Indent,
    Dedent,
    If,
    Elif,
    Else,
    Def,
    Return,
    Eof,
}

impl View for Token {
    type V = TokenV;

    open spec fn view(&self) -> TokenV {
        match self {
            Token::Number(n) => TokenV::Number(*n),
            Token::True => TokenV::True,
            Token::False => TokenV::False,
            Token::Plus => TokenV::Plus,
            Token::Minus => TokenV::Minus,
            Token::Star => TokenV::Star,
            Token::Slash => TokenV::Slash,
            Token::Eq => TokenV::Eq,
            Token::NotEq => TokenV::NotEq,
            Token::Greater => TokenV::Greater,
            Token::Less => TokenV::Less,
            Token::GreaterEq => TokenV::GreaterEq,
            Token::LessEq => TokenV::LessEq,
            Token::LParen => TokenV::LParen,
            Token::RParen => TokenV::RParen,
            Token::Name(s) => TokenV::Name(s@),
            Token::Assign => TokenV::Assign,
            Token::Colon => TokenV::Colon,
            Token::Comma => TokenV::Comma,
            Token::RArrow => TokenV::RArrow,
            Token::NewLine => TokenV::NewLine,
            Token::Indent => TokenV::Indent,
            Token::Dedent => TokenV::Dedent,
            Token::If => TokenV::If,
            Token::Elif => TokenV::Elif,
            Token::Else => TokenV::Else,
            Token::Def => TokenV::Def,
            Token::Return => TokenV::Return,
            Token::Eof => TokenV::Eof,
        }
    }
}

/// A token sequence, names by their characters.
pub open spec fn tokens_view(ts: Seq<Token>) -> Seq<TokenV> {
    ts.map_values(|t: Token| t@)
}

// ---------------------------------------------------------------------------
// Character classes and lexeme extents
// ---------------------------------------------------------------------------

pub open spec fn is_digit(c: char) -> bool {
    '0' <= c && c <= '9'
}

/// A character that can start an identifier.
pub open spec fn name_start(c: char) -> bool {
    char_alphabetic(c) || c == '_'
}

/// A character that can continue an identifier.
pub open spec fn name_continue(c: char) -> bool {
    char_alphanumeric(c) || c == '_'
}

/// Spaces and tabs, the characters that make up indentation.
pub open spec fn indent_char(c: char) -> bool {
    c == ' ' || c == '\t'
}

/// The columns one indentation character advances: four for a tab.
pub open spec fn indent_width(c: char) -> nat {
    if c == '\t' { 4 } else { 1 }
}

/// The end of the run of indentation characters that starts at `i`.
pub open spec fn indent_end(cs: Seq<char>, i: int) -> int
    decreases cs.len() - i,
{
    if 0 <= i < cs.len() && indent_char(cs[i]) { indent_end(cs, i + 1) } else { i }
}

/// The end of the run of decimal digits that starts at `i`.
pub open spec fn digits_end(cs: Seq<char>, i: int) -> int
    decreases cs.len() - i,
{
    if 0 <= i < cs.len() && is_digit(cs[i]) { digits_end(cs, i + 1) } else { i }
}

/// The end of the run of identifier characters that starts at `i`.
pub open spec fn name_end(cs: Seq<char>, i: int) -> int
    decreases cs.len() - i,
{
    if 0 <= i < cs.len() && name_continue(cs[i]) { name_end(cs, i + 1) } else { i }
}

/// The total width of the indentation characters `cs[i..j]`.
pub open spec fn indent_sum(cs: Seq<char>, i: int, j: int) -> nat
    decreases j - i,
{
    if i < j {
        indent_sum(cs, i, j - 1) + indent_width(cs[j - 1])
    } else {
        0
    }
}

/// The value of a string of decimal digits.
pub open spec fn decimal_value(ds: Seq<char>) -> nat
    decreases ds.len(),
{
    if ds.len() == 0 {
        0
    } else {
        decimal_value(ds.drop_last()) * 10 + ((ds.last() as int) - ('0' as int)) as nat
    }
}

/// The keyword token that a word spells, if it is one.
pub open spec fn keyword(w: Seq<char>) -> Option<TokenV> {
    if w == "True"@ {
        Some(TokenV::True)
    } else if w == "False"@ {
        Some(TokenV::False)
    } else if w == "if"@ {
        Some(TokenV::If)
    } else if w == "elif"@ {
        Some(TokenV::Elif)
    } else if w == "else"@ {
        Some(TokenV::Else)
    } else if w == "def"@ {
        Some(TokenV::Def)
    } else if w == "return"@ {
        Some(TokenV::Return)
    } else {
        None
    }
}

/// The token for a word: its keyword, or a name.
pub open spec fn word_token(w: Seq<char>) -> TokenV {
    match keyword(w) {
        Some(t) => t,
        None => TokenV::Name(w),
    }
}

// ---------------------------------------------------------------------------
// The lexer as a state machine over the characters
// ---------------------------------------------------------------------------

/// The state of the lexer: the position of the next character, the tokens
/// so far, the stack of open indentation levels, and whether the next
/// character begins a line.
pub struct Lexer {
    pub pos: int,
    pub tokens: Seq<TokenV>,
    pub indents: Seq<usize>,
    pub at_line_start: bool,
}

pub open spec fn initial_lexer() -> Lexer {
    Lexer { pos: 0, tokens: Seq::empty(), indents: seq![0usize], at_line_start: true }
}

pub open spec fn indentation_error_text() -> Seq<char> {
    "IndentationError: unindent does not match any outer indentation level"@
}

pub open spec fn unknown_token_text(c: char) -> Seq<char> {
    "SyntaxError: unknown token: "@.push(c)
}

pub open spec fn invalid_number_text(t: Seq<char>) -> Seq<char> {
    "SyntaxError: invalid integer literal: "@ + t
}

/// `n` dedent tokens.
pub open spec fn dedents(n: nat) -> Seq<TokenV> {
    Seq::new(n, |i: int| TokenV::Dedent)
}

/// The innermost indentation level (0 for an empty stack).
pub open spec fn current_level(indents: Seq<usize>) -> int {
    if indents.len() == 0 { 0 } else { indents.last() as int }
}

/// Pops every level deeper than `level`; returns the remaining stack and
/// the number of levels popped.
pub open spec fn close_levels(indents: Seq<usize>, level: int) -> (Seq<usize>, nat)
    decreases indents.len(),
{
    if indents.len() > 0 && indents.last() > level {
        let (rest, n) = close_levels(indents.drop_last(), level);
        (rest, n + 1)
    } else {
        (indents, 0)
    }
}

/// Appends a token.
pub open spec fn emit(st: Lexer, t: TokenV) -> Lexer {
    Lexer { tokens: st.tokens.push(t), ..st }
}

/// Indentation at the start of a line; the first space or tab is at
/// `st.pos - 1`, `first` is that character.
pub open spec fn lex_indentation(cs: Seq<char>, st: Lexer, first: char) -> Result<Lexer, Seq<char>> {
    let end = indent_end(cs, st.pos);
    let level = indent_width(first) + indent_sum(cs, st.pos, end);
    let st = Lexer { pos: end, ..st };
    if end >= cs.len() || cs[end] == '\n' {
        Ok(st)
    } else if level > current_level(st.indents) {
        Ok(Lexer {
            indents: st.indents.push(level as usize),
            tokens: st.tokens.push(TokenV::Indent),
            at_line_start: false,
            ..st
        })
    } else if level < current_level(st.indents) {
        let (rest, n) = close_levels(st.indents, level as int);
        if current_level(rest) != level {
            Err(indentation_error_text())
        } else {
            Ok(Lexer { indents: rest, tokens: st.tokens + dedents(n), at_line_start: false, ..st })
        }
    } else {
        Ok(Lexer { at_line_start: false, ..st })
    }
}

/// An operator that may take two characters; `st.pos` is just past `ch`.
/// `None` when `ch` starts no operator.
pub open spec fn lex_operator(cs: Seq<char>, st: Lexer, ch: char) -> Option<Result<Lexer, Seq<char>>> {
    let next_is = |c: char| st.pos < cs.len() && cs[st.pos] == c;
    let two = Lexer { pos: st.pos + 1, ..st };
    if ch == '<' {
        Some(Ok(if next_is('=') { emit(two, TokenV::LessEq) } else { emit(st, TokenV::Less) }))
    } else if ch == '>' {
        Some(Ok(if next_is('=') { emit(two, TokenV::GreaterEq) } else { emit(st, TokenV::Greater) }))
    } else if ch == '=' {
        Some(Ok(if next_is('=') { emit(two, TokenV::Eq) } else { emit(st, TokenV::Assign) }))
    } else if ch == '!' {
        Some(if next_is('=') { Ok(emit(two, TokenV::NotEq)) } else { Err(unknown_token_text(ch)) })
    } else if ch == '-' {
        Some(Ok(if next_is('>') { emit(two, TokenV::RArrow) } else { emit(st, TokenV::Minus) }))
    } else {
        None
    }
}

/// A single-character punctuation token.
pub open spec fn punctuation(ch: char) -> Option<TokenV> {
    if ch == '+' {
        Some(TokenV::Plus)
    } else if ch == '*' {
        Some(TokenV::Star)
    } else if ch == '/' {
        Some(TokenV::Slash)
    } else if ch == '(' {
        Some(TokenV::LParen)
    } else if ch == ')' {
        Some(TokenV::RParen)
    } else if ch == ':' {
        Some(TokenV::Colon)
    } else if ch == ',' {
        Some(TokenV::Comma)
    } else {
        None
    }
}

/// A token that starts with `ch`, the character just before `st.pos`,
/// after line-start processing.
pub open spec fn lex_token(cs: Seq<char>, st: Lexer, ch: char) -> Result<Lexer, Seq<char>> {
    let start = st.pos - 1;
    if unicode_whitespace(ch) {
        Ok(st)
    } else if is_digit(ch) {
        let end = digits_end(cs, st.pos);
        let digits = cs.subrange(start, end);
        let value = decimal_value(digits);
        if value > i64::MAX {
            Err(invalid_number_text(digits))
        } else {
            Ok(emit(Lexer { pos: end, ..st }, TokenV::Number(value as i64)))
        }
    } else if name_start(ch) {
        let end = name_end(cs, st.pos);
        Ok(emit(Lexer { pos: end, ..st }, word_token(cs.subrange(start, end))))
    } else {
        match lex_operator(cs, st, ch) {
            Some(r) => r,
            None => match punctuation(ch) {
                Some(t) => Ok(emit(st, t)),
                None => Err(unknown_token_text(ch)),
            },
        }
    }
}

/// One step of the lexer: consumes the character at `st.pos` and whatever
/// lexeme it starts.
pub open spec fn lex_step(cs: Seq<char>, st: Lexer) -> Result<Lexer, Seq<char>> {
    let ch = cs[st.pos];
    let next = Lexer { pos: st.pos + 1, ..st };
    if ch == '\n' {
        Ok(Lexer { at_line_start: true, ..emit(next, TokenV::NewLine) })
    } else if st.at_line_start && indent_char(ch) {
        lex_indentation(cs, next, ch)
    } else {
        let next = if st.at_line_start {
            let (rest, n) = close_levels(next.indents, 0);
            Lexer { indents: rest, tokens: next.tokens + dedents(n), at_line_start: false, ..next }
        } else {
            next
        };
        lex_token(cs, next, ch)
    }
}

/// Runs the lexer from `st` to the end of the characters.
pub open spec fn lex_from(cs: Seq<char>, st: Lexer) -> Result<Lexer, Seq<char>>
    decreases cs.len() - st.pos,
{
    if 0 <= st.pos < cs.len() {
        match lex_step(cs, st) {
            Ok(next) => if st.pos < next.pos <= cs.len() { lex_from(cs, next) } else { Ok(next) },
            Err(e) => Err(e),
        }
    } else {
        Ok(st)
    }
}

/// The end of input: a final newline if the last token is not one, a dedent
/// for every open indentation level, and `EOF`.
pub open spec fn finish_tokens(st: Lexer) -> Seq<TokenV> {
    let ts = if st.tokens.len() > 0 && st.tokens.last() != TokenV::NewLine {
        st.tokens.push(TokenV::NewLine)
    } else {
        st.tokens
    };
    let open = if st.indents.len() > 1 { (st.indents.len() - 1) as nat } else { 0 };
    (ts + dedents(open)).push(TokenV::Eof)
}

/// The token stream of a source text, or the message of the syntax error
/// that stops the lexer.
pub open spec fn lex(cs: Seq<char>) -> Result<Seq<TokenV>, Seq<char>> {
    match lex_from(cs, initial_lexer()) {
        Ok(st) => Ok(finish_tokens(st)),
        Err(e) => Err(e),
    }
}

// ---------------------------------------------------------------------------
// The executable lexer
// ---------------------------------------------------------------------------

/// Internal lexical analyzer state.
struct Tokenizer {
    chars: Vec<char>,
    pos: usize,
    tokens: Vec<Token>,
    indent_stack: Vec<usize>,
    at_line_start: bool,
}

/// The longest input the lexer accepts: indentation widths, four columns per
/// tab, must stay within `usize`.
pub open spec fn input_fits(cs: Seq<char>) -> bool {
    cs.len() <= usize::MAX / 4
}

impl Tokenizer {
    spec fn state(&self) -> Lexer {
        Lexer {
            pos: self.pos as int,
            tokens: tokens_view(self.tokens@),
            indents: self.indent_stack@,
            at_line_start: self.at_line_start,
        }
    }

    spec fn inv(&self) -> bool {
        &&& self.pos <= self.chars@.len()
        &&& input_fits(self.chars@)
    }

    /// Creates a tokenizer for the given input.
    fn new(input: &str) -> (t: Self)
        requires
            input_fits(input@),
        ensures
            t.inv(),
            t.chars@ == input@,
            t.state() == initial_lexer(),
    {
        let mut chars: Vec<char> = Vec::new();
        for c in it: input.chars()
            invariant
                chars@ == it.seq().take(it.index() as int),
        {
            chars.push(c);
        }
        proof {
            broadcast use vstd::string::group_string_axioms;
        }
        assert(chars@ == input@);
        let t = Tokenizer { chars, pos: 0, tokens: Vec::new(), indent_stack: vec![0], at_line_start: true };
        assert(t.state().tokens =~= Seq::<TokenV>::empty());
        assert(t.state().indents =~= seq![0usize]);
        t
    }

    /// Pushes a token into the output stream.
    fn push(&mut self, token: Token)
        ensures
            final(self).state() == emit(old(self).state(), token@),
            final(self).chars@ == old(self).chars@,
    {
        let ghost before = tokens_view(self.tokens@);
        self.tokens.push(token);
        assert(tokens_view(self.tokens@) =~= before.push(token@));
    }

    /// The innermost indentation level.
    fn current_indent(&self) -> (level: usize)
        ensures
            level == current_level(self.indent_stack@),
    {
        let n = self.indent_stack.len();
        if n == 0 { 0 } else { self.indent_stack[n - 1] }
    }

    /// Pops every indentation level deeper than `level`, emitting a dedent
    /// for each.
    fn close_levels_to(&mut self, level: usize)
        ensures
            final(self).chars@ == old(self).chars@,
            final(self).pos == old(self).pos,
            final(self).at_line_start == old(self).at_line_start,
            final(self).indent_stack@ == close_levels(old(self).indent_stack@, level as int).0,
            final(self).state().tokens == old(self).state().tokens + dedents(close_levels(old(self).indent_stack@, level as int).1),
    {
        let ghost orig = old(self).state();
        let mut popped: usize = 0;
        assert(self.indent_stack.len() as int == orig.indents.len());
        proof {
            assert(self.state().tokens =~= orig.tokens + dedents(0));
        }
        while self.current_indent() > level
            invariant
                self.chars@ == old(self).chars@,
                orig.indents.len() <= usize::MAX,
                self.pos == old(self).pos,
                self.at_line_start == old(self).at_line_start,
                popped <= orig.indents.len(),
                close_levels(orig.indents, level as int).0 == close_levels(self.indent_stack@, level as int).0,
                close_levels(orig.indents, level as int).1 == close_levels(self.indent_stack@, level as int).1 + popped,
                self.state().tokens == orig.tokens + dedents(popped as nat),
                self.indent_stack@.len() + popped == orig.indents.len(),
            decreases self.indent_stack@.len(),
        {
            let ghost stack = self.indent_stack@;
            self.indent_stack.pop();
            assert(self.indent_stack@ == stack.drop_last());
            self.push(Token::Dedent);
            popped = popped + 1;
            assert(orig.tokens + dedents(popped as nat) =~= (orig.tokens + dedents((popped - 1) as nat)).push(TokenV::Dedent));
        }
    }

    /// Handles indentation at the beginning of a logical line; `first` is the
    /// space or tab just consumed.
    fn handle_indentation(&mut self, first: char) -> (r: Result<(), String>)
        requires
            old(self).inv(),
            old(self).pos >= 1,
            indent_char(first),
        ensures
            final(self).inv(),
            final(self).chars@ == old(self).chars@,
            match lex_indentation(old(self).chars@, old(self).state(), first) {
                Ok(st) => r is Ok && final(self).state() == st,
                Err(e) => r matches Err(m) && m@ == e,
            },
            r is Ok ==> old(self).pos <= final(self).pos,
    {
        let ghost cs = self.chars@;
        let ghost p0 = self.pos as int;
        let ghost st0 = self.state();
        let mut level: usize = if first == '\t' { 4 } else { 1 };
        while self.pos < self.chars.len() && (self.chars[self.pos] == ' ' || self.chars[self.pos] == '\t')
            invariant
                self.chars@ == cs,
                input_fits(cs),
                1 <= p0 <= self.pos <= cs.len(),
                indent_end(cs, self.pos as int) == indent_end(cs, p0),
                level == indent_width(first) + indent_sum(cs, p0, self.pos as int),
                level <= 4 * (self.pos - p0 + 1),
                self.state() == (Lexer { pos: self.pos as int, ..st0 }),
            decreases cs.len() - self.pos,
        {
            level = level + if self.chars[self.pos] == '\t' { 4 } else { 1 };
            self.pos = self.pos + 1;
        }
        assert(indent_end(cs, self.pos as int) == self.pos);
        if self.pos >= self.chars.len() || self.chars[self.pos] == '\n' {
            return Ok(());
        }
        let current = self.current_indent();
        if level > current {
            let ghost stack = self.indent_stack@;
            self.indent_stack.push(level);
            self.push(Token::Indent);
        } else if level < current {
            self.close_levels_to(level);
            if self.current_indent() != level {
                return Err(text_of("IndentationError: unindent does not match any outer indentation level"));
            }
        }
        self.at_line_start = false;
        Ok(())
    }

    /// Scans an integer literal whose first digit was just consumed.
    fn scan_number(&mut self, first: char) -> (r: Result<(), String>)
        requires
            old(self).inv(),
            old(self).pos >= 1,
            old(self).chars@[old(self).pos - 1] == first,
            is_digit(first),
        ensures
            final(self).inv(),
            final(self).chars@ == old(self).chars@,
            ({
                let cs = old(self).chars@;
                let st = old(self).state();
                let end = digits_end(cs, st.pos);
                let digits = cs.subrange(st.pos - 1, end);
                if decimal_value(digits) > i64::MAX {
                    r matches Err(m) && m@ == invalid_number_text(digits)
                } else {
                    r is Ok && final(self).state() == emit(Lexer { pos: end, ..st }, TokenV::Number(decimal_value(digits) as i64))
                }
            }),
            r is Ok ==> old(self).pos <= final(self).pos,
    {
        let ghost cs = self.chars@;
        let ghost st0 = self.state();
        let start = self.pos - 1;
        let mut text = String::new();
        push_char(&mut text, first);
        let mut value: i64 = (first as u32 - '0' as u32) as i64;
        let mut overflow = false;
        assert(cs.subrange(start as int, self.pos as int) =~= seq![first]);
        assert(decimal_value(seq![first]) == (first as int) - ('0' as int)) by {
            assert(seq![first].drop_last() =~= Seq::<char>::empty());
            assert(seq![first].last() == first);
            assert(decimal_value(Seq::<char>::empty()) == 0);
        }
        while self.pos < self.chars.len() && is_ascii_digit(self.chars[self.pos])
            invariant
                self.chars@ == cs,
                input_fits(cs),
                start + 1 <= self.pos <= cs.len(),
                start == st0.pos - 1,
                digits_end(cs, self.pos as int) == digits_end(cs, st0.pos),
                text@ == cs.subrange(start as int, self.pos as int),
                !overflow ==> value == decimal_value(text@),
                overflow ==> decimal_value(text@) > i64::MAX,
                self.state() == (Lexer { pos: self.pos as int, ..st0 }),
            decreases cs.len() - self.pos,
        {
            let c = self.chars[self.pos];
            let ghost prev = text@;
            push_char(&mut text, c);
            self.pos = self.pos + 1;
            assert(text@ =~= cs.subrange(start as int, self.pos as int));
            assert(text@.drop_last() =~= prev);
            let d: i64 = (c as u32 - '0' as u32) as i64;
            if !overflow {
                match value.checked_mul(10) {
                    Some(v10) => match v10.checked_add(d) {
                        Some(v) => { value = v; },
                        None => { overflow = true; },
                    },
                    None => { overflow = true; },
                }
            }
        }
        assert(digits_end(cs, self.pos as int) == self.pos);
        if overflow {
            let mut message = text_of("SyntaxError: invalid integer literal: ");
            message.append(text.as_str());
            return Err(message);
        }
        self.push(Token::Number(value));
        Ok(())
    }

    /// Scans an identifier or keyword whose first character was just consumed.
    fn scan_name(&mut self, first: char)
        requires
            old(self).inv(),
            old(self).pos >= 1,
            old(self).chars@[old(self).pos - 1] == first,
        ensures
            final(self).inv(),
            final(self).chars@ == old(self).chars@,
            ({
                let cs = old(self).chars@;
                let st = old(self).state();
                let end = name_end(cs, st.pos);
                final(self).state() == emit(Lexer { pos: end, ..st }, word_token(cs.subrange(st.pos - 1, end)))
            }),
            old(self).pos <= final(self).pos,
    {
        let ghost cs = self.chars@;
        let ghost st0 = self.state();
        let start = self.pos - 1;
        let mut name = String::new();
        push_char(&mut name, first);
        assert(cs.subrange(start as int, self.pos as int) =~= seq![first]);
        while self.pos < self.chars.len() && is_name_continue(self.chars[self.pos])
            invariant
                self.chars@ == cs,
                input_fits(cs),
                start + 1 <= self.pos <= cs.len(),
                start == st0.pos - 1,
                name_end(cs, self.pos as int) == name_end(cs, st0.pos),
                name@ == cs.subrange(start as int, self.pos as int),
                self.state() == (Lexer { pos: self.pos as int, ..st0 }),
            decreases cs.len() - self.pos,
        {
            let c = self.chars[self.pos];
            push_char(&mut name, c);
            self.pos = self.pos + 1;
            assert(name@ =~= cs.subrange(start as int, self.pos as int));
        }
        assert(name_end(cs, self.pos as int) == self.pos);
        match keyword_token(&name) {
            Some(keyword) => self.push(keyword),
            None => self.push(Token::Name(name)),
        }
    }

    /// Consumes the next character and the lexeme it starts.
    fn step(&mut self) -> (r: Result<(), String>)
        requires
            old(self).inv(),
            old(self).pos < old(self).chars@.len(),
        ensures
            final(self).inv(),
            final(self).chars@ == old(self).chars@,
            match lex_step(old(self).chars@, old(self).state()) {
                Ok(st) => r is Ok && final(self).state() == st,
                Err(e) => r matches Err(m) && m@ == e,
            },
            r is Ok ==> old(self).pos < final(self).pos,
    {
        let ch = self.chars[self.pos];
        self.pos = self.pos + 1;
        if ch == '\n' {
            self.push(Token::NewLine);
            self.at_line_start = true;
            return Ok(());
        }
        if self.at_line_start {
            if ch == ' ' || ch == '\t' {
                return self.handle_indentation(ch);
            }
            self.close_levels_to(0);
            self.at_line_start = false;
        }
        if is_whitespace(ch) {
            return Ok(());
        }
        if is_ascii_digit(ch) {
            return self.scan_number(ch);
        }
        if is_name_start(ch) {
            self.scan_name(ch);
            return Ok(());
        }
        match self.scan_operator(ch) {
            Some(r) => r,
            None => self.scan_punctuation(ch),
        }
    }

    /// Runs the lexer over the remaining characters.
    fn tokenize(&mut self) -> (r: Result<(), String>)
        requires
            old(self).inv(),
        ensures
            final(self).inv(),
            final(self).chars@ == old(self).chars@,
            match lex_from(old(self).chars@, old(self).state()) {
                Ok(st) => r is Ok && final(self).state() == st,
                Err(e) => r matches Err(m) && m@ == e,
            },
    {
        let ghost cs = self.chars@;
        let ghost st0 = self.state();
        while self.pos < self.chars.len()
            invariant
                self.inv(),
                self.chars@ == cs,
                cs == old(self).chars@,
                st0 == old(self).state(),
                lex_from(cs, self.state()) == lex_from(cs, st0),
            decreases cs.len() - self.pos,
        {
            match self.step() {
                Ok(()) => {},
                Err(m) => {
                    return Err(m);
                },
            }
        }
        Ok(())
    }

    /// Finalizes the token stream: a trailing newline if needed, a dedent
    /// for every open indentation level, and `EOF`.
    fn finish(&mut self)
        ensures
            tokens_view(final(self).tokens@) == finish_tokens(old(self).state()),
    {
        let ghost st0 = self.state();
        let n = self.tokens.len();
        if n > 0 && !matches!(self.tokens[n - 1], Token::NewLine) {
            self.push(Token::NewLine);
        }
        let ghost ts = self.state().tokens;
        assert(ts == (if st0.tokens.len() > 0 && st0.tokens.last() != TokenV::NewLine {
            st0.tokens.push(TokenV::NewLine)
        } else {
            st0.tokens
        }));
        let mut count: usize = 0;
        assert(ts =~= ts + dedents(0));
        assert(self.indent_stack.len() as int == st0.indents.len());
        while self.indent_stack.len() > 1
            invariant
                self.state().tokens == ts + dedents(count as nat),
                self.indent_stack@.len() + count == st0.indents.len(),
                st0.indents.len() <= usize::MAX,
                st0.indents.len() >= 1 ==> self.indent_stack@.len() >= 1,
            decreases self.indent_stack@.len(),
        {
            self.indent_stack.pop();
            self.push(Token::Dedent);
            count = count + 1;
            assert(ts + dedents(count as nat) =~= (ts + dedents((count - 1) as nat)).push(TokenV::Dedent));
        }
        self.push(Token::Eof);
    }

    /// Tries to scan an operator that starts with `ch`, the character just
    /// consumed.
    fn scan_operator(&mut self, ch: char) -> (r: Option<Result<(), String>>)
        requires
            old(self).inv(),
        ensures
            final(self).inv(),
            final(self).chars@ == old(self).chars@,
            match lex_operator(old(self).chars@, old(self).state(), ch) {
                None => r is None && final(self).state() == old(self).state(),
                Some(Ok(st)) => r == Some(Ok::<(), String>(())) && final(self).state() == st,
                Some(Err(e)) => r matches Some(Err(m)) && m@ == e,
            },
            old(self).pos <= final(self).pos,
    {
        let next = if self.pos < self.chars.len() { self.chars[self.pos] } else { ch };
        let has_next = self.pos < self.chars.len();
        if ch == '<' {
            if has_next && next == '=' {
                self.pos = self.pos + 1;
                self.push(Token::LessEq);
            } else {
                self.push(Token::Less);
            }
            Some(Ok(()))
        } else if ch == '>' {
            if has_next && next == '=' {
                self.pos = self.pos + 1;
                self.push(Token::GreaterEq);
            } else {
                self.push(Token::Greater);
            }
            Some(Ok(()))
        } else if ch == '=' {
            if has_next && next == '=' {
                self.pos = self.pos + 1;
                self.push(Token::Eq);
            } else {
                self.push(Token::Assign);
            }
            Some(Ok(()))
        } else if ch == '!' {
            if has_next && next == '=' {
                self.pos = self.pos + 1;
                self.push(Token::NotEq);
                Some(Ok(()))
            } else {
                Some(Err(unknown_token_message(ch)))
            }
        } else if ch == '-' {
            if has_next && next == '>' {
                self.pos = self.pos + 1;
                self.push(Token::RArrow);
            } else {
                self.push(Token::Minus);
            }
            Some(Ok(()))
        } else {
            None
        }
    }

    /// Scans a single-character punctuation token; unknown characters are
    /// syntax errors.
    fn scan_punctuation(&mut self, ch: char) -> (r: Result<(), String>)
        ensures
            final(self).chars@ == old(self).chars@,
            final(self).pos == old(self).pos,
            match punctuation(ch) {
                Some(t) => r is Ok && final(self).state() == emit(old(self).state(), t),
                None => r matches Err(m) && m@ == unknown_token_text(ch),
            },
    {
        let token = if ch == '+' {
            Token::Plus
        } else if ch == '*' {
            Token::Star
        } else if ch == '/' {
            Token::Slash
        } else if ch == '(' {
            Token::LParen
        } else if ch == ')' {
            Token::RParen
        } else if ch == ':' {
            Token::Colon
        } else if ch == ',' {
            Token::Comma
        } else {
            return Err(unknown_token_message(ch));
        };
        self.push(token);
        Ok(())
    }
}

/// The message for a character that starts no token.
fn unknown_token_message(ch: char) -> (m: String)
    ensures
        m@ == unknown_token_text(ch),
{
    let mut m = text_of("SyntaxError: unknown token: ");
    push_char(&mut m, ch);
    m
}

/// Whether `c` is one of `0` through `9`.
fn is_ascii_digit(c: char) -> (r: bool)
    ensures
        r == is_digit(c),
{
    '0' <= c && c <= '9'
}

/// Whether the character can start an identifier.
fn is_name_start(c: char) -> (r: bool)
    ensures
        r == name_start(c),
{
    is_alphabetic(c) || c == '_'
}

/// Whether the character can continue an identifier.
fn is_name_continue(c: char) -> (r: bool)
    ensures
        r == name_continue(c),
{
    is_alphanumeric(c) || c == '_'
}

/// Whether `s` holds exactly the characters of `t`.
fn same_text(s: &String, t: &str) -> (r: bool)
    ensures
        r == (s@ == t@),
{
    *s == text_of(t)
}

/// Maps an identifier to its keyword token, if it is a keyword.
fn keyword_token(name: &String) -> (r: Option<Token>)
    ensures
        match keyword(name@) {
            Some(t) => r matches Some(k) && k@ == t,
            None => r is None,
        },
{
    if same_text(name, "True") {
        Some(Token::True)
    } else if same_text(name, "False") {
        Some(Token::False)
    } else if same_text(name, "if") {
        Some(Token::If)
    } else if same_text(name, "elif") {
        Some(Token::Elif)
    } else if same_text(name, "else") {
        Some(Token::Else)
    } else if same_text(name, "def") {
        Some(Token::Def)
    } else if same_text(name, "return") {
        Some(Token::Return)
    } else {
        None
    }
}

/// Whether the lexer accepts an input of this length (see `input_fits`).
pub fn input_fits_text(input: &str) -> (r: bool)
    ensures
        r == input_fits(input@),
{
    let n = crate::text::chars_of(input).len();
    n <= usize::MAX / 4
}

/// Tokenizes a string slice, or returns the message of the syntax error
/// that the input holds (an unknown character, an integer literal beyond
/// `i64`, or an unindent to a level that was never opened).
pub fn try_tokenize_str(input: &str) -> (r: Result<Vec<Token>, String>)
    requires
        input_fits(input@),
    ensures
        match r {
            Ok(ts) => lex(input@) == Ok::<Seq<TokenV>, Seq<char>>(tokens_view(ts@)),
            Err(m) => lex(input@) == Err::<Seq<TokenV>, Seq<char>>(m@),
        },
{
    let mut t = Tokenizer::new(input);
    t.tokenize()?;
    t.finish();
    Ok(t.tokens)
}

/// Tokenizes a string slice.
///
/// The input must be free of lexical errors; `try_tokenize_str` reports them.
pub fn tokenize_str(input: &str) -> (ts: Vec<Token>)
    requires
        input_fits(input@),
        lex(input@) is Ok,
    ensures
        lex(input@) == Ok::<Seq<TokenV>, Seq<char>>(tokens_view(ts@)),
{
    match try_tokenize_str(input) {
        Ok(ts) => ts,
        Err(_) => {
            assert(false);
            Vec::new()
        },
    }
}

/// Tokenizes an owned string; see [`tokenize_str`].
pub fn tokenize(input: String) -> (ts: Vec<Token>)
    requires
        input_fits(input@),
        lex(input@) is Ok,
    ensures
        lex(input@) == Ok::<Seq<TokenV>, Seq<char>>(tokens_view(ts@)),
{
    tokenize_str(input.as_str())
}

/// The run of indentation characters from `i` ends at `q` when every
/// character before `q` is one and the one at `q` is not.
proof fn lemma_indent_end_at(cs: Seq<char>, i: int, q: int)
    requires
        0 <= i <= q <= cs.len(),
        forall|k: int| i <= k < q ==> indent_char(#[trigger] cs[k]),
        q == cs.len() || !indent_char(cs[q]),
    ensures
        indent_end(cs, i) == q,
    decreases q - i,
{
    if i < q {
        lemma_indent_end_at(cs, i + 1, q);
    }
}

/// A blank line leaves the indentation alone: at the start of a line, a run
/// of spaces and tabs that ends the line (at a newline or at the end of the
/// text) emits no `INDENT` or `DEDENT` and leaves the stack of levels as it
/// is; lexing goes on exactly as if the run were not there.
pub proof fn law_blank_lines_keep_indentation(cs: Seq<char>, st: Lexer, q: int)
    requires
        st.at_line_start,
        0 <= st.pos < q <= cs.len(),
        forall|k: int| st.pos <= k < q ==> #[trigger] cs[k] == ' ' || cs[k] == '\t',
        q == cs.len() || cs[q] == '\n',
    ensures
        lex_from(cs, st) == lex_from(cs, Lexer { pos: q, ..st }),
{
    let ch = cs[st.pos];
    assert(indent_char(ch));
    let next = Lexer { pos: st.pos + 1, ..st };
    lemma_indent_end_at(cs, st.pos + 1, q);
    assert(lex_indentation(cs, next, ch) == Ok::<Lexer, Seq<char>>(Lexer { pos: q, ..st }));
    assert(lex_step(cs, st) == Ok::<Lexer, Seq<char>>(Lexer { pos: q, ..st }));
}

} // verus!
