//! The shape of the token streams that the lexer produces: `EOF` once, at
//! the end, and `INDENT`/`DEDENT` tokens nested like brackets.

use vstd::prelude::*;
use crate::text::unicode_whitespace;
use crate::tokenizer::{
    TokenV, Lexer, lex, lex_from, lex_step, lex_token, lex_operator, punctuation, word_token,
    finish_tokens, initial_lexer, close_levels, current_level, dedents, emit, indent_char,
    indent_end, indent_sum, indent_width, is_digit, digits_end, decimal_value, name_start, name_end,
};

verus! {

/// The number of occurrences of token `t` in `ts`.
pub open spec fn count_token(ts: Seq<TokenV>, t: TokenV) -> nat
    decreases ts.len(),
{
    if ts.len() == 0 {
        0
    } else {
        count_token(ts.drop_last(), t) + if ts.last() == t { 1nat } else { 0nat }
    }
}

/// Every prefix of the stream has at most as many dedents as indents: each
/// `DEDENT` closes an `INDENT` before it.
pub open spec fn properly_nested(ts: Seq<TokenV>) -> bool {
    forall|k: int| 0 <= k <= ts.len()
        ==> count_token(#[trigger] ts.take(k), TokenV::Dedent) <= count_token(ts.take(k), TokenV::Indent)
}

/// What the lexer keeps of its state: the bottom level 0 is never closed,
/// one level is open for each indent not yet matched by a dedent, and no
/// `EOF` has been emitted.
pub open spec fn lexer_inv(st: Lexer) -> bool {
    &&& st.indents.len() >= 1
    &&& st.indents[0] == 0
    &&& count_token(st.tokens, TokenV::Indent) == count_token(st.tokens, TokenV::Dedent) + st.indents.len() - 1
    &&& count_token(st.tokens, TokenV::Eof) == 0
    &&& properly_nested(st.tokens)
}

/// A token that is neither `INDENT`, `DEDENT` nor `EOF`.
pub open spec fn plain(t: TokenV) -> bool {
    t != TokenV::Indent && t != TokenV::Dedent && t != TokenV::Eof
}

proof fn lemma_count_push(a: Seq<TokenV>, x: TokenV, t: TokenV)
    ensures
        count_token(a.push(x), t) == count_token(a, t) + if x == t { 1nat } else { 0nat },
{
    assert(a.push(x).drop_last() =~= a);
}

proof fn lemma_count_concat(a: Seq<TokenV>, b: Seq<TokenV>, t: TokenV)
    ensures
        count_token(a + b, t) == count_token(a, t) + count_token(b, t),
    decreases b.len(),
{
    if b.len() == 0 {
        assert(a + b =~= a);
    } else {
        lemma_count_concat(a, b.drop_last(), t);
        assert((a + b).drop_last() =~= a + b.drop_last());
        assert((a + b).last() == b.last());
    }
}

proof fn lemma_count_dedents(n: nat, t: TokenV)
    ensures
        count_token(dedents(n), t) == if t == TokenV::Dedent { n } else { 0 },
    decreases n,
{
    if n > 0 {
        lemma_count_dedents((n - 1) as nat, t);
        assert(dedents(n).drop_last() =~= dedents((n - 1) as nat));
    } else {
        assert(dedents(n) =~= Seq::<TokenV>::empty());
    }
}

proof fn lemma_nested_push(a: Seq<TokenV>, x: TokenV)
    requires
        properly_nested(a),
        x != TokenV::Dedent,
    ensures
        properly_nested(a.push(x)),
{
    assert forall|k: int| 0 <= k <= a.push(x).len() implies count_token(#[trigger] a.push(x).take(k), TokenV::Dedent)
        <= count_token(a.push(x).take(k), TokenV::Indent) by {
        if k <= a.len() {
            assert(a.push(x).take(k) =~= a.take(k));
        } else {
            assert(a.push(x).take(k) =~= a.push(x));
            assert(a.take(a.len() as int) =~= a);
            lemma_count_push(a, x, TokenV::Dedent);
            lemma_count_push(a, x, TokenV::Indent);
        }
    }
}

proof fn lemma_nested_dedents(a: Seq<TokenV>, n: nat)
    requires
        properly_nested(a),
        count_token(a, TokenV::Dedent) + n <= count_token(a, TokenV::Indent),
    ensures
        properly_nested(a + dedents(n)),
{
    let b = a + dedents(n);
    assert forall|k: int| 0 <= k <= b.len() implies count_token(#[trigger] b.take(k), TokenV::Dedent)
        <= count_token(b.take(k), TokenV::Indent) by {
        if k <= a.len() {
            assert(b.take(k) =~= a.take(k));
        } else {
            let j = (k - a.len()) as nat;
            assert(b.take(k) =~= a + dedents(j));
            lemma_count_concat(a, dedents(j), TokenV::Dedent);
            lemma_count_concat(a, dedents(j), TokenV::Indent);
            lemma_count_dedents(j, TokenV::Dedent);
            lemma_count_dedents(j, TokenV::Indent);
        }
    }
}

/// Appending plain tokens keeps the invariant.
proof fn lemma_emit_plain(st: Lexer, t: TokenV)
    requires
        lexer_inv(st),
        plain(t),
    ensures
        lexer_inv(emit(st, t)),
{
    lemma_count_push(st.tokens, t, TokenV::Indent);
    lemma_count_push(st.tokens, t, TokenV::Dedent);
    lemma_count_push(st.tokens, t, TokenV::Eof);
    lemma_nested_push(st.tokens, t);
}

/// Closing levels never closes the bottom one.
proof fn lemma_close_levels(indents: Seq<usize>, level: int)
    requires
        indents.len() >= 1,
        indents[0] <= level,
    ensures
        close_levels(indents, level).0.len() >= 1,
        close_levels(indents, level).0[0] == indents[0],
        close_levels(indents, level).0.len() + close_levels(indents, level).1 == indents.len(),
    decreases indents.len(),
{
    if indents.len() > 0 && indents.last() > level {
        lemma_close_levels(indents.drop_last(), level);
    }
}

/// Closing `n` levels with `n` dedents keeps the invariant.
proof fn lemma_close_inv(st: Lexer, level: int)
    requires
        lexer_inv(st),
        0 <= level,
    ensures
        ({
            let (rest, n) = close_levels(st.indents, level);
            lexer_inv(Lexer { indents: rest, tokens: st.tokens + dedents(n), ..st })
        }),
{
    let (rest, n) = close_levels(st.indents, level);
    lemma_close_levels(st.indents, level);
    lemma_count_concat(st.tokens, dedents(n), TokenV::Indent);
    lemma_count_concat(st.tokens, dedents(n), TokenV::Dedent);
    lemma_count_concat(st.tokens, dedents(n), TokenV::Eof);
    lemma_count_dedents(n, TokenV::Indent);
    lemma_count_dedents(n, TokenV::Dedent);
    lemma_count_dedents(n, TokenV::Eof);
    lemma_nested_dedents(st.tokens, n);
}

proof fn lemma_word_plain(w: Seq<char>)
    ensures
        plain(word_token(w)),
{
}

/// A token lexed after line-start processing is plain.
proof fn lemma_token_inv(cs: Seq<char>, st: Lexer, ch: char)
    requires
        lexer_inv(st),
        lex_token(cs, st, ch) is Ok,
    ensures
        lexer_inv(lex_token(cs, st, ch)->Ok_0),
{
    let start = st.pos - 1;
    if unicode_whitespace(ch) {
    } else if is_digit(ch) {
        let end = digits_end(cs, st.pos);
        let value = decimal_value(cs.subrange(start, end));
        lemma_emit_plain(Lexer { pos: end, ..st }, TokenV::Number(value as i64));
    } else if name_start(ch) {
        let end = name_end(cs, st.pos);
        lemma_word_plain(cs.subrange(start, end));
        lemma_emit_plain(Lexer { pos: end, ..st }, word_token(cs.subrange(start, end)));
    } else {
        let two = Lexer { pos: st.pos + 1, ..st };
        match lex_operator(cs, st, ch) {
            Some(r) => {
                lemma_emit_plain(two, TokenV::LessEq);
                lemma_emit_plain(st, TokenV::Less);
                lemma_emit_plain(two, TokenV::GreaterEq);
                lemma_emit_plain(st, TokenV::Greater);
                lemma_emit_plain(two, TokenV::Eq);
                lemma_emit_plain(st, TokenV::Assign);
                lemma_emit_plain(two, TokenV::NotEq);
                lemma_emit_plain(two, TokenV::RArrow);
                lemma_emit_plain(st, TokenV::Minus);
            },
            None => match punctuation(ch) {
                Some(t) => lemma_emit_plain(st, t),
                None => {},
            },
        }
    }
}

/// One step of the lexer keeps the invariant.
proof fn lemma_step_inv(cs: Seq<char>, st: Lexer)
    requires
        lexer_inv(st),
        0 <= st.pos < cs.len(),
        lex_step(cs, st) is Ok,
    ensures
        lexer_inv(lex_step(cs, st)->Ok_0),
{
    let ch = cs[st.pos];
    let next = Lexer { pos: st.pos + 1, ..st };
    if ch == '\n' {
        lemma_emit_plain(next, TokenV::NewLine);
    } else if st.at_line_start && indent_char(ch) {
        let end = indent_end(cs, next.pos);
        let level = indent_width(ch) + indent_sum(cs, next.pos, end);
        let st1 = Lexer { pos: end, ..next };
        if end >= cs.len() || cs[end] == '\n' {
        } else if level > current_level(st1.indents) {
            let st2 = Lexer {
                indents: st1.indents.push(level as usize),
                tokens: st1.tokens.push(TokenV::Indent),
                at_line_start: false,
                ..st1
            };
            lemma_count_push(st1.tokens, TokenV::Indent, TokenV::Indent);
            lemma_count_push(st1.tokens, TokenV::Indent, TokenV::Dedent);
            lemma_count_push(st1.tokens, TokenV::Indent, TokenV::Eof);
            lemma_nested_push(st1.tokens, TokenV::Indent);
            assert(lexer_inv(st2));
        } else if level < current_level(st1.indents) {
            lemma_close_inv(st1, level as int);
        } else {
        }
    } else {
        let next2 = if st.at_line_start {
            let (rest, n) = close_levels(next.indents, 0);
            lemma_close_inv(next, 0);
            Lexer { indents: rest, tokens: next.tokens + dedents(n), at_line_start: false, ..next }
        } else {
            next
        };
        lemma_token_inv(cs, next2, ch);
    }
}

/// Running the lexer to the end keeps the invariant.
proof fn lemma_lex_from_inv(cs: Seq<char>, st: Lexer)
    requires
        lexer_inv(st),
        lex_from(cs, st) is Ok,
    ensures
        lexer_inv(lex_from(cs, st)->Ok_0),
    decreases cs.len() - st.pos,
{
    if 0 <= st.pos < cs.len() {
        lemma_step_inv(cs, st);
        let next = lex_step(cs, st)->Ok_0;
        if st.pos < next.pos <= cs.len() {
            lemma_lex_from_inv(cs, next);
        }
    }
}

/// Every token stream that the lexer produces ends with `EOF`, holds no
/// other `EOF`, and has its `INDENT` and `DEDENT` tokens nested like
/// brackets: as many of each, and never more dedents than indents before
/// any point of the stream. A stream with more than `EOF` has a `NEWLINE`
/// followed only by the closing `DEDENT`s and `EOF`.
pub proof fn law_token_stream_shape(cs: Seq<char>)
    requires
        lex(cs) is Ok,
    ensures
        ({
            let ts = lex(cs)->Ok_0;
            &&& ts.len() >= 1
            &&& ts.last() == TokenV::Eof
            &&& count_token(ts.drop_last(), TokenV::Eof) == 0
            &&& count_token(ts, TokenV::Indent) == count_token(ts, TokenV::Dedent)
            &&& properly_nested(ts)
            &&& ts.len() > 1 ==> exists|k: int| 0 <= k < ts.len() - 1 && ts[k] == TokenV::NewLine
                && forall|j: int| k < j < ts.len() - 1 ==> ts[j] == TokenV::Dedent
        }),
{
    let st0 = initial_lexer();
    assert(st0.tokens =~= Seq::<TokenV>::empty());
    assert forall|k: int| 0 <= k <= st0.tokens.len() implies count_token(#[trigger] st0.tokens.take(k), TokenV::Dedent)
        <= count_token(st0.tokens.take(k), TokenV::Indent) by {
        assert(st0.tokens.take(k) =~= Seq::<TokenV>::empty());
    }
    assert(lexer_inv(st0));
    lemma_lex_from_inv(cs, st0);
    let st = lex_from(cs, st0)->Ok_0;
    let ts = if st.tokens.len() > 0 && st.tokens.last() != TokenV::NewLine {
        st.tokens.push(TokenV::NewLine)
    } else {
        st.tokens
    };
    let open = if st.indents.len() > 1 { (st.indents.len() - 1) as nat } else { 0 };
    lemma_count_push(st.tokens, TokenV::NewLine, TokenV::Indent);
    lemma_count_push(st.tokens, TokenV::NewLine, TokenV::Dedent);
    lemma_count_push(st.tokens, TokenV::NewLine, TokenV::Eof);
    lemma_nested_push(st.tokens, TokenV::NewLine);
    let body = ts + dedents(open);
    lemma_count_concat(ts, dedents(open), TokenV::Indent);
    lemma_count_concat(ts, dedents(open), TokenV::Dedent);
    lemma_count_concat(ts, dedents(open), TokenV::Eof);
    lemma_count_dedents(open, TokenV::Indent);
    lemma_count_dedents(open, TokenV::Dedent);
    lemma_count_dedents(open, TokenV::Eof);
    lemma_nested_dedents(ts, open);
    let all = body.push(TokenV::Eof);
    assert(all == finish_tokens(st));
    assert(all.drop_last() =~= body);
    lemma_count_push(body, TokenV::Eof, TokenV::Indent);
    lemma_count_push(body, TokenV::Eof, TokenV::Dedent);
    lemma_nested_push(body, TokenV::Eof);
    if st.tokens.len() == 0 {
        assert(st.tokens =~= Seq::<TokenV>::empty());
        assert(open == 0);
        assert(all.len() == 1);
    } else {
        let k = ts.len() - 1;
        assert(ts[k] == TokenV::NewLine);
        assert(all[k] == TokenV::NewLine);
        assert forall|j: int| k < j < all.len() - 1 implies all[j] == TokenV::Dedent by {
            assert(all[j] == dedents(open)[j - ts.len()]);
        }
    }
}

} // verus!
