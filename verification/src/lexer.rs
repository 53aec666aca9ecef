//! Turning source text into tokens.
//!
//! `scan` splits the text into raw tokens, stopping at the first character
//! that starts no token. `lex` then drops comments and turns line breaks
//! into statement separators: a line break becomes a `;` when the previous
//! token can end a statement and the next one cannot continue it.
use vstd::prelude::*;

use crate::token::{kind_spelling, tokens_model, LexerError, Span, Token, TokenKind, TokenModel};
use vstd::utf8::{encode_scalar, encode_utf8};

verus! {

broadcast use {vstd::seq::group_seq_axioms, vstd::std_specs::vec::group_vec_axioms};

pub open spec fn is_digit(c: char) -> bool {
    '0' <= c && c <= '9'
}

pub open spec fn is_ident_start(c: char) -> bool {
    ('a' <= c && c <= 'z') || ('A' <= c && c <= 'Z') || c == '_'
}

pub open spec fn is_ident_char(c: char) -> bool {
    is_ident_start(c) || is_digit(c)
}

/// The end of the run of identifier characters that starts at `p`.
pub open spec fn word_end(s: Seq<char>, p: int) -> int
    decreases s.len() - p,
{
    if 0 <= p < s.len() && is_ident_char(s[p]) {
        word_end(s, p + 1)
    } else {
        p
    }
}

/// The end of the run of digits that starts at `p`.
pub open spec fn digits_end(s: Seq<char>, p: int) -> int
    decreases s.len() - p,
{
    if 0 <= p < s.len() && is_digit(s[p]) {
        digits_end(s, p + 1)
    } else {
        p
    }
}

/// The position of the first line break at or after `p`, or the end.
pub open spec fn line_end(s: Seq<char>, p: int) -> int
    decreases s.len() - p,
{
    if 0 <= p < s.len() && s[p] != '\n' {
        line_end(s, p + 1)
    } else {
        p
    }
}

/// The position of the first `"` at or after `p`, or the end.
pub open spec fn quote_end(s: Seq<char>, p: int) -> int
    decreases s.len() - p,
{
    if 0 <= p < s.len() && s[p] != '"' {
        quote_end(s, p + 1)
    } else {
        p
    }
}

/// The kind of a word: a keyword, a boolean literal or an identifier.
pub open spec fn word_kind(w: Seq<char>) -> TokenKind {
    if w == "fn"@ {
        TokenKind::Fn
    } else if w == "inline"@ {
        TokenKind::Inline
    } else if w == "type"@ {
        TokenKind::Type
    } else if w == "struct"@ {
        TokenKind::Struct
    } else if w == "enum"@ {
        TokenKind::Enum
    } else if w == "trait"@ {
        TokenKind::Trait
    } else if w == "import"@ {
        TokenKind::Import
    } else if w == "pub"@ {
        TokenKind::Pub
    } else if w == "if"@ {
        TokenKind::If
    } else if w == "else"@ {
        TokenKind::Else
    } else if w == "loop"@ {
        TokenKind::Loop
    } else if w == "let"@ {
        TokenKind::Let
    } else if w == "var"@ {
        TokenKind::Var
    } else if w == "const"@ {
        TokenKind::Const
    } else if w == "defer"@ {
        TokenKind::Defer
    } else if w == "return"@ {
        TokenKind::Return
    } else if w == "break"@ {
        TokenKind::Break
    } else if w == "continue"@ {
        TokenKind::Continue
    } else if w == "as"@ {
        TokenKind::As
    } else if w == "self"@ {
        TokenKind::SelfKw
    } else if w == "true"@ || w == "false"@ {
        TokenKind::Bool
    } else {
        TokenKind::Ident
    }
}

/// The operator of two characters `a`, `b`, if they form one.
pub open spec fn pair_kind(a: char, b: char) -> Option<TokenKind> {
    if a == '=' && b == '=' {
        Some(TokenKind::EqualEqual)
    } else if a == '!' && b == '=' {
        Some(TokenKind::NotEqual)
    } else if a == '<' && b == '=' {
        Some(TokenKind::LessThanEqual)
    } else if a == '>' && b == '=' {
        Some(TokenKind::GreaterThanEqual)
    } else if a == '&' && b == '&' {
        Some(TokenKind::AndAnd)
    } else if a == '|' && b == '|' {
        Some(TokenKind::OrOr)
    } else if a == '+' && b == '=' {
        Some(TokenKind::PlusEqual)
    } else if a == '-' && b == '=' {
        Some(TokenKind::MinusEqual)
    } else if a == '*' && b == '=' {
        Some(TokenKind::AsteriskEqual)
    } else if a == '/' && b == '=' {
        Some(TokenKind::SlashEqual)
    } else if a == '+' && b == '+' {
        Some(TokenKind::PlusPlus)
    } else if a == '-' && b == '-' {
        Some(TokenKind::MinusMinus)
    } else if a == ':' && b == ':' {
        Some(TokenKind::DoubleColon)
    } else {
        None
    }
}

/// The operator or punctuation of one character, if it is one.
pub open spec fn single_kind(c: char) -> Option<TokenKind> {
    if c == '+' {
        Some(TokenKind::Plus)
    } else if c == '-' {
        Some(TokenKind::Minus)
    } else if c == '*' {
        Some(TokenKind::Asterisk)
    } else if c == '/' {
        Some(TokenKind::Slash)
    } else if c == '%' {
        Some(TokenKind::Percent)
    } else if c == '.' {
        Some(TokenKind::Dot)
    } else if c == ',' {
        Some(TokenKind::Comma)
    } else if c == ':' {
        Some(TokenKind::Colon)
    } else if c == ';' {
        Some(TokenKind::Semicolon)
    } else if c == '(' {
        Some(TokenKind::LeftParen)
    } else if c == ')' {
        Some(TokenKind::RightParen)
    } else if c == '{' {
        Some(TokenKind::LeftBrace)
    } else if c == '}' {
        Some(TokenKind::RightBrace)
    } else if c == '[' {
        Some(TokenKind::LeftBracket)
    } else if c == ']' {
        Some(TokenKind::RightBracket)
    } else if c == '=' {
        Some(TokenKind::Equal)
    } else if c == '<' {
        Some(TokenKind::LessThan)
    } else if c == '>' {
        Some(TokenKind::GreaterThan)
    } else if c == '&' {
        Some(TokenKind::And)
    } else if c == '!' {
        Some(TokenKind::Not)
    } else {
        None
    }
}

/// What the scanner does at position `p`.
pub enum Step {
    /// Skip `len` characters of white space.
    Skip(int),
    /// Emit a token of `kind` spanning `len` characters.
    Emit(TokenKind, int),
    /// No token starts here.
    Fail,
}

/// The scanner's decision at position `p < s.len()`.
pub open spec fn step_at(s: Seq<char>, p: int) -> Step {
    let c = s[p];
    let has_next = p < s.len() - 1;
    if c == ' ' || c == '\t' || c == '\r' {
        Step::Skip(1)
    } else if c == '\n' {
        Step::Emit(TokenKind::NewLine, 1)
    } else if c == '/' && has_next && s[p + 1] == '/' {
        Step::Emit(TokenKind::Comment, line_end(s, p) - p)
    } else if is_ident_start(c) {
        let e = word_end(s, p);
        Step::Emit(word_kind(s.subrange(p, e)), e - p)
    } else if is_digit(c) {
        let d = digits_end(s, p);
        if d + 1 < s.len() && s[d] == '.' && is_digit(s[d + 1]) {
            Step::Emit(TokenKind::Float, word_end(s, digits_end(s, d + 1)) - p)
        } else {
            Step::Emit(TokenKind::Integer, word_end(s, d) - p)
        }
    } else if c == '"' {
        let q = quote_end(s, p + 1);
        if q < s.len() {
            Step::Emit(TokenKind::String, q + 1 - p)
        } else {
            Step::Fail
        }
    } else if has_next && pair_kind(c, s[p + 1]) is Some {
        Step::Emit(pair_kind(c, s[p + 1]).unwrap(), 2)
    } else if single_kind(c) is Some {
        Step::Emit(single_kind(c).unwrap(), 1)
    } else {
        Step::Fail
    }
}

/// The byte offset of character `p` of `s`: the length of the UTF-8
/// encoding of the characters before it.
pub open spec fn byte_pos(s: Seq<char>, p: int) -> int {
    encode_utf8(s.take(p)).len() as int
}

/// The raw tokens of `s` from position `p` on, appended to `acc`, and
/// whether scanning stopped at a character that starts no token.
pub open spec fn scan_from(s: Seq<char>, p: int, acc: Seq<TokenModel>) -> (Seq<TokenModel>, bool)
    decreases s.len() - p,
{
    if p < 0 || p >= s.len() {
        (acc, false)
    } else {
        match step_at(s, p) {
            Step::Skip(k) => if k > 0 {
                scan_from(s, p + k, acc)
            } else {
                (acc, true)
            },
            Step::Emit(kind, k) => if k > 0 && p + k <= s.len() {
                scan_from(
                    s,
                    p + k,
                    acc.push(
                        TokenModel {
                            kind,
                            lexeme: s.subrange(p, p + k),
                            span: Span { start: byte_pos(s, p) as usize, end: byte_pos(s, p + k) as usize },
                        },
                    ),
                )
            } else {
                (acc, true)
            },
            Step::Fail => (acc, true),
        }
    }
}

/// The raw tokens of the whole text.
pub open spec fn scan_model(s: Seq<char>) -> (Seq<TokenModel>, bool) {
    scan_from(s, 0, seq![])
}

/// Kinds at the start of a line that continue the previous line.
pub open spec fn continues_line(k: TokenKind) -> bool {
    match k {
        TokenKind::Plus | TokenKind::Minus | TokenKind::Asterisk | TokenKind::Slash
        | TokenKind::Percent | TokenKind::Dot | TokenKind::DoubleColon | TokenKind::RightParen
        | TokenKind::RightBrace | TokenKind::RightBracket => true,
        _ => false,
    }
}

/// Kinds that can end a statement.
pub open spec fn ends_statement(k: TokenKind) -> bool {
    match k {
        TokenKind::Ident | TokenKind::String | TokenKind::Integer | TokenKind::Float
        | TokenKind::Bool | TokenKind::Break | TokenKind::Return | TokenKind::Continue
        | TokenKind::PlusPlus | TokenKind::MinusMinus | TokenKind::RightParen
        | TokenKind::RightBracket | TokenKind::RightBrace => true,
        _ => false,
    }
}

/// The `;` inserted for a line break spanning `span`.
pub open spec fn separator(span: Span) -> TokenModel {
    TokenModel { kind: TokenKind::Semicolon, lexeme: ";"@, span }
}

/// The end-of-input marker for a text of `n` bytes.
pub open spec fn end_marker(n: int) -> TokenModel {
    TokenModel { kind: TokenKind::EOF, lexeme: seq![], span: Span { start: n as usize, end: n as usize } }
}

/// The line-break rules applied to the raw tokens from index `i` on.
/// `stopped` tells whether scanning ended at an invalid character, `n` is
/// the length of the text in bytes, `last` the kind of the last token kept.
pub open spec fn layout_from(
    raw: Seq<TokenModel>,
    stopped: bool,
    n: int,
    i: int,
    last: TokenKind,
    out: Seq<TokenModel>,
) -> Result<Seq<TokenModel>, LexerError>
    decreases raw.len() - i,
{
    if i < 0 || i >= raw.len() {
        Ok(out)
    } else {
        let t = raw[i];
        match t.kind {
            TokenKind::Comment => layout_from(raw, stopped, n, i + 1, last, out),
            TokenKind::NewLine => if i + 1 < raw.len() {
                if continues_line(raw[i + 1].kind) || !ends_statement(last) {
                    layout_from(raw, stopped, n, i + 1, last, out)
                } else {
                    layout_from(raw, stopped, n, i + 1, TokenKind::Semicolon, out.push(separator(t.span)))
                }
            } else if stopped {
                Err(LexerError::InvalidCharacter { character: '\0', position: t.span.end })
            } else if ends_statement(last) {
                Ok(out.push(separator(t.span)).push(end_marker(n)))
            } else {
                Ok(out.push(end_marker(n)))
            },
            _ => layout_from(raw, stopped, n, i + 1, t.kind, out.push(t)),
        }
    }
}

/// The tokens of `s`, or the error `lex` reports.
pub open spec fn lex_model(s: Seq<char>) -> Result<Seq<TokenModel>, LexerError> {
    let (raw, stopped) = scan_model(s);
    layout_from(raw, stopped, byte_pos(s, s.len() as int), 0, TokenKind::Unknown, seq![])
}

/// Every token of `ts` whose kind has a fixed spelling has that text.
pub open spec fn spelled(ts: Seq<TokenModel>) -> bool {
    forall|i: int| 0 <= i < ts.len() ==> (kind_spelling((#[trigger] ts[i]).kind) matches Some(t) ==> ts[i].lexeme == t)
}

/// Two characters that form an operator spell that operator's token.
pub proof fn law_pair_kind_spells(a: char, b: char)
    ensures
        pair_kind(a, b) matches Some(k) ==> kind_spelling(k) == Some(seq![a, b]),
{
}

/// A character that is an operator or punctuation spells its token.
pub proof fn law_single_kind_spells(c: char)
    ensures
        single_kind(c) matches Some(k) ==> kind_spelling(k) == Some(seq![c]),
{
}

/// A word that is a keyword is spelled as that keyword.
pub proof fn law_word_kind_spells(w: Seq<char>)
    ensures
        kind_spelling(word_kind(w)) matches Some(t) ==> w == t,
{
}

/// Conversely, the spelling of a token kind lexes as that kind: a keyword
/// is never taken for a name, and each operator's characters give that
/// operator.
pub proof fn law_spellings_lex_back(k: TokenKind)
    ensures
        kind_spelling(k) is Some && kind_spelling(k).unwrap().len() == 1 && k != TokenKind::NewLine ==> single_kind(
            kind_spelling(k).unwrap()[0],
        ) == Some(k),
        kind_spelling(k) is Some && kind_spelling(k).unwrap().len() == 2 && !is_ident_start(kind_spelling(k).unwrap()[0])
            ==> pair_kind(
            kind_spelling(k).unwrap()[0],
            kind_spelling(k).unwrap()[1],
        ) == Some(k),
        kind_spelling(k) is Some && kind_spelling(k).unwrap().len() > 0 && is_ident_start(kind_spelling(k).unwrap()[0])
            ==> word_kind(kind_spelling(k).unwrap()) == k,
{
    reveal_strlit("fn");
    reveal_strlit("inline");
    reveal_strlit("type");
    reveal_strlit("struct");
    reveal_strlit("enum");
    reveal_strlit("trait");
    reveal_strlit("import");
    reveal_strlit("pub");
    reveal_strlit("if");
    reveal_strlit("else");
    reveal_strlit("loop");
    reveal_strlit("let");
    reveal_strlit("var");
    reveal_strlit("const");
    reveal_strlit("defer");
    reveal_strlit("return");
    reveal_strlit("break");
    reveal_strlit("continue");
    reveal_strlit("as");
    reveal_strlit("self");
    reveal_strlit("true");
    reveal_strlit("false");
}

/// The text a scanner step takes for a token of fixed spelling is that
/// spelling.
proof fn lemma_step_spelled(s: Seq<char>, p: int)
    requires
        0 <= p < s.len(),
    ensures
        step_at(s, p) matches Step::Emit(k, n) ==> (kind_spelling(k) matches Some(t) ==> p + n <= s.len()
            && s.subrange(p, p + n) == t),
{
    let c = s[p];
    if c == ' ' || c == '\t' || c == '\r' {
    } else if c == '\n' {
        assert(s.subrange(p, p + 1) =~= seq!['\n']);
    } else if c == '/' && p < s.len() - 1 && s[p + 1] == '/' {
    } else if is_ident_start(c) {
        lemma_word_end_bounds(s, p);
        law_word_kind_spells(s.subrange(p, word_end(s, p)));
    } else if is_digit(c) {
    } else if c == '"' {
    } else if p < s.len() - 1 && pair_kind(c, s[p + 1]) is Some {
        law_pair_kind_spells(c, s[p + 1]);
        assert(s.subrange(p, p + 2) =~= seq![c, s[p + 1]]);
    } else if single_kind(c) is Some {
        law_single_kind_spells(c);
        assert(s.subrange(p, p + 1) =~= seq![c]);
    }
}

proof fn lemma_scan_spelled(s: Seq<char>, p: int, acc: Seq<TokenModel>)
    requires
        spelled(acc),
    ensures
        spelled(scan_from(s, p, acc).0),
    decreases s.len() - p,
{
    if 0 <= p < s.len() {
        lemma_step_spelled(s, p);
        match step_at(s, p) {
            Step::Skip(k) => {
                if k > 0 {
                    lemma_scan_spelled(s, p + k, acc);
                }
            },
            Step::Emit(kind, k) => {
                if k > 0 && p + k <= s.len() {
                    let tok = TokenModel {
                        kind,
                        lexeme: s.subrange(p, p + k),
                        span: Span { start: byte_pos(s, p) as usize, end: byte_pos(s, p + k) as usize },
                    };
                    let acc2 = acc.push(tok);
                    assert forall|i: int| 0 <= i < acc2.len() implies (kind_spelling((#[trigger] acc2[i]).kind) matches Some(t)
                        ==> acc2[i].lexeme == t) by {
                        if i < acc.len() {
                            assert(acc2[i] == acc[i]);
                        }
                    }
                    lemma_scan_spelled(s, p + k, acc2);
                }
            },
            Step::Fail => {},
        }
    }
}

proof fn lemma_push_spelled(ts: Seq<TokenModel>, t: TokenModel)
    requires
        spelled(ts),
        kind_spelling(t.kind) matches Some(x) ==> t.lexeme == x,
    ensures
        spelled(ts.push(t)),
{
    assert forall|i: int| 0 <= i < ts.push(t).len() implies (kind_spelling((#[trigger] ts.push(t)[i]).kind) matches Some(x)
        ==> ts.push(t)[i].lexeme == x) by {
        if i < ts.len() {
            assert(ts.push(t)[i] == ts[i]);
        }
    }
}

proof fn lemma_layout_spelled(
    raw: Seq<TokenModel>,
    stopped: bool,
    n: int,
    i: int,
    last: TokenKind,
    out: Seq<TokenModel>,
)
    requires
        spelled(raw),
        spelled(out),
    ensures
        layout_from(raw, stopped, n, i, last, out) matches Ok(r) ==> spelled(r),
    decreases raw.len() - i,
{
    reveal_strlit(";");
    if 0 <= i < raw.len() {
        let t = raw[i];
        let sep = separator(t.span);
        assert(sep.lexeme =~= seq![';']);
        match t.kind {
            TokenKind::Comment => lemma_layout_spelled(raw, stopped, n, i + 1, last, out),
            TokenKind::NewLine => {
                if i + 1 < raw.len() {
                    lemma_layout_spelled(raw, stopped, n, i + 1, last, out);
                    lemma_push_spelled(out, sep);
                    lemma_layout_spelled(raw, stopped, n, i + 1, TokenKind::Semicolon, out.push(sep));
                } else {
                    lemma_push_spelled(out, sep);
                    lemma_push_spelled(out.push(sep), end_marker(n));
                    lemma_push_spelled(out, end_marker(n));
                }
            },
            _ => {
                lemma_push_spelled(out, t);
                lemma_layout_spelled(raw, stopped, n, i + 1, t.kind, out.push(t));
            },
        }
    }
}

/// No line break or comment is left in `ts`.
pub open spec fn no_layout(ts: Seq<TokenModel>) -> bool {
    forall|i: int| 0 <= i < ts.len() ==> !((#[trigger] ts[i]).kind is NewLine) && !(ts[i].kind is Comment)
}

proof fn lemma_push_no_layout(ts: Seq<TokenModel>, t: TokenModel)
    requires
        no_layout(ts),
        !(t.kind is NewLine),
        !(t.kind is Comment),
    ensures
        no_layout(ts.push(t)),
{
    assert forall|i: int| 0 <= i < ts.push(t).len() implies !((#[trigger] ts.push(t)[i]).kind is NewLine) && !(ts.push(
        t,
    )[i].kind is Comment) by {
        if i < ts.len() {
            assert(ts.push(t)[i] == ts[i]);
        }
    }
}

proof fn lemma_layout_no_layout(
    raw: Seq<TokenModel>,
    stopped: bool,
    n: int,
    i: int,
    last: TokenKind,
    out: Seq<TokenModel>,
)
    requires
        no_layout(out),
    ensures
        layout_from(raw, stopped, n, i, last, out) matches Ok(r) ==> no_layout(r),
    decreases raw.len() - i,
{
    if 0 <= i < raw.len() {
        let t = raw[i];
        let sep = separator(t.span);
        match t.kind {
            TokenKind::Comment => lemma_layout_no_layout(raw, stopped, n, i + 1, last, out),
            TokenKind::NewLine => {
                if i + 1 < raw.len() {
                    lemma_layout_no_layout(raw, stopped, n, i + 1, last, out);
                    lemma_push_no_layout(out, sep);
                    lemma_layout_no_layout(raw, stopped, n, i + 1, TokenKind::Semicolon, out.push(sep));
                } else {
                    lemma_push_no_layout(out, sep);
                    lemma_push_no_layout(out.push(sep), end_marker(n));
                    lemma_push_no_layout(out, end_marker(n));
                }
            },
            _ => {
                lemma_push_no_layout(out, t);
                lemma_layout_no_layout(raw, stopped, n, i + 1, t.kind, out.push(t));
            },
        }
    }
}

/// Lexing leaves no line break and no comment in its output: line breaks
/// become `;` or disappear, comments disappear.
pub proof fn law_lexing_drops_layout(s: Seq<char>)
    ensures
        lex_model(s) matches Ok(toks) ==> no_layout(toks),
{
    lemma_layout_no_layout(scan_model(s).0, scan_model(s).1, byte_pos(s, s.len() as int), 0, TokenKind::Unknown, seq![]);
}

/// Every token that lexing gives whose kind has a fixed spelling is
/// spelled that way in the source: `!=` is a `NotEqual`, `<` a
/// `LessThan`, `fn` the keyword `Fn`, and so on.
pub proof fn law_tokens_spell_their_kind(s: Seq<char>)
    ensures
        lex_model(s) matches Ok(toks) ==> forall|i: int| 0 <= i < toks.len() ==> (kind_spelling((#[trigger] toks[i]).kind) matches Some(t)
            ==> toks[i].lexeme == t),
{
    lemma_scan_spelled(s, 0, seq![]);
    lemma_layout_spelled(scan_model(s).0, scan_model(s).1, byte_pos(s, s.len() as int), 0, TokenKind::Unknown, seq![]);
}

// ----- executable scanner -----
fn chars_of(src: &str) -> (r: Vec<char>)
    ensures
        r@ == src@,
{
    let n = src.unicode_len();
    let mut out: Vec<char> = Vec::new();
    let mut i: usize = 0;
    while i < n
        invariant
            n == src@.len(),
            i <= n,
            out@ == src@.subrange(0, i as int),
        decreases n - i,
    {
        out.push(src.get_char(i));
        i = i + 1;
        assert(out@ =~= src@.subrange(0, i as int));
    }
    assert(src@.subrange(0, n as int) =~= src@);
    out
}

/// Encoding one sequence after another gives the two encodings one after
/// the other.
proof fn lemma_encode_concat(a: Seq<char>, b: Seq<char>)
    ensures
        encode_utf8(a + b) == encode_utf8(a) + encode_utf8(b),
    decreases a.len(),
{
    if a.len() == 0 {
        assert(a + b =~= b);
        assert(encode_utf8(a) + encode_utf8(b) =~= encode_utf8(b));
    } else {
        assert((a + b).drop_first() =~= a.drop_first() + b);
        assert((a + b)[0] == a[0]);
        lemma_encode_concat(a.drop_first(), b);
        assert(encode_utf8(a + b) =~= encode_utf8(a) + encode_utf8(b));
    }
}

/// The offset of the next character adds the width of this one, and no
/// offset passes the length of the whole encoding.
proof fn lemma_byte_pos_step(s: Seq<char>, i: int)
    requires
        0 <= i < s.len(),
    ensures
        byte_pos(s, i + 1) == byte_pos(s, i) + encode_scalar(s[i] as u32).len(),
        byte_pos(s, i + 1) <= encode_utf8(s).len(),
{
    lemma_encode_concat(s.take(i), seq![s[i]]);
    assert(s.take(i + 1) =~= s.take(i) + seq![s[i]]);
    let one = seq![s[i]];
    assert(one[0] == s[i]);
    assert(one.drop_first() =~= Seq::<char>::empty());
    assert(encode_utf8(one.drop_first()).len() == 0);
    assert(encode_utf8(one) =~= encode_scalar(s[i] as u32));
    lemma_encode_concat(s.take(i + 1), s.skip(i + 1));
    assert(s.take(i + 1) + s.skip(i + 1) =~= s);
}

/// The number of bytes UTF-8 takes for `c`.
fn char_width(c: char) -> (r: usize)
    ensures
        r as int == encode_scalar(c as u32).len(),
{
    proof {
        vstd::utf8::char_is_scalar(c);
    }
    let v = c as u32;
    if v < 0x80 {
        1
    } else if v < 0x800 {
        2
    } else if v < 0x10000 {
        3
    } else {
        4
    }
}

/// The byte offset of every character position of `src`, the end included.
fn byte_offsets(src: &str, s: &Vec<char>) -> (r: Vec<usize>)
    requires
        s@ == src@,
    ensures
        r@.len() == s@.len() + 1,
        forall|i: int| 0 <= i <= s@.len() ==> #[trigger] r@[i] as int == byte_pos(s@, i),
{
    let bytes = src.as_bytes_vec();
    let total = bytes.len();
    let mut r: Vec<usize> = Vec::new();
    r.push(0);
    proof {
        assert(s@.take(0) =~= Seq::<char>::empty());
    }
    let mut i: usize = 0;
    while i < s.len()
        invariant
            s@ == src@,
            bytes@ == encode_utf8(src@),
            total as int == bytes@.len(),
            i <= s@.len(),
            r@.len() == i + 1,
            forall|j: int| 0 <= j <= i ==> #[trigger] r@[j] as int == byte_pos(s@, j),
        decreases s.len() - i,
    {
        proof {
            lemma_byte_pos_step(s@, i as int);
        }
        let w = char_width(s[i]);
        proof {
            assert(r@[i as int] + w == byte_pos(s@, i + 1));
            assert(byte_pos(s@, i + 1) <= bytes@.len());
        }
        let next = r[i] + w;
        r.push(next);
        i = i + 1;
    }
    r
}

fn is_digit_exec(c: char) -> (r: bool)
    ensures
        r == is_digit(c),
{
    '0' <= c && c <= '9'
}

fn is_ident_start_exec(c: char) -> (r: bool)
    ensures
        r == is_ident_start(c),
{
    ('a' <= c && c <= 'z') || ('A' <= c && c <= 'Z') || c == '_'
}

fn is_ident_char_exec(c: char) -> (r: bool)
    ensures
        r == is_ident_char(c),
{
    is_ident_start_exec(c) || is_digit_exec(c)
}

fn word_end_exec(s: &Vec<char>, p: usize) -> (r: usize)
    requires
        p <= s@.len(),
    ensures
        r as int == word_end(s@, p as int),
        p <= r <= s@.len(),
{
    let mut i = p;
    while i < s.len() && is_ident_char_exec(s[i])
        invariant
            p <= i <= s@.len(),
            word_end(s@, i as int) == word_end(s@, p as int),
        decreases s.len() - i,
    {
        i = i + 1;
    }
    i
}

fn digits_end_exec(s: &Vec<char>, p: usize) -> (r: usize)
    requires
        p <= s@.len(),
    ensures
        r as int == digits_end(s@, p as int),
        p <= r <= s@.len(),
{
    let mut i = p;
    while i < s.len() && is_digit_exec(s[i])
        invariant
            p <= i <= s@.len(),
            digits_end(s@, i as int) == digits_end(s@, p as int),
        decreases s.len() - i,
    {
        i = i + 1;
    }
    i
}

fn line_end_exec(s: &Vec<char>, p: usize) -> (r: usize)
    requires
        p <= s@.len(),
    ensures
        r as int == line_end(s@, p as int),
        p <= r <= s@.len(),
{
    let mut i = p;
    while i < s.len() && s[i] != '\n'
        invariant
            p <= i <= s@.len(),
            line_end(s@, i as int) == line_end(s@, p as int),
        decreases s.len() - i,
    {
        i = i + 1;
    }
    i
}

fn quote_end_exec(s: &Vec<char>, p: usize) -> (r: usize)
    requires
        p <= s@.len(),
    ensures
        r as int == quote_end(s@, p as int),
        p <= r <= s@.len(),
{
    let mut i = p;
    while i < s.len() && s[i] != '"'
        invariant
            p <= i <= s@.len(),
            quote_end(s@, i as int) == quote_end(s@, p as int),
        decreases s.len() - i,
    {
        i = i + 1;
    }
    i
}

/// Whether `s[start..end]` spells `lit`.
fn spells(s: &Vec<char>, start: usize, end: usize, lit: &str) -> (r: bool)
    requires
        start <= end <= s@.len(),
    ensures
        r == (s@.subrange(start as int, end as int) == lit@),
{
    let n = lit.unicode_len();
    if end - start != n {
        return false;
    }
    let mut i: usize = 0;
    while i < n
        invariant
            n == lit@.len(),
            end - start == n,
            start <= end <= s@.len(),
            i <= n,
            forall|j: int| 0 <= j < i ==> s@[start + j] == lit@[j],
        decreases n - i,
    {
        if s[start + i] != lit.get_char(i) {
            assert(s@.subrange(start as int, end as int)[i as int] != lit@[i as int]);
            return false;
        }
        i = i + 1;
    }
    assert(s@.subrange(start as int, end as int) =~= lit@);
    true
}

fn word_kind_exec(s: &Vec<char>, start: usize, end: usize) -> (r: TokenKind)
    requires
        start <= end <= s@.len(),
    ensures
        r == word_kind(s@.subrange(start as int, end as int)),
{
    if spells(s, start, end, "fn") {
        TokenKind::Fn
    } else if spells(s, start, end, "inline") {
        TokenKind::Inline
    } else if spells(s, start, end, "type") {
        TokenKind::Type
    } else if spells(s, start, end, "struct") {
        TokenKind::Struct
    } else if spells(s, start, end, "enum") {
        TokenKind::Enum
    } else if spells(s, start, end, "trait") {
        TokenKind::Trait
    } else if spells(s, start, end, "import") {
        TokenKind::Import
    } else if spells(s, start, end, "pub") {
        TokenKind::Pub
    } else if spells(s, start, end, "if") {
        TokenKind::If
    } else if spells(s, start, end, "else") {
        TokenKind::Else
    } else if spells(s, start, end, "loop") {
        TokenKind::Loop
    } else if spells(s, start, end, "let") {
        TokenKind::Let
    } else if spells(s, start, end, "var") {
        TokenKind::Var
    } else if spells(s, start, end, "const") {
        TokenKind::Const
    } else if spells(s, start, end, "defer") {
        TokenKind::Defer
    } else if spells(s, start, end, "return") {
        TokenKind::Return
    } else if spells(s, start, end, "break") {
        TokenKind::Break
    } else if spells(s, start, end, "continue") {
        TokenKind::Continue
    } else if spells(s, start, end, "as") {
        TokenKind::As
    } else if spells(s, start, end, "self") {
        TokenKind::SelfKw
    } else if spells(s, start, end, "true") || spells(s, start, end, "false") {
        TokenKind::Bool
    } else {
        TokenKind::Ident
    }
}

fn pair_kind_exec(a: char, b: char) -> (r: Option<TokenKind>)
    ensures
        r == pair_kind(a, b),
{
    if a == '=' && b == '=' {
        Some(TokenKind::EqualEqual)
    } else if a == '!' && b == '=' {
        Some(TokenKind::NotEqual)
    } else if a == '<' && b == '=' {
        Some(TokenKind::LessThanEqual)
    } else if a == '>' && b == '=' {
        Some(TokenKind::GreaterThanEqual)
    } else if a == '&' && b == '&' {
        Some(TokenKind::AndAnd)
    } else if a == '|' && b == '|' {
        Some(TokenKind::OrOr)
    } else if a == '+' && b == '=' {
        Some(TokenKind::PlusEqual)
    } else if a == '-' && b == '=' {
        Some(TokenKind::MinusEqual)
    } else if a == '*' && b == '=' {
        Some(TokenKind::AsteriskEqual)
    } else if a == '/' && b == '=' {
        Some(TokenKind::SlashEqual)
    } else if a == '+' && b == '+' {
        Some(TokenKind::PlusPlus)
    } else if a == '-' && b == '-' {
        Some(TokenKind::MinusMinus)
    } else if a == ':' && b == ':' {
        Some(TokenKind::DoubleColon)
    } else {
        None
    }
}

fn single_kind_exec(c: char) -> (r: Option<TokenKind>)
    ensures
        r == single_kind(c),
{
    if c == '+' {
        Some(TokenKind::Plus)
    } else if c == '-' {
        Some(TokenKind::Minus)
    } else if c == '*' {
        Some(TokenKind::Asterisk)
    } else if c == '/' {
        Some(TokenKind::Slash)
    } else if c == '%' {
        Some(TokenKind::Percent)
    } else if c == '.' {
        Some(TokenKind::Dot)
    } else if c == ',' {
        Some(TokenKind::Comma)
    } else if c == ':' {
        Some(TokenKind::Colon)
    } else if c == ';' {
        Some(TokenKind::Semicolon)
    } else if c == '(' {
        Some(TokenKind::LeftParen)
    } else if c == ')' {
        Some(TokenKind::RightParen)
    } else if c == '{' {
        Some(TokenKind::LeftBrace)
    } else if c == '}' {
        Some(TokenKind::RightBrace)
    } else if c == '[' {
        Some(TokenKind::LeftBracket)
    } else if c == ']' {
        Some(TokenKind::RightBracket)
    } else if c == '=' {
        Some(TokenKind::Equal)
    } else if c == '<' {
        Some(TokenKind::LessThan)
    } else if c == '>' {
        Some(TokenKind::GreaterThan)
    } else if c == '&' {
        Some(TokenKind::And)
    } else if c == '!' {
        Some(TokenKind::Not)
    } else {
        None
    }
}

/// The scanner's decision at `p`: `(skip, kind, len)` where `skip` tells a
/// white-space step, `kind` is `None` when no token starts at `p`.
fn step_exec(s: &Vec<char>, p: usize) -> (r: (bool, Option<TokenKind>, usize))
    requires
        p < s@.len(),
    ensures
        p + r.2 <= s@.len(),
        match step_at(s@, p as int) {
            Step::Skip(k) => r.0 && r.2 == k,
            Step::Emit(kind, k) => !r.0 && r.1 == Some(kind) && r.2 == k,
            Step::Fail => !r.0 && r.1 is None,
        },
{
    let c = s[p];
    let has_next = p < s.len() - 1;
    if c == ' ' || c == '\t' || c == '\r' {
        (true, None, 1)
    } else if c == '\n' {
        (false, Some(TokenKind::NewLine), 1)
    } else if c == '/' && has_next && s[p + 1] == '/' {
        let e = line_end_exec(s, p);
        (false, Some(TokenKind::Comment), e - p)
    } else if is_ident_start_exec(c) {
        let e = word_end_exec(s, p);
        (false, Some(word_kind_exec(s, p, e)), e - p)
    } else if is_digit_exec(c) {
        let d = digits_end_exec(s, p);
        if d < s.len() && d + 1 < s.len() && s[d] == '.' && is_digit_exec(s[d + 1]) {
            let f = digits_end_exec(s, d + 1);
            let e = word_end_exec(s, f);
            (false, Some(TokenKind::Float), e - p)
        } else {
            let e = word_end_exec(s, d);
            (false, Some(TokenKind::Integer), e - p)
        }
    } else if c == '"' {
        let q = quote_end_exec(s, p + 1);
        if q < s.len() {
            (false, Some(TokenKind::String), q + 1 - p)
        } else {
            (false, None, 0)
        }
    } else if has_next && pair_kind_exec(c, s[p + 1]).is_some() {
        (false, pair_kind_exec(c, s[p + 1]), 2)
    } else if single_kind_exec(c).is_some() {
        (false, single_kind_exec(c), 1)
    } else {
        (false, None, 0)
    }
}

proof fn lemma_ends_positive(s: Seq<char>, p: int)
    requires
        0 <= p < s.len(),
    ensures
        is_ident_char(s[p]) ==> word_end(s, p) > p,
        is_digit(s[p]) ==> digits_end(s, p) > p,
        s[p] != '\n' ==> line_end(s, p) > p,
        word_end(s, p) >= p,
        digits_end(s, p) >= p,
        line_end(s, p) >= p,
        quote_end(s, p) >= p,
{
    lemma_word_end_bounds(s, p);
    lemma_digits_end_bounds(s, p);
    lemma_line_end_bounds(s, p);
    lemma_quote_end_bounds(s, p);
    lemma_word_end_bounds(s, p + 1);
    lemma_digits_end_bounds(s, p + 1);
    lemma_line_end_bounds(s, p + 1);
}

proof fn lemma_word_end_bounds(s: Seq<char>, p: int)
    requires
        0 <= p <= s.len(),
    ensures
        p <= word_end(s, p) <= s.len(),
    decreases s.len() - p,
{
    if p < s.len() && is_ident_char(s[p]) {
        lemma_word_end_bounds(s, p + 1);
    }
}

proof fn lemma_digits_end_bounds(s: Seq<char>, p: int)
    requires
        0 <= p <= s.len(),
    ensures
        p <= digits_end(s, p) <= s.len(),
    decreases s.len() - p,
{
    if p < s.len() && is_digit(s[p]) {
        lemma_digits_end_bounds(s, p + 1);
    }
}

proof fn lemma_line_end_bounds(s: Seq<char>, p: int)
    requires
        0 <= p <= s.len(),
    ensures
        p <= line_end(s, p) <= s.len(),
    decreases s.len() - p,
{
    if p < s.len() && s[p] != '\n' {
        lemma_line_end_bounds(s, p + 1);
    }
}

proof fn lemma_quote_end_bounds(s: Seq<char>, p: int)
    requires
        0 <= p <= s.len(),
    ensures
        p <= quote_end(s, p) <= s.len(),
    decreases s.len() - p,
{
    if p < s.len() && s[p] != '"' {
        lemma_quote_end_bounds(s, p + 1);
    }
}

/// Every token that the scanner emits is at least one character long.
proof fn lemma_step_progress(s: Seq<char>, p: int)
    requires
        0 <= p < s.len(),
    ensures
        match step_at(s, p) {
            Step::Skip(k) => k > 0 && p + k <= s.len(),
            Step::Emit(_, k) => k > 0 && p + k <= s.len(),
            Step::Fail => true,
        },
{
    lemma_ends_positive(s, p);
    lemma_word_end_bounds(s, p);
    lemma_line_end_bounds(s, p);
    let d = digits_end(s, p);
    lemma_digits_end_bounds(s, p);
    if 0 <= d && d + 1 < s.len() {
        lemma_digits_end_bounds(s, d + 1);
        let f = digits_end(s, d + 1);
        lemma_word_end_bounds(s, f);
    }
    if d <= s.len() {
        lemma_word_end_bounds(s, d);
    }
    if p + 1 <= s.len() {
        lemma_quote_end_bounds(s, p + 1);
    }
}

/// The raw tokens of `src` and whether scanning stopped at an invalid
/// character (given as `Some(byte offset)`).
pub fn scan(src: &str) -> (r: (Vec<Token>, Option<usize>))
    ensures
        tokens_model(r.0@) == scan_model(src@).0,
        (r.1 is Some) == scan_model(src@).1,
{
    let s = chars_of(src);
    let offs = byte_offsets(src, &s);
    let mut out: Vec<Token> = Vec::new();
    let mut p: usize = 0;
    assert(tokens_model(out@) =~= Seq::<TokenModel>::empty());
    while p < s.len()
        invariant
            s@ == src@,
            offs@.len() == s@.len() + 1,
            forall|i: int| 0 <= i <= s@.len() ==> #[trigger] offs@[i] as int == byte_pos(s@, i),
            p <= s@.len(),
            scan_from(s@, p as int, tokens_model(out@)) == scan_model(src@),
        decreases s.len() - p,
    {
        proof {
            lemma_step_progress(s@, p as int);
        }
        let (skip, kind, len) = step_exec(&s, p);
        if skip {
            p = p + len;
        } else {
            match kind {
                Some(k) => {
                    let lexeme = String::from_str(src.substring_char(p, p + len));
                    let ghost before = out@;
                    out.push(Token { kind: k, lexeme, span: Span { start: offs[p], end: offs[p + len] } });
                    assert(tokens_model(out@) =~= tokens_model(before).push(out@[before.len() as int]@));
                    p = p + len;
                },
                None => {
                    return (out, Some(offs[p]));
                },
            }
        }
    }
    (out, None)
}

/// Whether a token of kind `k` at the start of a line continues the previous line.
pub fn continues_line_exec(k: TokenKind) -> (r: bool)
    ensures
        r == continues_line(k),
{
    match k {
        TokenKind::Plus | TokenKind::Minus | TokenKind::Asterisk | TokenKind::Slash
        | TokenKind::Percent | TokenKind::Dot | TokenKind::DoubleColon | TokenKind::RightParen
        | TokenKind::RightBrace | TokenKind::RightBracket => true,
        _ => false,
    }
}

/// Whether a token of kind `k` can end a statement.
pub fn ends_statement_exec(k: TokenKind) -> (r: bool)
    ensures
        r == ends_statement(k),
{
    match k {
        TokenKind::Ident | TokenKind::String | TokenKind::Integer | TokenKind::Float
        | TokenKind::Bool | TokenKind::Break | TokenKind::Return | TokenKind::Continue
        | TokenKind::PlusPlus | TokenKind::MinusMinus | TokenKind::RightParen
        | TokenKind::RightBracket | TokenKind::RightBrace => true,
        _ => false,
    }
}

fn separator_token(span: Span) -> (r: Token)
    ensures
        r@ == separator(span),
{
    Token { kind: TokenKind::Semicolon, lexeme: crate::text::owned(";"), span }
}

/// The length of `src` in bytes.
fn byte_len(src: &str) -> (r: usize)
    ensures
        r as int == byte_pos(src@, src@.len() as int),
{
    proof {
        assert(src@.take(src@.len() as int) =~= src@);
    }
    src.as_bytes_vec().len()
}

/// Splits `src` into tokens, dropping comments and turning line breaks into
/// `;` where a statement ends.
pub fn lex(src: &str) -> (r: Result<Vec<Token>, LexerError>)
    ensures
        match lex_model(src@) {
            Ok(toks) => r matches Ok(v) && tokens_model(v@) == toks,
            Err(e) => r == Err::<Vec<Token>, LexerError>(e),
        },
{
    let (raw, stopped_at) = scan(src);
    let stopped = stopped_at.is_some();
    let n = byte_len(src);
    let ghost rawm = tokens_model(raw@);
    let mut out: Vec<Token> = Vec::new();
    let mut last = TokenKind::Unknown;
    let mut i: usize = 0;
    assert(tokens_model(out@) =~= Seq::<TokenModel>::empty());
    while i < raw.len()
        invariant
            rawm == tokens_model(raw@),
            rawm == scan_model(src@).0,
            stopped == scan_model(src@).1,
            n == byte_pos(src@, src@.len() as int),
            i <= raw@.len(),
            layout_from(rawm, stopped, n as int, i as int, last, tokens_model(out@)) == lex_model(
                src@,
            ),
        decreases raw.len() - i,
    {
        let kind = raw[i].kind;
        match kind {
            TokenKind::Comment => {
                i = i + 1;
            },
            TokenKind::NewLine => {
                let span = raw[i].span;
                if i + 1 < raw.len() {
                    if continues_line_exec(raw[i + 1].kind) || !ends_statement_exec(last) {
                        i = i + 1;
                    } else {
                        let ghost before = out@;
                        out.push(separator_token(span));
                        assert(tokens_model(out@) =~= tokens_model(before).push(separator(span)));
                        last = TokenKind::Semicolon;
                        i = i + 1;
                    }
                } else if stopped {
                    return Err(LexerError::InvalidCharacter { character: '\0', position: span.end });
                } else {
                    let ghost before = out@;
                    if ends_statement_exec(last) {
                        out.push(separator_token(span));
                    }
                    let ghost mid = out@;
                    out.push(Token { kind: TokenKind::EOF, lexeme: String::new(), span: Span { start: n, end: n } });
                    proof {
                        if ends_statement(last) {
                            assert(tokens_model(mid) =~= tokens_model(before).push(separator(span)));
                        } else {
                            assert(mid == before);
                        }
                        assert(tokens_model(out@) =~= tokens_model(mid).push(end_marker(n as int)));
                    }
                    return Ok(out);
                }
            },
            _ => {
                let t = raw[i].into_owned();
                let ghost before = out@;
                out.push(t);
                assert(tokens_model(out@) =~= tokens_model(before).push(rawm[i as int]));
                last = kind;
                i = i + 1;
            },
        }
    }
    Ok(out)
}

} // verus!
