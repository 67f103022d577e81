//! The tokens of the declaration language and the lexer that produces them.
use crate::syntax::{BitSize, Primitive, Signedness};
use vstd::prelude::*;

verus! {

/// The kind of a token.
#[derive(Clone, Copy, PartialEq, Eq, Structural, Debug)]
pub enum TokKind {
    Ident,
    Dot,
    Comma,
    LBracket,
    RBracket,
    Arrow,
    Colon,
    Semi,
    LBrace,
    RBrace,
    Equals,
    KwType,
    KwRecord,
    KwSum,
    KwFintype,
    Prim(Primitive),
}

/// A token with the half-open range of character offsets it was read from.
#[derive(Clone, Copy, PartialEq, Eq, Structural, Debug)]
pub struct Token {
    pub kind: TokKind,
    pub start: usize,
    pub end: usize,
}

pub open spec fn is_space(c: char) -> bool {
    c == ' ' || c == '\t' || c == '\n' || c == '\r'
}

pub open spec fn is_ident_start(c: char) -> bool {
    ('a' <= c && c <= 'z') || ('A' <= c && c <= 'Z') || c == '_'
}

pub open spec fn is_ident_char(c: char) -> bool {
    is_ident_start(c) || ('0' <= c && c <= '9')
}

/// The end of the run of identifier characters that starts at `i`.
pub open spec fn ident_end(s: Seq<char>, i: nat) -> nat
    decreases s.len() - i,
{
    if i < s.len() && is_ident_char(s[i as int]) {
        ident_end(s, i + 1)
    } else {
        i
    }
}

pub proof fn lemma_ident_end(s: Seq<char>, i: nat)
    requires
        i <= s.len(),
    ensures
        i <= ident_end(s, i) <= s.len(),
        forall|k: int| i <= k < ident_end(s, i) ==> is_ident_char(#[trigger] s[k]),
        ident_end(s, i) < s.len() ==> !is_ident_char(s[ident_end(s, i) as int]),
    decreases s.len() - i,
{
    if i < s.len() && is_ident_char(s[i as int]) {
        lemma_ident_end(s, i + 1);
    }
}

/// The primitive type that a reserved word names, if any.
pub open spec fn prim_word(w: Seq<char>) -> Option<Primitive> {
    if w == "i32"@ {
        Some(Primitive::Int(Signedness::Signed, BitSize::B32))
    } else if w == "i64"@ {
        Some(Primitive::Int(Signedness::Signed, BitSize::B64))
    } else if w == "u32"@ {
        Some(Primitive::Int(Signedness::Unsigned, BitSize::B32))
    } else if w == "u64"@ {
        Some(Primitive::Int(Signedness::Unsigned, BitSize::B64))
    } else if w == "f32"@ {
        Some(Primitive::Float(BitSize::B32))
    } else if w == "f64"@ {
        Some(Primitive::Float(BitSize::B64))
    } else if w == "string"@ {
        Some(Primitive::String)
    } else if w == "bool"@ {
        Some(Primitive::Bool)
    } else if w == "unit"@ {
        Some(Primitive::Unit)
    } else if w == "void"@ {
        Some(Primitive::Void)
    } else {
        None
    }
}

/// The kind of the token that a word of identifier characters makes.
pub open spec fn word_kind(w: Seq<char>) -> TokKind {
    if w == "type"@ {
        TokKind::KwType
    } else if w == "record"@ {
        TokKind::KwRecord
    } else if w == "sum"@ {
        TokKind::KwSum
    } else if w == "fintype"@ {
        TokKind::KwFintype
    } else if let Some(p) = prim_word(w) {
        TokKind::Prim(p)
    } else {
        TokKind::Ident
    }
}

/// The kind of a one-character punctuation token.
pub open spec fn punct_kind(c: char) -> Option<TokKind> {
    if c == '.' {
        Some(TokKind::Dot)
    } else if c == ',' {
        Some(TokKind::Comma)
    } else if c == '[' {
        Some(TokKind::LBracket)
    } else if c == ']' {
        Some(TokKind::RBracket)
    } else if c == ':' {
        Some(TokKind::Colon)
    } else if c == ';' {
        Some(TokKind::Semi)
    } else if c == '{' {
        Some(TokKind::LBrace)
    } else if c == '}' {
        Some(TokKind::RBrace)
    } else if c == '=' {
        Some(TokKind::Equals)
    } else {
        None
    }
}

pub open spec fn tok(kind: TokKind, start: nat, end: nat) -> Token {
    Token { kind, start: start as usize, end: end as usize }
}

/// Prefix `p` to the tokens of a successful lexing; keep an error as it is.
pub open spec fn prepend(p: Seq<Token>, r: Result<Seq<Token>, nat>) -> Result<Seq<Token>, nat> {
    match r {
        Ok(t) => Ok(p + t),
        Err(e) => Err(e),
    }
}

/// The tokens of `s` from offset `i` on, or the offset of the first character
/// that starts no token. Whitespace separates tokens; an identifier is a
/// letter or `_` followed by letters, digits and `_`, and is a keyword where
/// its text is one.
pub open spec fn lex_from(s: Seq<char>, i: nat) -> Result<Seq<Token>, nat>
    decreases s.len() - i,
    via lex_from_decreases
{
    if i >= s.len() {
        Ok(Seq::empty())
    } else if is_space(s[i as int]) {
        lex_from(s, i + 1)
    } else if is_ident_start(s[i as int]) {
        let j = ident_end(s, i + 1);
        prepend(seq![tok(word_kind(s.subrange(i as int, j as int)), i, j)], lex_from(s, j))
    } else if s[i as int] == '-' && i + 1 < s.len() && s[i + 1int] == '>' {
        prepend(seq![tok(TokKind::Arrow, i, i + 2)], lex_from(s, i + 2))
    } else if let Some(k) = punct_kind(s[i as int]) {
        prepend(seq![tok(k, i, i + 1)], lex_from(s, i + 1))
    } else {
        Err(i)
    }
}

#[via_fn]
proof fn lex_from_decreases(s: Seq<char>, i: nat) {
    if i < s.len() && !is_space(s[i as int]) && is_ident_start(s[i as int]) {
        lemma_ident_end(s, i + 1);
    }
}

/// The tokens of the whole text, or the offset of the first character that
/// starts no token.
pub open spec fn lex_spec(s: Seq<char>) -> Result<Seq<Token>, nat> {
    lex_from(s, 0)
}

/// Each token is a non-empty range within the first `n` characters, and
/// there are at most `n` tokens.
pub open spec fn tokens_within(t: Seq<Token>, n: nat) -> bool {
    &&& t.len() <= n
    &&& forall|k: int| 0 <= k < t.len() ==> #[trigger] t[k].start < t[k].end && t[k].end <= n
}

/// Each identifier token spans identifier characters only.
pub open spec fn idents_plain(t: Seq<Token>, s: Seq<char>) -> bool {
    forall|k: int, m: int|
        0 <= k < t.len() && #[trigger] t[k].kind == TokKind::Ident && t[k].start <= m < t[k].end
            ==> is_ident_char(#[trigger] s[m])
}

proof fn lemma_plain_push(t: Seq<Token>, x: Token, s: Seq<char>)
    requires
        idents_plain(t, s),
        x.kind == TokKind::Ident ==> forall|m: int| x.start <= m < x.end ==> is_ident_char(#[trigger] s[m]),
    ensures
        idents_plain(t.push(x), s),
{
    assert forall|k: int, m: int|
        0 <= k < t.len() + 1 && #[trigger] t.push(x)[k].kind == TokKind::Ident && t.push(x)[k].start
            <= m < t.push(x)[k].end implies is_ident_char(#[trigger] s[m]) by {
        if k < t.len() {
            assert(t.push(x)[k] == t[k]);
        }
    }
}

proof fn lemma_within_push(t: Seq<Token>, x: Token, n: nat, m: nat)
    requires
        tokens_within(t, n),
        n < m,
        x.start < x.end <= m,
    ensures
        tokens_within(t.push(x), m),
{
    assert forall|k: int| 0 <= k < t.len() + 1 implies #[trigger] t.push(x)[k].start < t.push(
        x,
    )[k].end && t.push(x)[k].end <= m by {
        if k < t.len() {
            assert(t.push(x)[k] == t[k]);
        }
    }
}

/// A non-empty run of identifier characters that starts with a letter or `_`.
pub open spec fn is_word(w: Seq<char>) -> bool {
    &&& w.len() > 0
    &&& is_ident_start(w[0])
    &&& forall|k: int| 0 <= k < w.len() ==> is_ident_char(#[trigger] w[k])
}

proof fn lemma_ident_end_all(s: Seq<char>, i: nat)
    requires
        i <= s.len(),
        forall|k: int| 0 <= k < s.len() ==> is_ident_char(#[trigger] s[k]),
    ensures
        ident_end(s, i) == s.len(),
    decreases s.len() - i,
{
    if i < s.len() {
        lemma_ident_end_all(s, i + 1);
    }
}

/// A text that is one word lexes to the single token of that word.
pub proof fn lemma_lex_word(w: Seq<char>)
    requires
        is_word(w),
    ensures
        lex_spec(w) == Ok::<Seq<Token>, nat>(seq![tok(word_kind(w), 0, w.len())]),
{
    lemma_ident_end_all(w, 1);
    assert(w.subrange(0, w.len() as int) =~= w);
    assert(lex_from(w, w.len()) == Ok::<Seq<Token>, nat>(Seq::empty()));
    assert(seq![tok(word_kind(w), 0, w.len())] + Seq::<Token>::empty() =~= seq![
        tok(word_kind(w), 0, w.len()),
    ]);
}

/// The words joined by `.`, as in `a.b.c`.
pub open spec fn join_dots(ws: Seq<Seq<char>>) -> Seq<char>
    decreases ws.len(),
{
    if ws.len() == 0 {
        seq![]
    } else if ws.len() == 1 {
        ws[0]
    } else {
        ws[0] + seq!['.'] + join_dots(ws.drop_first())
    }
}

/// From offset `i` on, `s` is the words joined by `.`.
pub open spec fn dotted_at(s: Seq<char>, i: nat, ws: Seq<Seq<char>>) -> bool
    decreases ws.len(),
{
    let e = i + ws[0].len();
    &&& ws.len() >= 1
    &&& e <= s.len()
    &&& s.subrange(i as int, e as int) == ws[0]
    &&& if ws.len() == 1 {
        e == s.len()
    } else {
        e < s.len() && s[e as int] == '.' && dotted_at(s, e + 1, ws.drop_first())
    }
}

/// The tokens of the words joined by `.`, from offset `i` on.
pub open spec fn dotted_tokens(ws: Seq<Seq<char>>, i: nat) -> Seq<Token>
    decreases ws.len(),
{
    if ws.len() == 0 {
        seq![]
    } else {
        let e = i + ws[0].len();
        if ws.len() == 1 {
            seq![tok(TokKind::Ident, i, e)]
        } else {
            seq![tok(TokKind::Ident, i, e), tok(TokKind::Dot, e, e + 1)] + dotted_tokens(
                ws.drop_first(),
                e + 1,
            )
        }
    }
}

/// Identifiers that are no keyword.
pub open spec fn plain_words(ws: Seq<Seq<char>>) -> bool {
    forall|k: int| 0 <= k < ws.len() ==> is_word(#[trigger] ws[k]) && word_kind(ws[k]) == TokKind::Ident
}

proof fn lemma_join_dotted(a: Seq<char>, ws: Seq<Seq<char>>)
    requires
        ws.len() >= 1,
    ensures
        dotted_at(a + join_dots(ws), a.len(), ws),
    decreases ws.len(),
{
    let s = a + join_dots(ws);
    let e = a.len() + ws[0].len();
    if ws.len() == 1 {
        assert(s.subrange(a.len() as int, e as int) =~= ws[0]);
    } else {
        let a2 = a + ws[0] + seq!['.'];
        lemma_join_dotted(a2, ws.drop_first());
        assert(a2 + join_dots(ws.drop_first()) =~= s);
        assert(s.subrange(a.len() as int, e as int) =~= ws[0]);
        assert(s[e as int] == '.');
    }
}

proof fn lemma_ident_end_run(s: Seq<char>, k: nat, e: nat)
    requires
        k <= e <= s.len(),
        forall|m: int| k <= m < e ==> is_ident_char(#[trigger] s[m]),
        e == s.len() || !is_ident_char(s[e as int]),
    ensures
        ident_end(s, k) == e,
    decreases e - k,
{
    if k < e {
        lemma_ident_end_run(s, k + 1, e);
    }
}

proof fn lemma_lex_dotted(s: Seq<char>, i: nat, ws: Seq<Seq<char>>)
    requires
        dotted_at(s, i, ws),
        plain_words(ws),
    ensures
        lex_from(s, i) == Ok::<Seq<Token>, nat>(dotted_tokens(ws, i)),
    decreases ws.len(),
{
    let w = ws[0];
    let e = i + w.len();
    assert(is_word(w) && word_kind(w) == TokKind::Ident);
    assert forall|m: int| i + 1 <= m < e implies is_ident_char(#[trigger] s[m]) by {
        assert(s[m] == s.subrange(i as int, e as int)[m - i]);
    }
    assert(s[i as int] == w[0]);
    lemma_ident_end_run(s, i + 1, e);
    let t0 = tok(TokKind::Ident, i, e);
    if ws.len() == 1 {
        assert(lex_from(s, e) == Ok::<Seq<Token>, nat>(Seq::empty()));
        assert(seq![t0] + Seq::<Token>::empty() =~= seq![t0]);
    } else {
        let rest = ws.drop_first();
        assert forall|k: int| 0 <= k < rest.len() implies is_word(#[trigger] rest[k]) && word_kind(
            rest[k],
        ) == TokKind::Ident by {
            assert(rest[k] == ws[k + 1]);
        }
        lemma_lex_dotted(s, e + 1, rest);
        let t1 = tok(TokKind::Dot, e, e + 1);
        assert(lex_from(s, e) == prepend(seq![t1], lex_from(s, e + 1)));
        assert(seq![t0] + (seq![t1] + dotted_tokens(rest, e + 1)) =~= seq![t0, t1] + dotted_tokens(
            rest,
            e + 1,
        ));
    }
}

/// The words joined by `.` lex to identifier, `.`, identifier, ... tokens.
pub proof fn lemma_lex_join_dots(ws: Seq<Seq<char>>)
    requires
        ws.len() >= 1,
        plain_words(ws),
    ensures
        dotted_at(join_dots(ws), 0, ws),
        lex_spec(join_dots(ws)) == Ok::<Seq<Token>, nat>(dotted_tokens(ws, 0)),
{
    lemma_join_dotted(seq![], ws);
    assert(Seq::<char>::empty() + join_dots(ws) =~= join_dots(ws));
    lemma_lex_dotted(join_dots(ws), 0, ws);
}

/// The tokens of dotted words alternate identifier and `.`, and each
/// identifier token spans its word.
pub proof fn lemma_dotted_tokens_shape(s: Seq<char>, i: nat, ws: Seq<Seq<char>>)
    requires
        dotted_at(s, i, ws),
        s.len() <= usize::MAX,
    ensures
        ({
            let t = dotted_tokens(ws, i);
            &&& t.len() == 2 * ws.len() - 1
            &&& forall|k: int|
                0 <= k < t.len() ==> (#[trigger] t[k]).kind == (if k % 2 == 0 {
                    TokKind::Ident
                } else {
                    TokKind::Dot
                })
            &&& forall|k: int|
                0 <= k < ws.len() ==> s.subrange(t[2 * k].start as int, t[2 * k].end as int)
                    == #[trigger] ws[k]
        }),
    decreases ws.len(),
{
    let t = dotted_tokens(ws, i);
    let e = i + ws[0].len();
    if ws.len() > 1 {
        let rest = ws.drop_first();
        let t2 = dotted_tokens(rest, e + 1);
        lemma_dotted_tokens_shape(s, e + 1, rest);
        assert forall|k: int| 0 <= k < t.len() implies (#[trigger] t[k]).kind == (if k % 2 == 0 {
            TokKind::Ident
        } else {
            TokKind::Dot
        }) by {
            if k >= 2 {
                assert(t[k] == t2[k - 2]);
            }
        }
        assert forall|k: int| 0 <= k < ws.len() implies s.subrange(
            t[2 * k].start as int,
            t[2 * k].end as int,
        ) == #[trigger] ws[k] by {
            if k >= 1 {
                assert(t[2 * k] == t2[2 * (k - 1)]);
                assert(ws[k] == rest[k - 1]);
            }
        }
    }
}

/// A text that lexes holds ASCII characters only, so its character offsets
/// are its byte offsets.
pub proof fn lemma_lexed_is_ascii(s: Seq<char>, i: nat)
    requires
        i <= s.len(),
        lex_from(s, i) is Ok,
    ensures
        forall|k: int| i <= k < s.len() ==> #[trigger] s[k] < '\u{80}',
    decreases s.len() - i,
{
    if i < s.len() {
        let c = s[i as int];
        if is_space(c) {
            lemma_lexed_is_ascii(s, i + 1);
        } else if is_ident_start(c) {
            let j = ident_end(s, i + 1);
            lemma_ident_end(s, i + 1);
            lemma_lexed_is_ascii(s, j);
        } else if c == '-' && i + 1 < s.len() && s[i + 1int] == '>' {
            lemma_lexed_is_ascii(s, i + 2);
        } else {
            lemma_lexed_is_ascii(s, i + 1);
        }
    }
}

/// Whether `src[start..end]` is the text `w`.
fn text_is(src: &str, start: usize, end: usize, w: &str) -> (r: bool)
    requires
        start <= end <= src@.len(),
    ensures
        r == (src@.subrange(start as int, end as int) == w@),
{
    let n = w.unicode_len();
    if end - start != n {
        return false;
    }
    let mut k: usize = 0;
    while k < n
        invariant
            n == w@.len(),
            end - start == n,
            start <= end <= src@.len(),
            k <= n,
            forall|m: int| 0 <= m < k ==> src@[start + m] == w@[m],
        decreases n - k,
    {
        if src.get_char(start + k) != w.get_char(k) {
            assert(src@.subrange(start as int, end as int)[k as int] != w@[k as int]);
            return false;
        }
        k = k + 1;
    }
    assert(src@.subrange(start as int, end as int) =~= w@);
    true
}

fn prim_of_word(src: &str, start: usize, end: usize) -> (r: Option<Primitive>)
    requires
        start <= end <= src@.len(),
    ensures
        r == prim_word(src@.subrange(start as int, end as int)),
{
    if text_is(src, start, end, "i32") {
        Some(Primitive::Int(Signedness::Signed, BitSize::B32))
    } else if text_is(src, start, end, "i64") {
        Some(Primitive::Int(Signedness::Signed, BitSize::B64))
    } else if text_is(src, start, end, "u32") {
        Some(Primitive::Int(Signedness::Unsigned, BitSize::B32))
    } else if text_is(src, start, end, "u64") {
        Some(Primitive::Int(Signedness::Unsigned, BitSize::B64))
    } else if text_is(src, start, end, "f32") {
        Some(Primitive::Float(BitSize::B32))
    } else if text_is(src, start, end, "f64") {
        Some(Primitive::Float(BitSize::B64))
    } else if text_is(src, start, end, "string") {
        Some(Primitive::String)
    } else if text_is(src, start, end, "bool") {
        Some(Primitive::Bool)
    } else if text_is(src, start, end, "unit") {
        Some(Primitive::Unit)
    } else if text_is(src, start, end, "void") {
        Some(Primitive::Void)
    } else {
        None
    }
}

fn kind_of_word(src: &str, start: usize, end: usize) -> (r: TokKind)
    requires
        start <= end <= src@.len(),
    ensures
        r == word_kind(src@.subrange(start as int, end as int)),
{
    if text_is(src, start, end, "type") {
        TokKind::KwType
    } else if text_is(src, start, end, "record") {
        TokKind::KwRecord
    } else if text_is(src, start, end, "sum") {
        TokKind::KwSum
    } else if text_is(src, start, end, "fintype") {
        TokKind::KwFintype
    } else if let Some(p) = prim_of_word(src, start, end) {
        TokKind::Prim(p)
    } else {
        TokKind::Ident
    }
}

fn punct_of(c: char) -> (r: Option<TokKind>)
    ensures
        r == punct_kind(c),
{
    if c == '.' {
        Some(TokKind::Dot)
    } else if c == ',' {
        Some(TokKind::Comma)
    } else if c == '[' {
        Some(TokKind::LBracket)
    } else if c == ']' {
        Some(TokKind::RBracket)
    } else if c == ':' {
        Some(TokKind::Colon)
    } else if c == ';' {
        Some(TokKind::Semi)
    } else if c == '{' {
        Some(TokKind::LBrace)
    } else if c == '}' {
        Some(TokKind::RBrace)
    } else if c == '=' {
        Some(TokKind::Equals)
    } else {
        None
    }
}

fn ident_char(c: char) -> (r: bool)
    ensures
        r == is_ident_char(c),
{
    ('a' <= c && c <= 'z') || ('A' <= c && c <= 'Z') || c == '_' || ('0' <= c && c <= '9')
}

/// Splits `src` into tokens. Fails with the offset of the first character
/// that starts no token.
pub fn lex(src: &str) -> (r: Result<Vec<Token>, usize>)
    ensures
        match lex_spec(src@) {
            Ok(ts) => r is Ok && r->Ok_0@ == ts,
            Err(p) => r is Err && r->Err_0 as nat == p,
        },
        r is Ok ==> tokens_within(r->Ok_0@, src@.len()),
        r is Ok ==> idents_plain(r->Ok_0@, src@),
{
    let n = src.unicode_len();
    let ghost s = src@;
    let mut out: Vec<Token> = Vec::new();
    let mut i: usize = 0;
    while i < n
        invariant
            n == s.len(),
            s == src@,
            i <= n,
            lex_from(s, 0) == prepend(out@, lex_from(s, i as nat)),
            tokens_within(out@, i as nat),
            idents_plain(out@, s),
        decreases n - i,
    {
        let c = src.get_char(i);
        if c == ' ' || c == '\t' || c == '\n' || c == '\r' {
            i = i + 1;
        } else if ('a' <= c && c <= 'z') || ('A' <= c && c <= 'Z') || c == '_' {
            let mut j: usize = i + 1;
            while j < n && ident_char(src.get_char(j))
                invariant
                    n == s.len(),
                    s == src@,
                    i < j <= n,
                    ident_end(s, j as nat) == ident_end(s, (i + 1) as nat),
                    forall|m: int| i <= m < j ==> is_ident_char(#[trigger] s[m]),
                decreases n - j,
            {
                j = j + 1;
            }
            let kind = kind_of_word(src, i, j);
            let t = Token { kind, start: i, end: j };
            proof {
                let rest = lex_from(s, j as nat);
                assert(t == tok(word_kind(s.subrange(i as int, j as int)), i as nat, j as nat));
                match rest {
                    Ok(ts) => assert(out@ + (seq![t] + ts) =~= out@.push(t) + ts),
                    Err(_) => {},
                }
            }
            proof {
                lemma_within_push(out@, t, i as nat, (t.end) as nat);
                lemma_plain_push(out@, t, s);
            }
            out.push(t);
            i = j;
        } else if c == '-' && i + 1 < n && src.get_char(i + 1) == '>' {
            let t = Token { kind: TokKind::Arrow, start: i, end: i + 2 };
            proof {
                match lex_from(s, (i + 2) as nat) {
                    Ok(ts) => assert(out@ + (seq![t] + ts) =~= out@.push(t) + ts),
                    Err(_) => {},
                }
            }
            proof {
                lemma_within_push(out@, t, i as nat, (t.end) as nat);
                lemma_plain_push(out@, t, s);
            }
            out.push(t);
            i = i + 2;
        } else if let Some(k) = punct_of(c) {
            let t = Token { kind: k, start: i, end: i + 1 };
            proof {
                match lex_from(s, (i + 1) as nat) {
                    Ok(ts) => assert(out@ + (seq![t] + ts) =~= out@.push(t) + ts),
                    Err(_) => {},
                }
            }
            proof {
                lemma_within_push(out@, t, i as nat, (t.end) as nat);
                lemma_plain_push(out@, t, s);
            }
            out.push(t);
            i = i + 1;
        } else {
            return Err(i);
        }
    }
    assert(out@ + Seq::<Token>::empty() =~= out@);
    Ok(out)
}

} // verus!
