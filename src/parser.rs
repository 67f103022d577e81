//! The grammar of type declarations, as functions on the token sequence, and
//! the recursive-descent parser that follows it.
//!
//! ```text
//! expr     := chain ("->" expr)?
//! chain    := atom ("[" expr ("," expr)* "]")*
//! atom     := IDENT ("." IDENT)* | "fintype" | primitive
//! fields   := (IDENT ":" expr ";")*
//! variants := (IDENT "{" fields "}" ";")*
//! decl     := "type" IDENT "=" expr ";"
//!           | "record" IDENT "{" fields "}" ";"?
//!           | "sum" IDENT "{" variants "}" ";"?
//! ```
use crate::error::InterTypeError;
use crate::lexer::{
    idents_plain, is_ident_char, dotted_tokens, is_word, join_dots, lemma_dotted_tokens_shape, lemma_lex_join_dots,
    lemma_lex_word, lex, lex_spec, plain_words, prim_word, tok, tokens_within, word_kind,
    TokKind, Token,
};
use crate::pprint::prim_text;
use crate::syntax::{
    lemma_intern_extends, args_issued, expr_issued, fields_issued, intern_spec, names_issued, sexpr_issued,
    typedef_issued, variants_issued, no_newline, view_args, view_expr, view_field, view_fields, view_name,
    view_names, view_sexpr, view_typedef, view_typedefs, view_variant, view_variants, BitSize,
    BodyV, ExprV, Field, FieldV, NameV, ParserState, Primitive, SExprV, Signedness, Span, Spanned,
    Sym, TypeDef, TypeDefBody, TypeDefV, TypeExpr, Variant, VariantV,
};
use vstd::prelude::*;

verus! {

broadcast use vstd::std_specs::vec::group_vec_axioms;

/// Why a parse failed: at the first character that starts no token, at the
/// first token that the grammar does not allow, or at a premature end.
#[derive(Clone, Copy, PartialEq, Eq, Structural, Debug)]
pub enum ParseError {
    InvalidChar { offset: usize },
    UnexpectedToken { token: Token },
    UnexpectedEnd,
}

/// A parsed value and the index of the token after it, or the index of the
/// token where parsing failed.
pub type Parsed<A> = Result<(A, nat), nat>;

pub open spec fn is_kind(t: Seq<Token>, i: nat, k: TokKind) -> bool {
    i < t.len() && t[i as int].kind == k
}

/// From the start of token `i` to the end of token `j - 1`.
pub open spec fn span_of(t: Seq<Token>, i: nat, j: nat) -> Span {
    Span { start: t[i as int].start, end: t[j - 1].end }
}

/// The text and span of token `i`.
pub open spec fn name_at(s: Seq<char>, t: Seq<Token>, i: nat) -> NameV {
    (
        s.subrange(t[i as int].start as int, t[i as int].end as int),
        Span { start: t[i as int].start, end: t[i as int].end },
    )
}

/// A result that ends after `i` and within the tokens, or else an error at `i`.
pub open spec fn advance<A>(i: nat, n: nat, r: Parsed<A>) -> Parsed<A> {
    match r {
        Ok((v, j)) => if i < j <= n {
            Ok((v, j))
        } else {
            Err(i)
        },
        Err(e) => Err(e),
    }
}

pub open spec fn cons<A>(x: A, r: Parsed<Seq<A>>) -> Parsed<Seq<A>> {
    match r {
        Ok((xs, j)) => Ok((seq![x] + xs, j)),
        Err(e) => Err(e),
    }
}

/// `("." IDENT)*` from token `i`.
pub open spec fn parse_segs(s: Seq<char>, t: Seq<Token>, i: nat) -> Parsed<Seq<NameV>>
    decreases t.len() - i,
{
    if is_kind(t, i, TokKind::Dot) {
        if is_kind(t, i + 1, TokKind::Ident) {
            cons(name_at(s, t, i + 1), parse_segs(s, t, i + 2))
        } else {
            Err(i + 1)
        }
    } else {
        Ok((seq![], i))
    }
}

pub open spec fn parse_atom(s: Seq<char>, t: Seq<Token>, i: nat) -> Parsed<SExprV> {
    if i >= t.len() {
        Err(i)
    } else {
        match t[i as int].kind {
            TokKind::Ident => match parse_segs(s, t, i + 1) {
                Ok((segs, j)) => Ok(
                    (SExprV { expr: ExprV::Path(name_at(s, t, i), segs), span: span_of(t, i, j) }, j),
                ),
                Err(e) => Err(e),
            },
            TokKind::KwFintype => Ok((SExprV { expr: ExprV::FinType, span: span_of(t, i, i + 1) }, i + 1)),
            TokKind::Prim(p) => Ok((SExprV { expr: ExprV::Prim(p), span: span_of(t, i, i + 1) }, i + 1)),
            _ => Err(i),
        }
    }
}

/// A type expression from token `i`; arrows associate to the right.
pub open spec fn parse_expr(s: Seq<char>, t: Seq<Token>, i: nat) -> Parsed<SExprV>
    decreases t.len() - i, 2nat,
{
    match advance(i, t.len(), parse_chain(s, t, i)) {
        Ok((b, k)) => if is_kind(t, k, TokKind::Arrow) {
            match parse_expr(s, t, k + 1) {
                Ok((c, m)) => Ok(
                    (
                        SExprV {
                            expr: ExprV::Arrow(Box::new(b), Box::new(c)),
                            span: span_of(t, i, m),
                        },
                        m,
                    ),
                ),
                Err(e) => Err(e),
            }
        } else {
            Ok((b, k))
        },
        Err(e) => Err(e),
    }
}

/// An atom followed by any number of argument lists.
pub open spec fn parse_chain(s: Seq<char>, t: Seq<Token>, i: nat) -> Parsed<SExprV>
    decreases t.len() - i, 1nat,
{
    match advance(i, t.len(), parse_atom(s, t, i)) {
        Ok((a, j)) => parse_apps(s, t, i, a, j),
        Err(e) => Err(e),
    }
}

/// Argument lists from token `j`, applied in turn to `base`, which started
/// at token `start`.
pub open spec fn parse_apps(s: Seq<char>, t: Seq<Token>, start: nat, base: SExprV, j: nat) -> Parsed<
    SExprV,
>
    decreases t.len() - j, 0nat,
{
    if is_kind(t, j, TokKind::LBracket) {
        match advance(j + 1, t.len(), parse_args(s, t, j + 1)) {
            Ok((args, k)) => parse_apps(
                s,
                t,
                start,
                SExprV { expr: ExprV::App(Box::new(base), args), span: span_of(t, start, k) },
                k,
            ),
            Err(e) => Err(e),
        }
    } else {
        Ok((base, j))
    }
}

/// `expr ("," expr)* "]"` from token `i`.
pub open spec fn parse_args(s: Seq<char>, t: Seq<Token>, i: nat) -> Parsed<Seq<SExprV>>
    decreases t.len() - i, 3nat,
{
    match advance(i, t.len(), parse_expr(s, t, i)) {
        Ok((e, j)) => if is_kind(t, j, TokKind::Comma) {
            cons(e, parse_args(s, t, j + 1))
        } else if is_kind(t, j, TokKind::RBracket) {
            Ok((seq![e], j + 1))
        } else {
            Err(j)
        },
        Err(e) => Err(e),
    }
}

/// The symbols of the identifier tokens: each one issued, with the token's
/// text.
pub open spec fn syms_match(
    s: Seq<char>,
    t: Seq<Token>,
    syms: Seq<Option<Sym>>,
    strs: Seq<Seq<char>>,
) -> bool {
    &&& syms.len() == t.len()
    &&& forall|k: int|
        0 <= k < t.len() && #[trigger] t[k].kind == TokKind::Ident ==> syms[k] is Some
            && syms[k]->0.index() < strs.len() && strs[syms[k]->0.index() as int] == s.subrange(
            t[k].start as int,
            t[k].end as int,
        )
}

/// `(IDENT ":" expr ";")*` from token `i`, up to the first token that is not
/// an identifier.
pub open spec fn parse_fields(s: Seq<char>, t: Seq<Token>, i: nat) -> Parsed<Seq<FieldV>>
    decreases t.len() - i,
{
    if is_kind(t, i, TokKind::Ident) {
        if is_kind(t, i + 1, TokKind::Colon) {
            match advance(i + 2, t.len(), parse_expr(s, t, i + 2)) {
                Ok((e, j)) => if is_kind(t, j, TokKind::Semi) {
                    cons(FieldV { name: name_at(s, t, i), typ: e }, parse_fields(s, t, j + 1))
                } else {
                    Err(j)
                },
                Err(e) => Err(e),
            }
        } else {
            Err(i + 1)
        }
    } else {
        Ok((seq![], i))
    }
}

/// `(IDENT "{" fields "}" ";")*` from token `i`, up to the first token that
/// is not an identifier.
pub open spec fn parse_variants(s: Seq<char>, t: Seq<Token>, i: nat) -> Parsed<Seq<VariantV>>
    decreases t.len() - i,
{
    if is_kind(t, i, TokKind::Ident) {
        if is_kind(t, i + 1, TokKind::LBrace) {
            match advance(i + 1, t.len(), parse_fields(s, t, i + 2)) {
                Ok((fs, j)) => if !is_kind(t, j, TokKind::RBrace) {
                    Err(j)
                } else if !is_kind(t, j + 1, TokKind::Semi) {
                    Err(j + 1)
                } else {
                    cons(VariantV { name: name_at(s, t, i), fields: fs }, parse_variants(s, t, j + 2))
                },
                Err(e) => Err(e),
            }
        } else {
            Err(i + 1)
        }
    } else {
        Ok((seq![], i))
    }
}

/// After the closing brace at `j - 1` of a record or sum: one optional `;`.
pub open spec fn decl_end(t: Seq<Token>, j: nat) -> nat {
    if is_kind(t, j, TokKind::Semi) {
        j + 1
    } else {
        j
    }
}

/// One declaration from token `i`.
pub open spec fn parse_decl(s: Seq<char>, t: Seq<Token>, i: nat) -> Parsed<TypeDefV> {
    if !is_kind(t, i, TokKind::KwType) && !is_kind(t, i, TokKind::KwRecord) && !is_kind(
        t,
        i,
        TokKind::KwSum,
    ) {
        Err(i)
    } else if !is_kind(t, i + 1, TokKind::Ident) {
        Err(i + 1)
    } else if is_kind(t, i, TokKind::KwType) {
        if !is_kind(t, i + 2, TokKind::Equals) {
            Err(i + 2)
        } else {
            match parse_expr(s, t, i + 3) {
                Ok((e, j)) => if is_kind(t, j, TokKind::Semi) {
                    Ok(
                        (
                            TypeDefV { name: name_at(s, t, i + 1), args: seq![], body: BodyV::Alias(e) },
                            j + 1,
                        ),
                    )
                } else {
                    Err(j)
                },
                Err(e) => Err(e),
            }
        }
    } else if !is_kind(t, i + 2, TokKind::LBrace) {
        Err(i + 2)
    } else if is_kind(t, i, TokKind::KwRecord) {
        match parse_fields(s, t, i + 3) {
            Ok((fs, j)) => if is_kind(t, j, TokKind::RBrace) {
                Ok(
                    (
                        TypeDefV { name: name_at(s, t, i + 1), args: seq![], body: BodyV::Record(fs) },
                        decl_end(t, j + 1),
                    ),
                )
            } else {
                Err(j)
            },
            Err(e) => Err(e),
        }
    } else {
        match parse_variants(s, t, i + 3) {
            Ok((vs, j)) => if is_kind(t, j, TokKind::RBrace) {
                Ok(
                    (
                        TypeDefV { name: name_at(s, t, i + 1), args: seq![], body: BodyV::Sum(vs) },
                        decl_end(t, j + 1),
                    ),
                )
            } else {
                Err(j)
            },
            Err(e) => Err(e),
        }
    }
}

/// Declarations from token `i` to the end.
pub open spec fn parse_decls(s: Seq<char>, t: Seq<Token>, i: nat) -> Parsed<Seq<TypeDefV>>
    decreases t.len() - i,
{
    if i >= t.len() {
        Ok((seq![], i))
    } else {
        match advance(i, t.len(), parse_decl(s, t, i)) {
            Ok((d, j)) => cons(d, parse_decls(s, t, j)),
            Err(e) => Err(e),
        }
    }
}

/// The error at token `k`, or at the end where there is no such token.
pub open spec fn token_error(t: Seq<Token>, k: nat) -> ParseError {
    if k < t.len() {
        ParseError::UnexpectedToken { token: t[k as int] }
    } else {
        ParseError::UnexpectedEnd
    }
}

/// A parse of the whole token sequence.
pub open spec fn complete<A>(t: Seq<Token>, p: Parsed<A>) -> Result<A, ParseError> {
    match p {
        Ok((v, j)) => if j == t.len() {
            Ok(v)
        } else {
            Err(token_error(t, j))
        },
        Err(k) => Err(token_error(t, k)),
    }
}

/// The type expression that the whole of `s` denotes.
pub open spec fn type_expr_spec(s: Seq<char>) -> Result<ExprV, ParseError> {
    match lex_spec(s) {
        Err(p) => Err(ParseError::InvalidChar { offset: p as usize }),
        Ok(t) => match complete(t, parse_expr(s, t, 0)) {
            Ok(e) => Ok(e.expr),
            Err(e) => Err(e),
        },
    }
}

/// The one declaration that the whole of `s` holds.
pub open spec fn type_def_spec(s: Seq<char>) -> Result<TypeDefV, ParseError> {
    match lex_spec(s) {
        Err(p) => Err(ParseError::InvalidChar { offset: p as usize }),
        Ok(t) => complete(t, parse_decl(s, t, 0)),
    }
}

/// The declarations that the whole of `s` holds.
pub open spec fn type_decls_spec(s: Seq<char>) -> Result<Seq<TypeDefV>, ParseError> {
    match lex_spec(s) {
        Err(p) => Err(ParseError::InvalidChar { offset: p as usize }),
        Ok(t) => complete(t, parse_decls(s, t, 0)),
    }
}

/// The texts of the identifier tokens, in order.
pub open spec fn ident_words(s: Seq<char>, t: Seq<Token>) -> Seq<Seq<char>>
    decreases t.len(),
{
    if t.len() == 0 {
        seq![]
    } else {
        let last = t.last();
        let w = ident_words(s, t.drop_last());
        if last.kind == TokKind::Ident {
            w.push(s.subrange(last.start as int, last.end as int))
        } else {
            w
        }
    }
}

/// The table after interning each of `ws` in turn.
pub open spec fn intern_all(strs: Seq<Seq<char>>, ws: Seq<Seq<char>>) -> Seq<Seq<char>>
    decreases ws.len(),
{
    if ws.len() == 0 {
        strs
    } else {
        intern_spec(intern_all(strs, ws.drop_last()), ws.last()).0
    }
}

/// The interner after a parse of `s`: every identifier of `s` interned in
/// order of appearance, or nothing where `s` does not lex.
pub open spec fn interned_after(strs: Seq<Seq<char>>, s: Seq<char>) -> Seq<Seq<char>> {
    match lex_spec(s) {
        Ok(t) => intern_all(strs, ident_words(s, t)),
        Err(_) => strs,
    }
}

/// What the parsing functions share: the source, its tokens, and for each
/// identifier token its symbol.
pub struct Input<'a> {
    pub src: &'a str,
    pub toks: Vec<Token>,
    pub syms: Vec<Option<Sym>>,
}

impl<'a> Input<'a> {
    pub open spec fn s(&self) -> Seq<char> {
        self.src@
    }

    pub open spec fn t(&self) -> Seq<Token> {
        self.toks@
    }

    pub open spec fn inv(&self, st: &ParserState) -> bool {
        &&& tokens_within(self.toks@, self.src@.len())
        &&& self.toks@.len() <= usize::MAX
        &&& syms_match(self.src@, self.toks@, self.syms@, st.strings())
    }
}

fn kind_is(inp: &Input, i: usize, k: TokKind) -> (r: bool)
    ensures
        r == is_kind(inp.t(), i as nat, k),
{
    i < inp.toks.len() && inp.toks[i].kind == k
}

fn name_tok(inp: &Input, st: &ParserState, i: usize) -> (r: Spanned<Sym>)
    requires
        inp.inv(st),
        is_kind(inp.t(), i as nat, TokKind::Ident),
    ensures
        view_name(r, st.strings()) == name_at(inp.s(), inp.t(), i as nat),
        st.issued(r.val),
{
    let tk = inp.toks[i];
    assert(inp.t()[i as int].kind == TokKind::Ident);
    let sym = inp.syms[i].unwrap();
    Spanned { val: sym, span: Span { start: tk.start, end: tk.end } }
}

/// An executable result agrees with the grammar's result `p` under the view `f`.
pub open spec fn agrees<A, B>(r: Result<(A, usize), usize>, p: Parsed<B>, f: spec_fn(A) -> B) -> bool {
    match p {
        Ok((v, j)) => r is Ok && f(r->Ok_0.0) == v && r->Ok_0.1 as nat == j,
        Err(e) => r is Err && r->Err_0 as nat == e,
    }
}

/// A successful result ends after `i` (at `i` itself where `empty` allows)
/// and within the `n` tokens.
pub open spec fn ends<A>(r: Result<(A, usize), usize>, i: nat, n: nat, empty: bool) -> bool {
    r is Ok ==> (if empty {
        i <= r->Ok_0.1
    } else {
        i < r->Ok_0.1
    }) && r->Ok_0.1 <= n
}

fn p_segs(inp: &Input, st: &ParserState, i: usize) -> (r: Result<(Vec<Spanned<Sym>>, usize), usize>)
    requires
        inp.inv(st),
        i <= inp.t().len(),
    ensures
        agrees(r, parse_segs(inp.s(), inp.t(), i as nat), |v: Vec<Spanned<Sym>>| view_names(v@, st.strings())),
        ends(r, i as nat, inp.t().len(), true),
        r is Ok ==> names_issued(r->Ok_0.0@, st.strings().len()),
    decreases inp.t().len() - i,
{
    if kind_is(inp, i, TokKind::Dot) {
        if kind_is(inp, i + 1, TokKind::Ident) {
            let n = name_tok(inp, st, i + 1);
            match p_segs(inp, st, i + 2) {
                Ok((v, j)) => {
                    let ghost ov = v@;
                    let mut v = v;
                    v.insert(0, n);
                    assert(view_names(v@, st.strings()) =~= seq![view_name(n, st.strings())] + view_names(ov, st.strings()));
                    Ok((v, j))
                },
                Err(e) => Err(e),
            }
        } else {
            Err(i + 1)
        }
    } else {
        let v: Vec<Spanned<Sym>> = Vec::new();
        assert(view_names(v@, st.strings()) =~= seq![]);
        Ok((v, i))
    }
}

fn p_atom(inp: &Input, st: &ParserState, i: usize) -> (r: Result<(Spanned<TypeExpr>, usize), usize>)
    requires
        inp.inv(st),
        i <= inp.t().len(),
    ensures
        agrees(r, parse_atom(inp.s(), inp.t(), i as nat), |e: Spanned<TypeExpr>| view_sexpr(e, st.strings())),
        ends(r, i as nat, inp.t().len(), false),
        r is Ok ==> sexpr_issued(r->Ok_0.0, st.strings().len()),
{
    if i >= inp.toks.len() {
        return Err(i);
    }
    let tk = inp.toks[i];
    match tk.kind {
        TokKind::Ident => {
            let h = name_tok(inp, st, i);
            match p_segs(inp, st, i + 1) {
                Ok((segs, j)) => {
                    let span = Span { start: tk.start, end: inp.toks[j - 1].end };
                    Ok((Spanned { val: TypeExpr::Path(h, segs), span }, j))
                },
                Err(e) => Err(e),
            }
        },
        TokKind::KwFintype => Ok((Spanned { val: TypeExpr::FinType, span: Span { start: tk.start, end: tk.end } }, i + 1)),
        TokKind::Prim(p) => Ok((Spanned { val: TypeExpr::Prim(p), span: Span { start: tk.start, end: tk.end } }, i + 1)),
        _ => Err(i),
    }
}

fn p_expr(inp: &Input, st: &ParserState, i: usize) -> (r: Result<(Spanned<TypeExpr>, usize), usize>)
    requires
        inp.inv(st),
        i <= inp.t().len(),
    ensures
        agrees(r, parse_expr(inp.s(), inp.t(), i as nat), |e: Spanned<TypeExpr>| view_sexpr(e, st.strings())),
        ends(r, i as nat, inp.t().len(), false),
        r is Ok ==> sexpr_issued(r->Ok_0.0, st.strings().len()),
    decreases inp.t().len() - i, 2nat,
{
    let (b, k) = match p_chain(inp, st, i) {
        Ok(x) => x,
        Err(e) => return Err(e),
    };
    if kind_is(inp, k, TokKind::Arrow) {
        match p_expr(inp, st, k + 1) {
            Ok((c, m)) => {
                let span = Span { start: inp.toks[i].start, end: inp.toks[m - 1].end };
                Ok((Spanned { val: TypeExpr::Arrow(Box::new(b), Box::new(c)), span }, m))
            },
            Err(e) => Err(e),
        }
    } else {
        Ok((b, k))
    }
}

fn p_chain(inp: &Input, st: &ParserState, i: usize) -> (r: Result<(Spanned<TypeExpr>, usize), usize>)
    requires
        inp.inv(st),
        i <= inp.t().len(),
    ensures
        agrees(r, parse_chain(inp.s(), inp.t(), i as nat), |e: Spanned<TypeExpr>| view_sexpr(e, st.strings())),
        ends(r, i as nat, inp.t().len(), false),
        r is Ok ==> sexpr_issued(r->Ok_0.0, st.strings().len()),
    decreases inp.t().len() - i, 1nat,
{
    match p_atom(inp, st, i) {
        Ok((a, j)) => p_apps(inp, st, i, a, j),
        Err(e) => Err(e),
    }
}

fn p_apps(inp: &Input, st: &ParserState, start: usize, base: Spanned<TypeExpr>, j: usize) -> (r: Result<(Spanned<TypeExpr>, usize), usize>)
    requires
        inp.inv(st),
        start < j <= inp.t().len(),
        sexpr_issued(base, st.strings().len()),
    ensures
        agrees(r, parse_apps(inp.s(), inp.t(), start as nat, view_sexpr(base, st.strings()), j as nat), |e: Spanned<TypeExpr>| view_sexpr(e, st.strings())),
        ends(r, j as nat, inp.t().len(), true),
        r is Ok ==> sexpr_issued(r->Ok_0.0, st.strings().len()),
    decreases inp.t().len() - j, 0nat,
{
    if kind_is(inp, j, TokKind::LBracket) {
        match p_args(inp, st, j + 1) {
            Ok((args, k)) => {
                let span = Span { start: inp.toks[start].start, end: inp.toks[k - 1].end };
                let e = Spanned { val: TypeExpr::App(Box::new(base), args), span };
                p_apps(inp, st, start, e, k)
            },
            Err(e) => Err(e),
        }
    } else {
        Ok((base, j))
    }
}

fn p_args(inp: &Input, st: &ParserState, i: usize) -> (r: Result<(Vec<Spanned<TypeExpr>>, usize), usize>)
    requires
        inp.inv(st),
        i <= inp.t().len(),
    ensures
        agrees(r, parse_args(inp.s(), inp.t(), i as nat), |v: Vec<Spanned<TypeExpr>>| view_args(v@, st.strings())),
        ends(r, i as nat, inp.t().len(), false),
        r is Ok ==> args_issued(r->Ok_0.0@, st.strings().len()),
    decreases inp.t().len() - i, 3nat,
{
    let (e, j) = match p_expr(inp, st, i) {
        Ok(x) => x,
        Err(e) => return Err(e),
    };
    if kind_is(inp, j, TokKind::Comma) {
        match p_args(inp, st, j + 1) {
            Ok((v, k)) => {
                let ghost ov = v@;
                let ghost ev = view_sexpr(e, st.strings());
                let mut v = v;
                v.insert(0, e);
                assert(view_args(v@, st.strings()) =~= seq![ev] + view_args(ov, st.strings()));
                Ok((v, k))
            },
            Err(e) => Err(e),
        }
    } else if kind_is(inp, j, TokKind::RBracket) {
        let ghost ev = view_sexpr(e, st.strings());
        let mut v = Vec::new();
        v.push(e);
        assert(view_args(v@, st.strings()) =~= seq![ev]);
        Ok((v, j + 1))
    } else {
        Err(j)
    }
}


fn p_fields(inp: &Input, st: &ParserState, i: usize) -> (r: Result<(Vec<Field>, usize), usize>)
    requires
        inp.inv(st),
        i <= inp.t().len(),
    ensures
        agrees(r, parse_fields(inp.s(), inp.t(), i as nat), |v: Vec<Field>| view_fields(v@, st.strings())),
        ends(r, i as nat, inp.t().len(), true),
        r is Ok ==> fields_issued(r->Ok_0.0@, st.strings().len()),
    decreases inp.t().len() - i,
{
    if kind_is(inp, i, TokKind::Ident) {
        if kind_is(inp, i + 1, TokKind::Colon) {
            let name = name_tok(inp, st, i);
            let (e, j) = match p_expr(inp, st, i + 2) {
                Ok(x) => x,
                Err(e) => return Err(e),
            };
            if kind_is(inp, j, TokKind::Semi) {
                let f = Field { name, typ: e };
                let ghost fv = view_field(f, st.strings());
                match p_fields(inp, st, j + 1) {
                    Ok((v, k)) => {
                        let ghost ov = v@;
                        let mut v = v;
                        v.insert(0, f);
                        assert(view_fields(v@, st.strings()) =~= seq![fv] + view_fields(ov, st.strings()));
                        Ok((v, k))
                    },
                    Err(e) => Err(e),
                }
            } else {
                Err(j)
            }
        } else {
            Err(i + 1)
        }
    } else {
        let v: Vec<Field> = Vec::new();
        assert(view_fields(v@, st.strings()) =~= seq![]);
        Ok((v, i))
    }
}

fn p_variants(inp: &Input, st: &ParserState, i: usize) -> (r: Result<(Vec<Variant>, usize), usize>)
    requires
        inp.inv(st),
        i <= inp.t().len(),
    ensures
        agrees(r, parse_variants(inp.s(), inp.t(), i as nat), |v: Vec<Variant>| view_variants(v@, st.strings())),
        ends(r, i as nat, inp.t().len(), true),
        r is Ok ==> variants_issued(r->Ok_0.0@, st.strings().len()),
    decreases inp.t().len() - i,
{
    if kind_is(inp, i, TokKind::Ident) {
        if kind_is(inp, i + 1, TokKind::LBrace) {
            let name = name_tok(inp, st, i);
            let (fields, j) = match p_fields(inp, st, i + 2) {
                Ok(x) => x,
                Err(e) => return Err(e),
            };
            if !kind_is(inp, j, TokKind::RBrace) {
                Err(j)
            } else if !kind_is(inp, j + 1, TokKind::Semi) {
                Err(j + 1)
            } else {
                let x = Variant { name, fields };
                let ghost xv = view_variant(x, st.strings());
                match p_variants(inp, st, j + 2) {
                    Ok((v, k)) => {
                        let ghost ov = v@;
                        let mut v = v;
                        v.insert(0, x);
                        assert(view_variants(v@, st.strings()) =~= seq![xv] + view_variants(ov, st.strings()));
                        Ok((v, k))
                    },
                    Err(e) => Err(e),
                }
            }
        } else {
            Err(i + 1)
        }
    } else {
        let v: Vec<Variant> = Vec::new();
        assert(view_variants(v@, st.strings()) =~= seq![]);
        Ok((v, i))
    }
}

fn end_of_decl(inp: &Input, j: usize) -> (r: usize)
    requires
        j <= inp.t().len() <= usize::MAX,
    ensures
        r == decl_end(inp.t(), j as nat),
{
    if kind_is(inp, j, TokKind::Semi) {
        j + 1
    } else {
        j
    }
}

fn p_decl(inp: &Input, st: &ParserState, i: usize) -> (r: Result<(TypeDef, usize), usize>)
    requires
        inp.inv(st),
        i <= inp.t().len(),
    ensures
        agrees(r, parse_decl(inp.s(), inp.t(), i as nat), |d: TypeDef| view_typedef(d, st.strings())),
        ends(r, i as nat, inp.t().len(), false),
        r is Ok ==> typedef_issued(r->Ok_0.0, st.strings().len()),
{
    let is_type = kind_is(inp, i, TokKind::KwType);
    let is_record = kind_is(inp, i, TokKind::KwRecord);
    if !is_type && !is_record && !kind_is(inp, i, TokKind::KwSum) {
        return Err(i);
    }
    if !kind_is(inp, i + 1, TokKind::Ident) {
        return Err(i + 1);
    }
    let name = name_tok(inp, st, i + 1);
    let args: Vec<Spanned<Sym>> = Vec::new();
    assert(view_names(args@, st.strings()) =~= seq![]);
    if is_type {
        if !kind_is(inp, i + 2, TokKind::Equals) {
            return Err(i + 2);
        }
        let (e, j) = match p_expr(inp, st, i + 3) {
            Ok(x) => x,
            Err(e) => return Err(e),
        };
        if kind_is(inp, j, TokKind::Semi) {
            Ok((TypeDef { name, args, body: TypeDefBody::Alias(e) }, j + 1))
        } else {
            Err(j)
        }
    } else if !kind_is(inp, i + 2, TokKind::LBrace) {
        Err(i + 2)
    } else if is_record {
        let (fields, j) = match p_fields(inp, st, i + 3) {
            Ok(x) => x,
            Err(e) => return Err(e),
        };
        if kind_is(inp, j, TokKind::RBrace) {
            let end = end_of_decl(inp, j + 1);
            Ok((TypeDef { name, args, body: TypeDefBody::Record(fields) }, end))
        } else {
            Err(j)
        }
    } else {
        let (variants, j) = match p_variants(inp, st, i + 3) {
            Ok(x) => x,
            Err(e) => return Err(e),
        };
        if kind_is(inp, j, TokKind::RBrace) {
            let end = end_of_decl(inp, j + 1);
            Ok((TypeDef { name, args, body: TypeDefBody::Sum(variants) }, end))
        } else {
            Err(j)
        }
    }
}

fn p_decls(inp: &Input, st: &ParserState, i: usize) -> (r: Result<(Vec<TypeDef>, usize), usize>)
    requires
        inp.inv(st),
        i <= inp.t().len(),
    ensures
        agrees(r, parse_decls(inp.s(), inp.t(), i as nat), |v: Vec<TypeDef>| view_typedefs(v@, st.strings())),
        ends(r, i as nat, inp.t().len(), true),
        r is Ok ==> forall|k: int| 0 <= k < r->Ok_0.0@.len() ==> typedef_issued(#[trigger] r->Ok_0.0@[k], st.strings().len()),
    decreases inp.t().len() - i,
{
    if i >= inp.toks.len() {
        let v: Vec<TypeDef> = Vec::new();
        assert(view_typedefs(v@, st.strings()) =~= seq![]);
        return Ok((v, i));
    }
    let (d, j) = match p_decl(inp, st, i) {
        Ok(x) => x,
        Err(e) => return Err(e),
    };
    let ghost dv = view_typedef(d, st.strings());
    match p_decls(inp, st, j) {
        Ok((v, k)) => {
            let ghost ov = v@;
            let mut v = v;
            v.insert(0, d);
            assert(view_typedefs(v@, st.strings()) =~= seq![dv] + view_typedefs(ov, st.strings()));
            Ok((v, k))
        },
        Err(e) => Err(e),
    }
}


/// Lexes `src` and interns its identifiers in order of appearance.
fn prepare<'a>(state: &mut ParserState, src: &'a str) -> (r: Result<Input<'a>, ParseError>)
    requires
        old(state).wf(),
        old(state).strings().len() + src@.len() < u32::MAX - 2,
    ensures
        final(state).wf(),
        old(state).line_free() ==> final(state).line_free(),
        final(state).strings() == interned_after(old(state).strings(), src@),
        match lex_spec(src@) {
            Ok(t) => r is Ok && r->Ok_0.src@ == src@ && r->Ok_0.toks@ == t && r->Ok_0.inv(
                &*final(state),
            ),
            Err(p) => r == Err::<Input, ParseError>(ParseError::InvalidChar { offset: p as usize }),
        },
{
    let toks = match lex(src) {
        Ok(t) => t,
        Err(p) => return Err(ParseError::InvalidChar { offset: p }),
    };
    let ghost s = src@;
    let ghost strs0 = state.strings();
    let ghost free0 = state.line_free();
    let mut syms: Vec<Option<Sym>> = Vec::new();
    let mut k: usize = 0;
    while k < toks.len()
        invariant
            s == src@,
            state.wf(),
            syms@.len() == k,
            k <= toks@.len(),
            toks@.len() <= s.len(),
            tokens_within(toks@, s.len()),
            idents_plain(toks@, s),
            free0 ==> state.line_free(),
            strs0.len() + s.len() < u32::MAX - 2,
            state.strings().len() <= strs0.len() + k,
            state.strings() == intern_all(strs0, ident_words(s, toks@.take(k as int))),
            syms_match(s, toks@.take(k as int), syms@, state.strings()),
        decreases toks@.len() - k,
    {
        let tk = toks[k];
        let ghost before = state.strings();
        let ghost ws = ident_words(s, toks@.take(k as int));
        assert(toks@.take(k + 1).drop_last() =~= toks@.take(k as int));
        assert(toks@[k as int] == tk);
        if tk.kind == TokKind::Ident {
            let w = src.substring_char(tk.start, tk.end);
            assert(no_newline(w@)) by {
                assert forall|m: int| 0 <= m < w@.len() implies w@[m] != '\n' by {
                    assert(w@[m] == s[tk.start + m]);
                    assert(is_ident_char(s[tk.start + m]));
                }
            }
            let sym = state.intern(w);
            assert(ws.push(w@).drop_last() =~= ws);
            syms.push(Some(sym));
        } else {
            syms.push(None);
        }
        let ghost after = state.strings();
        assert(after == before || after == before.push(s.subrange(tk.start as int, tk.end as int)));
        assert(free0 ==> state.line_free()) by {
            if free0 && after != before {
                assert forall|i: int| 0 <= i < after.len() implies no_newline(#[trigger] after[i]) by {
                    if i < before.len() {
                        assert(after[i] == before[i]);
                    }
                }
            }
        }
        assert forall|m: int|
            0 <= m < k + 1 && #[trigger] toks@.take(k + 1)[m].kind == TokKind::Ident implies syms@[m] is Some
                && syms@[m]->0.index() < after.len() && after[syms@[m]->0.index() as int]
                == s.subrange(toks@.take(k + 1)[m].start as int, toks@.take(k + 1)[m].end as int) by {
            if m < k {
                assert(toks@.take(k as int)[m] == toks@.take(k + 1)[m]);
                assert(before[syms@[m]->0.index() as int] == after[syms@[m]->0.index() as int]);
            }
        }
        k = k + 1;
    }
    assert(toks@.take(k as int) =~= toks@);
    Ok(Input { src, toks, syms })
}

fn tok_error(inp: &Input, k: usize) -> (r: ParseError)
    ensures
        r == token_error(inp.t(), k as nat),
{
    if k < inp.toks.len() {
        ParseError::UnexpectedToken { token: inp.toks[k] }
    } else {
        ParseError::UnexpectedEnd
    }
}

/// Parses the whole of `src` as one type expression, interning every
/// identifier into `state`.
pub fn parse_type_expr(state: &mut ParserState, src: &str) -> (r: Result<TypeExpr, ParseError>)
    requires
        old(state).wf(),
        old(state).strings().len() + src@.len() < u32::MAX - 2,
    ensures
        final(state).wf(),
        old(state).line_free() ==> final(state).line_free(),
        final(state).strings() == interned_after(old(state).strings(), src@),
        match type_expr_spec(src@) {
            Ok(e) => r is Ok && view_expr(r->Ok_0, final(state).strings()) == e && expr_issued(
                r->Ok_0,
                final(state).strings().len(),
            ),
            Err(e) => r == Err::<TypeExpr, ParseError>(e),
        },
{
    let inp = match prepare(state, src) {
        Ok(x) => x,
        Err(e) => return Err(e),
    };
    match p_expr(&inp, state, 0) {
        Ok((e, j)) => if j == inp.toks.len() {
            Ok(e.val)
        } else {
            Err(tok_error(&inp, j))
        },
        Err(k) => Err(tok_error(&inp, k)),
    }
}

/// Parses the whole of `src` as one declaration, interning every identifier
/// into `state`.
pub fn parse_type_def(state: &mut ParserState, src: &str) -> (r: Result<TypeDef, ParseError>)
    requires
        old(state).wf(),
        old(state).strings().len() + src@.len() < u32::MAX - 2,
    ensures
        final(state).wf(),
        old(state).line_free() ==> final(state).line_free(),
        final(state).strings() == interned_after(old(state).strings(), src@),
        match type_def_spec(src@) {
            Ok(d) => r is Ok && view_typedef(r->Ok_0, final(state).strings()) == d && typedef_issued(
                r->Ok_0,
                final(state).strings().len(),
            ),
            Err(e) => r == Err::<TypeDef, ParseError>(e),
        },
{
    let inp = match prepare(state, src) {
        Ok(x) => x,
        Err(e) => return Err(e),
    };
    match p_decl(&inp, state, 0) {
        Ok((d, j)) => if j == inp.toks.len() {
            Ok(d)
        } else {
            Err(tok_error(&inp, j))
        },
        Err(k) => Err(tok_error(&inp, k)),
    }
}

/// Parses the whole of `src` as a sequence of declarations, interning every
/// identifier into `state`.
pub fn parse_type_decls(state: &mut ParserState, src: &str) -> (r: Result<Vec<TypeDef>, ParseError>)
    requires
        old(state).wf(),
        old(state).strings().len() + src@.len() < u32::MAX - 2,
    ensures
        final(state).wf(),
        old(state).line_free() ==> final(state).line_free(),
        final(state).strings() == interned_after(old(state).strings(), src@),
        match type_decls_spec(src@) {
            Ok(ds) => r is Ok && view_typedefs(r->Ok_0@, final(state).strings()) == ds && forall|k: int|
                0 <= k < r->Ok_0@.len() ==> typedef_issued(
                    #[trigger] r->Ok_0@[k],
                    final(state).strings().len(),
                ),
            Err(e) => r == Err::<Vec<TypeDef>, ParseError>(e),
        },
{
    let inp = match prepare(state, src) {
        Ok(x) => x,
        Err(e) => return Err(e),
    };
    match p_decls(&inp, state, 0) {
        Ok((ds, j)) => if j == inp.toks.len() {
            Ok(ds)
        } else {
            Err(tok_error(&inp, j))
        },
        Err(k) => Err(tok_error(&inp, k)),
    }
}


/// The parse of a whole source file: its declarations, or the first failure
/// as a diagnostic.
pub fn parse_source(state: &mut ParserState, src: &str) -> (r: Result<Vec<TypeDef>, InterTypeError>)
    requires
        old(state).wf(),
        old(state).strings().len() + src@.len() < u32::MAX - 2,
    ensures
        final(state).wf(),
        old(state).line_free() ==> final(state).line_free(),
        final(state).strings() == interned_after(old(state).strings(), src@),
        match type_decls_spec(src@) {
            Ok(ds) => r is Ok && view_typedefs(r->Ok_0@, final(state).strings()) == ds && forall|k: int|
                0 <= k < r->Ok_0@.len() ==> typedef_issued(
                    #[trigger] r->Ok_0@[k],
                    final(state).strings().len(),
                ),
            Err(e) => r == Err::<Vec<TypeDef>, InterTypeError>(InterTypeError::ParseError(e)),
        },
{
    match parse_type_decls(state, src) {
        Ok(ds) => Ok(ds),
        Err(e) => Err(InterTypeError::ParseError(e)),
    }
}

/// The tokens alternate identifier, `.`, identifier, ..., identifier.
pub open spec fn is_dotted(t: Seq<Token>) -> bool {
    &&& t.len() % 2 == 1
    &&& forall|k: int|
        0 <= k < t.len() ==> (#[trigger] t[k]).kind == (if k % 2 == 0 {
            TokKind::Ident
        } else {
            TokKind::Dot
        })
}

proof fn lemma_segs_dotted(s: Seq<char>, t: Seq<Token>, i: nat)
    requires
        is_dotted(t),
        i <= t.len(),
        i % 2 == 1,
    ensures
        parse_segs(s, t, i) == Ok::<(Seq<NameV>, nat), nat>(
            (
                Seq::new(((t.len() - i) / 2) as nat, |k: int| name_at(s, t, (i + 2 * k + 1) as nat)),
                t.len(),
            ),
        ),
    decreases t.len() - i,
{
    if i < t.len() {
        assert(t[i as int].kind == TokKind::Dot);
        assert(t[i + 1int].kind == TokKind::Ident);
        lemma_segs_dotted(s, t, i + 2);
        let rest = Seq::new(
            ((t.len() - (i + 2)) / 2) as nat,
            |k: int| name_at(s, t, (i + 2 + 2 * k + 1) as nat),
        );
        let all = Seq::new(((t.len() - i) / 2) as nat, |k: int| name_at(s, t, (i + 2 * k + 1) as nat));
        assert(seq![name_at(s, t, i + 1)] + rest =~= all);
    } else {
        assert(Seq::new(0, |k: int| name_at(s, t, (i + 2 * k + 1) as nat)) =~= seq![]);
    }
}

/// A dotted identifier sequence `a.b.c` parses to a path whose head is the
/// first identifier and whose segments are the others, in order.
pub proof fn lemma_dotted_path(s: Seq<char>)
    requires
        lex_spec(s) is Ok,
        is_dotted(lex_spec(s)->Ok_0),
    ensures
        ({
            let t = lex_spec(s)->Ok_0;
            type_expr_spec(s) == Ok::<ExprV, ParseError>(
                ExprV::Path(
                    name_at(s, t, 0),
                    Seq::new(((t.len() - 1) / 2) as nat, |k: int| name_at(s, t, (2 * k + 2) as nat)),
                ),
            )
        }),
{
    let t = lex_spec(s)->Ok_0;
    assert(t[0].kind == TokKind::Ident);
    lemma_segs_dotted(s, t, 1);
    let segs = Seq::new(((t.len() - 1) / 2) as nat, |k: int| name_at(s, t, (1 + 2 * k + 1) as nat));
    assert(segs =~= Seq::new(((t.len() - 1) / 2) as nat, |k: int| name_at(s, t, (2 * k + 2) as nat)));
    let a = SExprV { expr: ExprV::Path(name_at(s, t, 0), segs), span: span_of(t, 0, t.len()) };
    assert(parse_atom(s, t, 0) == Ok::<(SExprV, nat), nat>((a, t.len())));
    assert(parse_apps(s, t, 0, a, t.len()) == Ok::<(SExprV, nat), nat>((a, t.len())));
    assert(parse_chain(s, t, 0) == Ok::<(SExprV, nat), nat>((a, t.len())));
    assert(parse_expr(s, t, 0) == Ok::<(SExprV, nat), nat>((a, t.len())));
}


proof fn lemma_differ_at(a: Seq<char>, b: Seq<char>, k: int)
    requires
        0 <= k < a.len(),
        k < b.len(),
        a[k] != b[k],
    ensures
        a != b,
{
}

/// The keyword of a primitive type is a word that lexes to that primitive.
#[verifier::rlimit(50)]
proof fn lemma_prim_text_word(p: Primitive)
    ensures
        is_word(prim_text(p)),
        word_kind(prim_text(p)) == TokKind::Prim(p),
{
    let w = prim_text(p);
    reveal_strlit("i");
    reveal_strlit("u");
    reveal_strlit("f");
    reveal_strlit("32");
    reveal_strlit("64");
    reveal_strlit("type");
    reveal_strlit("record");
    reveal_strlit("sum");
    reveal_strlit("fintype");
    reveal_strlit("i32");
    reveal_strlit("i64");
    reveal_strlit("u32");
    reveal_strlit("u64");
    reveal_strlit("f32");
    reveal_strlit("f64");
    reveal_strlit("string");
    reveal_strlit("bool");
    reveal_strlit("unit");
    reveal_strlit("void");
    match p {
        Primitive::Int(Signedness::Signed, BitSize::B32) => {
            assert(w =~= "i32"@);
            lemma_differ_at(w, "sum"@, 0);
            lemma_differ_at(w, "i64"@, 1);
            lemma_differ_at(w, "u32"@, 0);
            lemma_differ_at(w, "u64"@, 0);
            lemma_differ_at(w, "f32"@, 0);
            lemma_differ_at(w, "f64"@, 0);
        },
        Primitive::Int(Signedness::Signed, BitSize::B64) => {
            assert(w =~= "i64"@);
            lemma_differ_at(w, "sum"@, 0);
            lemma_differ_at(w, "i32"@, 1);
            lemma_differ_at(w, "u32"@, 0);
            lemma_differ_at(w, "u64"@, 0);
            lemma_differ_at(w, "f32"@, 0);
            lemma_differ_at(w, "f64"@, 0);
        },
        Primitive::Int(Signedness::Unsigned, BitSize::B32) => {
            assert(w =~= "u32"@);
            lemma_differ_at(w, "sum"@, 0);
            lemma_differ_at(w, "i32"@, 0);
            lemma_differ_at(w, "i64"@, 0);
            lemma_differ_at(w, "u64"@, 1);
            lemma_differ_at(w, "f32"@, 0);
            lemma_differ_at(w, "f64"@, 0);
        },
        Primitive::Int(Signedness::Unsigned, BitSize::B64) => {
            assert(w =~= "u64"@);
            lemma_differ_at(w, "sum"@, 0);
            lemma_differ_at(w, "i32"@, 0);
            lemma_differ_at(w, "i64"@, 0);
            lemma_differ_at(w, "u32"@, 1);
            lemma_differ_at(w, "f32"@, 0);
            lemma_differ_at(w, "f64"@, 0);
        },
        Primitive::Float(BitSize::B32) => {
            assert(w =~= "f32"@);
            lemma_differ_at(w, "sum"@, 0);
            lemma_differ_at(w, "i32"@, 0);
            lemma_differ_at(w, "i64"@, 0);
            lemma_differ_at(w, "u32"@, 0);
            lemma_differ_at(w, "u64"@, 0);
            lemma_differ_at(w, "f64"@, 1);
        },
        Primitive::Float(BitSize::B64) => {
            assert(w =~= "f64"@);
            lemma_differ_at(w, "sum"@, 0);
            lemma_differ_at(w, "i32"@, 0);
            lemma_differ_at(w, "i64"@, 0);
            lemma_differ_at(w, "u32"@, 0);
            lemma_differ_at(w, "u64"@, 0);
            lemma_differ_at(w, "f32"@, 1);
        },
        Primitive::String => {
            assert(w =~= "string"@);
            lemma_differ_at(w, "record"@, 0);
        },
        Primitive::Bool => {
            assert(w =~= "bool"@);
            lemma_differ_at(w, "type"@, 0);
            lemma_differ_at(w, "unit"@, 0);
            lemma_differ_at(w, "void"@, 0);
        },
        Primitive::Unit => {
            assert(w =~= "unit"@);
            lemma_differ_at(w, "type"@, 0);
            lemma_differ_at(w, "bool"@, 0);
            lemma_differ_at(w, "void"@, 0);
        },
        Primitive::Void => {
            assert(w =~= "void"@);
            lemma_differ_at(w, "type"@, 0);
            lemma_differ_at(w, "bool"@, 0);
            lemma_differ_at(w, "unit"@, 0);
        },
    }
}

/// Every primitive keyword parses to its primitive type, never to a path.
pub proof fn lemma_primitive_keyword(p: Primitive)
    ensures
        type_expr_spec(prim_text(p)) == Ok::<ExprV, ParseError>(ExprV::Prim(p)),
{
    let w = prim_text(p);
    lemma_prim_text_word(p);
    lemma_lex_word(w);
    let t = seq![tok(TokKind::Prim(p), 0, w.len())];
    let a = SExprV { expr: ExprV::Prim(p), span: span_of(t, 0, 1) };
    assert(parse_atom(w, t, 0) == Ok::<(SExprV, nat), nat>((a, 1)));
    assert(parse_apps(w, t, 0, a, 1) == Ok::<(SExprV, nat), nat>((a, 1)));
    assert(parse_chain(w, t, 0) == Ok::<(SExprV, nat), nat>((a, 1)));
    assert(parse_expr(w, t, 0) == Ok::<(SExprV, nat), nat>((a, 1)));
}


/// For a dotted identifier sequence `a.b.c` (words that are no keyword,
/// joined by `.`), the parse is a path whose head is the first word and whose
/// segments are the other words, in order.
pub proof fn lemma_dotted_words_path(ws: Seq<Seq<char>>)
    requires
        ws.len() >= 1,
        plain_words(ws),
        join_dots(ws).len() <= usize::MAX,
    ensures
        ({
            let r = type_expr_spec(join_dots(ws));
            &&& r is Ok
            &&& r->Ok_0 is Path
            &&& r->Ok_0->Path_0.0 == ws[0]
            &&& r->Ok_0->Path_1.len() + 1 == ws.len()
            &&& forall|k: int|
                0 <= k < r->Ok_0->Path_1.len() ==> (#[trigger] r->Ok_0->Path_1[k]).0 == ws[k + 1]
        }),
{
    let s = join_dots(ws);
    lemma_lex_join_dots(ws);
    let t = dotted_tokens(ws, 0);
    lemma_dotted_tokens_shape(s, 0, ws);
    assert(is_dotted(t));
    lemma_dotted_path(s);
    let segs = Seq::new(((t.len() - 1) / 2) as nat, |k: int| name_at(s, t, (2 * k + 2) as nat));
    assert(s.subrange(t[0].start as int, t[0].end as int) == ws[0]);
    assert forall|k: int| 0 <= k < segs.len() implies (#[trigger] segs[k]).0 == ws[k + 1] by {
        assert(s.subrange(t[2 * (k + 1)].start as int, t[2 * (k + 1)].end as int) == ws[k + 1]);
        assert(2 * (k + 1) == 2 * k + 2);
    }
}


/// A record whose body is never closed is rejected: when the tokens begin
/// `record NAME {` and no `}` follows, parsing fails and returns no tree.
pub proof fn lemma_unclosed_record(s: Seq<char>)
    requires
        lex_spec(s) is Ok,
        ({
            let t = lex_spec(s)->Ok_0;
            &&& t.len() >= 3
            &&& t[0].kind == TokKind::KwRecord
            &&& t[1].kind == TokKind::Ident
            &&& t[2].kind == TokKind::LBrace
            &&& forall|k: int| 0 <= k < t.len() ==> (#[trigger] t[k]).kind != TokKind::RBrace
        }),
    ensures
        type_def_spec(s) is Err,
        type_decls_spec(s) is Err,
{
    let t = lex_spec(s)->Ok_0;
    assert(parse_decl(s, t, 0) is Err);
}


/// A parse only appends to the interner's table: the table before is a
/// prefix of the table after.
pub proof fn lemma_parse_extends(strs: Seq<Seq<char>>, s: Seq<char>)
    ensures
        strs.len() <= interned_after(strs, s).len(),
        interned_after(strs, s).subrange(0, strs.len() as int) == strs,
{
    if let Ok(t) = lex_spec(s) {
        lemma_intern_all_extends(strs, ident_words(s, t));
    } else {
        assert(strs.subrange(0, strs.len() as int) =~= strs);
    }
}

proof fn lemma_intern_all_extends(strs: Seq<Seq<char>>, ws: Seq<Seq<char>>)
    ensures
        strs.len() <= intern_all(strs, ws).len(),
        intern_all(strs, ws).subrange(0, strs.len() as int) == strs,
    decreases ws.len(),
{
    if ws.len() == 0 {
        assert(strs.subrange(0, strs.len() as int) =~= strs);
    } else {
        let mid = intern_all(strs, ws.drop_last());
        lemma_intern_all_extends(strs, ws.drop_last());
        lemma_intern_extends(mid, ws.last());
        let fin = intern_all(strs, ws);
        assert(fin.subrange(0, strs.len() as int) =~= mid.subrange(0, strs.len() as int));
    }
}

} // verus!
