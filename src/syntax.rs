//! The syntax tree of type declarations, and the interner that owns the text
//! of every identifier in it.
use lasso::Key;
use vstd::prelude::*;

verus! {

broadcast use vstd::std_specs::vec::group_vec_axioms;

#[verifier::external_type_specification]
#[verifier::external_body]
#[verifier::reject_recursive_types(K)]
#[verifier::reject_recursive_types(S)]
pub struct ExRodeo<K, S>(lasso::Rodeo<K, S>);

/// The key type of a default `Rodeo`.
#[verifier::external_type_specification]
#[verifier::external_body]
pub struct ExSpur(lasso::Spur);

/// The strings held by an interner, in the order in which they were interned:
/// the string of key `k` stands at index `k.into_usize()`.
pub uninterp spec fn rodeo_strings(r: lasso::Rodeo) -> Seq<Seq<char>>;

/// Relies on `Rodeo::default`: a new interner holds no string.
#[verifier::external_body]
fn rodeo_new() -> (r: lasso::Rodeo)
    ensures
        rodeo_strings(r) == Seq::<Seq<char>>::empty(),
{
    lasso::Rodeo::default()
}

/// Relies on `Rodeo::get_or_intern`: a string already held keeps its key;
/// another one is pushed and gets the next index. It panics only once the key
/// space of `Spur` (`u32::MAX - 1` strings) is used up.
#[verifier::external_body]
fn rodeo_get_or_intern(r: &mut lasso::Rodeo, s: &str) -> (k: u32)
    requires
        rodeo_strings(*old(r)).len() < u32::MAX - 1,
    ensures
        rodeo_strings(*old(r)).contains(s@) ==> rodeo_strings(*final(r)) == rodeo_strings(*old(r))
            && k < rodeo_strings(*old(r)).len() && rodeo_strings(*old(r))[k as int] == s@,
        !rodeo_strings(*old(r)).contains(s@) ==> rodeo_strings(*final(r)) == rodeo_strings(
            *old(r),
        ).push(s@) && k as int == rodeo_strings(*old(r)).len(),
{
    r.get_or_intern(s).into_usize() as u32
}

/// Relies on `Rodeo::resolve`: the text of the key made from index `k`.
#[verifier::external_body]
fn rodeo_resolve(r: &lasso::Rodeo, k: u32) -> (s: &str)
    requires
        (k as int) < rodeo_strings(*r).len(),
    ensures
        s@ == rodeo_strings(*r)[k as int],
{
    r.resolve(&lasso::Spur::try_from_usize(k as usize).unwrap())
}

/// `s` holds no line break.
pub open spec fn no_newline(s: Seq<char>) -> bool {
    forall|i: int| 0 <= i < s.len() ==> s[i] != '\n'
}

/// An interned identifier: an index into the table of the interner that
/// issued it. Symbols of two different interners must not be compared.
#[derive(Clone, Copy, PartialEq, Eq, Structural, Debug, Hash)]
pub struct Sym {
    id: u32,
}

impl Sym {
    /// The position of the symbol's text in the interner's table.
    pub closed spec fn index(self) -> nat {
        self.id as nat
    }

    /// Two symbols are equal exactly when their indices are.
    pub proof fn lemma_index_injective(a: Sym, b: Sym)
        ensures
            (a == b) <==> (a.index() == b.index()),
    {
    }
}

/// The parsing context: it owns the interner of one parse.
pub struct ParserState {
    interner: lasso::Rodeo,
}

impl ParserState {
    /// The interned strings, a symbol's text at its index.
    pub closed spec fn strings(&self) -> Seq<Seq<char>> {
        rodeo_strings(self.interner)
    }

    /// No string is interned twice, and a symbol can be issued for one more.
    pub open spec fn wf(&self) -> bool {
        &&& self.strings().no_duplicates()
        &&& self.strings().len() < u32::MAX - 1
    }

    /// No interned text holds a line break.
    pub open spec fn line_free(&self) -> bool {
        forall|k: int| 0 <= k < self.strings().len() ==> no_newline(#[trigger] self.strings()[k])
    }

    /// Whether `s` is a symbol issued by this state.
    pub open spec fn issued(&self, s: Sym) -> bool {
        s.index() < self.strings().len()
    }

    /// The text of an issued symbol.
    pub open spec fn text(&self, s: Sym) -> Seq<char> {
        self.strings()[s.index() as int]
    }

    pub fn new() -> (r: ParserState)
        ensures
            r.wf(),
            r.line_free(),
            r.strings() == Seq::<Seq<char>>::empty(),
    {
        ParserState { interner: rodeo_new() }
    }

    /// The symbol of `name`: the one already issued for equal text, or else a
    /// new one, whose text is appended to the table.
    pub fn intern(&mut self, name: &str) -> (r: Sym)
        requires
            old(self).wf(),
            old(self).strings().len() + 1 < u32::MAX - 1,
        ensures
            final(self).wf(),
            (final(self).strings(), r.index()) == intern_spec(old(self).strings(), name@),
    {
        let ghost before = self.strings();
        let k = rodeo_get_or_intern(&mut self.interner, name);
        proof {
            if before.contains(name@) {
                let i = before.index_of(name@);
                assert(before[i] == name@);
            } else {
                let after = self.strings();
                assert forall|i: int, j: int|
                    0 <= i < after.len() && 0 <= j < after.len() && i != j implies after[i]
                    != after[j] by {
                    if i < before.len() && j < before.len() {
                    } else if i < before.len() {
                        assert(before.contains(before[i]));
                    } else {
                        assert(before.contains(before[j]));
                    }
                }
            }
        }
        Sym { id: k }
    }

    /// The text of a symbol issued by this state.
    pub fn resolve(&self, s: Sym) -> (r: &str)
        requires
            self.issued(s),
        ensures
            r@ == self.text(s),
    {
        rodeo_resolve(&self.interner, s.id)
    }
}


/// Distinguishes `i32`/`i64`, `u32`/`u64`, `f32`/`f64` in [`Primitive`].
#[derive(Clone, Copy, PartialEq, Eq, Structural, Debug, Hash)]
pub enum BitSize {
    B32,
    B64,
}

/// Distinguishes `u32`/`i32`, `u64`/`i64` in [`Primitive`].
#[derive(Clone, Copy, PartialEq, Eq, Structural, Debug, Hash)]
pub enum Signedness {
    Signed,
    Unsigned,
}

/// The standard primitive types: signed and unsigned 32 and 64 bit integers,
/// 32 and 64 bit floating point, strings, booleans, unit and void.
#[derive(Clone, Copy, PartialEq, Eq, Structural, Debug, Hash)]
pub enum Primitive {
    Int(Signedness, BitSize),
    Float(BitSize),
    String,
    Bool,
    Unit,
    Void,
}

/// A half-open range of offsets into the source text. Offsets count
/// characters; a source that lexes is ASCII, where they are byte offsets.
#[derive(Clone, Copy, PartialEq, Eq, Structural, Debug, Hash)]
pub struct Span {
    pub start: usize,
    pub end: usize,
}

/// A syntax node along with the span of source text it comes from.
#[derive(PartialEq, Eq, Debug)]
pub struct Spanned<T> {
    pub val: T,
    pub span: Span,
}

impl<T> Spanned<T> {
    pub fn new(val: T, span: Span) -> (r: Self)
        ensures
            r.val == val,
            r.span == span,
    {
        Spanned { val, span }
    }
}

/// An expression denoting a type, e.g. the type of a field.
#[derive(PartialEq, Eq, Debug)]
pub enum TypeExpr {
    /// An application of a generic type to arguments.
    App(Box<Spanned<TypeExpr>>, Vec<Spanned<TypeExpr>>),
    /// A dotted path of the form `a.b.c`.
    Path(Spanned<Sym>, Vec<Spanned<Sym>>),
    /// A function type.
    Arrow(Box<Spanned<TypeExpr>>, Box<Spanned<TypeExpr>>),
    /// The type of finite sets.
    FinType,
    /// A primitive type.
    Prim(Primitive),
}

/// A named, typed field of a record or of a variant.
#[derive(PartialEq, Eq, Debug)]
pub struct Field {
    pub name: Spanned<Sym>,
    pub typ: Spanned<TypeExpr>,
}

impl Field {
    pub fn new(name: Spanned<Sym>, typ: Spanned<TypeExpr>) -> (r: Self)
        ensures
            r.name == name,
            r.typ == typ,
    {
        Field { name, typ }
    }
}

/// A variant of a sum type, used in [`TypeDefBody::Sum`].
#[derive(PartialEq, Eq, Debug)]
pub struct Variant {
    pub name: Spanned<Sym>,
    pub fields: Vec<Field>,
}

impl Variant {
    pub fn new(name: Spanned<Sym>, fields: Vec<Field>) -> (r: Self)
        ensures
            r.name == name,
            r.fields == fields,
    {
        Variant { name, fields }
    }
}

/// The content of a [`TypeDef`].
#[derive(PartialEq, Eq, Debug)]
pub enum TypeDefBody {
    Alias(Spanned<TypeExpr>),
    Record(Vec<Field>),
    Sum(Vec<Variant>),
}

/// A nominal type declaration: it creates a new type.
#[derive(PartialEq, Eq, Debug)]
pub struct TypeDef {
    /// The name of the new type.
    pub name: Spanned<Sym>,
    /// The parameters of the new type (if non-empty, it is generic).
    pub args: Vec<Spanned<Sym>>,
    /// Alias, record or sum.
    pub body: TypeDefBody,
}

impl TypeDef {
    pub fn new(name: Spanned<Sym>, args: Vec<Spanned<Sym>>, body: TypeDefBody) -> (r: Self)
        ensures
            r.name == name,
            r.args == args,
            r.body == body,
    {
        TypeDef { name, args, body }
    }
}

/// Errors of later passes over the tree.
#[derive(Clone, Copy, PartialEq, Eq, Structural, Debug)]
pub enum Error {
    /// A name that could not be resolved, with the span that points at it.
    NameError { span: Span },
}

// The tree with each symbol replaced by its text: what contracts speak of.

/// A name with its span.
pub type NameV = (Seq<char>, Span);

/// A type expression with its span.
pub struct SExprV {
    pub expr: ExprV,
    pub span: Span,
}

pub enum ExprV {
    App(Box<SExprV>, Seq<SExprV>),
    Path(NameV, Seq<NameV>),
    Arrow(Box<SExprV>, Box<SExprV>),
    FinType,
    Prim(Primitive),
}

pub struct FieldV {
    pub name: NameV,
    pub typ: SExprV,
}

pub struct VariantV {
    pub name: NameV,
    pub fields: Seq<FieldV>,
}

pub enum BodyV {
    Alias(SExprV),
    Record(Seq<FieldV>),
    Sum(Seq<VariantV>),
}

pub struct TypeDefV {
    pub name: NameV,
    pub args: Seq<NameV>,
    pub body: BodyV,
}

pub open spec fn view_name(n: Spanned<Sym>, strs: Seq<Seq<char>>) -> NameV {
    (strs[n.val.index() as int], n.span)
}

pub open spec fn view_names(ns: Seq<Spanned<Sym>>, strs: Seq<Seq<char>>) -> Seq<NameV> {
    ns.map_values(|n: Spanned<Sym>| view_name(n, strs))
}

pub open spec fn view_sexpr(e: Spanned<TypeExpr>, strs: Seq<Seq<char>>) -> SExprV
    decreases e,
{
    SExprV { expr: view_expr(e.val, strs), span: e.span }
}

pub open spec fn view_expr(e: TypeExpr, strs: Seq<Seq<char>>) -> ExprV
    decreases e,
{
    match e {
        TypeExpr::App(b, args) => ExprV::App(Box::new(view_sexpr(*b, strs)), view_args(args@, strs)),
        TypeExpr::Path(h, segs) => ExprV::Path(view_name(h, strs), view_names(segs@, strs)),
        TypeExpr::Arrow(d, c) => ExprV::Arrow(
            Box::new(view_sexpr(*d, strs)),
            Box::new(view_sexpr(*c, strs)),
        ),
        TypeExpr::FinType => ExprV::FinType,
        TypeExpr::Prim(p) => ExprV::Prim(p),
    }
}

pub open spec fn view_args(args: Seq<Spanned<TypeExpr>>, strs: Seq<Seq<char>>) -> Seq<SExprV>
    decreases args,
{
    Seq::new(
        args.len() as nat,
        |i: int|
            if 0 <= i < args.len() {
                view_sexpr(args[i], strs)
            } else {
                SExprV { expr: ExprV::FinType, span: Span { start: 0, end: 0 } }
            },
    )
}

pub open spec fn view_field(f: Field, strs: Seq<Seq<char>>) -> FieldV {
    FieldV { name: view_name(f.name, strs), typ: view_sexpr(f.typ, strs) }
}

pub open spec fn view_fields(fs: Seq<Field>, strs: Seq<Seq<char>>) -> Seq<FieldV> {
    fs.map_values(|f: Field| view_field(f, strs))
}

pub open spec fn view_variant(v: Variant, strs: Seq<Seq<char>>) -> VariantV {
    VariantV { name: view_name(v.name, strs), fields: view_fields(v.fields@, strs) }
}

pub open spec fn view_variants(vs: Seq<Variant>, strs: Seq<Seq<char>>) -> Seq<VariantV> {
    vs.map_values(|v: Variant| view_variant(v, strs))
}

pub open spec fn view_body(b: TypeDefBody, strs: Seq<Seq<char>>) -> BodyV {
    match b {
        TypeDefBody::Alias(e) => BodyV::Alias(view_sexpr(e, strs)),
        TypeDefBody::Record(fs) => BodyV::Record(view_fields(fs@, strs)),
        TypeDefBody::Sum(vs) => BodyV::Sum(view_variants(vs@, strs)),
    }
}

pub open spec fn view_typedef(d: TypeDef, strs: Seq<Seq<char>>) -> TypeDefV {
    TypeDefV {
        name: view_name(d.name, strs),
        args: view_names(d.args@, strs),
        body: view_body(d.body, strs),
    }
}

pub open spec fn view_typedefs(ds: Seq<TypeDef>, strs: Seq<Seq<char>>) -> Seq<TypeDefV> {
    ds.map_values(|d: TypeDef| view_typedef(d, strs))
}

// Symbols below `n`: all issued by an interner that holds `n` strings.

pub open spec fn names_issued(ns: Seq<Spanned<Sym>>, n: nat) -> bool {
    forall|k: int| 0 <= k < ns.len() ==> (#[trigger] ns[k]).val.index() < n
}

pub open spec fn sexpr_issued(e: Spanned<TypeExpr>, n: nat) -> bool
    decreases e,
{
    expr_issued(e.val, n)
}

pub open spec fn expr_issued(e: TypeExpr, n: nat) -> bool
    decreases e,
{
    match e {
        TypeExpr::App(b, args) => sexpr_issued(*b, n) && args_issued(args@, n),
        TypeExpr::Path(h, segs) => h.val.index() < n && names_issued(segs@, n),
        TypeExpr::Arrow(d, c) => sexpr_issued(*d, n) && sexpr_issued(*c, n),
        TypeExpr::FinType => true,
        TypeExpr::Prim(_) => true,
    }
}

pub open spec fn args_issued(args: Seq<Spanned<TypeExpr>>, n: nat) -> bool
    decreases args,
{
    forall|k: int| 0 <= k < args.len() ==> sexpr_issued(#[trigger] args[k], n)
}

pub open spec fn field_issued(f: Field, n: nat) -> bool {
    f.name.val.index() < n && sexpr_issued(f.typ, n)
}

pub open spec fn fields_issued(fs: Seq<Field>, n: nat) -> bool {
    forall|k: int| 0 <= k < fs.len() ==> field_issued(#[trigger] fs[k], n)
}

pub open spec fn variants_issued(vs: Seq<Variant>, n: nat) -> bool {
    forall|k: int|
        0 <= k < vs.len() ==> (#[trigger] vs[k]).name.val.index() < n && fields_issued(
            vs[k].fields@,
            n,
        )
}

pub open spec fn typedef_issued(d: TypeDef, n: nat) -> bool {
    &&& d.name.val.index() < n
    &&& names_issued(d.args@, n)
    &&& match d.body {
        TypeDefBody::Alias(e) => sexpr_issued(e, n),
        TypeDefBody::Record(fs) => fields_issued(fs@, n),
        TypeDefBody::Sum(vs) => variants_issued(vs@, n),
    }
}

impl Default for ParserState {
    fn default() -> (r: ParserState)
        ensures
            r.wf(),
            r.line_free(),
            r.strings() == Seq::<Seq<char>>::empty(),
    {
        ParserState::new()
    }
}

/// The text of an issued symbol interns to that symbol: interning the text of
/// a name in a tree returns the very symbol the tree holds.
pub proof fn lemma_text_interns_to(strs: Seq<Seq<char>>, sym: Sym)
    requires
        strs.no_duplicates(),
        sym.index() < strs.len(),
    ensures
        intern_spec(strs, strs[sym.index() as int]) == (strs, sym.index()),
{
    let w = strs[sym.index() as int];
    assert(strs.contains(w));
    let j = strs.index_of(w);
    assert(strs[j] == w);
}

/// Interning only appends: the old table is a prefix of the new one.
pub proof fn lemma_intern_extends(strs: Seq<Seq<char>>, s: Seq<char>)
    ensures
        strs.len() <= intern_spec(strs, s).0.len(),
        intern_spec(strs, s).0.subrange(0, strs.len() as int) == strs,
{
    assert(intern_spec(strs, s).0.subrange(0, strs.len() as int) =~= strs);
}

/// A symbol, once issued, stays: whatever was interned since (by other calls
/// or by parses on the same state), interning the same text again returns the
/// same symbol and adds no entry.
pub proof fn lemma_intern_again(strs1: Seq<Seq<char>>, strs2: Seq<Seq<char>>, s: Seq<char>)
    requires
        strs2.no_duplicates(),
        strs1.len() <= strs2.len(),
        strs2.subrange(0, strs1.len() as int) == strs1,
        strs1.contains(s),
    ensures
        intern_spec(strs2, s) == (strs2, intern_spec(strs1, s).1),
{
    let k = strs1.index_of(s);
    assert(strs1[k] == s);
    assert(strs2[k] == strs2.subrange(0, strs1.len() as int)[k]);
    assert(strs2.contains(s));
    let j = strs2.index_of(s);
    assert(strs2[j] == s);
}

/// Interning is idempotent: after `s` has been interned, interning it again
/// returns the same symbol and leaves the table as it is.
pub proof fn lemma_intern_repeat(strs: Seq<Seq<char>>, s: Seq<char>)
    requires
        strs.no_duplicates(),
    ensures
        intern_spec(intern_spec(strs, s).0, s) == intern_spec(strs, s),
{
    let (t, k) = intern_spec(strs, s);
    assert(t[k as int] == s);
    assert(t.contains(s));
    if !strs.contains(s) {
        assert(t.index_of(s) == k) by {
            let j = t.index_of(s);
            if j < strs.len() {
                assert(strs[j] == s);
            }
        }
    }
}

/// Distinct texts get distinct symbols: interning `s1` and then `s2` returns
/// two different symbols whenever the texts differ.
pub proof fn lemma_intern_distinct(strs: Seq<Seq<char>>, s1: Seq<char>, s2: Seq<char>)
    requires
        strs.no_duplicates(),
        s1 != s2,
    ensures
        intern_spec(intern_spec(strs, s1).0, s2).1 != intern_spec(strs, s1).1,
{
    let (t1, k1) = intern_spec(strs, s1);
    let (t2, k2) = intern_spec(t1, s2);
    assert(t1[k1 as int] == s1);
    if t1.contains(s2) {
        assert(t1[t1.index_of(s2)] == s2);
    }
}

/// Interning `s` into the table `strs`: the new table and the index of `s`.
pub open spec fn intern_spec(strs: Seq<Seq<char>>, s: Seq<char>) -> (Seq<Seq<char>>, nat) {
    if strs.contains(s) {
        (strs, strs.index_of(s) as nat)
    } else {
        (strs.push(s), strs.len())
    }
}

} // verus!
