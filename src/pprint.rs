//! Rendering the syntax tree back to canonical text through the layout
//! combinators of the `pretty` crate.
use crate::syntax::{
    expr_issued, field_issued, fields_issued, names_issued, sexpr_issued, typedef_issued,
    variants_issued, no_newline, view_args, view_expr, view_field, view_fields, view_name, view_names,
    view_sexpr, view_typedef, view_typedefs, view_variant, view_variants, BitSize, BodyV, ExprV, Field, FieldV,
    NameV, ParserState, Primitive, SExprV, Signedness, Spanned, Sym, TypeDef, TypeDefBody,
    TypeDefV, TypeExpr, Variant, VariantV,
};
use pretty::RcDoc;
use vstd::prelude::*;

verus! {

#[verifier::external_type_specification]
#[verifier::external_body]
#[verifier::reject_recursive_types(A)]
pub struct ExRcDoc<'a, A>(pretty::RcDoc<'a, A>);

/// The shape of a document: what `pretty`'s `Doc` value is, with the kinds of
/// text merged into one and `line` (a hard break that a group may flatten to
/// a space) taken as one node.
pub enum DocTree {
    Nil,
    Text(Seq<char>),
    /// A line break, or a space where a group is laid out flat.
    Line,
    Nest(int, Box<DocTree>),
    Append(Box<DocTree>, Box<DocTree>),
}

/// The shape of a document value.
pub uninterp spec fn doc_tree(d: RcDoc<'static, ()>) -> DocTree;

/// `n` spaces.
pub open spec fn spaces(n: int) -> Seq<char> {
    Seq::new(n as nat, |i: int| ' ')
}

pub open spec fn doc_size(t: DocTree) -> nat
    decreases t,
{
    match t {
        DocTree::Append(l, r) => 1 + doc_size(*l) + doc_size(*r),
        DocTree::Nest(_, d) => 1 + doc_size(*d),
        _ => 1,
    }
}

pub open spec fn cmds_size(cs: Seq<(int, DocTree)>) -> nat
    decreases cs.len(),
{
    if cs.len() == 0 {
        0
    } else {
        doc_size(cs[0].1) + cmds_size(cs.drop_first())
    }
}

/// Indentation `i` moved by `k`, kept within `0..=usize::MAX`.
pub open spec fn indent_by(i: int, k: int) -> int {
    if i + k < 0 {
        0
    } else if i + k > usize::MAX {
        usize::MAX as int
    } else {
        i + k
    }
}

/// The text of a stack of documents, each with its indentation, the top
/// first. A line break is a newline followed by the indentation of the
/// document that comes next, or by its own where none does.
pub open spec fn lay_out(cs: Seq<(int, DocTree)>) -> Seq<char>
    decreases cmds_size(cs),
    via lay_out_decreases
{
    if cs.len() == 0 {
        seq![]
    } else {
        let (i, d) = cs[0];
        let rest = cs.drop_first();
        match d {
            DocTree::Nil => lay_out(rest),
            DocTree::Text(t) => t + lay_out(rest),
            DocTree::Line => if rest.len() == 0 {
                seq!['\n'] + spaces(i)
            } else {
                seq!['\n'] + spaces(rest[0].0) + lay_out(rest)
            },
            DocTree::Nest(k, n) => lay_out(seq![(indent_by(i, k), *n)] + rest),
            DocTree::Append(l, r) => lay_out(seq![(i, *l), (i, *r)] + rest),
        }
    }
}

proof fn lemma_cmds_size_cons(x: (int, DocTree), rest: Seq<(int, DocTree)>)
    ensures
        cmds_size(seq![x] + rest) == doc_size(x.1) + cmds_size(rest),
{
    assert((seq![x] + rest).drop_first() =~= rest);
}

#[via_fn]
proof fn lay_out_decreases(cs: Seq<(int, DocTree)>) {
    if cs.len() > 0 {
        let (i, d) = cs[0];
        let rest = cs.drop_first();
        assert(cmds_size(cs) == doc_size(d) + cmds_size(rest));
        match d {
            DocTree::Nest(k, n) => {
                lemma_cmds_size_cons((indent_by(i, k), *n), rest);
            },
            DocTree::Append(l, r) => {
                lemma_cmds_size_cons((i, *r), rest);
                lemma_cmds_size_cons((i, *l), seq![(i, *r)] + rest);
                assert(seq![(i, *l), (i, *r)] + rest =~= seq![(i, *l)] + (seq![(i, *r)] + rest));
            },
            _ => {},
        }
    }
}

/// The text that `pretty` lays a document out to within `width` columns. A
/// document here holds no group, so every line break is taken and the width
/// plays no part.
pub open spec fn layout(t: DocTree, width: nat) -> Seq<char> {
    lay_out(seq![(0int, t)])
}

/// Relies on `RcDoc::nil`: the empty document.
#[verifier::external_body]
fn doc_nil() -> (r: RcDoc<'static, ()>)
    ensures
        doc_tree(r) == DocTree::Nil,
{
    RcDoc::nil()
}

/// Relies on `RcDoc::as_string`: a text document that holds `s` (even where
/// `s` is empty); its documentation asks that `s` hold no line break.
#[verifier::external_body]
fn doc_text(s: &str) -> (r: RcDoc<'static, ()>)
    requires
        no_newline(s@),
    ensures
        doc_tree(r) == DocTree::Text(s@),
{
    RcDoc::as_string(s)
}

/// Relies on `RcDoc::line`: a line break that a group may flatten to a space.
#[verifier::external_body]
fn doc_line() -> (r: RcDoc<'static, ()>)
    ensures
        doc_tree(r) == DocTree::Line,
{
    RcDoc::line()
}

/// Relies on `RcDoc::append`: `a` followed by `b`, where an empty (`Nil`)
/// operand leaves the other one as it is.
#[verifier::external_body]
fn doc_append(a: RcDoc<'static, ()>, b: RcDoc<'static, ()>) -> (r: RcDoc<'static, ()>)
    ensures
        doc_tree(r) == app(doc_tree(a), doc_tree(b)),
{
    a.append(b)
}

/// Relies on `RcDoc::nest`: `a` with its line breaks indented by `k` more; an
/// empty (`Nil`) document or an offset of 0 leaves `a` as it is.
#[verifier::external_body]
fn doc_nest(a: RcDoc<'static, ()>, k: isize) -> (r: RcDoc<'static, ()>)
    ensures
        doc_tree(r) == nest_doc(k as int, doc_tree(a)),
{
    a.nest(k)
}

/// Relies on `RcDoc::pretty` and its `Display`, that is `render::best` from
/// `(0, Break, d)`: with no group, `line` is always a hard line break, which
/// writes a newline and the indentation of the next command; the layout of `d`
/// within
/// `width` columns.
#[verifier::external_body]
fn doc_render(d: &RcDoc<'static, ()>, width: usize) -> (r: String)
    ensures
        r@ == layout(doc_tree(*d), width as nat),
{
    d.pretty(width).to_string()
}

// ---------------------------------------------------------------------------
// The documents of the tree, over its view.

/// `a` followed by `b`; an empty operand is left out.
pub open spec fn app(a: DocTree, b: DocTree) -> DocTree {
    if a is Nil {
        b
    } else if b is Nil {
        a
    } else {
        DocTree::Append(Box::new(a), Box::new(b))
    }
}

/// `a` indented by `k` more; an empty document or an offset of 0 stays as it
/// is.
pub open spec fn nest_doc(k: int, a: DocTree) -> DocTree {
    if a is Nil || k == 0 {
        a
    } else {
        DocTree::Nest(k, Box::new(a))
    }
}

pub open spec fn txt(s: Seq<char>) -> DocTree {
    DocTree::Text(s)
}

/// The documents in turn, appended to the empty one from the left.
pub open spec fn concat_docs(ds: Seq<DocTree>) -> DocTree
    decreases ds.len(),
{
    if ds.len() == 0 {
        DocTree::Nil
    } else {
        app(concat_docs(ds.drop_last()), ds.last())
    }
}

/// The documents in turn with `sep` between each two.
pub open spec fn sep_docs(ds: Seq<DocTree>, sep: DocTree) -> DocTree
    decreases ds.len(),
{
    if ds.len() == 0 {
        DocTree::Nil
    } else if ds.len() == 1 {
        ds[0]
    } else {
        app(app(sep_docs(ds.drop_last(), sep), sep), ds.last())
    }
}

pub open spec fn signedness_text(s: Signedness) -> Seq<char> {
    match s {
        Signedness::Signed => "i"@,
        Signedness::Unsigned => "u"@,
    }
}

pub open spec fn bitsize_text(b: BitSize) -> Seq<char> {
    match b {
        BitSize::B32 => "32"@,
        BitSize::B64 => "64"@,
    }
}

/// The keyword of a primitive type.
pub open spec fn prim_text(p: Primitive) -> Seq<char> {
    match p {
        Primitive::Int(s, b) => signedness_text(s) + bitsize_text(b),
        Primitive::Float(b) => "f"@ + bitsize_text(b),
        Primitive::String => "string"@,
        Primitive::Bool => "bool"@,
        Primitive::Unit => "unit"@,
        Primitive::Void => "void"@,
    }
}

/// `,` and a space, between the arguments of an application.
pub open spec fn comma_doc() -> DocTree {
    app(txt(","@), txt(" "@))
}

/// A dotted path: the head, then `.` and each segment.
pub open spec fn path_doc(h: NameV, segs: Seq<NameV>) -> DocTree {
    app(txt(h.0), concat_docs(segs.map_values(|n: NameV| app(txt("."@), txt(n.0)))))
}

pub open spec fn sexpr_doc(e: SExprV) -> DocTree
    decreases e,
{
    expr_doc(e.expr)
}

pub open spec fn expr_doc(e: ExprV) -> DocTree
    decreases e,
{
    match e {
        ExprV::Path(h, segs) => path_doc(h, segs),
        ExprV::FinType => txt("fintype"@),
        ExprV::Prim(p) => txt(prim_text(p)),
        ExprV::App(b, args) => app(
            app(app(sexpr_doc(*b), txt("["@)), sep_docs(args_docs(args), comma_doc())),
            txt("]"@),
        ),
        ExprV::Arrow(d, c) => app(
            app(app(app(sexpr_doc(*d), txt(" "@)), txt("->"@)), txt(" "@)),
            sexpr_doc(*c),
        ),
    }
}

pub open spec fn args_docs(args: Seq<SExprV>) -> Seq<DocTree>
    decreases args,
{
    Seq::new(
        args.len(),
        |i: int|
            if 0 <= i < args.len() {
                sexpr_doc(args[i])
            } else {
                DocTree::Nil
            },
    )
}


/// `name: type;`
pub open spec fn field_doc(f: FieldV) -> DocTree {
    app(app(app(app(txt(f.name.0), txt(":"@)), txt(" "@)), sexpr_doc(f.typ)), txt(";"@))
}

pub open spec fn fields_docs(fs: Seq<FieldV>) -> Seq<DocTree> {
    fs.map_values(|f: FieldV| field_doc(f))
}

/// Each item on a line of its own, indented by two, then `};` on a line at
/// the enclosing indentation.
pub open spec fn block_doc(items: Seq<DocTree>) -> DocTree {
    app(
        app(
            nest_doc(2, concat_docs(items.map_values(|d: DocTree| app(DocTree::Line, d)))),
            DocTree::Line,
        ),
        txt("};"@),
    )
}

/// `keyword name {`
pub open spec fn header_doc(keyword: Seq<char>, name: Seq<char>) -> DocTree {
    app(app(app(txt(keyword), txt(" "@)), txt(name)), txt(" {"@))
}

/// `Name {`, its fields, `};`
pub open spec fn variant_doc(v: VariantV) -> DocTree {
    app(app(txt(v.name.0), txt(" {"@)), block_doc(fields_docs(v.fields)))
}

pub open spec fn typedef_doc(d: TypeDefV) -> DocTree {
    match d.body {
        BodyV::Alias(e) => app(
            app(app(app(txt("type"@), txt(" "@)), txt(d.name.0)), txt(" = "@)),
            app(sexpr_doc(e), txt(";"@)),
        ),
        BodyV::Record(fs) => app(header_doc("record"@, d.name.0), block_doc(fields_docs(fs))),
        BodyV::Sum(vs) => app(
            header_doc("sum"@, d.name.0),
            block_doc(vs.map_values(|v: VariantV| variant_doc(v))),
        ),
    }
}

/// Declarations one after another, with an empty line between each two.
pub open spec fn typedefs_doc(ds: Seq<TypeDefV>) -> DocTree {
    sep_docs(ds.map_values(|d: TypeDefV| typedef_doc(d)), app(DocTree::Line, DocTree::Line))
}

/// The width that rendering aims to stay within.
pub const WIDTH: usize = 80;

impl Signedness {
    /// `i` or `u`.
    pub fn as_str(&self) -> (r: &'static str)
        ensures
            r@ == signedness_text(*self),
    {
        match self {
            Signedness::Signed => "i",
            Signedness::Unsigned => "u",
        }
    }
}

impl BitSize {
    /// `32` or `64`.
    pub fn as_str(&self) -> (r: &'static str)
        ensures
            r@ == bitsize_text(*self),
    {
        match self {
            BitSize::B32 => "32",
            BitSize::B64 => "64",
        }
    }
}

impl Primitive {
    /// The keyword of the type, e.g. `i32` or `string`.
    pub fn as_str(&self) -> (r: &'static str)
        ensures
            r@ == prim_text(*self),
            no_newline(r@),
    {
        proof {
            reveal_strlit("string");
            reveal_strlit("bool");
            reveal_strlit("unit");
            reveal_strlit("void");
            reveal_strlit("i");
            reveal_strlit("u");
            reveal_strlit("f");
            reveal_strlit("32");
            reveal_strlit("64");
            reveal_strlit("i32");
            reveal_strlit("i64");
            reveal_strlit("u32");
            reveal_strlit("u64");
            reveal_strlit("f32");
            reveal_strlit("f64");
        }
        match self {
            Primitive::Int(Signedness::Signed, BitSize::B32) => "i32",
            Primitive::Int(Signedness::Signed, BitSize::B64) => "i64",
            Primitive::Int(Signedness::Unsigned, BitSize::B32) => "u32",
            Primitive::Int(Signedness::Unsigned, BitSize::B64) => "u64",
            Primitive::Float(BitSize::B32) => "f32",
            Primitive::Float(BitSize::B64) => "f64",
            Primitive::String => "string",
            Primitive::Bool => "bool",
            Primitive::Unit => "unit",
            Primitive::Void => "void",
        }
    }

    pub fn to_doc(&self) -> (r: RcDoc<'static, ()>)
        ensures
            doc_tree(r) == txt(prim_text(*self)),
    {
        doc_text(self.as_str())
    }
}

fn name_doc(st: &ParserState, s: Sym) -> (r: RcDoc<'static, ()>)
    requires
        st.line_free(),
        st.issued(s),
    ensures
        doc_tree(r) == txt(st.text(s)),
{
    doc_text(st.resolve(s))
}

fn path_to_doc(st: &ParserState, h: &Spanned<Sym>, segs: &Vec<Spanned<Sym>>) -> (r: RcDoc<'static, ()>)
    requires
        st.line_free(),
        h.val.index() < st.strings().len(),
        names_issued(segs@, st.strings().len()),
    ensures
        doc_tree(r) == path_doc(view_name(*h, st.strings()), view_names(segs@, st.strings())),
{
    proof {
        reveal_strlit(".");
    }
    let ghost strs = st.strings();
    let ghost ds = view_names(segs@, strs).map_values(|n: NameV| app(txt("."@), txt(n.0)));
    let mut d = doc_nil();
    let mut k: usize = 0;
    while k < segs.len()
        invariant
            strs == st.strings(),
            st.line_free(),
            names_issued(segs@, strs.len()),
            ds == view_names(segs@, strs).map_values(|n: NameV| app(txt("."@), txt(n.0))),
            k <= segs@.len(),
            doc_tree(d) == concat_docs(ds.take(k as int)),
        decreases segs@.len() - k,
    {
        assert(segs@[k as int].val.index() < strs.len());
        proof {
            reveal_strlit(".");
        }
        let seg = doc_append(doc_text("."), name_doc(st, segs[k].val));
        assert(ds.take(k + 1).drop_last() =~= ds.take(k as int));
        d = doc_append(d, seg);
        k = k + 1;
    }
    assert(ds.take(k as int) =~= ds);
    doc_append(name_doc(st, h.val), d)
}

impl TypeExpr {
    /// The document of the expression: a path with `.` between its parts; an
    /// application with its arguments in `[` `]`, separated by `, `; an
    /// arrow with ` -> ` between its sides.
    pub fn to_doc(&self, st: &ParserState) -> (r: RcDoc<'static, ()>)
        requires
            st.line_free(),
            expr_issued(*self, st.strings().len()),
        ensures
            doc_tree(r) == expr_doc(view_expr(*self, st.strings())),
        decreases self,
    {
        proof {
            reveal_strlit(" ");
            reveal_strlit(",");
            reveal_strlit("->");
            reveal_strlit("[");
            reveal_strlit("]");
            reveal_strlit("fintype");
        }
        let ghost strs = st.strings();
        match self {
            TypeExpr::Path(h, segs) => path_to_doc(st, h, segs),
            TypeExpr::FinType => doc_text("fintype"),
            TypeExpr::Prim(p) => p.to_doc(),
            TypeExpr::App(b, args) => {
                let base = b.val.to_doc(st);
                let ghost ads = args_docs(view_args(args@, strs));
                let mut d = doc_nil();
                let mut k: usize = 0;
                while k < args.len()
                    invariant
                        strs == st.strings(),
                        st.line_free(),
            st.line_free(),
                        expr_issued(*self, strs.len()),
                        *self == TypeExpr::App(*b, *args),
                        ads == args_docs(view_args(args@, strs)),
                        k <= args@.len(),
                        doc_tree(d) == sep_docs(ads.take(k as int), comma_doc()),
                    decreases args@.len() - k,
                {
                    assert(ads.take(k + 1).drop_last() =~= ads.take(k as int));
                    if k > 0 {
                        proof {
                            reveal_strlit(",");
                            reveal_strlit(" ");
                        }
                        d = doc_append(d, doc_append(doc_text(","), doc_text(" ")));
                    }
                    assert(sexpr_issued(args@[k as int], strs.len()));
                    let a = args[k].val.to_doc(st);
                    d = doc_append(d, a);
                    k = k + 1;
                }
                assert(ads.take(k as int) =~= ads);
                doc_append(doc_append(doc_append(base, doc_text("[")), d), doc_text("]"))
            },
            TypeExpr::Arrow(dom, codom) => {
                let l = dom.val.to_doc(st);
                let r = codom.val.to_doc(st);
                doc_append(
                    doc_append(doc_append(doc_append(l, doc_text(" ")), doc_text("->")), doc_text(" ")),
                    r,
                )
            },
        }
    }
}


fn field_to_doc(st: &ParserState, f: &Field) -> (r: RcDoc<'static, ()>)
    requires
        st.line_free(),
        field_issued(*f, st.strings().len()),
    ensures
        doc_tree(r) == field_doc(view_field(*f, st.strings())),
{
    proof {
        reveal_strlit(" ");
        reveal_strlit(":");
        reveal_strlit(";");
    }
    let name = name_doc(st, f.name.val);
    let typ = f.typ.val.to_doc(st);
    doc_append(
        doc_append(doc_append(doc_append(name, doc_text(":")), doc_text(" ")), typ),
        doc_text(";"),
    )
}

/// A line break before `d`.
fn on_new_line(d: RcDoc<'static, ()>) -> (r: RcDoc<'static, ()>)
    ensures
        doc_tree(r) == app(DocTree::Line, doc_tree(d)),
{
    doc_append(doc_line(), d)
}

/// The nested part of a block and its closing line, given the concatenated
/// items.
fn close_block(items: RcDoc<'static, ()>) -> (r: RcDoc<'static, ()>)
    ensures
        doc_tree(r) == app(app(nest_doc(2, doc_tree(items)), DocTree::Line), txt("};"@)),
{
    proof {
        reveal_strlit("};");
    }
    doc_append(doc_append(doc_nest(items, 2), doc_line()), doc_text("};"))
}

fn fields_block(st: &ParserState, fields: &Vec<Field>) -> (r: RcDoc<'static, ()>)
    requires
        st.line_free(),
        fields_issued(fields@, st.strings().len()),
    ensures
        doc_tree(r) == block_doc(fields_docs(view_fields(fields@, st.strings()))),
{
    let ghost strs = st.strings();
    let ghost ds = fields_docs(view_fields(fields@, strs)).map_values(
        |d: DocTree| app(DocTree::Line, d),
    );
    let mut d = doc_nil();
    let mut k: usize = 0;
    while k < fields.len()
        invariant
            strs == st.strings(),
            st.line_free(),
            fields_issued(fields@, strs.len()),
            ds == fields_docs(view_fields(fields@, strs)).map_values(
                |d: DocTree| app(DocTree::Line, d),
            ),
            k <= fields@.len(),
            doc_tree(d) == concat_docs(ds.take(k as int)),
        decreases fields@.len() - k,
    {
        assert(ds.take(k + 1).drop_last() =~= ds.take(k as int));
        assert(field_issued(fields@[k as int], strs.len()));
        let f = on_new_line(field_to_doc(st, &fields[k]));
        d = doc_append(d, f);
        k = k + 1;
    }
    assert(ds.take(k as int) =~= ds);
    close_block(d)
}

fn variant_to_doc(st: &ParserState, v: &Variant) -> (r: RcDoc<'static, ()>)
    requires
        st.line_free(),
        v.name.val.index() < st.strings().len(),
        fields_issued(v.fields@, st.strings().len()),
    ensures
        doc_tree(r) == variant_doc(view_variant(*v, st.strings())),
{
    proof {
        reveal_strlit(" {");
    }
    let name = name_doc(st, v.name.val);
    doc_append(doc_append(name, doc_text(" {")), fields_block(st, &v.fields))
}

fn variants_block(st: &ParserState, variants: &Vec<Variant>) -> (r: RcDoc<'static, ()>)
    requires
        st.line_free(),
        variants_issued(variants@, st.strings().len()),
    ensures
        doc_tree(r) == block_doc(
            view_variants(variants@, st.strings()).map_values(|v: VariantV| variant_doc(v)),
        ),
{
    let ghost strs = st.strings();
    let ghost ds = view_variants(variants@, strs).map_values(|v: VariantV| variant_doc(v)).map_values(
        |d: DocTree| app(DocTree::Line, d),
    );
    let mut d = doc_nil();
    let mut k: usize = 0;
    while k < variants.len()
        invariant
            strs == st.strings(),
            st.line_free(),
            variants_issued(variants@, strs.len()),
            ds == view_variants(variants@, strs).map_values(|v: VariantV| variant_doc(v)).map_values(
                |d: DocTree| app(DocTree::Line, d),
            ),
            k <= variants@.len(),
            doc_tree(d) == concat_docs(ds.take(k as int)),
        decreases variants@.len() - k,
    {
        assert(ds.take(k + 1).drop_last() =~= ds.take(k as int));
        assert(variants@[k as int].name.val.index() < strs.len());
        let x = on_new_line(variant_to_doc(st, &variants[k]));
        d = doc_append(d, x);
        k = k + 1;
    }
    assert(ds.take(k as int) =~= ds);
    close_block(d)
}

fn header(keyword: &str, st: &ParserState, name: Sym) -> (r: RcDoc<'static, ()>)
    requires
        no_newline(keyword@),
        st.line_free(),
        st.issued(name),
    ensures
        doc_tree(r) == header_doc(keyword@, st.text(name)),
{
    proof {
        reveal_strlit(" ");
        reveal_strlit(" {");
    }
    doc_append(
        doc_append(doc_append(doc_text(keyword), doc_text(" ")), name_doc(st, name)),
        doc_text(" {"),
    )
}

impl TypeDef {
    /// The document of the declaration: `type NAME = EXPR;`, or a record or
    /// sum with each field or variant on a line of its own, indented by two,
    /// and `};` on a line of its own.
    pub fn to_doc(&self, st: &ParserState) -> (r: RcDoc<'static, ()>)
        requires
            st.line_free(),
            typedef_issued(*self, st.strings().len()),
        ensures
            doc_tree(r) == typedef_doc(view_typedef(*self, st.strings())),
    {
        proof {
            reveal_strlit(" ");
            reveal_strlit(" = ");
            reveal_strlit(";");
            reveal_strlit("record");
            reveal_strlit("sum");
            reveal_strlit("type");
        }
        match &self.body {
            TypeDefBody::Alias(e) => {
                let name = name_doc(st, self.name.val);
                let head = doc_append(
                    doc_append(doc_append(doc_text("type"), doc_text(" ")), name),
                    doc_text(" = "),
                );
                doc_append(head, doc_append(e.val.to_doc(st), doc_text(";")))
            },
            TypeDefBody::Record(fields) => doc_append(
                header("record", st, self.name.val),
                fields_block(st, fields),
            ),
            TypeDefBody::Sum(variants) => doc_append(
                header("sum", st, self.name.val),
                variants_block(st, variants),
            ),
        }
    }
}

/// The document of declarations, with an empty line between each two.
pub fn decls_to_doc(ds: &Vec<TypeDef>, st: &ParserState) -> (r: RcDoc<'static, ()>)
    requires
        st.line_free(),
        forall|k: int| 0 <= k < ds@.len() ==> typedef_issued(#[trigger] ds@[k], st.strings().len()),
    ensures
        doc_tree(r) == typedefs_doc(view_typedefs(ds@, st.strings())),
{
    let ghost strs = st.strings();
    let ghost xs = view_typedefs(ds@, strs).map_values(|d: TypeDefV| typedef_doc(d));
    let mut d = doc_nil();
    let mut k: usize = 0;
    while k < ds.len()
        invariant
            strs == st.strings(),
            st.line_free(),
            forall|k: int| 0 <= k < ds@.len() ==> typedef_issued(#[trigger] ds@[k], strs.len()),
            xs == view_typedefs(ds@, strs).map_values(|d: TypeDefV| typedef_doc(d)),
            k <= ds@.len(),
            doc_tree(d) == sep_docs(xs.take(k as int), app(DocTree::Line, DocTree::Line)),
        decreases ds@.len() - k,
    {
        assert(xs.take(k + 1).drop_last() =~= xs.take(k as int));
        if k > 0 {
            d = doc_append(d, doc_append(doc_line(), doc_line()));
        }
        let x = ds[k].to_doc(st);
        d = doc_append(d, x);
        k = k + 1;
    }
    assert(xs.take(k as int) =~= xs);
    d
}

/// The text of a declaration, laid out within [`WIDTH`] columns.
pub fn render_def(d: &TypeDef, st: &ParserState) -> (r: String)
    requires
        st.line_free(),
        typedef_issued(*d, st.strings().len()),
    ensures
        r@ == layout(typedef_doc(view_typedef(*d, st.strings())), WIDTH as nat),
{
    doc_render(&d.to_doc(st), WIDTH)
}

/// The text of declarations, laid out within [`WIDTH`] columns, with an
/// empty line between each two.
pub fn render_decls(ds: &Vec<TypeDef>, st: &ParserState) -> (r: String)
    requires
        st.line_free(),
        forall|k: int| 0 <= k < ds@.len() ==> typedef_issued(#[trigger] ds@[k], st.strings().len()),
    ensures
        r@ == layout(typedefs_doc(view_typedefs(ds@, st.strings())), WIDTH as nat),
{
    doc_render(&decls_to_doc(ds, st), WIDTH)
}

/// The text of a type expression, laid out within [`WIDTH`] columns.
pub fn render_expr(e: &TypeExpr, st: &ParserState) -> (r: String)
    requires
        st.line_free(),
        expr_issued(*e, st.strings().len()),
    ensures
        r@ == layout(expr_doc(view_expr(*e, st.strings())), WIDTH as nat),
{
    doc_render(&e.to_doc(st), WIDTH)
}


proof fn lemma_lay_out_cons(x: (int, DocTree), rest: Seq<(int, DocTree)>)
    ensures
        lay_out(seq![x] + rest) == (match x.1 {
            DocTree::Nil => lay_out(rest),
            DocTree::Text(t) => t + lay_out(rest),
            DocTree::Line => if rest.len() == 0 {
                seq!['\n'] + spaces(x.0)
            } else {
                seq!['\n'] + spaces(rest[0].0) + lay_out(rest)
            },
            DocTree::Nest(k, n) => lay_out(seq![(indent_by(x.0, k), *n)] + rest),
            DocTree::Append(l, r) => lay_out(seq![(x.0, *l)] + (seq![(x.0, *r)] + rest)),
        }),
{
    let cs = seq![x] + rest;
    assert(cs[0] == x);
    assert(cs.drop_first() =~= rest);
    if let DocTree::Append(l, r) = x.1 {
        assert(seq![(x.0, *l), (x.0, *r)] + rest =~= seq![(x.0, *l)] + (seq![(x.0, *r)] + rest));
    }
}

/// A record with no field prints as its header and `};` on the next line:
/// `record NAME {` and `};`, with an empty body between.
pub proof fn lemma_empty_record_text(name: NameV, args: Seq<NameV>, width: nat)
    ensures
        layout(typedef_doc(TypeDefV { name, args, body: BodyV::Record(seq![]) }), width)
            == "record"@ + " "@ + name.0 + " {"@ + seq!['\n'] + "};"@,
{
    let e: Seq<(int, DocTree)> = seq![];
    let tr = txt("record"@);
    let ts = txt(" "@);
    let tn = txt(name.0);
    let tb = txt(" {"@);
    let tc = txt("};"@);
    let fs: Seq<FieldV> = seq![];
    assert(fields_docs(fs).map_values(|d: DocTree| app(DocTree::Line, d)) =~= seq![]);
    let block = DocTree::Append(Box::new(DocTree::Line), Box::new(tc));
    assert(block_doc(fields_docs(fs)) == block);
    let h3 = DocTree::Append(Box::new(tr), Box::new(ts));
    let h2 = DocTree::Append(Box::new(h3), Box::new(tn));
    let h1 = DocTree::Append(Box::new(h2), Box::new(tb));
    let d = DocTree::Append(Box::new(h1), Box::new(block));
    assert(typedef_doc(TypeDefV { name, args, body: BodyV::Record(fs) }) == d);
    assert(seq![(0int, d)] =~= seq![(0int, d)] + e);
    let r4 = seq![(0int, tc)];
    let r3 = seq![(0int, DocTree::Line)] + r4;
    let r2 = seq![(0int, block)] + e;
    let r1 = seq![(0int, tb)] + r2;
    let r0 = seq![(0int, tn)] + r1;
    let rs = seq![(0int, ts)] + r0;
    lemma_lay_out_cons((0, d), e);
    lemma_lay_out_cons((0, h1), r2);
    lemma_lay_out_cons((0, h2), r1);
    lemma_lay_out_cons((0, h3), r0);
    lemma_lay_out_cons((0, tr), rs);
    lemma_lay_out_cons((0, ts), r0);
    lemma_lay_out_cons((0, tn), r1);
    lemma_lay_out_cons((0, tb), r2);
    lemma_lay_out_cons((0, block), e);
    assert(seq![(0int, tc)] + e =~= r4);
    lemma_lay_out_cons((0, DocTree::Line), r4);
    lemma_lay_out_cons((0, tc), e);
    assert(r4[0].0 == 0);
    assert(spaces(0) =~= seq![]);
    assert(lay_out(e) =~= seq![]);
    assert(lay_out(r3) =~= seq!['\n'] + "};"@);
    assert(layout(d, width) =~= "record"@ + " "@ + name.0 + " {"@ + seq!['\n'] + "};"@);
}

} // verus!
