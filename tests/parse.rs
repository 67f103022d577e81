use intertypes::error::InterTypeError;
use intertypes::lexer::{lex, TokKind};
use intertypes::parser::{parse_source, parse_type_decls, parse_type_def, parse_type_expr, ParseError};
use intertypes::pprint::{render_decls, render_def, render_expr};
use intertypes::syntax::{
    BitSize, Field, ParserState, Primitive, Signedness, Spanned, Sym, TypeDef, TypeDefBody,
    TypeExpr, Variant,
};

/// The structure of an expression, with names resolved and spans left out.
fn shape(e: &TypeExpr, st: &ParserState) -> String {
    match e {
        TypeExpr::Path(h, segs) => {
            let mut s = format!("Path({}", st.resolve(h.val));
            for seg in segs {
                s.push('.');
                s.push_str(st.resolve(seg.val));
            }
            s.push(')');
            s
        }
        TypeExpr::App(b, args) => {
            let args: Vec<String> = args.iter().map(|a| shape(&a.val, st)).collect();
            format!("App({}, [{}])", shape(&b.val, st), args.join(", "))
        }
        TypeExpr::Arrow(d, c) => format!("Arrow({}, {})", shape(&d.val, st), shape(&c.val, st)),
        TypeExpr::FinType => "FinType".to_string(),
        TypeExpr::Prim(p) => format!("Prim({:?})", p),
    }
}

fn field_shape(f: &Field, st: &ParserState) -> String {
    format!("{}: {}", st.resolve(f.name.val), shape(&f.typ.val, st))
}

fn def_shape(d: &TypeDef, st: &ParserState) -> String {
    let body = match &d.body {
        TypeDefBody::Alias(e) => format!("Alias({})", shape(&e.val, st)),
        TypeDefBody::Record(fs) => {
            let fs: Vec<String> = fs.iter().map(|f| field_shape(f, st)).collect();
            format!("Record[{}]", fs.join("; "))
        }
        TypeDefBody::Sum(vs) => {
            let vs: Vec<String> = vs
                .iter()
                .map(|v: &Variant| {
                    let fs: Vec<String> = v.fields.iter().map(|f| field_shape(f, st)).collect();
                    format!("{} {{{}}}", st.resolve(v.name.val), fs.join("; "))
                })
                .collect();
            format!("Sum[{}]", vs.join(", "))
        }
    };
    format!("{}{}", st.resolve(d.name.val), body)
}

#[test]
fn parse_path() {
    let mut state = ParserState::default();
    let texpr = parse_type_expr(&mut state, "banana.peel.opened").unwrap();

    let TypeExpr::Path(sid, fields) = texpr else {
        panic!("failed to parse a path")
    };

    assert_eq!(sid.val, state.intern("banana"));

    assert_eq!(
        fields
            .into_iter()
            .map(|ss| ss.val)
            .collect::<Vec<Sym>>(),
        vec![state.intern("peel"), state.intern("opened")]
    );
}

#[test]
fn parse_app() {
    let mut state = ParserState::default();
    let texpr = parse_type_expr(&mut state, "banana.peel[apple, banana]").unwrap();

    let TypeExpr::App(ste, args) = texpr else {
        panic!("failed to parse an app")
    };

    let TypeExpr::Path(sid, fields) = ste.val else {
        panic!("failed to parse a path")
    };

    assert_eq!(sid.val, state.intern("banana"));

    assert_eq!(
        fields
            .into_iter()
            .map(|ss| ss.val)
            .collect::<Vec<Sym>>(),
        vec![state.intern("peel")]
    );

    assert_eq!(args.len(), 2);
}

#[test]
fn parse_point() {
    let mut state = ParserState::default();
    let point_def = "
        record Point {
            x: f64;
            y: f64;
        }
    ";
    let _def = parse_type_def(&mut state, point_def).unwrap();
}

#[test]
fn parse_graph() {
    let mut state = ParserState::default();
    let _def = parse_type_def(
        &mut state,
        "
            record Graph {
                Edge: fintype;
                Vertex: fintype;
                src: Edge -> Vertex;
                tgt: Edge -> Vertex;
            }
        ",
    )
    .unwrap();
}

#[test]
fn dotted_path_symbols_in_order() {
    let mut state = ParserState::default();
    let e = parse_type_expr(&mut state, "a.b.c").unwrap();
    let TypeExpr::Path(h, segs) = e else {
        panic!("not a path")
    };
    assert_eq!(h.val, state.intern("a"));
    assert_eq!(segs.len(), 2);
    assert_eq!(segs[0].val, state.intern("b"));
    assert_eq!(segs[1].val, state.intern("c"));
    assert_eq!(h.span, intertypes::syntax::Span { start: 0, end: 1 });
    assert_eq!(segs[1].span, intertypes::syntax::Span { start: 4, end: 5 });
}

#[test]
fn primitive_keywords_parse_to_primitives() {
    let cases = [
        ("i32", Primitive::Int(Signedness::Signed, BitSize::B32)),
        ("i64", Primitive::Int(Signedness::Signed, BitSize::B64)),
        ("u32", Primitive::Int(Signedness::Unsigned, BitSize::B32)),
        ("u64", Primitive::Int(Signedness::Unsigned, BitSize::B64)),
        ("f32", Primitive::Float(BitSize::B32)),
        ("f64", Primitive::Float(BitSize::B64)),
        ("string", Primitive::String),
        ("bool", Primitive::Bool),
        ("unit", Primitive::Unit),
        ("void", Primitive::Void),
    ];
    for (text, p) in cases {
        let mut state = ParserState::default();
        let e = parse_type_expr(&mut state, text).unwrap();
        assert_eq!(e, TypeExpr::Prim(p));
        assert_eq!(p.as_str(), text);
    }
}

#[test]
fn keyword_prefix_is_an_identifier() {
    let mut state = ParserState::default();
    let e = parse_type_expr(&mut state, "i32x").unwrap();
    assert!(matches!(e, TypeExpr::Path(_, _)));
}

#[test]
fn intern_is_idempotent_and_injective() {
    let mut state = ParserState::new();
    let a = state.intern("apple");
    let b = state.intern("banana");
    assert_eq!(state.intern("apple"), a);
    assert_eq!(state.intern("banana"), b);
    assert_ne!(a, b);
    assert_eq!(state.resolve(a), "apple");
    assert_eq!(state.resolve(b), "banana");
}

#[test]
fn record_point_fields_in_order() {
    let mut state = ParserState::default();
    let d = parse_type_def(&mut state, "record Point { x: f64; y: f64; }").unwrap();
    assert_eq!(d.name.val, state.intern("Point"));
    assert!(d.args.is_empty());
    let TypeDefBody::Record(fields) = &d.body else {
        panic!("not a record")
    };
    assert_eq!(fields.len(), 2);
    assert_eq!(fields[0].name.val, state.intern("x"));
    assert_eq!(fields[0].typ.val, TypeExpr::Prim(Primitive::Float(BitSize::B64)));
    assert_eq!(fields[1].name.val, state.intern("y"));
    assert_eq!(fields[1].typ.val, TypeExpr::Prim(Primitive::Float(BitSize::B64)));
}

#[test]
fn app_of_path_with_two_arguments() {
    let mut state = ParserState::default();
    let e = parse_type_expr(&mut state, "banana.peel[apple, banana]").unwrap();
    assert_eq!(shape(&e, &state), "App(Path(banana.peel), [Path(apple), Path(banana)])");
    let TypeExpr::App(base, args) = e else {
        panic!("not an application")
    };
    let TypeExpr::Path(h, segs) = &base.val else {
        panic!("not a path")
    };
    assert_eq!(h.val, state.intern("banana"));
    assert_eq!(segs.iter().map(|s| s.val).collect::<Vec<Sym>>(), vec![state.intern("peel")]);
    let TypeExpr::Path(a0, s0) = &args[0].val else {
        panic!("not a path")
    };
    let TypeExpr::Path(a1, s1) = &args[1].val else {
        panic!("not a path")
    };
    assert_eq!(a0.val, state.intern("apple"));
    assert!(s0.is_empty());
    assert_eq!(a1.val, state.intern("banana"));
    assert!(s1.is_empty());
    assert_eq!(a1.val, h.val);
}

#[test]
fn missing_record_brace_is_an_error() {
    let mut state = ParserState::default();
    let r = parse_type_def(&mut state, "record Point { x: f64; y: f64;");
    assert_eq!(r.unwrap_err(), ParseError::UnexpectedEnd);
    let r = parse_type_decls(&mut state, "record Point { x: f64; type A = i32;");
    assert!(matches!(r, Err(ParseError::UnexpectedToken { .. })));
}

#[test]
fn empty_record_renders_an_empty_block() {
    let mut state = ParserState::default();
    let d = parse_type_def(&mut state, "record Empty { }").unwrap();
    let TypeDefBody::Record(fields) = &d.body else {
        panic!("not a record")
    };
    assert!(fields.is_empty());
    assert_eq!(render_def(&d, &state), "record Empty {\n};");
}

#[test]
fn record_renders_one_field_per_line() {
    let mut state = ParserState::default();
    let d = parse_type_def(&mut state, "record Point{x:f64;y:f64;}").unwrap();
    assert_eq!(render_def(&d, &state), "record Point {\n  x: f64;\n  y: f64;\n};");
}

#[test]
fn sum_and_alias_render() {
    let mut state = ParserState::default();
    let ds = parse_type_decls(
        &mut state,
        "sum Shape { Circle { r: f64; }; Dot { }; } type F = a.b[i32, u64] -> bool -> fintype;",
    )
    .unwrap();
    assert_eq!(
        render_decls(&ds, &state),
        "sum Shape {\n  Circle {\n    r: f64;\n  };\n  Dot {\n  };\n};\n\ntype F = a.b[i32, u64] -> bool -> fintype;"
    );
}

#[test]
fn arrows_associate_to_the_right() {
    let mut state = ParserState::default();
    let e = parse_type_expr(&mut state, "A -> B[C] -> D").unwrap();
    assert_eq!(shape(&e, &state), "Arrow(Path(A), Arrow(App(Path(B), [Path(C)]), Path(D)))");
    assert_eq!(render_expr(&e, &state), "A -> B[C] -> D");
}

#[test]
fn round_trip_keeps_structure() {
    let sources = [
        "record Point { x: f64; y: f64; }",
        "record Graph { Edge: fintype; Vertex: fintype; src: Edge -> Vertex; tgt: Edge -> Vertex; }",
        "sum Opt { None { }; Some { v: T[a.b, i32 -> string]; }; }",
        "type Fn = a[b][c] -> void -> unit;",
        "record Empty { }",
    ];
    for src in sources {
        let mut s1 = ParserState::default();
        let d1 = parse_type_def(&mut s1, src).unwrap();
        let text = render_def(&d1, &s1);
        let mut s2 = ParserState::default();
        let d2 = parse_type_def(&mut s2, &text).unwrap();
        assert_eq!(def_shape(&d1, &s1), def_shape(&d2, &s2));
        assert_eq!(render_def(&d2, &s2), text);
    }
}

#[test]
fn lexer_reports_invalid_character() {
    assert_eq!(lex("a $"), Err(2));
    let mut state = ParserState::default();
    assert_eq!(
        parse_type_expr(&mut state, "a.b é"),
        Err(ParseError::InvalidChar { offset: 4 })
    );
    let toks = lex("x->y").unwrap();
    assert_eq!(toks.len(), 3);
    assert_eq!(toks[1].kind, TokKind::Arrow);
    assert_eq!((toks[1].start, toks[1].end), (1, 3));
}

#[test]
fn unexpected_token_is_reported() {
    let mut state = ParserState::default();
    let r = parse_type_expr(&mut state, "a.[b]");
    let Err(ParseError::UnexpectedToken { token }) = r else {
        panic!("expected an unexpected token")
    };
    assert_eq!(token.kind, TokKind::LBracket);
    assert_eq!(parse_type_expr(&mut state, "a["), Err(ParseError::UnexpectedEnd));
}

#[test]
fn constructors_keep_their_parts() {
    let mut state = ParserState::default();
    let x = state.intern("x");
    let span = intertypes::syntax::Span { start: 1, end: 2 };
    let f = Field::new(Spanned::new(x, span), Spanned::new(TypeExpr::FinType, span));
    assert_eq!(f.name.val, x);
    let v = Variant::new(Spanned::new(x, span), vec![f]);
    assert_eq!(v.fields.len(), 1);
    let d = TypeDef::new(Spanned::new(x, span), vec![], TypeDefBody::Sum(vec![v]));
    assert_eq!(render_def(&d, &state), "sum x {\n  x {\n    x: fintype;\n  };\n};");
}

#[test]
fn parse_source_wraps_the_first_failure() {
    let mut state = ParserState::default();
    let r = parse_source(&mut state, "type A = ;");
    let Err(InterTypeError::ParseError(ParseError::UnexpectedToken { token })) = r else {
        panic!("expected a parse error")
    };
    assert_eq!(token.kind, TokKind::Semi);
    assert_eq!((token.start, token.end), (9, 10));
    let ds = parse_source(&mut state, "type A = B; record R { }").unwrap();
    assert_eq!(ds.len(), 2);
}

#[test]
fn symbols_stay_after_later_parses() {
    let mut state = ParserState::default();
    let a = state.intern("apple");
    let _ = parse_type_decls(&mut state, "record R { apple: banana; pear: i32; }").unwrap();
    let _ = parse_type_expr(&mut state, "x.y[apple]").unwrap();
    assert_eq!(state.intern("apple"), a);
    assert_ne!(state.intern("pear"), a);
    assert_eq!(state.resolve(a), "apple");
}

#[test]
fn empty_record_with_any_name_renders_header_and_closing() {
    let mut state = ParserState::default();
    let d = parse_type_def(&mut state, "record   Nothing_9 {};").unwrap();
    assert_eq!(render_def(&d, &state), "record Nothing_9 {\n};");
}
