use bincode::generate::{ImplFor, StreamBuilder};
use bincode::parse::{
    Attribute, AttributeLocation, ConstGeneric, DataType, Fields, Generic, GenericConstraints,
    Generics, Lifetime, SimpleGeneric, StructBody, Visibility,
};
use bincode::token::{token_stream, Delimiter, TokenTree};

/// Render a token tree back to text, delimited groups with their brackets
/// around the space-separated rendering of their contents.
fn render_token(t: &TokenTree) -> String {
    match t {
        TokenTree::Ident(id) => id.name.clone(),
        TokenTree::Punct(p) => p.ch.to_string(),
        TokenTree::Literal(l) => l.text.clone(),
        TokenTree::Group(g) => {
            let (open, close) = match g.delimiter {
                Delimiter::Parenthesis => ('(', ')'),
                Delimiter::Brace => ('{', '}'),
                Delimiter::Bracket => ('[', ']'),
            };
            let mut s = String::new();
            s.push(open);
            s.push_str(&render_tokens(&g.stream));
            s.push(close);
            s
        },
    }
}

fn render_tokens(tokens: &[TokenTree]) -> String {
    tokens.iter().map(render_token).collect::<Vec<_>>().join(" ")
}

#[test]
fn test_generics_try_take() {
    assert!(Generics::try_take(&mut token_stream("").unwrap()).unwrap().is_none());
    assert!(Generics::try_take(&mut token_stream("foo").unwrap()).unwrap().is_none());
    assert!(Generics::try_take(&mut token_stream("()").unwrap()).unwrap().is_none());

    let stream = &mut token_stream("struct Foo<'a, T>()").unwrap();
    let (data_type, ident) = DataType::take(stream).unwrap();
    assert_eq!(data_type, DataType::Struct);
    assert_eq!(ident.name, "Foo");
    let generics = Generics::try_take(stream).unwrap().unwrap();
    assert_eq!(generics.0.len(), 2);
    assert_eq!(generics.0[0].ident().name, "a");
    assert_eq!(generics.0[1].ident().name, "T");

    let stream = &mut token_stream("struct Foo<A, B>()").unwrap();
    let (data_type, ident) = DataType::take(stream).unwrap();
    assert_eq!(data_type, DataType::Struct);
    assert_eq!(ident.name, "Foo");
    let generics = Generics::try_take(stream).unwrap().unwrap();
    assert_eq!(generics.0.len(), 2);
    assert_eq!(generics.0[0].ident().name, "A");
    assert_eq!(generics.0[1].ident().name, "B");

    let stream = &mut token_stream("struct Foo<'a, T: Display>()").unwrap();
    let (data_type, ident) = DataType::take(stream).unwrap();
    assert_eq!(data_type, DataType::Struct);
    assert_eq!(ident.name, "Foo");
    let generics = Generics::try_take(stream).unwrap().unwrap();
    assert_eq!(generics.0.len(), 2);
    assert_eq!(generics.0[0].ident().name, "a");
    assert_eq!(generics.0[1].ident().name, "T");

    let stream = &mut token_stream("struct Foo<'a, T: for<'a> Bar<'a> + 'static>()").unwrap();
    let (data_type, ident) = DataType::take(stream).unwrap();
    assert_eq!(data_type, DataType::Struct);
    assert_eq!(ident.name, "Foo");
    let generics = Generics::try_take(stream).unwrap().unwrap();
    assert_eq!(generics.0.len(), 2);
    assert_eq!(generics.0[0].ident().name, "a");
    assert_eq!(generics.0[1].ident().name, "T");

    let stream = &mut token_stream(
        "struct Baz<T: for<'a> Bar<'a, for<'b> Bar<'b, for<'c> Bar<'c, u32>>>> {}",
    )
    .unwrap();
    let (data_type, ident) = DataType::take(stream).unwrap();
    assert_eq!(data_type, DataType::Struct);
    assert_eq!(ident.name, "Baz");
    let generics = Generics::try_take(stream).unwrap().unwrap();
    assert_eq!(generics.0.len(), 1);
    assert_eq!(generics.0[0].ident().name, "T");

    let stream = &mut token_stream("struct Baz<()> {}").unwrap();
    let (data_type, ident) = DataType::take(stream).unwrap();
    assert_eq!(data_type, DataType::Struct);
    assert_eq!(ident.name, "Baz");
    assert!(Generics::try_take(stream).unwrap_err().is_invalid_rust_syntax());

    let stream = &mut token_stream("struct Bar<A: FnOnce(&'static str) -> SomeStruct, B>").unwrap();
    let (data_type, ident) = DataType::take(stream).unwrap();
    assert_eq!(data_type, DataType::Struct);
    assert_eq!(ident.name, "Bar");
    let generics = Generics::try_take(stream).unwrap().unwrap();
    assert_eq!(generics.0.len(), 2);
    assert_eq!(generics.0[0].ident().name, "A");
    assert_eq!(generics.0[1].ident().name, "B");

    let stream = &mut token_stream("struct Bar<A = ()>").unwrap();
    let (data_type, ident) = DataType::take(stream).unwrap();
    assert_eq!(data_type, DataType::Struct);
    assert_eq!(ident.name, "Bar");
    let generics = Generics::try_take(stream).unwrap().unwrap();
    assert_eq!(generics.0.len(), 1);
    if let Generic::Generic(generic) = &generics.0[0] {
        assert_eq!(generic.ident.name, "A");
        assert_eq!(generic.default_value.len(), 1);
        assert_eq!(render_token(&generic.default_value[0]), "()");
    } else {
        panic!("Expected simple generic, got {:?}", generics.0[0]);
    }
}

#[test]
fn lifetime_take_reads_ident_and_constraint() {
    let stream = &mut token_stream("'a").unwrap();
    assert!(Lifetime::take(stream).unwrap().is_ident("a"));

    let stream = &mut token_stream("'a: 'b>").unwrap();
    let lifetime = Lifetime::take(stream).unwrap();
    assert_eq!(lifetime.ident.name, "a");
    assert_eq!(lifetime.constraint.len(), 2);
    assert!(stream.consume_punct_if('>'));
    assert!(stream.next_token().is_none());
}

#[test]
fn test_generic_constraints_try_take() {
    let stream = &mut token_stream("struct Foo where Foo: Bar { }").unwrap();
    DataType::take(stream).unwrap();
    assert!(GenericConstraints::try_take(stream).unwrap().is_some());

    let stream = &mut token_stream("struct Foo { }").unwrap();
    DataType::take(stream).unwrap();
    assert!(GenericConstraints::try_take(stream).unwrap().is_none());

    let stream = &mut token_stream("struct Foo where Foo: Bar(Foo)").unwrap();
    DataType::take(stream).unwrap();
    assert!(GenericConstraints::try_take(stream).unwrap().is_some());

    let stream = &mut token_stream("struct Foo()").unwrap();
    DataType::take(stream).unwrap();
    assert!(GenericConstraints::try_take(stream).unwrap().is_none());

    let stream = &mut token_stream("struct Foo()").unwrap();
    assert!(GenericConstraints::try_take(stream).unwrap().is_none());

    let stream = &mut token_stream("{}").unwrap();
    assert!(GenericConstraints::try_take(stream).unwrap().is_none());

    let stream = &mut token_stream("").unwrap();
    assert!(GenericConstraints::try_take(stream).unwrap().is_none());

    let stream = &mut token_stream("pub(crate) struct Test<T: Encode> {}").unwrap();
    assert_eq!(Visibility::Pub, Visibility::try_take(stream).unwrap());
    let (data_type, ident) = DataType::take(stream).unwrap();
    assert_eq!(data_type, DataType::Struct);
    assert_eq!(ident.name, "Test");
    let constraints = Generics::try_take(stream).unwrap().unwrap();
    assert_eq!(constraints.0.len(), 1);
    assert_eq!(constraints.0[0].ident().name, "T");
    let body = StructBody::take(stream).unwrap();
    if let Some(Fields::Struct(v)) = body.fields {
        assert!(v.is_empty());
    } else {
        panic!("wrong fields {:?}", body.fields);
    }
}

#[test]
fn test_generic_constraints_trailing_comma() {
    let source = &mut token_stream("pub struct MyStruct<T> where T: Clone, { }").unwrap();

    Attribute::try_take(AttributeLocation::Container, source).unwrap();
    Visibility::try_take(source).unwrap();
    DataType::take(source).unwrap();
    Generics::try_take(source).unwrap().unwrap();
    GenericConstraints::try_take(source).unwrap().unwrap();
    StructBody::take(source).unwrap();
}

#[test]
fn const_generics_and_filters() {
    let stream = &mut token_stream("struct Foo<'a, const N: usize, T: Clone> {}").unwrap();
    DataType::take(stream).unwrap();
    let generics = Generics::try_take(stream).unwrap().unwrap();
    assert_eq!(generics.0.len(), 3);
    assert!(generics.has_lifetime());
    let lifetimes = generics.iter_lifetimes();
    assert_eq!(lifetimes.len(), 1);
    assert!(lifetimes[0].is_ident("a"));
    let consts: Vec<&ConstGeneric> = generics.iter_consts();
    assert_eq!(consts.len(), 1);
    assert_eq!(consts[0].ident.name, "N");
    let simples: Vec<&SimpleGeneric> = generics.iter_generics();
    assert_eq!(simples.len(), 1);
    assert_eq!(simples[0].name().name, "T");

    let stream = &mut token_stream("struct Foo<A, B> {}").unwrap();
    DataType::take(stream).unwrap();
    let generics = Generics::try_take(stream).unwrap().unwrap();
    assert!(!generics.has_lifetime());
}

#[test]
fn attributes_are_collected() {
    let stream = &mut token_stream("#[derive(Debug)] pub struct A {}").unwrap();
    let attrs = Attribute::try_take(AttributeLocation::Container, stream).unwrap();
    assert_eq!(attrs.len(), 1);
    assert_eq!(render_tokens(&attrs[0].tokens), "derive (Debug)");
    assert_eq!(Visibility::Pub, Visibility::try_take(stream).unwrap());
}

#[test]
fn lexer_rejects_unbalanced_and_foreign_input() {
    assert!(token_stream("(").is_err());
    assert!(token_stream(")").is_err());
    assert!(token_stream("{ (") .is_err());
    assert!(token_stream("\"text\"").is_err());
    assert!(token_stream("名前").is_err());
}

#[test]
fn impl_block_generation() {
    let source = &mut token_stream("pub struct MyStruct<'a, T: Clone> where T: Clone { }").unwrap();
    Visibility::try_take(source).unwrap();
    let (_, name) = DataType::take(source).unwrap();
    let generics = Generics::try_take(source).unwrap();
    let constraints = GenericConstraints::try_take(source).unwrap();

    let mut gen = ImplFor::new(name.name.clone(), Some(String::from("MyTrait")), generics, constraints);
    gen.impl_outer_attr("automatically_derived").unwrap();
    gen.impl_type("Output", "u32").unwrap();
    let mut value = StreamBuilder::new();
    value.push_parsed("5").unwrap();
    gen.generate_const("BAR", "u8", value).unwrap();
    let mut def = StreamBuilder::new();
    def.push_parsed("fn bar()").unwrap();
    let body = StreamBuilder::new();
    gen.generate_fn(def, body);
    let out = gen.finish().unwrap();
    assert_eq!(
        render_tokens(&out.stream),
        "# [automatically_derived] impl < ' a , T : Clone > MyTrait for MyStruct < ' a , T > \
         where T : Clone {type Output = u32 ; const BAR : u8 = 5 ; fn bar () {}}"
    );
}

#[test]
fn impl_block_with_added_lifetimes() {
    let source = &mut token_stream("struct Plain<'x> {}").unwrap();
    let (_, name) = DataType::take(source).unwrap();
    let generics = Generics::try_take(source).unwrap();

    let gen = ImplFor::new(name.name.clone(), Some(String::from("Trait")), generics, None)
        .with_lifetimes(vec![String::from("de")])
        .new_lifetimes_depend_on_existing();
    let out = gen.finish().unwrap();
    assert_eq!(
        render_tokens(&out.stream),
        "impl < ' de , ' x > Trait < ' de > for Plain < ' x > where ' de : ' x {}"
    );
}

#[test]
fn constraints_accumulate() {
    let mut c = GenericConstraints::default();
    c.push_parsed_constraint("u32: SomeTrait").unwrap();
    let stream = &mut token_stream("T").unwrap();
    let sg = SimpleGeneric::take(stream).unwrap();
    c.push_constraint(&sg, "OtherTrait").unwrap();
    assert_eq!(render_tokens(&c.constraints), "u32 : SomeTrait , T : OtherTrait");
    c.clear();
    assert!(c.constraints.is_empty());
}
