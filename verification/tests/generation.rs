use enum_dispatch::attribute::Attribute;
use enum_dispatch::cache::{conversion_impls_def_by_enum, Registry};
use enum_dispatch::dispatch::{Configuration, Extraction};
use enum_dispatch::enum_dispatch_item::EnumDispatchItem;
use enum_dispatch::enum_dispatch_variant::EnumDispatchVariant;
use enum_dispatch::expansion::{
    add_enum_impls, create_match_expr, create_trait_fn_call, create_trait_match, extract_fn_args,
    generate_from_impls, generate_try_into_impls, takes_self_mutably, MethodType, FIELDNAME,
};
use enum_dispatch::generics::{GenericParam, GenericParamKind, Generics};
use enum_dispatch::item_trait::{
    FnArg, ItemTrait, Signature, TraitItem, TraitItemConst, TraitItemMethod,
};
use enum_dispatch::text::ToTokens;

fn word(s: &str) -> String {
    s.to_string()
}

/// The tokens of a piece of source text, written out in one fixed way.
fn normal(source: &str) -> String {
    source.parse::<proc_macro2::TokenStream>().expect("source text").to_string()
}

fn receiver(reference: bool, mutable: bool, tokens: &str) -> FnArg {
    FnArg::Receiver { reference, mutable, tokens: word(tokens) }
}

fn typed(ident: Option<&str>, tokens: &str) -> FnArg {
    FnArg::Typed { ident: ident.map(word), tokens: word(tokens) }
}

fn signature(name: &str, inputs: Vec<FnArg>, output: &str) -> Signature {
    Signature {
        qualifiers: word(""),
        ident: word(name),
        generics: Generics::new(),
        inputs,
        output: word(output),
        associated: vec![],
    }
}

fn plain_method(name: &str, inputs: Vec<FnArg>, output: &str) -> TraitItemMethod {
    TraitItemMethod { attrs: vec![], sig: signature(name, inputs, output) }
}

fn variant(attrs: Vec<Attribute>, ident: &str, ty: &str, deref: bool) -> EnumDispatchVariant {
    EnumDispatchVariant { deref, attrs, ident: word(ident), field_attrs: vec![], ty: word(ty) }
}

fn type_param(ident: &str, bounds: &str) -> GenericParam {
    GenericParam {
        kind: GenericParamKind::Type,
        ident: word(ident),
        bounds: word(bounds),
        default: word(""),
    }
}

fn shapes() -> EnumDispatchItem {
    EnumDispatchItem {
        attrs: vec![],
        vis: word("pub"),
        ident: word("Shape"),
        generics: Generics::new(),
        variants: vec![
            variant(vec![], "Circle", "Circle", false),
            variant(vec![Attribute::new("cfg", "(feature = \"sq\")")], "Square", "Square", false),
            variant(vec![Attribute::new("doc", " = \"boxed\"")], "Boxed", "Box<Circle>", true),
        ],
    }
}

fn written<T: ToTokens>(value: &T) -> String {
    let mut text = String::new();
    value.to_tokens(&mut text);
    text
}

#[test]
fn parameters_are_read() {
    let (method_type, args) = extract_fn_args(&vec![
        receiver(true, true, "&mut self"),
        typed(Some("a"), "a: u8"),
        typed(Some("b"), "mut b: String"),
    ])
    .expect("parameters that can be handed on");
    assert_eq!(method_type, MethodType::ByReference);
    assert_eq!(args, ["a", "b"]);

    let (method_type, args) =
        extract_fn_args(&vec![receiver(false, false, "self")]).expect("parameters");
    assert_eq!(method_type, MethodType::ByValue);
    assert!(args.is_empty());

    let (method_type, args) =
        extract_fn_args(&vec![typed(Some("x"), "x: u8")]).expect("parameters");
    assert_eq!(method_type, MethodType::Static);
    assert_eq!(args, ["x"]);

    let (method_type, _) = extract_fn_args(&vec![]).expect("parameters");
    assert_eq!(method_type, MethodType::Static);

    assert!(extract_fn_args(&vec![
        receiver(true, false, "&self"),
        typed(None, "(a, b): (u8, u8)")
    ])
    .is_none());
}

#[test]
fn the_mutable_receiver_is_told() {
    assert!(takes_self_mutably(&vec![receiver(true, true, "&mut self")]));
    assert!(!takes_self_mutably(&vec![receiver(true, false, "&self"), typed(Some("a"), "a: u8")]));
    assert!(!takes_self_mutably(&vec![receiver(false, true, "mut self")]));
    assert!(!takes_self_mutably(&vec![]));
}

#[test]
fn the_call_names_the_interface_and_hands_on_in_order() {
    let mut method = plain_method(
        "area",
        vec![receiver(true, false, "&self"), typed(Some("scale"), "scale: T"), typed(Some("n"), "n: u8")],
        "-> T",
    );
    method.sig.generics.params.push(type_param("T", "Copy"));
    let trait_generics = Generics { params: vec![type_param("U", "")], where_clause: word("") };
    let call = create_trait_fn_call(&method, &trait_generics, &word("Measure"))
        .expect("a method that can be forwarded");
    assert_eq!(call.args, [FIELDNAME, "scale", "n"]);
    let mut text = String::new();
    call.to_tokens(&mut text);
    assert_eq!(text, "Measure::<U>::area::<T>(inner, scale, n)");
}

#[test]
fn a_static_method_has_no_call() {
    let method = plain_method("new", vec![typed(Some("n"), "n: u8")], "-> Self");
    assert!(create_trait_fn_call(&method, &Generics::new(), &word("Measure")).is_none());
    assert!(create_match_expr(&method, &Generics::new(), &word("Measure"), &word("Shape"), &vec![])
        .is_none());
}

#[test]
fn the_match_has_one_arm_per_variant() {
    let union = shapes();
    let method = plain_method("area", vec![receiver(true, false, "&self")], "-> u32");
    let expr =
        create_match_expr(&method, &Generics::new(), &word("Measure"), &union.ident, &union.variants)
            .expect("a method that can be forwarded");
    assert_eq!(expr.arms.len(), 3);
    let mut text = String::new();
    expr.to_tokens(&mut text);
    assert_eq!(
        text,
        "match self { Shape::Circle(inner) => Measure::area(inner), \
         #[cfg(feature = \"sq\")] Shape::Square(inner) => Measure::area(inner), \
         Shape::Boxed(inner) => Measure::area(&**inner), }"
    );
    // Only the conditional-compilation marker went along.
    assert!(expr.arms[2].attrs.is_empty());
    assert!(expr.arms[2].deref);
}

#[test]
fn a_dereference_fits_the_receiver() {
    let boxed = vec![variant(vec![], "Boxed", "Box<Circle>", true)];
    let receiver_of = |inputs: Vec<FnArg>| {
        let method = plain_method("area", inputs, "");
        let expr =
            create_match_expr(&method, &Generics::new(), &word("Measure"), &word("Shape"), &boxed)
                .expect("a method that can be forwarded");
        expr.arms[0].body.args[0].clone()
    };
    assert_eq!(receiver_of(vec![receiver(true, false, "&self")]), "&**inner");
    assert_eq!(receiver_of(vec![receiver(true, true, "&mut self")]), "&mut **inner");
    assert_eq!(receiver_of(vec![receiver(false, false, "self")]), "*inner");
}

#[test]
fn a_forwarding_method_is_inlined() {
    let union = shapes();
    let mut method = plain_method("area", vec![receiver(true, false, "&self")], "-> u32");
    method.attrs.push(Attribute::new("must_use", ""));
    let generated = create_trait_match(
        &TraitItem::Method(method),
        &vec![],
        &Generics::new(),
        &word("Measure"),
        &union.ident,
        &union.variants,
    )
    .expect("a method that is forwarded");
    assert_eq!(generated.attrs.len(), 2);
    assert_eq!(generated.attrs[0].path, "must_use");
    assert_eq!(generated.attrs[1].path, "inline");
    assert_eq!(generated.sig.ident, "area");
    assert_eq!(
        normal(&written(&generated)),
        normal(
            "#[must_use] #[inline] fn area(&self) -> u32 { match self { \
             Shape::Circle(inner) => Measure::area(inner), \
             #[cfg(feature = \"sq\")] Shape::Square(inner) => Measure::area(inner), \
             Shape::Boxed(inner) => Measure::area(&**inner), } }"
        )
    );
}

#[test]
fn items_that_cannot_be_forwarded_are_passed_over() {
    let union = shapes();
    let forwarded = |item: TraitItem, unresolved: Vec<String>| {
        create_trait_match(
            &item,
            &unresolved,
            &Generics::new(),
            &word("Measure"),
            &union.ident,
            &union.variants,
        )
        .is_some()
    };
    let by_ref = || vec![receiver(true, false, "&self")];
    assert!(forwarded(TraitItem::Method(plain_method("m", by_ref(), "")), vec![]));
    assert!(!forwarded(TraitItem::Method(plain_method("m", vec![], "")), vec![]));
    assert!(!forwarded(
        TraitItem::Method(plain_method("m", vec![receiver(true, false, "&self"), typed(None, "_: u8")], "")),
        vec![]
    ));
    assert!(!forwarded(TraitItem::Type(word("Item")), vec![]));
    assert!(!forwarded(TraitItem::Other, vec![]));
    assert!(!forwarded(
        TraitItem::Const(TraitItemConst {
            attrs: vec![],
            ident: word("N"),
            ty: word("u8"),
            default: Some(word("1")),
        }),
        vec![]
    ));
    let mut depending = plain_method("m", by_ref(), "-> Self::Item");
    depending.sig.associated.push(word("Item"));
    assert!(!forwarded(TraitItem::Method(depending.clone()), vec![word("Item")]));
    assert!(forwarded(TraitItem::Method(depending), vec![word("Other")]));
}

#[test]
fn conversions_into_the_union_are_written() {
    let union = shapes();
    let blocks = generate_from_impls(&union.ident, &union.variants, &union.generics);
    assert_eq!(blocks.len(), 3);
    assert_eq!(
        written(&blocks[0]),
        "impl ::core::convert::From<Circle> for Shape  { fn from(v: Circle) -> Shape { \
         Shape::Circle(v) } }"
    );
    assert_eq!(
        normal(&written(&blocks[1])),
        normal(
            "#[cfg(feature = \"sq\")] impl ::core::convert::From<Square> for Shape { \
             fn from(v: Square) -> Shape { Shape::Square(v) } }"
        )
    );
    assert_eq!(blocks[2].variant_type, "Box<Circle>");
    assert!(blocks[2].attrs.is_empty());
}

#[test]
fn extractions_fail_by_arms_of_their_own() {
    let union = shapes();
    let blocks = generate_try_into_impls(&union.ident, &union.variants, &union.generics);
    assert_eq!(blocks.len(), 3);
    assert_eq!(blocks[0].mismatches.len(), 2);
    assert_eq!(blocks[0].mismatches[0].message, "Tried to convert variant Square to Circle");
    assert_eq!(blocks[0].mismatches[1].message, "Tried to convert variant Boxed to Circle");
    assert_eq!(blocks[1].mismatches[0].variant_name, "Circle");
    assert_eq!(blocks[1].mismatches[1].variant_name, "Boxed");
    assert_eq!(blocks[2].mismatches[1].message, "Tried to convert variant Square to Boxed");
    assert_eq!(blocks[2].mismatches[1].attrs.len(), 1);
    assert_eq!(
        normal(&written(&blocks[0])),
        normal(
            "impl ::core::convert::TryInto<Circle> for Shape { \
             type Error = &'static str; \
             fn try_into(self) -> ::core::result::Result<Circle, \
             <Self as ::core::convert::TryInto<Circle>>::Error> { match self { \
             Shape::Circle(v) => { Ok(v) }, \
             #[cfg(feature = \"sq\")] Shape::Square(v) => { \
             Err(\"Tried to convert variant Square to Circle\") }, \
             Shape::Boxed(v) => { Err(\"Tried to convert variant Boxed to Circle\") }, } } }"
        )
    );
}

#[test]
fn a_single_variant_has_no_failing_arm() {
    let variants = vec![variant(vec![], "Only", "Only", false)];
    let blocks = generate_try_into_impls(&word("Single"), &variants, &Generics::new());
    assert_eq!(blocks.len(), 1);
    assert!(blocks[0].mismatches.is_empty());
    let config = Configuration::new();
    assert_eq!(blocks[0].outcome(&word("Only"), &config), Extraction::Extracted);
    assert!(generate_from_impls(&word("Empty"), &vec![], &Generics::new()).is_empty());
    assert!(generate_try_into_impls(&word("Empty"), &vec![], &Generics::new()).is_empty());
}

fn measure() -> ItemTrait {
    let mut with_item = plain_method("item", vec![receiver(true, false, "&self")], "-> Self::Item");
    with_item.sig.associated.push(word("Item"));
    let mut with_limit =
        plain_method("limited", vec![receiver(true, false, "&self")], "-> [u8; Self::LIMIT]");
    with_limit.sig.associated.push(word("LIMIT"));
    let mut with_sides =
        plain_method("sided", vec![receiver(true, false, "&self")], "-> [u8; Self::SIDES]");
    with_sides.sig.associated.push(word("SIDES"));
    ItemTrait {
        ident: word("Measure"),
        generics: Generics { params: vec![type_param("U", "Copy")], where_clause: word("") },
        unsafety: true,
        items: vec![
            TraitItem::Method(plain_method("new", vec![], "-> Self")),
            TraitItem::Const(TraitItemConst {
                attrs: vec![],
                ident: word("SIDES"),
                ty: word("usize"),
                default: Some(word("4")),
            }),
            TraitItem::Const(TraitItemConst {
                attrs: vec![],
                ident: word("LIMIT"),
                ty: word("usize"),
                default: None,
            }),
            TraitItem::Type(word("Item")),
            TraitItem::Method(plain_method(
                "area",
                vec![receiver(true, false, "&self"), typed(Some("scale"), "scale: U")],
                "-> U",
            )),
            TraitItem::Other,
            TraitItem::Method(with_item),
            TraitItem::Method(with_limit),
            TraitItem::Method(with_sides),
            TraitItem::Method(plain_method("consume", vec![receiver(false, false, "self")], "")),
        ],
    }
}

#[test]
fn the_implementation_holds_what_can_be_forwarded() {
    let mut registry = Registry::new();
    let expansion = add_enum_impls(&mut registry, shapes(), measure());
    let block = &expansion.trait_impl;
    assert!(block.unsafety);
    assert_eq!(block.trait_name, "Measure");
    assert_eq!(block.trait_generics, "<U>");
    let methods: Vec<&str> = block.methods.iter().map(|m| m.sig.ident.as_str()).collect();
    // The static method and the two that lean on an associated item without a value are
    // left out; the others stand in the interface's order.
    assert_eq!(methods, ["area", "sided", "consume"]);
    assert_eq!(block.consts.len(), 1);
    assert_eq!(block.consts[0].ident, "SIDES");
    assert_eq!(block.consts[0].expr, "4");
    assert_eq!(written(&block.consts[0]), "const SIDES: usize = 4;");
    for method in &block.methods {
        assert_eq!(method.body.arms.len(), 3);
        assert_eq!(method.attrs.last().map(|a| a.path.as_str()), Some("inline"));
    }
    assert_eq!(block.methods[0].body.arms[0].body.trait_turbofish, "::<U>");
}

#[test]
fn generated_code_is_source_text() {
    let mut registry = Registry::new();
    let expansion = add_enum_impls(&mut registry, shapes(), measure());
    let file = syn::parse_str::<syn::File>(&written(&expansion)).expect("source text");
    assert_eq!(file.items.len(), 7);
    // The conversions into the union come first, then the extractions, then the
    // implementation of the interface.
    let implemented: Vec<String> = file
        .items
        .iter()
        .map(|item| match item {
            syn::Item::Impl(block) => {
                let (_, path, _) = block.trait_.as_ref().expect("an implemented interface");
                path.segments.last().expect("a name").ident.to_string()
            }
            _ => unreachable!(),
        })
        .collect();
    assert_eq!(
        implemented,
        ["From", "From", "From", "TryInto", "TryInto", "TryInto", "Measure"]
    );
    match &file.items[6] {
        syn::Item::Impl(block) => {
            assert!(block.unsafety.is_some());
            assert_eq!(block.items.len(), 4);
        }
        _ => unreachable!(),
    }
}

#[test]
fn generic_parameters_are_threaded_through() {
    let mut union = shapes();
    union.generics = Generics {
        params: vec![type_param("T", "Clone")],
        where_clause: word("where T: Default"),
    };
    let mut registry = Registry::new();
    let expansion = add_enum_impls(&mut registry, union, measure());
    assert_eq!(
        normal(&written(&expansion.from_impls[0])),
        normal(
            "impl<T: Clone> ::core::convert::From<Circle> for Shape<T> where T: Default { \
             fn from(v: Circle) -> Shape<T> { Shape::Circle(v) } }"
        )
    );
    assert_eq!(expansion.trait_impl.target.impl_generics, "<T: Clone>");
    assert_eq!(expansion.trait_impl.target.type_generics, "<T>");
    assert!(conversion_impls_def_by_enum(&registry, &word("Shape"), 1));
    assert!(!conversion_impls_def_by_enum(&registry, &word("Shape"), 0));
    assert!(syn::parse_str::<syn::File>(&written(&expansion)).is_ok());
}

#[test]
fn conversions_are_generated_once() {
    let mut registry = Registry::new();
    let first = add_enum_impls(&mut registry, shapes(), measure());
    assert_eq!(first.from_impls.len(), 3);
    assert_eq!(first.try_into_impls.len(), 3);
    let again = add_enum_impls(&mut registry, shapes(), measure());
    assert!(again.from_impls.is_empty());
    assert!(again.try_into_impls.is_empty());
    assert_eq!(written(&again.trait_impl.methods[0]), written(&first.trait_impl.methods[0]));
    let mut other = measure();
    other.ident = word("Other");
    let third = add_enum_impls(&mut registry, shapes(), other);
    assert!(third.from_impls.is_empty());
    assert_eq!(third.trait_impl.trait_name, "Other");
}

#[test]
fn a_variant_outside_the_build_has_no_arm_there() {
    let mut registry = Registry::new();
    let expansion = add_enum_impls(&mut registry, shapes(), measure());
    let area = &expansion.trait_impl.methods[0];
    let all = Configuration::new();
    let without_squares =
        Configuration { disabled: vec![Attribute::new("cfg", "(feature = \"sq\")")] };
    assert_eq!(area.taken_arm(&word("Square"), &all), Some(1));
    assert_eq!(area.taken_arm(&word("Square"), &without_squares), None);
    // The other arms are taken as before.
    assert_eq!(area.taken_arm(&word("Circle"), &without_squares), Some(0));
    assert_eq!(area.taken_arm(&word("Boxed"), &without_squares), Some(2));
    assert_eq!(area.taken_arm(&word("Circle"), &all), Some(0));
    assert!(without_squares.includes(&vec![Attribute::new("cfg", "(test)")]));
    assert!(!without_squares.enables(&Attribute::new("cfg", "(feature = \"sq\")")));
    // An extraction has no failing arm for the variant either.
    assert_eq!(
        expansion.try_into_impls[0].outcome(&word("Square"), &all),
        Extraction::Mismatch(word("Tried to convert variant Square to Circle"))
    );
    assert_eq!(
        expansion.try_into_impls[0].outcome(&word("Square"), &without_squares),
        Extraction::Unmatched
    );
}
