use enum_dispatch::attribute::{use_attribute, used_attributes, Attribute};
use enum_dispatch::attributed_parser::{parse_attributed, ItemMod, ParsedItem};
use enum_dispatch::enum_dispatch_arg_list::{ArgListError, EnumDispatchArgList, ForItem};
use enum_dispatch::enum_dispatch_item::{EnumDispatchItem, ItemError, ItemSyntax};
use enum_dispatch::enum_dispatch_variant::{
    into_type, parse_variant_attribute, EnumDispatchVariant, EnumDispatchVariantAttribute,
    FieldSyntax, FieldsSyntax, VariantError, VariantSyntax,
};
use enum_dispatch::generics::{GenericParam, GenericParamKind, Generics};
use enum_dispatch::item_trait::ItemTrait;
use enum_dispatch::skip_implementation::SkipImplementation;
use enum_dispatch::text::{join, ToTokens};
use quote::ToTokens as QuoteToTokens;

fn owned(s: &str) -> String {
    s.to_string()
}

/// The tokens of a piece of source text, written out without any space between them.
fn tokens(source: &str) -> String {
    let written = source.parse::<proc_macro2::TokenStream>().expect("source text").to_string();
    written.split_whitespace().collect()
}

/// The tokens of a piece of syntax, written out without any space between them.
fn tokens_of(syntax: &impl QuoteToTokens) -> String {
    syntax.to_token_stream().to_string().split_whitespace().collect()
}

fn field(ty: &str) -> FieldSyntax {
    FieldSyntax { attrs: vec![], ty: owned(ty) }
}

fn param(kind: GenericParamKind, ident: &str, bounds: &str, default: &str) -> GenericParam {
    GenericParam { kind, ident: owned(ident), bounds: owned(bounds), default: owned(default) }
}

fn some_generics() -> Generics {
    Generics {
        params: vec![
            param(GenericParamKind::Type, "T", "Clone + 'a", "u8"),
            param(GenericParamKind::Lifetime, "'a", "", ""),
            param(GenericParamKind::Const, "N", "usize", ""),
            param(GenericParamKind::Type, "U", "", ""),
        ],
        where_clause: owned("where U: Copy"),
    }
}

#[test]
fn skip_keywords_are_read() {
    assert_eq!(
        SkipImplementation::from_str("skip_from"),
        Some(SkipImplementation::SkipFromImplementation)
    );
    assert_eq!(
        SkipImplementation::from_str("skip_try_into"),
        Some(SkipImplementation::SkipTryIntoImplementation)
    );
    assert_eq!(SkipImplementation::from_str("skip"), None);
    assert_eq!(SkipImplementation::from_str(""), None);
    assert_eq!(SkipImplementation::from_str("Skip_From"), None);
}

#[test]
fn only_cfg_attributes_are_used() {
    let attrs = vec![
        Attribute::new("doc", " = \"text\""),
        Attribute::new("cfg", "(test)"),
        Attribute::new("inline", ""),
        Attribute::new("cfg", "(feature = \"x\")"),
    ];
    assert!(!use_attribute(&attrs[0]));
    assert!(use_attribute(&attrs[1]));
    let used = used_attributes(&attrs);
    assert_eq!(used.len(), 2);
    assert_eq!(used[0].tokens, "(test)");
    assert_eq!(used[1].tokens, "(feature = \"x\")");
    let mut text = String::new();
    used[0].to_tokens(&mut text);
    assert_eq!(text, "#[cfg(test)]");
}

#[test]
fn pieces_are_joined_with_the_separator_between() {
    assert_eq!(join(&vec![], ", "), "");
    assert_eq!(join(&vec![owned("a")], ", "), "a");
    assert_eq!(join(&vec![owned("a"), owned("b"), owned("c")], ", "), "a, b, c");
}

#[test]
fn generics_are_split_for_an_impl() {
    let generics = some_generics();
    let (impl_generics, type_generics, where_clause) = generics.split_for_impl();
    assert_eq!(impl_generics, "<'a, T: Clone + 'a, const N: usize, U>");
    assert_eq!(type_generics, "<'a, T, N, U>");
    assert_eq!(where_clause, "where U: Copy");
    assert_eq!(generics.as_turbofish(), "::<'a, T, N, U>");
    assert_eq!(generics.type_params_count(), 2);
    let mut declared = String::new();
    generics.to_tokens(&mut declared);
    assert_eq!(declared, "<'a, T: Clone + 'a = u8, const N: usize, U>");
}

#[test]
fn no_generics_leave_no_brackets() {
    let generics = Generics::new();
    let (impl_generics, type_generics, where_clause) = generics.split_for_impl();
    assert_eq!(impl_generics, "");
    assert_eq!(type_generics, "");
    assert_eq!(where_clause, "");
    assert_eq!(generics.as_turbofish(), "");
    assert_eq!(generics.type_params_count(), 0);
}

#[test]
fn generics_are_split_as_the_parser_splits_them() {
    let parsed: syn::Generics =
        syn::parse_str("<T: Clone + 'a = u8, 'a, const N: usize, U>").expect("generics");
    let (impl_generics, type_generics, _) = parsed.split_for_impl();
    let ours = some_generics();
    let (our_impl, our_type, _) = ours.split_for_impl();
    assert_eq!(tokens(&our_impl), tokens_of(&impl_generics));
    assert_eq!(tokens(&our_type), tokens_of(&type_generics));
    assert_eq!(tokens(&ours.as_turbofish()), tokens_of(&type_generics.as_turbofish()));
    assert_eq!(ours.type_params_count(), parsed.type_params().count());
}

#[test]
fn a_bare_variant_wraps_the_type_of_its_name() {
    let variant = EnumDispatchVariant::parse(&VariantSyntax {
        attrs: vec![Attribute::new("cfg", "(test)")],
        ident: owned("Foo"),
        fields: FieldsSyntax::Unit,
    })
    .ok()
    .expect("a variant");
    assert_eq!(variant.ident, "Foo");
    assert_eq!(variant.ty, "Foo");
    assert!(!variant.deref);
    assert_eq!(variant.attrs.len(), 1);
    assert!(variant.field_attrs.is_empty());
    assert_eq!(into_type(&owned("Foo")), "Foo");
}

#[test]
fn the_deref_marker_becomes_a_flag() {
    let variant = EnumDispatchVariant::parse(&VariantSyntax {
        attrs: vec![
            Attribute::new("doc", " = \"boxed\""),
            Attribute::new("enum_dispatch", "(deref)"),
            Attribute::new("cfg", "(unix)"),
        ],
        ident: owned("Boxed"),
        fields: FieldsSyntax::Unnamed(vec![FieldSyntax {
            attrs: vec![Attribute::new("allow", "(unused)")],
            ty: owned("Box<Foo>"),
        }]),
    })
    .ok()
    .expect("a variant");
    assert!(variant.deref);
    assert_eq!(variant.ty, "Box<Foo>");
    assert_eq!(variant.attrs.len(), 2);
    assert_eq!(variant.attrs[0].path, "doc");
    assert_eq!(variant.attrs[1].path, "cfg");
    assert_eq!(variant.field_attrs.len(), 1);

    // The marker is written back, so that the text reads as the same variant.
    let mut text = String::new();
    variant.to_tokens(&mut text);
    assert_eq!(
        text,
        "#[doc = \"boxed\"] #[cfg(unix)] #[enum_dispatch(deref)] Boxed(#[allow(unused)] Box<Foo>)"
    );
    let read: syn::Variant = syn::parse_str(&text).expect("a variant");
    assert_eq!(read.ident.to_string(), "Boxed");
    assert_eq!(read.attrs.len(), 3);
    assert_eq!(read.fields.len(), 1);
}

#[test]
fn markers_are_told_apart() {
    assert_eq!(
        parse_variant_attribute(&Attribute::new("enum_dispatch", "(deref)"), 0),
        Ok(Some(EnumDispatchVariantAttribute::Deref))
    );
    assert_eq!(parse_variant_attribute(&Attribute::new("cfg", "(deref)"), 1), Ok(None));
    assert_eq!(
        parse_variant_attribute(&Attribute::new("enum_dispatch", "(other)"), 2),
        Err(VariantError::UnknownMarker(2))
    );
    assert_eq!(
        parse_variant_attribute(&Attribute::new("enum_dispatch", ""), 3),
        Err(VariantError::UnknownMarker(3))
    );
}

#[test]
fn unreadable_variants_are_turned_away() {
    let shaped = |attrs: Vec<Attribute>, fields: FieldsSyntax| {
        EnumDispatchVariant::parse(&VariantSyntax { attrs, ident: owned("V"), fields }).err()
    };
    assert_eq!(shaped(vec![], FieldsSyntax::Named), Some(VariantError::BracedFields));
    assert_eq!(shaped(vec![], FieldsSyntax::Unnamed(vec![])), Some(VariantError::MissingField));
    assert_eq!(
        shaped(vec![], FieldsSyntax::Unnamed(vec![field("A"), field("B")])),
        Some(VariantError::TooManyFields)
    );
    // The markers are read before the shape is looked at, and the first unknown one ends it.
    assert_eq!(
        shaped(
            vec![
                Attribute::new("cfg", "(test)"),
                Attribute::new("enum_dispatch", "(inline)"),
                Attribute::new("enum_dispatch", "(more)"),
            ],
            FieldsSyntax::Named
        ),
        Some(VariantError::UnknownMarker(1))
    );
    assert_eq!(shaped(vec![], FieldsSyntax::Unnamed(vec![field("A")])), None);
}

fn written_union(variants: Vec<VariantSyntax>) -> ItemSyntax {
    ItemSyntax {
        attrs: vec![Attribute::new("derive", "(Clone)")],
        vis: owned("pub"),
        ident: owned("Shape"),
        generics: Generics {
            params: vec![param(GenericParamKind::Type, "T", "Copy", "")],
            where_clause: owned("where T: Default"),
        },
        variants,
    }
}

#[test]
fn a_union_is_read_and_written() {
    let item = EnumDispatchItem::parse(written_union(vec![
        VariantSyntax { attrs: vec![], ident: owned("Circle"), fields: FieldsSyntax::Unit },
        VariantSyntax {
            attrs: vec![Attribute::new("enum_dispatch", "(deref)")],
            ident: owned("Boxed"),
            fields: FieldsSyntax::Unnamed(vec![field("Box<Square<T>>")]),
        },
    ]))
    .ok()
    .expect("a union");
    assert_eq!(item.ident, "Shape");
    assert_eq!(item.variants.len(), 2);
    assert_eq!(item.variants[0].ty, "Circle");
    assert!(item.variants[1].deref);

    let mut text = String::new();
    item.to_tokens(&mut text);
    assert_eq!(
        text,
        "#[derive(Clone)] pub enum Shape<T: Copy> where T: Default { Circle(Circle), \
         #[enum_dispatch(deref)] Boxed(Box<Square<T>>), }"
    );
    let read: syn::ItemEnum = syn::parse_str(&text).expect("an enum");
    assert_eq!(read.variants.len(), 2);
    assert_eq!(read.generics.type_params().count(), 1);
    assert!(read.generics.where_clause.is_some());
}

#[test]
fn a_union_names_its_first_unreadable_variant() {
    let error = EnumDispatchItem::parse(written_union(vec![
        VariantSyntax { attrs: vec![], ident: owned("Circle"), fields: FieldsSyntax::Unit },
        VariantSyntax { attrs: vec![], ident: owned("Braced"), fields: FieldsSyntax::Named },
        VariantSyntax {
            attrs: vec![],
            ident: owned("Empty"),
            fields: FieldsSyntax::Unnamed(vec![]),
        },
    ]))
    .err();
    assert_eq!(error, Some(ItemError { variant: 1, error: VariantError::BracedFields }));
}

fn empty_interface(name: &str) -> ItemTrait {
    ItemTrait { ident: owned(name), generics: Generics::new(), unsafety: false, items: vec![] }
}

#[test]
fn an_annotated_item_is_a_union_first() {
    let union = written_union(vec![VariantSyntax {
        attrs: vec![],
        ident: owned("Circle"),
        fields: FieldsSyntax::Unit,
    }]);
    let parsed = parse_attributed(
        Some(union),
        Some(empty_interface("T")),
        Some(ItemMod { ident: owned("m") }),
        "enum Shape { Circle }",
    );
    assert!(matches!(parsed, Ok(ParsedItem::EnumDispatch(item)) if item.ident == "Shape"));
}

#[test]
fn an_annotated_item_is_an_interface_or_a_module_next() {
    // A union with a variant that cannot be read is no union.
    let braced = written_union(vec![VariantSyntax {
        attrs: vec![],
        ident: owned("Braced"),
        fields: FieldsSyntax::Named,
    }]);
    let parsed = parse_attributed(Some(braced), Some(empty_interface("T")), None, "trait T {}");
    assert!(matches!(parsed, Ok(ParsedItem::Trait(item)) if item.ident == "T"));
    let parsed = parse_attributed(None, None, Some(ItemMod { ident: owned("m") }), "mod m {}");
    assert!(matches!(parsed, Ok(ParsedItem::Module(item)) if item.ident == "m"));
}

#[test]
fn an_unknown_item_is_quoted() {
    let parsed = parse_attributed(None, None, None, "struct S;");
    assert_eq!(parsed.err(), Some(owned("Unknown item struct S;")));
}

#[test]
fn arguments_have_one_of_two_forms() {
    let for_item = || ForItem { traits: vec![owned("A"), owned("B")], item: owned("C") };
    let parsed = EnumDispatchArgList::parse(Some(for_item()), Some(vec![owned("A")]));
    assert!(
        matches!(parsed, Ok(EnumDispatchArgList::For(item)) if item.item == "C" && item.traits.len() == 2)
    );
    let parsed = EnumDispatchArgList::parse(None, Some(vec![owned("A"), owned("B")]));
    assert!(matches!(parsed, Ok(EnumDispatchArgList::List(list)) if list == ["A", "B"]));
    let parsed = EnumDispatchArgList::parse(None, None);
    assert!(matches!(parsed, Err(ArgListError::UnknownFormat)));
    assert_eq!(
        ArgListError::UnknownFormat.message(),
        "Failed to parse arg list: Unknown format"
    );
}
